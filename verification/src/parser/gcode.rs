//! G-code programs (every extension without a decoder of its own): a line
//! that begins with `T` or holds `M6` calls the tool whose number follows
//! the first `T` with digits. The file is read line by line until a line
//! that is not UTF-8.
use vstd::prelude::*;

use crate::data::Tool;
use crate::lines::{decode_line, line_text, lines_of, split_lines};
use vstd::utf8::{decode_utf8, valid_utf8};
use crate::text::{chars_of, contains_chars, contains_exec, parse_u32, parse_u32_spec};
use crate::toolset::{insert_key, strictly_increasing};

verus! {

/// Declares `regex::Regex` to Verus; its values are opaque.
#[verifier::external_type_specification]
#[verifier::external_body]
pub struct ExRegex(regex::Regex);

/// The text of group `num` of the leftmost match of `T(?P<num>\d+)` in a
/// line, as the `regex` crate finds it (`\d` is any Unicode decimal digit).
pub uninterp spec fn gcode_capture(line: Seq<char>) -> Option<Seq<char>>;

/// The compiled pattern `T(?P<num>\d+)`; the field is private, so every
/// value holds that pattern.
pub struct TWordPattern {
    re: regex::Regex,
}

impl TWordPattern {
    /// Compiles the pattern with `regex::Regex::new`; the pattern is a valid
    /// constant, so the `unwrap` does not fail.
    #[verifier::external_body]
    pub(crate) fn new() -> (r: Self) {
        TWordPattern { re: regex::Regex::new(r"T(?P<num>\d+)").unwrap() }
    }

    /// Calls `Regex::captures` and takes group `num`; the result is named
    /// `gcode_capture` of the line.
    #[verifier::external_body]
    pub(crate) fn capture(&self, line: &str) -> (r: Option<String>)
        ensures
            match r {
                Some(s) => gcode_capture(line@) == Some(s@),
                None => gcode_capture(line@) is None,
            },
    {
        self.re.captures(line).and_then(|c| c.name("num")).map(|m| m.as_str().to_string())
    }
}

/// The tool number that a line of text calls, if any.
pub open spec fn line_number(line: Seq<char>) -> Option<u32> {
    if (line.len() > 0 && line[0] == 'T') || contains_chars(line, "M6"@) {
        match gcode_capture(line) {
            Some(d) => parse_u32_spec(d),
            None => None,
        }
    } else {
        None
    }
}

/// Lines `0..=i` are all UTF-8.
pub open spec fn readable_through(lines: Seq<Seq<u8>>, i: int) -> bool {
    forall|j: int| 0 <= j <= i ==> line_text(#[trigger] lines[j]) is Some
}

/// The number that line `i` calls, when it and every line before it are UTF-8.
pub open spec fn called_at(lines: Seq<Seq<u8>>, i: int) -> Option<u32> {
    if readable_through(lines, i) {
        line_number(line_text(lines[i])->0)
    } else {
        None
    }
}

/// The numbers called by lines before `n`.
pub open spec fn numbers_before(lines: Seq<Seq<u8>>, n: int) -> Set<u32> {
    Set::new(|v: u32| exists|i: int| 0 <= i < n && i < lines.len() && called_at(lines, i) == Some(v))
}

/// The tool numbers that a G-code program calls.
pub open spec fn gcode_numbers(data: Seq<u8>) -> Set<u32> {
    numbers_before(lines_of(data), lines_of(data).len() as int)
}

/// `tools` is what `parse` gives for `data`: each called number once, in
/// increasing order, without corrector.
pub open spec fn is_parse_of(data: Seq<u8>, tools: Seq<Tool>) -> bool {
    &&& forall|i: int, j: int| 0 <= i < j < tools.len() ==> tools[i].number < tools[j].number
    &&& forall|i: int| 0 <= i < tools.len() ==> (#[trigger] tools[i]).corrector is None
    &&& forall|v: u32|
        gcode_numbers(data).contains(v) <==> exists|i: int|
            0 <= i < tools.len() && (#[trigger] tools[i]).number == v
}

/// The tools of a G-code program: each called number once, in increasing
/// order, without corrector.
pub fn parse(data: &[u8]) -> (r: Vec<Tool>)
    ensures
        is_parse_of(data@, r@),
{
    let lines = split_lines(data);
    let ghost ls = lines_of(data@);
    let pattern = TWordPattern::new();
    let m6 = chars_of("M6");
    let mut keys: Vec<u64> = Vec::new();
    let mut i: usize = 0;
    let mut stopped = false;
    while i < lines.len() && !stopped
        invariant
            i <= lines.len(),
            lines@.len() == ls.len(),
            forall|t: int| 0 <= t < lines@.len() ==> (#[trigger] lines@[t])@ == ls[t],
            m6@ == "M6"@,
            strictly_increasing(keys@),
            forall|k: u64|
                #[trigger] keys@.contains(k) <==> (k <= u32::MAX && numbers_before(
                    ls,
                    i as int,
                ).contains(k as u32)),
            i > 0 ==> readable_through(ls, i - 1),
            stopped ==> i < ls.len() && line_text(ls[i as int]) is None,
        decreases 2 * (lines.len() - i) + (if stopped { 0int } else { 1int }),
    {
        let ghost before = keys@;
        match decode_line(lines[i].as_slice()) {
            None => {
                stopped = true;
            },
            Some(text) => {
                let chars = chars_of(text.as_str());
                let mut found: Option<u32> = None;
                if (chars.len() > 0 && chars[0] == 'T') || contains_exec(&chars, &m6) {
                    match pattern.capture(text.as_str()) {
                        Some(d) => {
                            let digits = chars_of(d.as_str());
                            found = parse_u32(&digits);
                        },
                        None => {},
                    }
                }
                proof {
                    assert(readable_through(ls, i as int)) by {
                        assert forall|j: int| 0 <= j <= i implies line_text(
                            #[trigger] ls[j],
                        ) is Some by {
                            if j < i {
                                assert(readable_through(ls, i - 1));
                            }
                        }
                    }
                    assert(found == called_at(ls, i as int));
                }
                match found {
                    Some(v) => {
                        insert_key(&mut keys, v as u64);
                    },
                    None => {},
                }
                assert forall|k: u64| #[trigger]
                    keys@.contains(k) <==> (k <= u32::MAX && numbers_before(
                        ls,
                        i + 1,
                    ).contains(k as u32)) by {
                    if keys@.contains(k) {
                        assert(keys@.to_set().contains(k));
                        if found is Some && k == found->0 as u64 {
                            assert(called_at(ls, i as int) == Some(k as u32));
                        } else {
                            assert(before.to_set().contains(k));
                            assert(before.contains(k));
                            let w = choose|w: int|
                                0 <= w < i && w < ls.len() && called_at(ls, w) == Some(k as u32);
                        }
                    }
                    if k <= u32::MAX && numbers_before(ls, i + 1).contains(k as u32) {
                        let w = choose|w: int|
                            0 <= w < i + 1 && w < ls.len() && called_at(ls, w) == Some(k as u32);
                        if w < i {
                            assert(numbers_before(ls, i as int).contains(k as u32));
                            assert(before.contains(k));
                            assert(before.to_set().contains(k));
                            assert(keys@.to_set().contains(k));
                        } else {
                            assert(found == Some(k as u32));
                            assert(keys@.to_set().contains(k));
                        }
                    }
                }
                i = i + 1;
            },
        }
    }
    assert forall|v: u32| gcode_numbers(data@).contains(v) <==> numbers_before(
        ls,
        i as int,
    ).contains(v) by {
        if gcode_numbers(data@).contains(v) {
            let w = choose|w: int| 0 <= w < ls.len() && called_at(ls, w) == Some(v);
            if w >= i {
                assert(!readable_through(ls, w));
            }
        }
    }
    assert forall|q: int| 0 <= q < keys@.len() implies keys@[q] <= u32::MAX by {
        assert(keys@.contains(keys@[q]));
    }
    let mut r: Vec<Tool> = Vec::new();
    let mut t: usize = 0;
    while t < keys.len()
        invariant
            t <= keys.len(),
            r@.len() == t,
            forall|q: int| 0 <= q < t ==> (#[trigger] r@[q]).number == keys@[q],
            forall|q: int| 0 <= q < t ==> (#[trigger] r@[q]).corrector is None,
            forall|q: int| 0 <= q < keys@.len() ==> keys@[q] <= u32::MAX,
        decreases keys.len() - t,
    {
        r.push(Tool::gcode(keys[t] as u32));
        t = t + 1;
    }
    assert forall|v: u32| gcode_numbers(data@).contains(v) <==> exists|q: int|
        0 <= q < r@.len() && (#[trigger] r@[q]).number == v by {
        if gcode_numbers(data@).contains(v) {
            assert(keys@.contains(v as u64));
            let q = choose|q: int| 0 <= q < keys@.len() && keys@[q] == v as u64;
            assert(r@[q].number == v);
        }
        if exists|q: int| 0 <= q < r@.len() && (#[trigger] r@[q]).number == v {
            let q = choose|q: int| 0 <= q < r@.len() && (#[trigger] r@[q]).number == v;
            assert(keys@.contains(keys@[q]));
        }
    }
    r
}

/// Only a line that is not UTF-8 ends the scan: a number is among the
/// tools exactly when some line calls it and that line and every line before
/// it are valid UTF-8. A blank line is valid UTF-8, so it never ends the scan.
pub proof fn law_gcode_scan_stops_only_at_invalid_utf8(data: Seq<u8>, v: u32)
    ensures
        gcode_numbers(data).contains(v) <==> exists|i: int|
            0 <= i < lines_of(data).len() && (forall|j: int|
                0 <= j <= i ==> valid_utf8(#[trigger] lines_of(data)[j])) && line_number(
                decode_utf8(lines_of(data)[i]),
            ) == Some(v),
        forall|i: int|
            0 <= i < lines_of(data).len() && (#[trigger] lines_of(data)[i]).len() == 0
                ==> valid_utf8(lines_of(data)[i]),
{
    let ls = lines_of(data);
    if gcode_numbers(data).contains(v) {
        let i = choose|i: int| 0 <= i < ls.len() && i < ls.len() && called_at(ls, i) == Some(v);
        assert(readable_through(ls, i));
        assert forall|j: int| 0 <= j <= i implies valid_utf8(#[trigger] ls[j]) by {
            assert(line_text(ls[j]) is Some);
        }
    }
    if exists|i: int|
        0 <= i < ls.len() && (forall|j: int| 0 <= j <= i ==> valid_utf8(#[trigger] ls[j]))
            && line_number(decode_utf8(ls[i])) == Some(v) {
        let i = choose|i: int|
            0 <= i < ls.len() && (forall|j: int| 0 <= j <= i ==> valid_utf8(#[trigger] ls[j]))
                && line_number(decode_utf8(ls[i])) == Some(v);
        assert(readable_through(ls, i));
        assert(called_at(ls, i) == Some(v));
        assert(numbers_before(ls, ls.len() as int).contains(v));
    }
    assert forall|i: int|
        0 <= i < ls.len() && (#[trigger] ls[i]).len() == 0 implies valid_utf8(ls[i]) by {
    }
}

} // verus!
