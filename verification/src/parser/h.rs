//! Heidenhain `.h` programs: every `TOOL CALL <number>` (in any letter
//! case, with any white space between the words) calls a tool. Lines that
//! are not UTF-8 are skipped; the calls are kept in order, repeats included.
use vstd::prelude::*;

use crate::data::Tool;
use crate::lines::{decode_line, line_text, lines_of, split_lines};
use crate::text::{chars_of, parse_u32, parse_u32_spec};

verus! {

/// The text of group 1 of the leftmost match of `(?i)tool\s+call\s+(\d+)`
/// in a line, as the `regex` crate finds it (Unicode case folding, `\s` and
/// `\d` Unicode classes).
pub uninterp spec fn tool_call_capture(line: Seq<char>) -> Option<Seq<char>>;

/// The compiled pattern `(?i)tool\s+call\s+(\d+)`; the field is private, so
/// every value holds that pattern.
pub struct ToolCallPattern {
    re: regex::Regex,
}

impl ToolCallPattern {
    /// Compiles the pattern with `regex::Regex::new`; the pattern is a valid
    /// constant, so the `unwrap` does not fail.
    #[verifier::external_body]
    pub(crate) fn new() -> (r: Self) {
        ToolCallPattern { re: regex::Regex::new(r"(?i)tool\s+call\s+(\d+)").unwrap() }
    }

    /// Calls `Regex::captures` and takes group 1; the result is named
    /// `tool_call_capture` of the line.
    #[verifier::external_body]
    pub(crate) fn capture(&self, line: &str) -> (r: Option<String>)
        ensures
            match r {
                Some(s) => tool_call_capture(line@) == Some(s@),
                None => tool_call_capture(line@) is None,
            },
    {
        self.re.captures(line).and_then(|c| c.get(1)).map(|m| m.as_str().to_string())
    }
}

/// The tool number that a line of text calls, if any.
pub open spec fn call_number(line: Seq<char>) -> Option<u32> {
    match tool_call_capture(line) {
        Some(d) => parse_u32_spec(d),
        None => None,
    }
}

/// The tool number of a `TOOL CALL` line: the captured digits read as a
/// `u32`, or `None` when the line calls no tool or the number does not fit.
pub(crate) fn parse_tool_call(pattern: &ToolCallPattern, line: &str) -> (r: Option<u32>)
    ensures
        r == call_number(line@),
{
    match pattern.capture(line) {
        Some(d) => {
            let digits = chars_of(d.as_str());
            parse_u32(&digits)
        },
        None => None,
    }
}

/// The numbers called by a list of lines, in order; lines that are not
/// UTF-8 call nothing.
pub open spec fn calls_in(lines: Seq<Seq<u8>>) -> Seq<u32>
    decreases lines.len(),
{
    if lines.len() == 0 {
        Seq::empty()
    } else {
        let prev = calls_in(lines.drop_last());
        match line_text(lines.last()) {
            Some(t) => match call_number(t) {
                Some(v) => prev.push(v),
                None => prev,
            },
            None => prev,
        }
    }
}

/// Every readable line's call is kept, in order: the calls of two runs of
/// lines one after the other are the calls of the first then of the second,
/// and a single line gives its own call, or nothing when it is not UTF-8 or
/// calls no tool.
pub proof fn law_calls_in_every_line(a: Seq<Seq<u8>>, b: Seq<Seq<u8>>, l: Seq<u8>)
    ensures
        calls_in(a + b) == calls_in(a) + calls_in(b),
        calls_in(seq![l]) == (match line_text(l) {
            Some(t) => match call_number(t) {
                Some(v) => seq![v],
                None => Seq::<u32>::empty(),
            },
            None => Seq::<u32>::empty(),
        }),
    decreases b.len(),
{
    if b.len() > 0 {
        law_calls_in_every_line(a, b.drop_last(), l);
        assert((a + b).drop_last() =~= a + b.drop_last());
        assert((a + b).last() == b.last());
        match line_text(b.last()) {
            Some(t) => match call_number(t) {
                Some(v) => {
                    assert(calls_in(a + b) =~= calls_in(a) + calls_in(b));
                },
                None => {},
            },
            None => {},
        }
    } else {
        assert(a + b =~= a);
        assert(calls_in(a) + calls_in(b) =~= calls_in(a));
    }
    assert(seq![l].drop_last() =~= Seq::<Seq<u8>>::empty());
    assert(seq![l].last() == l);
    assert(calls_in(seq![l].drop_last()) == Seq::<u32>::empty());
    assert(Seq::<u32>::empty().push(0) =~= seq![0u32]);
    match line_text(l) {
        Some(t) => match call_number(t) {
            Some(v) => {
                assert(Seq::<u32>::empty().push(v) =~= seq![v]);
            },
            None => {},
        },
        None => {},
    }
}

/// A G-code style tool (no corrector) of a number.
pub open spec fn numbered_tool(v: u32) -> Tool {
    Tool { number: v, corrector: None }
}

/// `tools` is what `parse` gives for `data`: one tool per call, in order.
pub open spec fn is_parse_of(data: Seq<u8>, tools: Seq<Tool>) -> bool {
    tools == calls_in(lines_of(data)).map_values(|v: u32| numbered_tool(v))
}

/// The tools of a Heidenhain program: one per tool call, in order.
pub fn parse(data: &[u8]) -> (r: Vec<Tool>)
    ensures
        is_parse_of(data@, r@),
{
    let lines = split_lines(data);
    let ghost ls = lines_of(data@);
    let pattern = ToolCallPattern::new();
    let mut r: Vec<Tool> = Vec::new();
    let mut i: usize = 0;
    while i < lines.len()
        invariant
            i <= lines.len(),
            lines@.len() == ls.len(),
            forall|t: int| 0 <= t < lines@.len() ==> (#[trigger] lines@[t])@ == ls[t],
            r@ == calls_in(ls.take(i as int)).map_values(|v: u32| numbered_tool(v)),
        decreases lines.len() - i,
    {
        let ghost prev = r@;
        assert(ls.take(i + 1).drop_last() =~= ls.take(i as int));
        assert(ls.take(i + 1).last() == ls[i as int]);
        match decode_line(lines[i].as_slice()) {
            Some(text) => {
                let found = parse_tool_call(&pattern, text.as_str());
                match found {
                    Some(v) => {
                        r.push(Tool::gcode(v));
                        assert(r@ =~= calls_in(ls.take(i + 1)).map_values(
                            |v: u32| numbered_tool(v),
                        ));
                    },
                    None => {},
                }
            },
            None => {},
        }
        i = i + 1;
    }
    assert(ls.take(i as int) =~= ls);
    r
}

} // verus!
