//! The lines of a text file, as `BufRead::lines` yields them: split at each
//! `\n`, with one `\r` before the `\n` removed, and each line decoded as
//! UTF-8 on its own.
use vstd::prelude::*;
use vstd::utf8::{decode_utf8, valid_utf8};

verus! {

/// Index of the first `\n` byte, or the length when there is none.
pub open spec fn newline_index(s: Seq<u8>) -> nat
    decreases s.len(),
{
    if s.len() == 0 {
        0
    } else if s[0] == 10 {
        0
    } else {
        1 + newline_index(s.drop_first())
    }
}

/// A line ended by `\n` loses one `\r` before it.
pub open spec fn strip_cr(l: Seq<u8>) -> Seq<u8> {
    if l.len() > 0 && l.last() == 13 {
        l.drop_last()
    } else {
        l
    }
}

/// The lines of the data: the pieces between `\n` bytes, each one that a
/// `\n` ends without its `\r`; a last piece without `\n` is kept as it is,
/// and an empty last piece is no line.
pub open spec fn lines_of(s: Seq<u8>) -> Seq<Seq<u8>>
    decreases s.len(),
{
    if s.len() == 0 {
        Seq::empty()
    } else {
        let m = newline_index(s);
        if m >= s.len() {
            seq![s]
        } else {
            seq![strip_cr(s.take(m as int))] + lines_of(s.skip(m + 1 as int))
        }
    }
}

/// The text of a line, when it is valid UTF-8.
pub open spec fn line_text(l: Seq<u8>) -> Option<Seq<char>> {
    if valid_utf8(l) {
        Some(decode_utf8(l))
    } else {
        None
    }
}

proof fn lemma_newline_index(s: Seq<u8>, m: int)
    requires
        0 <= m <= s.len(),
        forall|t: int| 0 <= t < m ==> s[t] != 10,
        m == s.len() || s[m] == 10,
    ensures
        newline_index(s) == m,
    decreases m,
{
    if m > 0 {
        lemma_newline_index(s.drop_first(), m - 1);
    }
}

proof fn lemma_newline_index_bounds(s: Seq<u8>)
    ensures
        newline_index(s) <= s.len(),
        forall|t: int| 0 <= t < newline_index(s) ==> s[t] != 10,
        newline_index(s) < s.len() ==> s[newline_index(s) as int] == 10,
    decreases s.len(),
{
    if s.len() > 0 && s[0] != 10 {
        lemma_newline_index_bounds(s.drop_first());
        assert forall|t: int| 0 <= t < newline_index(s) implies s[t] != 10 by {
            if t > 0 {
                assert(s[t] == s.drop_first()[t - 1]);
            }
        }
    }
}

/// No line holds a newline byte.
pub proof fn law_lines_hold_no_newline(s: Seq<u8>)
    ensures
        forall|i: int, t: int|
            0 <= i < lines_of(s).len() && 0 <= t < lines_of(s)[i].len() ==> #[trigger] lines_of(
                s,
            )[i][t] != 10,
    decreases s.len(),
{
    if s.len() > 0 {
        lemma_newline_index_bounds(s);
        let m = newline_index(s);
        if m < s.len() {
            law_lines_hold_no_newline(s.skip(m + 1 as int));
            let ls = lines_of(s);
            assert(ls == seq![strip_cr(s.take(m as int))] + lines_of(s.skip(m + 1 as int)));
            assert forall|i: int, t: int|
                0 <= i < ls.len() && 0 <= t < ls[i].len() implies #[trigger] ls[i][t] != 10 by {
                if i == 0 {
                    assert(ls[0][t] == s[t]);
                } else {
                    assert(ls[i] == lines_of(s.skip(m + 1 as int))[i - 1]);
                }
            }
        }
    }
}

/// The lines give back the data: for data without `\r` that is empty or
/// ends with a newline, each line followed by a newline, joined in order,
/// is the data again. So no line is lost, blank ones included.
pub proof fn law_lines_rejoin(s: Seq<u8>)
    requires
        forall|t: int| 0 <= t < s.len() ==> s[t] != 13,
        s.len() == 0 || s.last() == 10,
    ensures
        Seq::new(lines_of(s).len(), |i: int| lines_of(s)[i].push(10)).flatten() == s,
    decreases s.len(),
{
    let ls = lines_of(s);
    let f = Seq::new(ls.len(), |i: int| ls[i].push(10));
    if s.len() == 0 {
        assert(f =~= Seq::<Seq<u8>>::empty());
        assert(f.flatten() =~= s);
    } else {
        lemma_newline_index_bounds(s);
        let m = newline_index(s);
        if m == s.len() {
            assert(s[s.len() - 1] != 10);
        }
        let rest = s.skip(m + 1 as int);
        assert(rest.len() == 0 || rest.last() == s.last());
        law_lines_rejoin(rest);
        let head = s.take(m as int);
        assert(strip_cr(head) == head) by {
            if head.len() > 0 {
                assert(head.last() == s[m - 1]);
            }
        }
        assert(ls == seq![head] + lines_of(rest));
        let g = Seq::new(lines_of(rest).len(), |i: int| lines_of(rest)[i].push(10));
        assert(f.drop_first() =~= g);
        assert(f.first() == head.push(10));
        assert(f.flatten() == f.first() + f.drop_first().flatten());
        assert(head.push(10) + rest =~= s);
    }
}

/// Splits data into its lines (see `lines_of`).
pub fn split_lines(data: &[u8]) -> (r: Vec<Vec<u8>>)
    ensures
        r@.len() == lines_of(data@).len(),
        forall|i: int| 0 <= i < r@.len() ==> (#[trigger] r@[i])@ == lines_of(data@)[i],
{
    let mut r: Vec<Vec<u8>> = Vec::new();
    let ghost mut views: Seq<Seq<u8>> = Seq::empty();
    let mut pos: usize = 0;
    assert(data@.skip(0) =~= data@);
    while pos < data.len()
        invariant
            pos <= data.len(),
            r@.len() == views.len(),
            forall|i: int| 0 <= i < r@.len() ==> (#[trigger] r@[i])@ == views[i],
            lines_of(data@) == views + lines_of(data@.skip(pos as int)),
        decreases data.len() - pos,
    {
        let ghost rest = data@.skip(pos as int);
        let mut line: Vec<u8> = Vec::new();
        let mut j: usize = pos;
        while j < data.len() && data[j] != 10
            invariant
                pos <= j <= data.len(),
                line@ == data@.subrange(pos as int, j as int),
                forall|t: int| pos <= t < j ==> data@[t] != 10,
            decreases data.len() - j,
        {
            line.push(data[j]);
            j = j + 1;
            assert(line@ =~= data@.subrange(pos as int, j as int));
        }
        proof {
            lemma_newline_index(rest, j - pos);
        }
        let ghost piece = line@;
        assert(piece =~= rest.take(j - pos));
        if j < data.len() {
            if line.len() > 0 && line[line.len() - 1] == 13 {
                line.pop();
            }
            assert(rest.skip(j - pos + 1) =~= data@.skip(j + 1));
            assert(line@ == strip_cr(piece));
            proof {
                views = views.push(line@);
            }
            r.push(line);
            pos = j + 1;
            assert(lines_of(rest) == seq![strip_cr(piece)] + lines_of(data@.skip(pos as int)));
            assert(lines_of(data@) =~= views + lines_of(data@.skip(pos as int)));
        } else {
            assert(piece =~= rest);
            proof {
                views = views.push(line@);
            }
            r.push(line);
            pos = j;
            assert(data@.skip(pos as int) =~= Seq::<u8>::empty());
            assert(lines_of(data@) =~= views + lines_of(data@.skip(pos as int)));
        }
    }
    assert(data@.skip(pos as int) =~= Seq::<u8>::empty());
    assert(views =~= lines_of(data@));
    r
}

/// Decodes a line with `String::from_utf8` on a copy of its bytes; std
/// documents that it fails exactly on bytes that are not UTF-8, and
/// otherwise keeps the text they encode.
#[verifier::external_body]
pub(crate) fn decode_line(bytes: &[u8]) -> (r: Option<String>)
    ensures
        r is Some <==> valid_utf8(bytes@),
        r matches Some(s) ==> s@ == decode_utf8(bytes@),
{
    String::from_utf8(bytes.to_vec()).ok()
}

} // verus!
