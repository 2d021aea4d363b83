//! Ordering machines and part groups by name, as a stable sort by
//! `String::cmp` does it: names in lexicographic order, and items of equal
//! names in the order in which they came.
use vstd::prelude::*;

use crate::data::{Machine, PartGroup};
use crate::text::{chars_le, chars_le_exec, chars_of, lemma_chars_le_total, lemma_chars_le_trans};

verus! {

/// Something with a name.
pub trait Named {
    /// The characters of the name.
    spec fn name_view(&self) -> Seq<char>;

    /// The characters of the name, computed.
    fn name_chars(&self) -> (r: Vec<char>)
        ensures
            r@ == self.name_view(),
    ;
}

impl Named for Machine {
    open spec fn name_view(&self) -> Seq<char> {
        self.name@
    }

    fn name_chars(&self) -> (r: Vec<char>) {
        chars_of(self.name.as_str())
    }
}

impl Named for PartGroup {
    open spec fn name_view(&self) -> Seq<char> {
        self.name@
    }

    fn name_chars(&self) -> (r: Vec<char>) {
        chars_of(self.name.as_str())
    }
}

/// The names are in lexicographic order.
pub open spec fn sorted_by_name<T: Named>(s: Seq<T>) -> bool {
    forall|i: int, j: int|
        0 <= i < j < s.len() ==> chars_le(#[trigger] s[i].name_view(), #[trigger] s[j].name_view())
}

/// `perm` maps positions of `r` to distinct positions of `input`, with
/// `r[i] == input[perm[i]]`.
pub open spec fn is_rearrangement<T>(r: Seq<T>, input: Seq<T>, perm: Seq<int>) -> bool {
    &&& perm.len() == r.len()
    &&& r.len() == input.len()
    &&& forall|i: int| 0 <= i < perm.len() ==> 0 <= #[trigger] perm[i] < input.len()
    &&& forall|i: int, j: int| 0 <= i < j < perm.len() ==> #[trigger] perm[i] != #[trigger] perm[j]
    &&& forall|i: int| 0 <= i < r.len() ==> #[trigger] r[i] == input[perm[i]]
}

/// `r` is `input` sorted by name, stably: a rearrangement in name order that
/// keeps items of equal names in their first order.
pub open spec fn is_stable_sort_of<T: Named>(r: Seq<T>, input: Seq<T>) -> bool {
    exists|perm: Seq<int>|
        {
            &&& is_rearrangement(r, input, perm)
            &&& sorted_by_name(r)
            &&& forall|i: int, j: int|
                0 <= i < j < r.len() && #[trigger] r[i].name_view() == #[trigger] r[j].name_view()
                    ==> perm[i] < perm[j]
        }
}

/// Sorts items by name, stably (as `sort_by(|a, b| a.name.cmp(&b.name))`).
pub fn sort_by_name<T: Named>(items: Vec<T>) -> (r: Vec<T>)
    ensures
        is_stable_sort_of(r@, items@),
{
    let ghost input = items@;
    let mut rest = items;
    let mut out: Vec<T> = Vec::new();
    let ghost mut perm: Seq<int> = Seq::empty();
    let n = rest.len();
    let mut i: usize = 0;
    while i < n
        invariant
            i <= n,
            n == input.len(),
            rest@ == input.skip(i as int),
            out@.len() == i,
            perm.len() == i,
            forall|q: int| 0 <= q < perm.len() ==> 0 <= #[trigger] perm[q] < i,
            forall|a: int, b: int| 0 <= a < b < perm.len() ==> #[trigger] perm[a] != #[trigger] perm[b],
            forall|q: int| 0 <= q < out@.len() ==> #[trigger] out@[q] == input[perm[q]],
            sorted_by_name(out@),
            forall|a: int, b: int|
                0 <= a < b < out@.len() && #[trigger] out@[a].name_view()
                    == #[trigger] out@[b].name_view() ==> perm[a] < perm[b],
        decreases n - i,
    {
        assert(rest@.len() > 0);
        let x = rest.remove(0);
        assert(x == input[i as int]);
        assert(rest@ =~= input.skip(i + 1));
        let key = x.name_chars();
        let mut p: usize = 0;
        while p < out.len() && chars_le_exec(&out[p].name_chars(), &key)
            invariant
                p <= out@.len(),
                key@ == x.name_view(),
                forall|q: int| 0 <= q < p ==> chars_le(#[trigger] out@[q].name_view(), x.name_view()),
            decreases out@.len() - p,
        {
            p = p + 1;
        }
        let ghost old_out = out@;
        let ghost old_perm = perm;
        out.insert(p, x);
        proof {
            perm = old_perm.insert(p as int, i as int);
            // everything at or after p in the old order sorts after x
            assert forall|q: int| p <= q < old_out.len() implies chars_le(
                x.name_view(),
                #[trigger] old_out[q].name_view(),
            ) && x.name_view() != old_out[q].name_view() by {
                assert(!chars_le(old_out[p as int].name_view(), x.name_view()));
                lemma_chars_le_total(old_out[p as int].name_view(), x.name_view());
                if q > p {
                    assert(chars_le(old_out[p as int].name_view(), old_out[q].name_view()));
                    lemma_chars_le_trans(x.name_view(), old_out[p as int].name_view(), old_out[q].name_view());
                }
                if x.name_view() == old_out[q].name_view() && q > p {
                    assert(chars_le(old_out[p as int].name_view(), old_out[q].name_view()));
                }
            }
            assert forall|a: int, b: int| 0 <= a < b < out@.len() implies chars_le(
                #[trigger] out@[a].name_view(),
                #[trigger] out@[b].name_view(),
            ) by {
                if a < p && b < p {
                    assert(out@[a] == old_out[a] && out@[b] == old_out[b]);
                } else if a < p && b == p {
                } else if a < p && b > p {
                    assert(out@[a] == old_out[a] && out@[b] == old_out[b - 1]);
                    assert(chars_le(old_out[a].name_view(), old_out[b - 1].name_view()));
                } else if a == p {
                    assert(out@[b] == old_out[b - 1]);
                } else {
                    assert(out@[a] == old_out[a - 1] && out@[b] == old_out[b - 1]);
                }
            }
            assert forall|q: int| 0 <= q < out@.len() implies #[trigger] out@[q] == input[perm[q]] by {
                if q < p {
                    assert(out@[q] == old_out[q]);
                } else if q > p {
                    assert(out@[q] == old_out[q - 1]);
                }
            }
            assert forall|a: int, b: int|
                0 <= a < b < out@.len() && #[trigger] out@[a].name_view()
                    == #[trigger] out@[b].name_view() implies perm[a] < perm[b] by {
                if a < p && b < p {
                    assert(out@[a] == old_out[a] && out@[b] == old_out[b]);
                } else if a < p && b > p {
                    assert(out@[a] == old_out[a] && out@[b] == old_out[b - 1]);
                } else if a == p {
                    assert(out@[b] == old_out[b - 1]);
                    assert(x.name_view() != old_out[b - 1].name_view());
                } else if b == p {
                    assert(perm[a] == old_perm[a]);
                } else {
                    assert(out@[a] == old_out[a - 1] && out@[b] == old_out[b - 1]);
                }
            }
            assert forall|a: int, b: int| 0 <= a < b < perm.len() implies #[trigger] perm[a]
                != #[trigger] perm[b] by {
                if a < p && b < p {
                } else if a < p && b > p {
                    assert(perm[b] == old_perm[b - 1]);
                } else if a == p {
                    assert(perm[b] == old_perm[b - 1]);
                } else if b == p {
                } else {
                    assert(perm[a] == old_perm[a - 1] && perm[b] == old_perm[b - 1]);
                }
            }
        }
        i = i + 1;
    }
    assert(is_rearrangement(out@, input, perm));
    out
}

/// Sorts machines by name, stably.
pub fn sort_machines(machines: Vec<Machine>) -> (r: Vec<Machine>)
    ensures
        is_stable_sort_of(r@, machines@),
{
    sort_by_name(machines)
}

/// Sorts part groups by name, stably.
pub fn sort_part_groups(groups: Vec<PartGroup>) -> (r: Vec<PartGroup>)
    ensures
        is_stable_sort_of(r@, groups@),
{
    sort_by_name(groups)
}

} // verus!
