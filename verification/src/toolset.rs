//! Tools collected from a binary program as a set of keys, each key packing
//! a tool number with its raw corrector byte (`number * 256 + corrector`).
//! The set is kept as a strictly increasing vector, so that it comes out
//! ordered by number, and among equal numbers by corrector byte.
use vstd::prelude::*;

use crate::data::Tool;

verus! {

/// The key of a tool number and a raw corrector byte.
pub open spec fn tool_key(number: nat, corrector: nat) -> nat {
    number * 256 + corrector
}

/// Every element is smaller than every later one.
pub open spec fn strictly_increasing(s: Seq<u64>) -> bool {
    forall|i: int, j: int| 0 <= i < j < s.len() ==> s[i] < s[j]
}

/// The letter of a Mazatrol corrector byte: `A`..`Z` without `I` and `O`
/// for 1..=24, and `'\0'` for any other byte.
pub open spec fn corrector_letter(value: u8) -> char {
    if value == 1 {
        'A'
    } else if value == 2 {
        'B'
    } else if value == 3 {
        'C'
    } else if value == 4 {
        'D'
    } else if value == 5 {
        'E'
    } else if value == 6 {
        'F'
    } else if value == 7 {
        'G'
    } else if value == 8 {
        'H'
    } else if value == 9 {
        'J'
    } else if value == 10 {
        'K'
    } else if value == 11 {
        'L'
    } else if value == 12 {
        'M'
    } else if value == 13 {
        'N'
    } else if value == 14 {
        'P'
    } else if value == 15 {
        'Q'
    } else if value == 16 {
        'R'
    } else if value == 17 {
        'S'
    } else if value == 18 {
        'T'
    } else if value == 19 {
        'U'
    } else if value == 20 {
        'V'
    } else if value == 21 {
        'W'
    } else if value == 22 {
        'X'
    } else if value == 23 {
        'Y'
    } else if value == 24 {
        'Z'
    } else {
        '\0'
    }
}

/// The letter of a Mazatrol corrector byte.
pub fn corrector_char(value: u8) -> (r: char)
    ensures
        r == corrector_letter(value),
{
    match value {
        1 => 'A',
        2 => 'B',
        3 => 'C',
        4 => 'D',
        5 => 'E',
        6 => 'F',
        7 => 'G',
        8 => 'H',
        9 => 'J',
        10 => 'K',
        11 => 'L',
        12 => 'M',
        13 => 'N',
        14 => 'P',
        15 => 'Q',
        16 => 'R',
        17 => 'S',
        18 => 'T',
        19 => 'U',
        20 => 'V',
        21 => 'W',
        22 => 'X',
        23 => 'Y',
        24 => 'Z',
        _ => '\0',
    }
}

/// Corrector bytes 1..=24 get distinct upper-case letters, none of them
/// `I` or `O`; every other byte gets `'\0'`.
pub proof fn law_corrector_letters(a: u8, b: u8)
    ensures
        1 <= a <= 24 ==> ('A' <= corrector_letter(a) && corrector_letter(a) <= 'Z'
            && corrector_letter(a) != 'I' && corrector_letter(a) != 'O'),
        !(1 <= a <= 24) ==> corrector_letter(a) == '\0',
        1 <= a <= 24 && 1 <= b <= 24 && a != b ==> corrector_letter(a) != corrector_letter(b),
{
}

/// Corrector letters follow the order of the bytes: a higher byte in
/// 1..=24 gets a later letter.
pub proof fn law_corrector_letters_in_order(a: u8, b: u8)
    requires
        1 <= a < b <= 24,
    ensures
        corrector_letter(a) < corrector_letter(b),
{
}

/// Byte `v` in 1..=24 gets the `v`-th letter of the alphabet without `I`
/// and `O`.
pub proof fn law_corrector_letter_table(v: u8)
    requires
        1 <= v <= 24,
    ensures
        corrector_letter(v) == seq![
            'A', 'B', 'C', 'D', 'E', 'F', 'G', 'H', 'J', 'K', 'L', 'M', 'N', 'P', 'Q', 'R', 'S',
            'T', 'U', 'V', 'W', 'X', 'Y', 'Z',
        ][v - 1],
{
}

/// The Mazatrol tool that a key stands for.
pub open spec fn key_tool(key: u64) -> Tool {
    Tool { number: (key / 256) as u32, corrector: Some(corrector_letter((key % 256) as u8)) }
}

/// Adds `x` to a strictly increasing vector, keeping it strictly increasing.
pub fn insert_key(keys: &mut Vec<u64>, x: u64)
    requires
        strictly_increasing(old(keys)@),
    ensures
        strictly_increasing(final(keys)@),
        final(keys)@.to_set() == old(keys)@.to_set().insert(x),
{
    let mut p: usize = 0;
    while p < keys.len() && keys[p] < x
        invariant
            p <= keys.len(),
            forall|j: int| 0 <= j < p ==> keys@[j] < x,
        decreases keys.len() - p,
    {
        p = p + 1;
    }
    if p < keys.len() && keys[p] == x {
        assert(old(keys)@.to_set().insert(x) =~= old(keys)@.to_set());
        return;
    }
    let ghost before = keys@;
    keys.insert(p, x);
    assert forall|y: u64| #[trigger] keys@.contains(y) <==> before.contains(y) || y == x by {
        if keys@.contains(y) {
            let i = choose|i: int| 0 <= i < keys@.len() && keys@[i] == y;
            if i < p {
                assert(before[i] == y);
            } else if i > p {
                assert(before[i - 1] == y);
            }
        }
        if before.contains(y) {
            let i = choose|i: int| 0 <= i < before.len() && before[i] == y;
            if i < p {
                assert(keys@[i] == y);
            } else {
                assert(keys@[i + 1] == y);
            }
        }
        if y == x {
            assert(keys@[p as int] == x);
        }
    }
    assert(keys@.to_set() =~= before.to_set().insert(x));
}

/// The Mazatrol tools of a strictly increasing key vector, in its order.
pub fn keys_to_tools(keys: &Vec<u64>) -> (r: Vec<Tool>)
    requires
        forall|i: int| 0 <= i < keys@.len() ==> keys@[i] / 256 <= u32::MAX,
    ensures
        r@ == keys@.map_values(|k: u64| key_tool(k)),
{
    let mut r: Vec<Tool> = Vec::new();
    let mut i: usize = 0;
    while i < keys.len()
        invariant
            i <= keys.len(),
            forall|t: int| 0 <= t < keys@.len() ==> keys@[t] / 256 <= u32::MAX,
            r@ == keys@.take(i as int).map_values(|k: u64| key_tool(k)),
        decreases keys.len() - i,
    {
        let k = keys[i];
        let number = (k / 256) as u32;
        let corrector = corrector_char((k % 256) as u8);
        r.push(Tool::mazatrol(number, corrector));
        assert(keys@.take(i + 1) =~= keys@.take(i as int).push(k));
        i = i + 1;
    }
    assert(keys@.take(i as int) =~= keys@);
    r
}

/// Keys in strictly increasing order give tools in non-decreasing order
/// of number.
pub proof fn lemma_key_tools_ordered(keys: Seq<u64>)
    requires
        strictly_increasing(keys),
        forall|i: int| 0 <= i < keys.len() ==> keys[i] / 256 <= u32::MAX,
    ensures
        forall|i: int, j: int|
            0 <= i < j < keys.len() ==> #[trigger] key_tool(keys[i]).number <= #[trigger] key_tool(
                keys[j],
            ).number,
{
    assert forall|i: int, j: int| 0 <= i < j < keys.len() implies #[trigger] key_tool(
        keys[i],
    ).number <= #[trigger] key_tool(keys[j]).number by {
        assert(keys[i] < keys[j]);
        assert(keys[i] / 256 <= keys[j] / 256) by (nonlinear_arith)
            requires
                keys[i] < keys[j],
        ;
        assert(keys[j] / 256 <= u32::MAX);
    }
}

} // verus!
