//! Mazatrol `.pbg` programs: after a header of 0x160 bytes, sections of 0x64
//! bytes; a section of type 0xB4 names a tool by its pocket number and its
//! corrector byte.
use vstd::prelude::*;

use crate::data::Tool;
use crate::parser::{read_u16_le, u16_le, SECTION_SIZE};
use crate::toolset::{
    corrector_letter, insert_key, key_tool, keys_to_tools, lemma_key_tools_ordered, strictly_increasing, tool_key,
};

verus! {

/// Offset of the first section.
pub const SECTIONS_START: usize = 0x160;

/// Section type of a tool.
pub const TYPE_TOOL: u32 = 0xB4;

/// Offset of the corrector byte within a section.
pub const OFFSET_CORRECTOR: usize = 0x0B;

/// Offset of the pocket number within a section.
pub const OFFSET_POCKET: usize = 0x5A;

/// Start of section `k`.
pub open spec fn section_start(k: int) -> int {
    SECTIONS_START + k * SECTION_SIZE
}

/// Section `k` lies wholly within the data.
pub open spec fn section_in_data(d: Seq<u8>, k: int) -> bool {
    0 <= k && section_start(k) + SECTION_SIZE <= d.len()
}

/// The key of the tool that section `k` names, if it is a tool section.
pub open spec fn section_key(d: Seq<u8>, k: int) -> Option<u64> {
    let o = section_start(k);
    if u16_le(d, o) == TYPE_TOOL {
        Some(tool_key(u16_le(d, o + OFFSET_POCKET), d[o + OFFSET_CORRECTOR] as nat) as u64)
    } else {
        None
    }
}

/// The keys of the tool sections among the first `n` sections.
pub open spec fn keys_before(d: Seq<u8>, n: int) -> Set<u64> {
    Set::new(
        |key: u64|
            exists|k: int| 0 <= k < n && section_in_data(d, k) && section_key(d, k) == Some(key),
    )
}

/// The keys of all tool sections of the program.
pub open spec fn pbg_keys(d: Seq<u8>) -> Set<u64> {
    Set::new(|key: u64| exists|k: int| section_in_data(d, k) && section_key(d, k) == Some(key))
}

/// `tools` is what `parse` gives for `data`: the tools of the distinct keys,
/// in increasing order of key.
pub open spec fn is_parse_of(data: Seq<u8>, tools: Seq<Tool>) -> bool {
    exists|keys: Seq<u64>|
        {
            &&& strictly_increasing(keys)
            &&& keys.to_set() == pbg_keys(data)
            &&& tools == keys.map_values(|k: u64| key_tool(k))
        }
}

/// The tools of a `.pbg` program: one per distinct (pocket, corrector byte)
/// pair among its tool sections, ordered by pocket and then corrector byte.
pub fn parse(data: &[u8]) -> (r: Vec<Tool>)
    ensures
        is_parse_of(data@, r@),
        forall|i: int, j: int| 0 <= i < j < r@.len() ==> r@[i].number <= r@[j].number,
{
    let mut keys: Vec<u64> = Vec::new();
    let mut offset: usize = SECTIONS_START;
    let ghost mut n: int = 0;
    assert(keys@.to_set() =~= keys_before(data@, 0));
    while offset <= data.len() && data.len() - offset >= SECTION_SIZE
        invariant
            0 <= n,
            offset == section_start(n),
            strictly_increasing(keys@),
            keys@.to_set() == keys_before(data@, n),
            forall|i: int| 0 <= i < keys@.len() ==> keys@[i] / 256 <= 65535,
        decreases data.len() - offset,
    {
        let sec_type = read_u16_le(data, offset);
        let ghost prev = keys@;
        if sec_type == TYPE_TOOL {
            let pocket = read_u16_le(data, offset + OFFSET_POCKET);
            let corrector = data[offset + OFFSET_CORRECTOR];
            let key = (pocket as u64) * 256 + (corrector as u64);
            assert(section_key(data@, n) == Some(key));
            insert_key(&mut keys, key);
            assert forall|i: int| 0 <= i < keys@.len() implies keys@[i] / 256 <= 65535 by {
                assert(keys@.to_set().contains(keys@[i]));
                if keys@[i] != key {
                    assert(prev.to_set().contains(keys@[i]));
                    let t = choose|t: int| 0 <= t < prev.len() && prev[t] == keys@[i];
                }
            }
            assert(keys@.to_set() =~= keys_before(data@, n + 1)) by {
                assert(section_in_data(data@, n));
            }
        } else {
            assert(keys@.to_set() =~= keys_before(data@, n + 1));
        }
        offset = offset + SECTION_SIZE;
        proof {
            n = n + 1;
        }
    }
    assert(keys@.to_set() =~= pbg_keys(data@)) by {
        assert forall|k: int| section_in_data(data@, k) implies k < n by {
        }
    }
    proof {
        lemma_key_tools_ordered(keys@);
    }
    let r = keys_to_tools(&keys);
    assert(is_parse_of(data@, r@)) by {
        assert(keys@.to_set() == pbg_keys(data@));
    }
    assert(forall|i: int, j: int|
        0 <= i < j < r@.len() ==> key_tool(keys@[i]).number <= key_tool(keys@[j]).number);
    r
}

/// What section `k` of a `.pbg` program yields, read off its bytes: the
/// section starts at `0x160 + 100 * k`; a tool section (type `0xB4`) gives
/// the little-endian `u16` at 0x5A (the pocket) as its number and the letter
/// of the corrector byte at 0x0B.
pub open spec fn tool_of_section_bytes(d: Seq<u8>, k: int) -> Option<Tool> {
    let o = 0x160 + 100 * k;
    if d[o] + 256 * d[o + 1] == 0xB4 {
        Some(
            Tool {
                number: (d[o + 0x5A] + 256 * d[o + 0x5B]) as u32,
                corrector: Some(corrector_letter(d[o + 0x0B])),
            },
        )
    } else {
        None
    }
}

/// Some section of the data yields this tool.
pub open spec fn yielded_by_some_section(d: Seq<u8>, t: Tool) -> bool {
    exists|k: int|
        0 <= k && 0x160 + 100 * k + 100 <= d.len() && tool_of_section_bytes(d, k) == Some(t)
}

proof fn lemma_key_decodes(number: nat, c: u8)
    requires
        number <= u32::MAX,
    ensures
        tool_key(number, c as nat) <= u64::MAX,
        key_tool(tool_key(number, c as nat) as u64) == (Tool {
            number: number as u32,
            corrector: Some(corrector_letter(c)),
        }),
{
    let k = tool_key(number, c as nat);
    assert(k / 256 == number && k % 256 == c) by (nonlinear_arith)
        requires
            k == number * 256 + c,
            0 <= c < 256,
    ;
}

/// Every tool section gives a tool of the result, and every tool of the
/// result comes from a tool section.
pub proof fn law_pbg_tools_from_sections(d: Seq<u8>, tools: Seq<Tool>)
    requires
        is_parse_of(d, tools),
    ensures
        forall|k: int|
            0 <= k && 0x160 + 100 * k + 100 <= d.len() && (#[trigger] tool_of_section_bytes(d, k))
                is Some ==> tools.contains(tool_of_section_bytes(d, k)->0),
        forall|i: int| 0 <= i < tools.len() ==> yielded_by_some_section(d, #[trigger] tools[i]),
{
    let keys = choose|keys: Seq<u64>|
        {
            &&& strictly_increasing(keys)
            &&& keys.to_set() == pbg_keys(d)
            &&& tools == keys.map_values(|k: u64| key_tool(k))
        };
    assert forall|k: int|
        0 <= k && 0x160 + 100 * k + 100 <= d.len() && (#[trigger] tool_of_section_bytes(d, k))
            is Some implies tools.contains(tool_of_section_bytes(d, k)->0) by {
        let o = 0x160 + 100 * k;
        assert(section_in_data(d, k));
        let number = u16_le(d, o + OFFSET_POCKET);
        lemma_key_decodes(number, d[o + OFFSET_CORRECTOR]);
        let key = tool_key(number, d[o + OFFSET_CORRECTOR] as nat) as u64;
        assert(section_key(d, k) == Some(key));
        assert(pbg_keys(d).contains(key));
        assert(keys.to_set().contains(key));
        let i = choose|i: int| 0 <= i < keys.len() && keys[i] == key;
        assert(tools[i] == key_tool(key));
        assert(tools[i] == tool_of_section_bytes(d, k)->0);
    }
    assert forall|i: int| 0 <= i < tools.len() implies yielded_by_some_section(
        d,
        #[trigger] tools[i],
    ) by {
        assert(keys.to_set().contains(keys[i]));
        assert(pbg_keys(d).contains(keys[i]));
        let w = choose|w: int| section_in_data(d, w) && section_key(d, w) == Some(keys[i]);
        let o = 0x160 + 100 * w;
        lemma_key_decodes(u16_le(d, o + OFFSET_POCKET), d[o + OFFSET_CORRECTOR]);
        assert(tools[i] == key_tool(keys[i]));
        assert(0 <= w && 0x160 + 100 * w + 100 <= d.len() && tool_of_section_bytes(d, w) == Some(
            tools[i],
        ));
    }
}

} // verus!
