//! Mazatrol `.maz` programs: sections of 0x64 bytes from the start of the
//! file. A section of type 0xB0 names a tool by its diameter (for a drill of
//! type 4, a whole-millimetre `u16` at 0x26 scaled by 1000, else the `u32` at
//! 0x24) and a section of type 0xC0 names a probe by its pocket, marked by
//! `0xFFFF0000` so that it does not meet a diameter; both carry a corrector
//! byte at 0x0B.
use vstd::prelude::*;

use crate::data::Tool;
use crate::parser::{read_u16_le, read_u32_le, u16_le, u32_le, SECTION_SIZE};
use crate::toolset::{
    corrector_letter, insert_key, key_tool, keys_to_tools, lemma_key_tools_ordered, strictly_increasing, tool_key,
};

verus! {

/// Section type of a tool.
pub const TYPE_TOOL: u32 = 0xB0;

/// Section type of a probe.
pub const TYPE_PROBE: u32 = 0xC0;

/// Mark added to a probe's pocket number.
pub const PROBE_MARK: u32 = 0xFFFF0000;

/// Start of section `k`.
pub open spec fn section_start(k: int) -> int {
    k * SECTION_SIZE
}

/// Section `k` lies wholly within the data.
pub open spec fn section_in_data(d: Seq<u8>, k: int) -> bool {
    0 <= k && section_start(k) + SECTION_SIZE <= d.len()
}

/// The number of the tool or probe at section start `o`.
pub open spec fn section_number(d: Seq<u8>, o: int) -> nat {
    if u16_le(d, o) == TYPE_TOOL {
        if d[o + 0x09] == 4 {
            u16_le(d, o + 0x26) * 1000
        } else {
            u32_le(d, o + 0x24)
        }
    } else {
        (PROBE_MARK + u16_le(d, o + 0x08)) as nat
    }
}

/// The key that section `k` contributes, if it is a tool or probe section.
pub open spec fn section_key(d: Seq<u8>, k: int) -> Option<u64> {
    let o = section_start(k);
    if u16_le(d, o) == TYPE_TOOL || u16_le(d, o) == TYPE_PROBE {
        Some(tool_key(section_number(d, o), d[o + 0x0B] as nat) as u64)
    } else {
        None
    }
}

/// The keys of the tool and probe sections among the first `n` sections.
pub open spec fn keys_before(d: Seq<u8>, n: int) -> Set<u64> {
    Set::new(
        |key: u64|
            exists|k: int| 0 <= k < n && section_in_data(d, k) && section_key(d, k) == Some(key),
    )
}

/// The keys of all tool and probe sections of the program.
pub open spec fn maz_keys(d: Seq<u8>) -> Set<u64> {
    Set::new(|key: u64| exists|k: int| section_in_data(d, k) && section_key(d, k) == Some(key))
}

/// `tools` is what `parse` gives for `data`: the tools of the distinct keys,
/// in increasing order of key.
pub open spec fn is_parse_of(data: Seq<u8>, tools: Seq<Tool>) -> bool {
    exists|keys: Seq<u64>|
        {
            &&& strictly_increasing(keys)
            &&& keys.to_set() == maz_keys(data)
            &&& tools == keys.map_values(|k: u64| key_tool(k))
        }
}

/// The tools of a `.maz` program: one per distinct (number, corrector byte)
/// pair among its tool and probe sections, ordered by number and then
/// corrector byte.
pub fn parse(data: &[u8]) -> (r: Vec<Tool>)
    ensures
        is_parse_of(data@, r@),
        forall|i: int, j: int| 0 <= i < j < r@.len() ==> r@[i].number <= r@[j].number,
{
    let mut keys: Vec<u64> = Vec::new();
    let mut offset: usize = 0;
    let ghost mut n: int = 0;
    assert(keys@.to_set() =~= keys_before(data@, 0));
    while offset <= data.len() && data.len() - offset >= SECTION_SIZE
        invariant
            0 <= n,
            offset == section_start(n),
            strictly_increasing(keys@),
            keys@.to_set() == keys_before(data@, n),
            forall|i: int| 0 <= i < keys@.len() ==> keys@[i] / 256 <= u32::MAX,
        decreases data.len() - offset,
    {
        let sec_type = read_u16_le(data, offset);
        let ghost prev = keys@;
        if sec_type == TYPE_TOOL || sec_type == TYPE_PROBE {
            let number: u32 = if sec_type == TYPE_TOOL {
                if data[offset + 0x09] == 4 {
                    read_u16_le(data, offset + 0x26) * 1000
                } else {
                    read_u32_le(data, offset + 0x24)
                }
            } else {
                PROBE_MARK + read_u16_le(data, offset + 0x08)
            };
            let corrector = data[offset + 0x0B];
            let key = (number as u64) * 256 + (corrector as u64);
            assert(number == section_number(data@, offset as int));
            assert(section_key(data@, n) == Some(key));
            insert_key(&mut keys, key);
            assert forall|i: int| 0 <= i < keys@.len() implies keys@[i] / 256 <= u32::MAX by {
                assert(keys@.to_set().contains(keys@[i]));
                if keys@[i] != key {
                    assert(prev.to_set().contains(keys@[i]));
                    let t = choose|t: int| 0 <= t < prev.len() && prev[t] == keys@[i];
                }
            }
            assert(keys@.to_set() =~= keys_before(data@, n + 1)) by {
                assert(section_in_data(data@, n));
            }
        } else {
            assert(keys@.to_set() =~= keys_before(data@, n + 1));
        }
        offset = offset + SECTION_SIZE;
        proof {
            n = n + 1;
        }
    }
    assert(keys@.to_set() =~= maz_keys(data@)) by {
        assert forall|k: int| section_in_data(data@, k) implies k < n by {
        }
    }
    proof {
        lemma_key_tools_ordered(keys@);
    }
    let r = keys_to_tools(&keys);
    assert(is_parse_of(data@, r@)) by {
        assert(keys@.to_set() == maz_keys(data@));
    }
    assert(forall|i: int, j: int|
        0 <= i < j < r@.len() ==> key_tool(keys@[i]).number <= key_tool(keys@[j]).number);
    r
}

/// Probe numbers are kept apart from the diameters of drills of type 4:
/// a probe's number is at least `0xFFFF0000`, while such a diameter is a
/// multiple of 1000 of at most `65535 * 1000`. (A diameter read as a raw
/// `u32`, for other tools, is not kept apart: it may take any value.)
pub proof fn law_probes_apart_from_drills(d: Seq<u8>, probe: int, drill: int)
    requires
        section_in_data(d, probe),
        section_in_data(d, drill),
        u16_le(d, section_start(probe)) == TYPE_PROBE,
        u16_le(d, section_start(drill)) == TYPE_TOOL,
        d[section_start(drill) + 0x09] == 4,
    ensures
        section_number(d, section_start(probe)) >= PROBE_MARK,
        section_number(d, section_start(drill)) <= 65535 * 1000,
        section_number(d, section_start(drill)) % 1000 == 0,
        section_number(d, section_start(probe)) != section_number(d, section_start(drill)),
{
    let o = section_start(drill);
    assert(u16_le(d, o + 0x26) <= 65535);
    assert(u16_le(d, o + 0x26) * 1000 <= 65535 * 1000) by (nonlinear_arith)
        requires
            u16_le(d, o + 0x26) <= 65535,
    ;
    assert((u16_le(d, o + 0x26) * 1000) % 1000 == 0) by (nonlinear_arith);
}

/// What each section of a `.maz` program yields, read off its bytes: a tool
/// section (type `0xB0`) gives the little-endian `u32` at 0x24 as its number,
/// or for a drill of type 4 (byte 0x09) the little-endian `u16` at 0x26 times
/// 1000; a probe section (type `0xC0`) gives `0xFFFF0000` plus the `u16` at
/// 0x08; both take the letter of the corrector byte at 0x0B. Section `k`
/// starts at byte `100 * k`.
pub open spec fn tool_of_section_bytes(d: Seq<u8>, k: int) -> Option<Tool> {
    let o = 100 * k;
    let kind = d[o] + 256 * d[o + 1];
    let letter = Some(corrector_letter(d[o + 0x0B]));
    if kind == 0xB0 && d[o + 0x09] != 4 {
        Some(
            Tool {
                number: (d[o + 0x24] + 256 * d[o + 0x25] + 65536 * d[o + 0x26] + 16777216 * d[o
                    + 0x27]) as u32,
                corrector: letter,
            },
        )
    } else if kind == 0xB0 {
        Some(Tool { number: ((d[o + 0x26] + 256 * d[o + 0x27]) * 1000) as u32, corrector: letter })
    } else if kind == 0xC0 {
        Some(Tool { number: (0xFFFF0000 + d[o + 0x08] + 256 * d[o + 0x09]) as u32, corrector: letter })
    } else {
        None
    }
}

/// Some section of the data yields this tool.
pub open spec fn yielded_by_some_section(d: Seq<u8>, t: Tool) -> bool {
    exists|k: int| 0 <= k && 100 * k + 100 <= d.len() && tool_of_section_bytes(d, k) == Some(t)
}

proof fn lemma_key_decodes(number: nat, c: u8)
    requires
        number <= u32::MAX,
    ensures
        tool_key(number, c as nat) <= u64::MAX,
        key_tool(tool_key(number, c as nat) as u64) == (Tool {
            number: number as u32,
            corrector: Some(corrector_letter(c)),
        }),
{
    let k = tool_key(number, c as nat);
    assert(k / 256 == number && k % 256 == c) by (nonlinear_arith)
        requires
            k == number * 256 + c,
            0 <= c < 256,
    ;
}

/// Every section that names a tool or a probe gives a tool of the result,
/// and every tool of the result comes from such a section.
pub proof fn law_maz_tools_from_sections(d: Seq<u8>, tools: Seq<Tool>)
    requires
        is_parse_of(d, tools),
    ensures
        forall|k: int|
            0 <= k && 100 * k + 100 <= d.len() && (#[trigger] tool_of_section_bytes(d, k))
                is Some ==> tools.contains(tool_of_section_bytes(d, k)->0),
        forall|i: int| 0 <= i < tools.len() ==> yielded_by_some_section(d, #[trigger] tools[i]),
{
    let keys = choose|keys: Seq<u64>|
        {
            &&& strictly_increasing(keys)
            &&& keys.to_set() == maz_keys(d)
            &&& tools == keys.map_values(|k: u64| key_tool(k))
        };
    assert forall|k: int|
        0 <= k && 100 * k + 100 <= d.len() && (#[trigger] tool_of_section_bytes(d, k))
            is Some implies tools.contains(tool_of_section_bytes(d, k)->0) by {
        let o = 100 * k;
        assert(section_in_data(d, k));
        assert(u32_le(d, o + 0x24) <= u32::MAX);
        assert(u16_le(d, o + 0x26) * 1000 <= 65535 * 1000) by (nonlinear_arith)
            requires
                u16_le(d, o + 0x26) <= 65535,
        ;
        let number = section_number(d, o);
        lemma_key_decodes(number, d[o + 0x0B]);
        let key = tool_key(number, d[o + 0x0B] as nat) as u64;
        assert(section_key(d, k) == Some(key));
        assert(maz_keys(d).contains(key));
        assert(keys.to_set().contains(key));
        let i = choose|i: int| 0 <= i < keys.len() && keys[i] == key;
        assert(tools[i] == key_tool(key));
        assert(tools[i] == tool_of_section_bytes(d, k)->0);
    }
    assert forall|i: int| 0 <= i < tools.len() implies yielded_by_some_section(
        d,
        #[trigger] tools[i],
    ) by {
        assert(keys.to_set().contains(keys[i]));
        assert(maz_keys(d).contains(keys[i]));
        let w = choose|w: int| section_in_data(d, w) && section_key(d, w) == Some(keys[i]);
        let o = 100 * w;
        assert(u32_le(d, o + 0x24) <= u32::MAX);
        assert(u16_le(d, o + 0x26) * 1000 <= 65535 * 1000) by (nonlinear_arith)
            requires
                u16_le(d, o + 0x26) <= 65535,
        ;
        lemma_key_decodes(section_number(d, o), d[o + 0x0B]);
        assert(tools[i] == key_tool(keys[i]));
        assert(0 <= w && 100 * w + 100 <= d.len() && tool_of_section_bytes(d, w) == Some(tools[i]));
    }
}

} // verus!
