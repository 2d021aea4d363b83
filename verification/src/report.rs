//! What the scanner shows and writes: the text of tools, programs, parts,
//! groups and machines, the progress line of a machine, the archive totals
//! and the rows of the CSV report.
use vstd::prelude::*;

use crate::data::{
    count_parts_in_groups, count_programs_in_groups, parts_in_groups, programs_in_groups, Machine,
    Part, PartGroup, Program, Tool,
};
use crate::text::{
    chars_of, decimal, decimal_chars, law_decimal_round_trip, pad_left, pad_left_exec, pad_right,
    pad_right_exec, parse_u32_spec, string_from_chars,
};

verus! {

/// The text of a tool: `T` and the number for G-code, the number and the
/// corrector letter for Mazatrol.
pub open spec fn tool_text(t: Tool) -> Seq<char> {
    match t.corrector {
        Some(c) => decimal(t.number as nat).push(c),
        None => seq!['T'] + decimal(t.number as nat),
    }
}

/// The items joined with `sep` between neighbours.
pub open spec fn join_chars(items: Seq<Seq<char>>, sep: Seq<char>) -> Seq<char>
    decreases items.len(),
{
    if items.len() == 0 {
        Seq::empty()
    } else if items.len() == 1 {
        items[0]
    } else {
        join_chars(items.drop_last(), sep) + sep + items.last()
    }
}

/// The texts of a list of tools.
pub open spec fn tool_texts(tools: Seq<Tool>) -> Seq<Seq<char>> {
    tools.map_values(|t: Tool| tool_text(t))
}

/// The text of a program: its name, the tool count and, when there are
/// tools, the list of their texts.
pub open spec fn program_text(p: Program) -> Seq<char> {
    let head = p.name@ + " ["@ + decimal(p.tools@.len()) + " инстр.]"@;
    if p.tools@.len() == 0 {
        head
    } else {
        head + " → "@ + join_chars(tool_texts(p.tools@), ", "@)
    }
}

/// One line of a part's listing: the tree branch, the program, a newline.
pub open spec fn program_line(p: Program, last: bool) -> Seq<char> {
    (if last {
        "        └──"@
    } else {
        "        ├──"@
    }) + " "@ + program_text(p) + "\n"@
}

/// The listing lines of the first programs of a part that has `count` programs.
pub open spec fn program_lines(programs: Seq<Program>, count: nat) -> Seq<char>
    decreases programs.len(),
{
    if programs.len() == 0 {
        Seq::empty()
    } else {
        program_lines(programs.drop_last(), count) + program_line(
            programs.last(),
            programs.len() == count,
        )
    }
}

/// The text of a part: its name on a line, then one line per program.
pub open spec fn part_text(p: Part) -> Seq<char> {
    p.name@ + "\n"@ + program_lines(p.programs@, p.programs@.len())
}

/// The text of a group: its name and its average, on one line.
pub open spec fn group_text(g: PartGroup) -> Seq<char> {
    "  📂 "@ + g.name@ + " (В среднем инструмента на программу: "@ + decimal(
        g.avg_tools_count as nat,
    ) + ")\n"@
}

/// The texts of a list of groups, one after the other.
pub open spec fn groups_text(groups: Seq<PartGroup>) -> Seq<char>
    decreases groups.len(),
{
    if groups.len() == 0 {
        Seq::empty()
    } else {
        groups_text(groups.drop_last()) + group_text(groups.last())
    }
}

/// The text of a machine: its name on a line, then each group's line.
pub open spec fn machine_text(m: Machine) -> Seq<char> {
    "🔧 "@ + m.name@ + "\n"@ + groups_text(m.part_groups@)
}

fn tool_chars(t: &Tool) -> (r: Vec<char>)
    ensures
        r@ == tool_text(*t),
{
    match t.corrector {
        Some(c) => {
            let mut r = decimal_chars(t.number as u64);
            r.push(c);
            r
        },
        None => {
            let mut r: Vec<char> = Vec::new();
            r.push('T');
            let mut digits = decimal_chars(t.number as u64);
            r.append(&mut digits);
            assert(r@ =~= seq!['T'] + decimal(t.number as nat));
            r
        },
    }
}

fn push_str(buf: &mut Vec<char>, s: &str)
    ensures
        final(buf)@ == old(buf)@ + s@,
{
    let mut tail = chars_of(s);
    buf.append(&mut tail);
}

fn program_chars(p: &Program) -> (r: Vec<char>)
    ensures
        r@ == program_text(*p),
{
    let mut r = chars_of(p.name.as_str());
    push_str(&mut r, " [");
    let mut count = decimal_chars(p.tools.len() as u64);
    r.append(&mut count);
    push_str(&mut r, " инстр.]");
    let ghost head = r@;
    if p.tools.len() > 0 {
        push_str(&mut r, " → ");
        let ghost prefix = r@;
        let ghost texts = tool_texts(p.tools@);
        let mut i: usize = 0;
        while i < p.tools.len()
            invariant
                i <= p.tools.len(),
                p.tools.len() > 0,
                texts == tool_texts(p.tools@),
                i == 0 ==> r@ == prefix,
                i > 0 ==> r@ == prefix + join_chars(texts.take(i as int), ", "@),
            decreases p.tools.len() - i,
        {
            if i > 0 {
                push_str(&mut r, ", ");
            }
            let mut t = tool_chars(&p.tools[i]);
            r.append(&mut t);
            proof {
                let tk = texts.take(i + 1);
                assert(tk.last() == tool_text(p.tools@[i as int]));
                if i == 0 {
                    assert(tk.len() == 1);
                } else {
                    assert(tk.drop_last() =~= texts.take(i as int));
                }
            }
            i = i + 1;
        }
        assert(texts.take(i as int) =~= texts);
    }
    r
}

impl Tool {
    /// The tool as the report shows it (`T12`, or `25000A` with a corrector).
    pub fn to_text(&self) -> (r: String)
        ensures
            r@ == tool_text(*self),
    {
        let c = tool_chars(self);
        string_from_chars(c.as_slice())
    }
}

impl Program {
    /// The program's line of the report.
    pub fn to_text(&self) -> (r: String)
        ensures
            r@ == program_text(*self),
    {
        let c = program_chars(self);
        string_from_chars(c.as_slice())
    }
}

impl Part {
    /// The part's name and the tree of its programs.
    pub fn to_text(&self) -> (r: String)
        ensures
            r@ == part_text(*self),
    {
        let mut r = chars_of(self.name.as_str());
        push_str(&mut r, "\n");
        let ghost prefix = r@;
        let count = self.programs.len();
        let mut i: usize = 0;
        while i < count
            invariant
                i <= count,
                count == self.programs@.len(),
                r@ == prefix + program_lines(self.programs@.take(i as int), count as nat),
            decreases count - i,
        {
            if i == count - 1 {
                push_str(&mut r, "        └──");
            } else {
                push_str(&mut r, "        ├──");
            }
            push_str(&mut r, " ");
            let mut line = program_chars(&self.programs[i]);
            r.append(&mut line);
            push_str(&mut r, "\n");
            assert(self.programs@.take(i + 1).drop_last() =~= self.programs@.take(i as int));
            i = i + 1;
        }
        assert(self.programs@.take(i as int) =~= self.programs@);
        string_from_chars(r.as_slice())
    }
}

fn group_chars(g: &PartGroup) -> (r: Vec<char>)
    ensures
        r@ == group_text(*g),
{
    let mut r = chars_of("  📂 ");
    let mut name = chars_of(g.name.as_str());
    r.append(&mut name);
    push_str(&mut r, " (В среднем инструмента на программу: ");
    let mut avg = decimal_chars(g.avg_tools_count as u64);
    r.append(&mut avg);
    push_str(&mut r, ")\n");
    r
}

impl PartGroup {
    /// The group's line of the report.
    pub fn to_text(&self) -> (r: String)
        ensures
            r@ == group_text(*self),
    {
        let c = group_chars(self);
        string_from_chars(c.as_slice())
    }
}

impl Machine {
    /// The machine's name and the lines of its groups.
    pub fn to_text(&self) -> (r: String)
        ensures
            r@ == machine_text(*self),
    {
        let mut r = chars_of("🔧 ");
        let mut name = chars_of(self.name.as_str());
        r.append(&mut name);
        push_str(&mut r, "\n");
        let ghost prefix = r@;
        let groups = &self.part_groups;
        let mut i: usize = 0;
        while i < groups.len()
            invariant
                i <= groups.len(),
                r@ == prefix + groups_text(groups@.take(i as int)),
            decreases groups.len() - i,
        {
            let mut g = group_chars(&groups[i]);
            r.append(&mut g);
            assert(groups@.take(i + 1).drop_last() =~= groups@.take(i as int));
            i = i + 1;
        }
        assert(groups@.take(i as int) =~= groups@);
        string_from_chars(r.as_slice())
    }
}

/// The progress line of a finished machine: its group, part and program
/// counts, right-aligned in fields of 3, 4 and 5 characters.
pub open spec fn progress_text(groups: Seq<PartGroup>) -> Seq<char> {
    "✓  "@ + pad_left(decimal(groups.len()), 3) + " групп, "@ + pad_left(
        decimal(parts_in_groups(groups)),
        4,
    ) + " деталей, "@ + pad_left(decimal(programs_in_groups(groups)), 5) + " программ"@
}

/// The progress line of a machine whose groups have been found.
pub fn progress_summary(groups: &Vec<PartGroup>) -> (r: String)
    requires
        parts_in_groups(groups@) <= usize::MAX,
        programs_in_groups(groups@) <= usize::MAX,
    ensures
        r@ == progress_text(groups@),
{
    let mut r = chars_of("✓  ");
    let mut a = pad_left_exec(&decimal_chars(groups.len() as u64), 3);
    r.append(&mut a);
    push_str(&mut r, " групп, ");
    let parts = count_parts_in_groups(groups);
    let mut b = pad_left_exec(&decimal_chars(parts as u64), 4);
    r.append(&mut b);
    push_str(&mut r, " деталей, ");
    let programs = count_programs_in_groups(groups);
    let mut c = pad_left_exec(&decimal_chars(programs as u64), 5);
    r.append(&mut c);
    push_str(&mut r, " программ");
    string_from_chars(r.as_slice())
}

/// The name of a machine, left-aligned in a field of 30 characters, as the
/// progress line shows it.
pub fn progress_prefix(name: &str) -> (r: String)
    ensures
        r@ == pad_right(name@, 30),
{
    let c = pad_right_exec(&chars_of(name), 30);
    string_from_chars(c.as_slice())
}

/// Number of groups over a list of machines.
pub open spec fn groups_in_machines(ms: Seq<Machine>) -> nat
    decreases ms.len(),
{
    if ms.len() == 0 {
        0
    } else {
        groups_in_machines(ms.drop_last()) + ms.last().part_groups@.len()
    }
}

/// Number of parts over a list of machines.
pub open spec fn parts_in_machines(ms: Seq<Machine>) -> nat
    decreases ms.len(),
{
    if ms.len() == 0 {
        0
    } else {
        parts_in_machines(ms.drop_last()) + parts_in_groups(ms.last().part_groups@)
    }
}

/// Number of programs over a list of machines.
pub open spec fn programs_in_machines(ms: Seq<Machine>) -> nat
    decreases ms.len(),
{
    if ms.len() == 0 {
        0
    } else {
        programs_in_machines(ms.drop_last()) + programs_in_groups(ms.last().part_groups@)
    }
}

proof fn lemma_machine_totals_prefix(ms: Seq<Machine>, k: int)
    requires
        0 <= k <= ms.len(),
    ensures
        groups_in_machines(ms.take(k)) <= groups_in_machines(ms),
        parts_in_machines(ms.take(k)) <= parts_in_machines(ms),
        programs_in_machines(ms.take(k)) <= programs_in_machines(ms),
    decreases ms.len(),
{
    if k < ms.len() {
        assert(ms.drop_last().take(k) =~= ms.take(k));
        lemma_machine_totals_prefix(ms.drop_last(), k);
    } else {
        assert(ms.take(k) =~= ms);
    }
}

/// The counts that close the report.
pub struct ArchiveTotals {
    pub machines: usize,
    pub groups: usize,
    pub parts: usize,
    pub programs: usize,
}

/// Counts the machines, groups, parts and programs of a scan.
pub fn archive_totals(machines: &Vec<Machine>) -> (r: ArchiveTotals)
    requires
        groups_in_machines(machines@) <= usize::MAX,
        parts_in_machines(machines@) <= usize::MAX,
        programs_in_machines(machines@) <= usize::MAX,
    ensures
        r.machines == machines@.len(),
        r.groups == groups_in_machines(machines@),
        r.parts == parts_in_machines(machines@),
        r.programs == programs_in_machines(machines@),
{
    let mut groups: usize = 0;
    let mut parts: usize = 0;
    let mut programs: usize = 0;
    let mut i: usize = 0;
    while i < machines.len()
        invariant
            i <= machines.len(),
            groups_in_machines(machines@) <= usize::MAX,
            parts_in_machines(machines@) <= usize::MAX,
            programs_in_machines(machines@) <= usize::MAX,
            groups == groups_in_machines(machines@.take(i as int)),
            parts == parts_in_machines(machines@.take(i as int)),
            programs == programs_in_machines(machines@.take(i as int)),
        decreases machines.len() - i,
    {
        assert(machines@.take(i + 1).drop_last() =~= machines@.take(i as int));
        proof {
            lemma_machine_totals_prefix(machines@, i + 1);
        }
        let m = &machines[i];
        groups = groups + m.part_groups.len();
        let p = m.parts_count();
        parts = parts + p;
        let q = m.programs_count();
        programs = programs + q;
        i = i + 1;
    }
    assert(machines@.take(i as int) =~= machines@);
    ArchiveTotals { machines: machines.len(), groups, parts, programs }
}

/// A row of the short CSV report: one per group.
pub struct CsvRow {
    pub machine: String,
    pub group: String,
    pub avg_programs: usize,
}

/// A row of the full CSV report: one per part.
pub struct CsvFullRow {
    pub machine: String,
    pub group: String,
    pub part: String,
    pub avg_programs: usize,
}

/// What a short row holds.
pub open spec fn row_view(r: CsvRow) -> (Seq<char>, Seq<char>, usize) {
    (r.machine@, r.group@, r.avg_programs)
}

/// What a full row holds.
pub open spec fn full_row_view(r: CsvFullRow) -> (Seq<char>, Seq<char>, Seq<char>, usize) {
    (r.machine@, r.group@, r.part@, r.avg_programs)
}

/// The short rows of a machine's groups.
pub open spec fn group_rows(machine: Seq<char>, groups: Seq<PartGroup>) -> Seq<
    (Seq<char>, Seq<char>, usize),
>
    decreases groups.len(),
{
    if groups.len() == 0 {
        Seq::empty()
    } else {
        group_rows(machine, groups.drop_last()).push(
            (machine, groups.last().name@, groups.last().avg_tools_count),
        )
    }
}

/// The short rows of a list of machines: machine by machine, group by group.
pub open spec fn summary_rows(ms: Seq<Machine>) -> Seq<(Seq<char>, Seq<char>, usize)>
    decreases ms.len(),
{
    if ms.len() == 0 {
        Seq::empty()
    } else {
        summary_rows(ms.drop_last()) + group_rows(ms.last().name@, ms.last().part_groups@)
    }
}

/// The full rows of a group's parts.
pub open spec fn part_rows(machine: Seq<char>, group: PartGroup, parts: Seq<Part>) -> Seq<
    (Seq<char>, Seq<char>, Seq<char>, usize),
>
    decreases parts.len(),
{
    if parts.len() == 0 {
        Seq::empty()
    } else {
        part_rows(machine, group, parts.drop_last()).push(
            (machine, group.name@, parts.last().name@, group.avg_tools_count),
        )
    }
}

/// The full rows of a machine's groups.
pub open spec fn group_full_rows(machine: Seq<char>, groups: Seq<PartGroup>) -> Seq<
    (Seq<char>, Seq<char>, Seq<char>, usize),
>
    decreases groups.len(),
{
    if groups.len() == 0 {
        Seq::empty()
    } else {
        group_full_rows(machine, groups.drop_last()) + part_rows(
            machine,
            groups.last(),
            groups.last().parts@,
        )
    }
}

/// The full rows of a list of machines: machine by machine, group by
/// group, part by part.
pub open spec fn full_rows(ms: Seq<Machine>) -> Seq<(Seq<char>, Seq<char>, Seq<char>, usize)>
    decreases ms.len(),
{
    if ms.len() == 0 {
        Seq::empty()
    } else {
        full_rows(ms.drop_last()) + group_full_rows(ms.last().name@, ms.last().part_groups@)
    }
}

/// The rows of the short CSV report.
pub fn csv_rows(machines: &Vec<Machine>) -> (r: Vec<CsvRow>)
    ensures
        r@.map_values(|x: CsvRow| row_view(x)) == summary_rows(machines@),
{
    let mut out: Vec<CsvRow> = Vec::new();
    let mut i: usize = 0;
    while i < machines.len()
        invariant
            i <= machines.len(),
            out@.map_values(|x: CsvRow| row_view(x)) == summary_rows(machines@.take(i as int)),
        decreases machines.len() - i,
    {
        let m = &machines[i];
        let ghost start = out@.map_values(|x: CsvRow| row_view(x));
        let mut j: usize = 0;
        while j < m.part_groups.len()
            invariant
                j <= m.part_groups.len(),
                out@.map_values(|x: CsvRow| row_view(x)) == start + group_rows(
                    m.name@,
                    m.part_groups@.take(j as int),
                ),
            decreases m.part_groups.len() - j,
        {
            let g = &m.part_groups[j];
            let ghost before = out@;
            out.push(
                CsvRow {
                    machine: m.name.clone(),
                    group: g.name.clone(),
                    avg_programs: g.avg_tools_count,
                },
            );
            assert(m.part_groups@.take(j + 1).drop_last() =~= m.part_groups@.take(j as int));
            assert(out@.map_values(|x: CsvRow| row_view(x)) =~= before.map_values(
                |x: CsvRow| row_view(x),
            ).push(row_view(out@.last())));
            j = j + 1;
        }
        assert(m.part_groups@.take(j as int) =~= m.part_groups@);
        assert(machines@.take(i + 1).drop_last() =~= machines@.take(i as int));
        i = i + 1;
    }
    assert(machines@.take(i as int) =~= machines@);
    out
}

/// The rows of the full CSV report.
pub fn csv_full_rows(machines: &Vec<Machine>) -> (r: Vec<CsvFullRow>)
    ensures
        r@.map_values(|x: CsvFullRow| full_row_view(x)) == full_rows(machines@),
{
    let mut out: Vec<CsvFullRow> = Vec::new();
    let mut i: usize = 0;
    while i < machines.len()
        invariant
            i <= machines.len(),
            out@.map_values(|x: CsvFullRow| full_row_view(x)) == full_rows(
                machines@.take(i as int),
            ),
        decreases machines.len() - i,
    {
        let m = &machines[i];
        let ghost start = out@.map_values(|x: CsvFullRow| full_row_view(x));
        let mut j: usize = 0;
        while j < m.part_groups.len()
            invariant
                j <= m.part_groups.len(),
                out@.map_values(|x: CsvFullRow| full_row_view(x)) == start + group_full_rows(
                    m.name@,
                    m.part_groups@.take(j as int),
                ),
            decreases m.part_groups.len() - j,
        {
            let g = &m.part_groups[j];
            let ghost gstart = out@.map_values(|x: CsvFullRow| full_row_view(x));
            let mut k: usize = 0;
            while k < g.parts.len()
                invariant
                    k <= g.parts.len(),
                    out@.map_values(|x: CsvFullRow| full_row_view(x)) == gstart + part_rows(
                        m.name@,
                        *g,
                        g.parts@.take(k as int),
                    ),
                decreases g.parts.len() - k,
            {
                let ghost before = out@;
                out.push(
                    CsvFullRow {
                        machine: m.name.clone(),
                        group: g.name.clone(),
                        part: g.parts[k].name.clone(),
                        avg_programs: g.avg_tools_count,
                    },
                );
                assert(g.parts@.take(k + 1).drop_last() =~= g.parts@.take(k as int));
                assert(out@.map_values(|x: CsvFullRow| full_row_view(x)) =~= before.map_values(
                    |x: CsvFullRow| full_row_view(x),
                ).push(full_row_view(out@.last())));
                k = k + 1;
            }
            assert(g.parts@.take(k as int) =~= g.parts@);
            assert(m.part_groups@.take(j + 1).drop_last() =~= m.part_groups@.take(j as int));
            j = j + 1;
        }
        assert(m.part_groups@.take(j as int) =~= m.part_groups@);
        assert(machines@.take(i + 1).drop_last() =~= machines@.take(i as int));
        i = i + 1;
    }
    assert(machines@.take(i as int) =~= machines@);
    out
}

proof fn lemma_group_rows_len(machine: Seq<char>, groups: Seq<PartGroup>)
    ensures
        group_rows(machine, groups).len() == groups.len(),
        group_full_rows(machine, groups).len() == parts_in_groups(groups),
    decreases groups.len(),
{
    if groups.len() > 0 {
        lemma_group_rows_len(machine, groups.drop_last());
        lemma_part_rows_len(machine, groups.last(), groups.last().parts@);
    }
}

proof fn lemma_part_rows_len(machine: Seq<char>, group: PartGroup, parts: Seq<Part>)
    ensures
        part_rows(machine, group, parts).len() == parts.len(),
    decreases parts.len(),
{
    if parts.len() > 0 {
        lemma_part_rows_len(machine, group, parts.drop_last());
    }
}

/// The short CSV report has one row per group and the full one a row per
/// part, so their lengths are the totals of the scan.
pub proof fn law_csv_row_counts(ms: Seq<Machine>)
    ensures
        summary_rows(ms).len() == groups_in_machines(ms),
        full_rows(ms).len() == parts_in_machines(ms),
    decreases ms.len(),
{
    if ms.len() > 0 {
        law_csv_row_counts(ms.drop_last());
        lemma_group_rows_len(ms.last().name@, ms.last().part_groups@);
    }
}

/// The group lines of a machine, one per group, in order: the text of the
/// groups is the concatenation of every group's line.
pub proof fn law_groups_text_lists_every_group(groups: Seq<PartGroup>)
    ensures
        groups_text(groups) == Seq::new(groups.len(), |i: int| group_text(groups[i])).flatten(),
    decreases groups.len(),
{
    broadcast use Seq::lemma_flatten_push;

    if groups.len() > 0 {
        law_groups_text_lists_every_group(groups.drop_last());
        assert(Seq::new(groups.len(), |i: int| group_text(groups[i])) =~= Seq::new(
            groups.drop_last().len(),
            |i: int| group_text(groups.drop_last()[i]),
        ).push(group_text(groups.last())));
    } else {
        assert(Seq::new(groups.len(), |i: int| group_text(groups[i])) =~= Seq::<Seq<char>>::empty());
    }
}

/// A machine's text is its header line followed by the line of every group,
/// in order.
pub proof fn law_machine_text_lists_every_group(m: Machine)
    ensures
        machine_text(m) == "🔧 "@ + m.name@ + "\n"@ + Seq::new(
            m.part_groups@.len(),
            |i: int| group_text(m.part_groups@[i]),
        ).flatten(),
{
    law_groups_text_lists_every_group(m.part_groups@);
}

/// The program lines of a part with `count` programs: one per program, in
/// order, the one at position `count - 1` drawn as the last branch.
pub proof fn law_program_lines_list_every_program(programs: Seq<Program>, count: nat)
    ensures
        program_lines(programs, count) == Seq::new(
            programs.len(),
            |i: int| program_line(programs[i], i + 1 == count),
        ).flatten(),
    decreases programs.len(),
{
    broadcast use Seq::lemma_flatten_push;

    if programs.len() > 0 {
        law_program_lines_list_every_program(programs.drop_last(), count);
        assert(Seq::new(programs.len(), |i: int| program_line(programs[i], i + 1 == count))
            =~= Seq::new(
            programs.drop_last().len(),
            |i: int| program_line(programs.drop_last()[i], i + 1 == count),
        ).push(program_line(programs.last(), programs.len() == count)));
    } else {
        assert(Seq::new(programs.len(), |i: int| program_line(programs[i], i + 1 == count))
            =~= Seq::<Seq<char>>::empty());
    }
}

/// A part's text is its name line followed by one line per program, in
/// order; only the last program's line is drawn as the last branch.
pub proof fn law_part_text_lists_every_program(p: Part)
    ensures
        part_text(p) == p.name@ + "\n"@ + Seq::new(
            p.programs@.len(),
            |i: int| program_line(p.programs@[i], i + 1 == p.programs@.len()),
        ).flatten(),
{
    law_program_lines_list_every_program(p.programs@, p.programs@.len());
}

/// Joining puts the separator between neighbours and nowhere else: the
/// first item, then the separator and the item for each further one.
pub proof fn law_join_lists_every_item(items: Seq<Seq<char>>, sep: Seq<char>)
    requires
        items.len() > 0,
    ensures
        join_chars(items, sep) == items[0] + Seq::new(
            (items.len() - 1) as nat,
            |i: int| sep + items[i + 1],
        ).flatten(),
    decreases items.len(),
{
    broadcast use Seq::lemma_flatten_push;

    if items.len() == 1 {
        assert(Seq::new((items.len() - 1) as nat, |i: int| sep + items[i + 1])
            =~= Seq::<Seq<char>>::empty());
    } else {
        law_join_lists_every_item(items.drop_last(), sep);
        assert(Seq::new((items.len() - 1) as nat, |i: int| sep + items[i + 1]) =~= Seq::new(
            (items.drop_last().len() - 1) as nat,
            |i: int| sep + items.drop_last()[i + 1],
        ).push(sep + items.last()));
    }
}

/// The short CSV rows of a machine: one per group, in order, with the
/// machine's name, the group's name and its average.
pub proof fn law_group_rows_one_per_group(machine: Seq<char>, groups: Seq<PartGroup>)
    ensures
        group_rows(machine, groups) == Seq::new(
            groups.len(),
            |i: int| (machine, groups[i].name@, groups[i].avg_tools_count),
        ),
    decreases groups.len(),
{
    if groups.len() > 0 {
        law_group_rows_one_per_group(machine, groups.drop_last());
    }
    assert(group_rows(machine, groups) =~= Seq::new(
        groups.len(),
        |i: int| (machine, groups[i].name@, groups[i].avg_tools_count),
    ));
}

/// The short CSV rows of all machines are each machine's group rows, in order.
pub proof fn law_summary_rows_per_machine(ms: Seq<Machine>)
    ensures
        summary_rows(ms) == Seq::new(
            ms.len(),
            |i: int| group_rows(ms[i].name@, ms[i].part_groups@),
        ).flatten(),
    decreases ms.len(),
{
    broadcast use Seq::lemma_flatten_push;

    if ms.len() > 0 {
        law_summary_rows_per_machine(ms.drop_last());
        assert(Seq::new(ms.len(), |i: int| group_rows(ms[i].name@, ms[i].part_groups@)) =~= Seq::new(
            ms.drop_last().len(),
            |i: int| group_rows(ms.drop_last()[i].name@, ms.drop_last()[i].part_groups@),
        ).push(group_rows(ms.last().name@, ms.last().part_groups@)));
    } else {
        assert(Seq::new(ms.len(), |i: int| group_rows(ms[i].name@, ms[i].part_groups@))
            =~= Seq::<Seq<(Seq<char>, Seq<char>, usize)>>::empty());
    }
}

/// The full CSV rows of a group: one per part, in order, with the machine's
/// name, the group's name, the part's name and the group's average.
pub proof fn law_part_rows_one_per_part(machine: Seq<char>, group: PartGroup, parts: Seq<Part>)
    ensures
        part_rows(machine, group, parts) == Seq::new(
            parts.len(),
            |i: int| (machine, group.name@, parts[i].name@, group.avg_tools_count),
        ),
    decreases parts.len(),
{
    if parts.len() > 0 {
        law_part_rows_one_per_part(machine, group, parts.drop_last());
    }
    assert(part_rows(machine, group, parts) =~= Seq::new(
        parts.len(),
        |i: int| (machine, group.name@, parts[i].name@, group.avg_tools_count),
    ));
}

/// The text of a tool reads back: a G-code tool's text is `T` and digits
/// that read as its number; a Mazatrol tool's text is digits that read as its
/// number, then its corrector letter.
pub proof fn law_tool_text_reads_back(t: Tool)
    ensures
        t.corrector is None ==> tool_text(t)[0] == 'T' && parse_u32_spec(tool_text(t).drop_first())
            == Some(t.number),
        t.corrector matches Some(c) ==> tool_text(t).last() == c && parse_u32_spec(
            tool_text(t).drop_last(),
        ) == Some(t.number),
{
    law_decimal_round_trip(t.number);
    match t.corrector {
        Some(c) => {
            assert(tool_text(t).drop_last() =~= decimal(t.number as nat));
        },
        None => {
            assert(tool_text(t).drop_first() =~= decimal(t.number as nat));
        },
    }
}

/// Counting the groups of a list of machines: a machine counts its own,
/// and the count of two lists one after the other is the sum of their counts.
pub proof fn law_groups_in_machines_adds_up(a: Seq<Machine>, b: Seq<Machine>, x: Machine)
    ensures
        groups_in_machines(a + b) == groups_in_machines(a) + groups_in_machines(b),
        groups_in_machines(seq![x]) == x.part_groups@.len(),
    decreases b.len(),
{
    if b.len() > 0 {
        law_groups_in_machines_adds_up(a, b.drop_last(), x);
        assert((a + b).drop_last() =~= a + b.drop_last());
        assert((a + b).last() == b.last());
    } else {
        assert(a + b =~= a);
    }
    assert(seq![x].drop_last() =~= Seq::<Machine>::empty());
    assert(seq![x].last() == x);
    assert(groups_in_machines(seq![x].drop_last()) == 0);
}

/// Counting the parts of a list of machines: a machine counts its own,
/// and the count of two lists one after the other is the sum of their counts.
pub proof fn law_parts_in_machines_adds_up(a: Seq<Machine>, b: Seq<Machine>, x: Machine)
    ensures
        parts_in_machines(a + b) == parts_in_machines(a) + parts_in_machines(b),
        parts_in_machines(seq![x]) == parts_in_groups(x.part_groups@),
    decreases b.len(),
{
    if b.len() > 0 {
        law_parts_in_machines_adds_up(a, b.drop_last(), x);
        assert((a + b).drop_last() =~= a + b.drop_last());
        assert((a + b).last() == b.last());
    } else {
        assert(a + b =~= a);
    }
    assert(seq![x].drop_last() =~= Seq::<Machine>::empty());
    assert(seq![x].last() == x);
    assert(parts_in_machines(seq![x].drop_last()) == 0);
}

/// Counting the programs of a list of machines: a machine counts its own,
/// and the count of two lists one after the other is the sum of their counts.
pub proof fn law_programs_in_machines_adds_up(a: Seq<Machine>, b: Seq<Machine>, x: Machine)
    ensures
        programs_in_machines(a + b) == programs_in_machines(a) + programs_in_machines(b),
        programs_in_machines(seq![x]) == programs_in_groups(x.part_groups@),
    decreases b.len(),
{
    if b.len() > 0 {
        law_programs_in_machines_adds_up(a, b.drop_last(), x);
        assert((a + b).drop_last() =~= a + b.drop_last());
        assert((a + b).last() == b.last());
    } else {
        assert(a + b =~= a);
    }
    assert(seq![x].drop_last() =~= Seq::<Machine>::empty());
    assert(seq![x].last() == x);
    assert(programs_in_machines(seq![x].drop_last()) == 0);
}

/// The full CSV rows of a machine are each group's part rows, in order.
pub proof fn law_group_full_rows_per_group(machine: Seq<char>, groups: Seq<PartGroup>)
    ensures
        group_full_rows(machine, groups) == Seq::new(
            groups.len(),
            |i: int| part_rows(machine, groups[i], groups[i].parts@),
        ).flatten(),
    decreases groups.len(),
{
    broadcast use Seq::lemma_flatten_push;

    if groups.len() > 0 {
        law_group_full_rows_per_group(machine, groups.drop_last());
        assert(Seq::new(groups.len(), |i: int| part_rows(machine, groups[i], groups[i].parts@))
            =~= Seq::new(
            groups.drop_last().len(),
            |i: int| part_rows(machine, groups.drop_last()[i], groups.drop_last()[i].parts@),
        ).push(part_rows(machine, groups.last(), groups.last().parts@)));
    } else {
        assert(Seq::new(groups.len(), |i: int| part_rows(machine, groups[i], groups[i].parts@))
            =~= Seq::<Seq<(Seq<char>, Seq<char>, Seq<char>, usize)>>::empty());
    }
}

/// The full CSV rows of all machines are each machine's rows, in order.
pub proof fn law_full_rows_per_machine(ms: Seq<Machine>)
    ensures
        full_rows(ms) == Seq::new(
            ms.len(),
            |i: int| group_full_rows(ms[i].name@, ms[i].part_groups@),
        ).flatten(),
    decreases ms.len(),
{
    broadcast use Seq::lemma_flatten_push;

    if ms.len() > 0 {
        law_full_rows_per_machine(ms.drop_last());
        assert(Seq::new(ms.len(), |i: int| group_full_rows(ms[i].name@, ms[i].part_groups@))
            =~= Seq::new(
            ms.drop_last().len(),
            |i: int| group_full_rows(ms.drop_last()[i].name@, ms.drop_last()[i].part_groups@),
        ).push(group_full_rows(ms.last().name@, ms.last().part_groups@)));
    } else {
        assert(Seq::new(ms.len(), |i: int| group_full_rows(ms[i].name@, ms[i].part_groups@))
            =~= Seq::<Seq<(Seq<char>, Seq<char>, Seq<char>, usize)>>::empty());
    }
}

/// A group's line shows the group's own name after the folder mark and its
/// stored average, in decimal, just before the closing `)` and newline.
pub proof fn law_group_line_shows_name_and_average(g: PartGroup)
    ensures
        group_text(g).subrange(0, ("  📂 "@.len() + g.name@.len()) as int) == "  📂 "@ + g.name@,
        group_text(g).subrange(
            group_text(g).len() - 2 - decimal(g.avg_tools_count as nat).len(),
            group_text(g).len() - 2,
        ) == decimal(g.avg_tools_count as nat),
        group_text(g).subrange(group_text(g).len() - 2, group_text(g).len() as int) == ")\n"@,
{
    reveal_strlit(")\n");
    let head = "  📂 "@ + g.name@;
    let mid = " (В среднем инструмента на программу: "@;
    let d = decimal(g.avg_tools_count as nat);
    let t = group_text(g);
    assert(t == head + mid + d + ")\n"@);
    assert(t.subrange(0, head.len() as int) =~= head);
    assert(t.subrange(t.len() - 2 - d.len(), t.len() - 2) =~= d);
    assert(t.subrange(t.len() - 2, t.len() as int) =~= ")\n"@);
}

} // verus!
