//! The inventory's data model: tools, programs, parts, part groups and
//! machines, with the counts and averages that the report shows.
use vstd::prelude::*;

use crate::text::{chars_of, contains_chars, contains_exec, occurs_at};

verus! {

/// The signs that mark a part directory: the number prefixes of the
/// Areopag, third-party and GOST drawings.
pub open spec fn part_dir_signs() -> Seq<Seq<char>> {
    seq![
        "АР"@,
        "АРМ"@,
        "АРКП"@,
        "АРПГА"@,
        "АРКО"@,
        "АРНП"@,
        "АТГ"@,
        "НМГ"@,
        "АМГ"@,
        "АРН"@,
        "АРС"@,
        "АРФС"@,
        "М8Л"@,
        "ТОС"@,
        "AP"@,
        "ТОМ3"@,
        "ИН0"@,
        "ИНО"@,
        "10-"@,
        "15-"@,
        "25-"@,
        "32-"@,
        "40-"@,
        "50-"@,
    ]
}

/// A directory name marks a part when it contains one of the signs.
pub open spec fn names_part_dir(name: Seq<char>) -> bool {
    exists|k: int| 0 <= k < part_dir_signs().len() && contains_chars(name, #[trigger] part_dir_signs()[k])
}

/// Each sign marks a part directory, and nothing else does: a name is a
/// part directory's exactly when it contains one of "АР", "АРМ", "АРКП",
/// "АРПГА", "АРКО", "АРНП", "АТГ", "НМГ", "АМГ", "АРН", "АРС", "АРФС", "М8Л",
/// "ТОС", "AP" (Latin), "ТОМ3", "ИН0", "ИНО", "10-", "15-", "25-", "32-",
/// "40-" or "50-".
pub proof fn law_part_dir_signs(name: Seq<char>)
    ensures
        contains_chars(name, "АР"@) ==> names_part_dir(name),
        contains_chars(name, "АРМ"@) ==> names_part_dir(name),
        contains_chars(name, "АРКП"@) ==> names_part_dir(name),
        contains_chars(name, "АРПГА"@) ==> names_part_dir(name),
        contains_chars(name, "АРКО"@) ==> names_part_dir(name),
        contains_chars(name, "АРНП"@) ==> names_part_dir(name),
        contains_chars(name, "АТГ"@) ==> names_part_dir(name),
        contains_chars(name, "НМГ"@) ==> names_part_dir(name),
        contains_chars(name, "АМГ"@) ==> names_part_dir(name),
        contains_chars(name, "АРН"@) ==> names_part_dir(name),
        contains_chars(name, "АРС"@) ==> names_part_dir(name),
        contains_chars(name, "АРФС"@) ==> names_part_dir(name),
        contains_chars(name, "М8Л"@) ==> names_part_dir(name),
        contains_chars(name, "ТОС"@) ==> names_part_dir(name),
        contains_chars(name, "AP"@) ==> names_part_dir(name),
        contains_chars(name, "ТОМ3"@) ==> names_part_dir(name),
        contains_chars(name, "ИН0"@) ==> names_part_dir(name),
        contains_chars(name, "ИНО"@) ==> names_part_dir(name),
        contains_chars(name, "10-"@) ==> names_part_dir(name),
        contains_chars(name, "15-"@) ==> names_part_dir(name),
        contains_chars(name, "25-"@) ==> names_part_dir(name),
        contains_chars(name, "32-"@) ==> names_part_dir(name),
        contains_chars(name, "40-"@) ==> names_part_dir(name),
        contains_chars(name, "50-"@) ==> names_part_dir(name),
        names_part_dir(name) ==> (contains_chars(name, "АР"@) || contains_chars(name, "АРМ"@) || contains_chars(name, "АРКП"@) || contains_chars(name, "АРПГА"@) || contains_chars(name, "АРКО"@) || contains_chars(name, "АРНП"@) || contains_chars(name, "АТГ"@) || contains_chars(name, "НМГ"@) || contains_chars(name, "АМГ"@) || contains_chars(name, "АРН"@) || contains_chars(name, "АРС"@) || contains_chars(name, "АРФС"@) || contains_chars(name, "М8Л"@) || contains_chars(name, "ТОС"@) || contains_chars(name, "AP"@) || contains_chars(name, "ТОМ3"@) || contains_chars(name, "ИН0"@) || contains_chars(name, "ИНО"@) || contains_chars(name, "10-"@) || contains_chars(name, "15-"@) || contains_chars(name, "25-"@) || contains_chars(name, "32-"@) || contains_chars(name, "40-"@) || contains_chars(name, "50-"@)),
{
    if contains_chars(name, "АР"@) {
        assert(contains_chars(name, part_dir_signs()[0]));
    }
    if contains_chars(name, "АРМ"@) {
        assert(contains_chars(name, part_dir_signs()[1]));
    }
    if contains_chars(name, "АРКП"@) {
        assert(contains_chars(name, part_dir_signs()[2]));
    }
    if contains_chars(name, "АРПГА"@) {
        assert(contains_chars(name, part_dir_signs()[3]));
    }
    if contains_chars(name, "АРКО"@) {
        assert(contains_chars(name, part_dir_signs()[4]));
    }
    if contains_chars(name, "АРНП"@) {
        assert(contains_chars(name, part_dir_signs()[5]));
    }
    if contains_chars(name, "АТГ"@) {
        assert(contains_chars(name, part_dir_signs()[6]));
    }
    if contains_chars(name, "НМГ"@) {
        assert(contains_chars(name, part_dir_signs()[7]));
    }
    if contains_chars(name, "АМГ"@) {
        assert(contains_chars(name, part_dir_signs()[8]));
    }
    if contains_chars(name, "АРН"@) {
        assert(contains_chars(name, part_dir_signs()[9]));
    }
    if contains_chars(name, "АРС"@) {
        assert(contains_chars(name, part_dir_signs()[10]));
    }
    if contains_chars(name, "АРФС"@) {
        assert(contains_chars(name, part_dir_signs()[11]));
    }
    if contains_chars(name, "М8Л"@) {
        assert(contains_chars(name, part_dir_signs()[12]));
    }
    if contains_chars(name, "ТОС"@) {
        assert(contains_chars(name, part_dir_signs()[13]));
    }
    if contains_chars(name, "AP"@) {
        assert(contains_chars(name, part_dir_signs()[14]));
    }
    if contains_chars(name, "ТОМ3"@) {
        assert(contains_chars(name, part_dir_signs()[15]));
    }
    if contains_chars(name, "ИН0"@) {
        assert(contains_chars(name, part_dir_signs()[16]));
    }
    if contains_chars(name, "ИНО"@) {
        assert(contains_chars(name, part_dir_signs()[17]));
    }
    if contains_chars(name, "10-"@) {
        assert(contains_chars(name, part_dir_signs()[18]));
    }
    if contains_chars(name, "15-"@) {
        assert(contains_chars(name, part_dir_signs()[19]));
    }
    if contains_chars(name, "25-"@) {
        assert(contains_chars(name, part_dir_signs()[20]));
    }
    if contains_chars(name, "32-"@) {
        assert(contains_chars(name, part_dir_signs()[21]));
    }
    if contains_chars(name, "40-"@) {
        assert(contains_chars(name, part_dir_signs()[22]));
    }
    if contains_chars(name, "50-"@) {
        assert(contains_chars(name, part_dir_signs()[23]));
    }
    if names_part_dir(name) {
        let k = choose|k: int|
            0 <= k < part_dir_signs().len() && contains_chars(name, #[trigger] part_dir_signs()[k]);
    }
}

/// Whether a directory of this name is a part directory.
pub fn is_part_dir(name: &str) -> (r: bool)
    ensures
        r == names_part_dir(name@),
{
    let signs: Vec<&str> = vec![
        "АР",
        "АРМ",
        "АРКП",
        "АРПГА",
        "АРКО",
        "АРНП",
        "АТГ",
        "НМГ",
        "АМГ",
        "АРН",
        "АРС",
        "АРФС",
        "М8Л",
        "ТОС",
        "AP",
        "ТОМ3",
        "ИН0",
        "ИНО",
        "10-",
        "15-",
        "25-",
        "32-",
        "40-",
        "50-",
    ];
    assert(signs@.len() == part_dir_signs().len());
    assert(forall|k: int| 0 <= k < signs@.len() ==> (#[trigger] signs@[k])@ == part_dir_signs()[k]);
    let hay = chars_of(name);
    let mut k: usize = 0;
    while k < signs.len()
        invariant
            k <= signs.len(),
            hay@ == name@,
            signs@.len() == part_dir_signs().len(),
            forall|t: int| 0 <= t < signs@.len() ==> (#[trigger] signs@[t])@ == part_dir_signs()[t],
            forall|t: int| 0 <= t < k ==> !contains_chars(name@, #[trigger] part_dir_signs()[t]),
        decreases signs.len() - k,
    {
        let needle = chars_of(signs[k]);
        if contains_exec(&hay, &needle) {
            return true;
        }
        k = k + 1;
    }
    false
}

/// A tool that a program calls: a G-code tool number, or for Mazatrol a
/// number (diameter, pocket or probe mark) together with its corrector letter.
#[derive(Debug, Clone, Copy, PartialEq, Eq, Hash, Structural)]
pub struct Tool {
    pub number: u32,
    pub corrector: Option<char>,
}

impl Tool {
    /// A G-code tool: a number without corrector.
    pub fn gcode(number: u32) -> (r: Self)
        ensures
            r.number == number,
            r.corrector == None::<char>,
    {
        Tool { number, corrector: None }
    }

    /// A Mazatrol tool: a number with its corrector letter.
    pub fn mazatrol(number: u32, corrector: char) -> (r: Self)
        ensures
            r.number == number,
            r.corrector == Some(corrector),
    {
        Tool { number, corrector: Some(corrector) }
    }
}

/// A program file and the tools it calls.
#[derive(Debug)]
pub struct Program {
    pub name: String,
    pub tools: Vec<Tool>,
}

/// A part directory and its programs.
#[derive(Debug)]
pub struct Part {
    pub name: String,
    pub programs: Vec<Program>,
}

/// A directory whose children are parts, with the average number of tools
/// per program over all its parts, fixed when the group is built.
#[derive(Debug)]
pub struct PartGroup {
    pub name: String,
    pub avg_tools_count: usize,
    pub parts: Vec<Part>,
}

/// The name and average of a part group, without its parts.
#[derive(Debug)]
pub struct SummaryPartGroup {
    pub name: String,
    pub avg_tools_count: usize,
}

/// A machine directory and the part groups found under it.
#[derive(Debug)]
pub struct Machine {
    pub name: String,
    pub part_groups: Vec<PartGroup>,
}

/// A machine with its groups summarised.
#[derive(Debug)]
pub struct SummaryMachine {
    pub name: String,
    pub part_groups: Vec<SummaryPartGroup>,
}

/// Number of tools over a list of programs.
pub open spec fn tools_in_programs(programs: Seq<Program>) -> nat
    decreases programs.len(),
{
    if programs.len() == 0 {
        0
    } else {
        tools_in_programs(programs.drop_last()) + programs.last().tools@.len()
    }
}

/// Number of tools over all programs of a list of parts.
pub open spec fn tools_in_parts(parts: Seq<Part>) -> nat
    decreases parts.len(),
{
    if parts.len() == 0 {
        0
    } else {
        tools_in_parts(parts.drop_last()) + tools_in_programs(parts.last().programs@)
    }
}

/// Number of programs over a list of parts.
pub open spec fn programs_in_parts(parts: Seq<Part>) -> nat
    decreases parts.len(),
{
    if parts.len() == 0 {
        0
    } else {
        programs_in_parts(parts.drop_last()) + parts.last().programs@.len()
    }
}

/// The average number of tools per program over a list of parts, rounded
/// down; 0 when there is no program.
pub open spec fn average_tools(parts: Seq<Part>) -> nat {
    if programs_in_parts(parts) == 0 {
        0
    } else {
        tools_in_parts(parts) / programs_in_parts(parts)
    }
}

/// Number of parts over a list of groups.
pub open spec fn parts_in_groups(groups: Seq<PartGroup>) -> nat
    decreases groups.len(),
{
    if groups.len() == 0 {
        0
    } else {
        parts_in_groups(groups.drop_last()) + groups.last().parts@.len()
    }
}

/// Number of programs over a list of groups.
pub open spec fn programs_in_groups(groups: Seq<PartGroup>) -> nat
    decreases groups.len(),
{
    if groups.len() == 0 {
        0
    } else {
        programs_in_groups(groups.drop_last()) + programs_in_parts(groups.last().parts@)
    }
}

proof fn lemma_tools_in_programs_prefix(programs: Seq<Program>, k: int)
    requires
        0 <= k <= programs.len(),
    ensures
        tools_in_programs(programs.take(k)) <= tools_in_programs(programs),
    decreases programs.len(),
{
    if k < programs.len() {
        assert(programs.drop_last().take(k) =~= programs.take(k));
        lemma_tools_in_programs_prefix(programs.drop_last(), k);
    } else {
        assert(programs.take(k) =~= programs);
    }
}

proof fn lemma_tools_in_parts_prefix(parts: Seq<Part>, k: int)
    requires
        0 <= k <= parts.len(),
    ensures
        tools_in_parts(parts.take(k)) <= tools_in_parts(parts),
    decreases parts.len(),
{
    if k < parts.len() {
        assert(parts.drop_last().take(k) =~= parts.take(k));
        lemma_tools_in_parts_prefix(parts.drop_last(), k);
    } else {
        assert(parts.take(k) =~= parts);
    }
}

proof fn lemma_programs_in_parts_prefix(parts: Seq<Part>, k: int)
    requires
        0 <= k <= parts.len(),
    ensures
        programs_in_parts(parts.take(k)) <= programs_in_parts(parts),
    decreases parts.len(),
{
    if k < parts.len() {
        assert(parts.drop_last().take(k) =~= parts.take(k));
        lemma_programs_in_parts_prefix(parts.drop_last(), k);
    } else {
        assert(parts.take(k) =~= parts);
    }
}

proof fn lemma_parts_in_groups_prefix(groups: Seq<PartGroup>, k: int)
    requires
        0 <= k <= groups.len(),
    ensures
        parts_in_groups(groups.take(k)) <= parts_in_groups(groups),
    decreases groups.len(),
{
    if k < groups.len() {
        assert(groups.drop_last().take(k) =~= groups.take(k));
        lemma_parts_in_groups_prefix(groups.drop_last(), k);
    } else {
        assert(groups.take(k) =~= groups);
    }
}

proof fn lemma_programs_in_groups_prefix(groups: Seq<PartGroup>, k: int)
    requires
        0 <= k <= groups.len(),
    ensures
        programs_in_groups(groups.take(k)) <= programs_in_groups(groups),
    decreases groups.len(),
{
    if k < groups.len() {
        assert(groups.drop_last().take(k) =~= groups.take(k));
        lemma_programs_in_groups_prefix(groups.drop_last(), k);
    } else {
        assert(groups.take(k) =~= groups);
    }
}

/// Sums the tools of a list of programs.
fn count_tools_in_programs(programs: &Vec<Program>) -> (r: usize)
    requires
        tools_in_programs(programs@) <= usize::MAX,
    ensures
        r == tools_in_programs(programs@),
{
    let mut sum: usize = 0;
    let mut i: usize = 0;
    while i < programs.len()
        invariant
            i <= programs.len(),
            tools_in_programs(programs@) <= usize::MAX,
            sum == tools_in_programs(programs@.take(i as int)),
        decreases programs.len() - i,
    {
        assert(programs@.take(i + 1).drop_last() =~= programs@.take(i as int));
        proof {
            lemma_tools_in_programs_prefix(programs@, i + 1);
        }
        sum = sum + programs[i].tools.len();
        i = i + 1;
    }
    assert(programs@.take(i as int) =~= programs@);
    sum
}

/// Sums the tools of all programs of a list of parts.
fn count_tools_in_parts(parts: &Vec<Part>) -> (r: usize)
    requires
        tools_in_parts(parts@) <= usize::MAX,
    ensures
        r == tools_in_parts(parts@),
{
    let mut sum: usize = 0;
    let mut i: usize = 0;
    while i < parts.len()
        invariant
            i <= parts.len(),
            tools_in_parts(parts@) <= usize::MAX,
            sum == tools_in_parts(parts@.take(i as int)),
        decreases parts.len() - i,
    {
        assert(parts@.take(i + 1).drop_last() =~= parts@.take(i as int));
        proof {
            lemma_tools_in_parts_prefix(parts@, i + 1);
        }
        let n = count_tools_in_programs(&parts[i].programs);
        sum = sum + n;
        i = i + 1;
    }
    assert(parts@.take(i as int) =~= parts@);
    sum
}

/// Sums the programs of a list of parts.
fn count_programs_in_parts(parts: &Vec<Part>) -> (r: usize)
    requires
        programs_in_parts(parts@) <= usize::MAX,
    ensures
        r == programs_in_parts(parts@),
{
    let mut sum: usize = 0;
    let mut i: usize = 0;
    while i < parts.len()
        invariant
            i <= parts.len(),
            programs_in_parts(parts@) <= usize::MAX,
            sum == programs_in_parts(parts@.take(i as int)),
        decreases parts.len() - i,
    {
        assert(parts@.take(i + 1).drop_last() =~= parts@.take(i as int));
        proof {
            lemma_programs_in_parts_prefix(parts@, i + 1);
        }
        sum = sum + parts[i].programs.len();
        i = i + 1;
    }
    assert(parts@.take(i as int) =~= parts@);
    sum
}

fn average_of(parts: &Vec<Part>) -> (r: usize)
    requires
        tools_in_parts(parts@) <= usize::MAX,
        programs_in_parts(parts@) <= usize::MAX,
    ensures
        r == average_tools(parts@),
{
    let tools = count_tools_in_parts(parts);
    let programs = count_programs_in_parts(parts);
    if programs == 0 {
        0
    } else {
        tools / programs
    }
}

impl Program {
    /// Number of tools of the program.
    pub fn tools_count(&self) -> (r: usize)
        ensures
            r == self.tools@.len(),
    {
        self.tools.len()
    }
}

impl Part {
    /// Number of programs of the part.
    pub fn programs_count(&self) -> (r: usize)
        ensures
            r == self.programs@.len(),
    {
        self.programs.len()
    }
}

impl PartGroup {
    /// Builds a group and fixes its average number of tools per program.
    /// The sums of tools and of programs must fit in `usize`.
    pub fn new(name: String, parts: Vec<Part>) -> (r: Self)
        requires
            tools_in_parts(parts@) <= usize::MAX,
            programs_in_parts(parts@) <= usize::MAX,
        ensures
            r.name == name,
            r.parts@ == parts@,
            r.avg_tools_count == average_tools(parts@),
    {
        let avg_tools_count = average_of(&parts);
        PartGroup { name, avg_tools_count, parts }
    }

    /// The average number of tools per program, computed anew from the parts.
    pub fn _avg_tools_per_program(&self) -> (r: usize)
        requires
            tools_in_parts(self.parts@) <= usize::MAX,
            programs_in_parts(self.parts@) <= usize::MAX,
        ensures
            r == average_tools(self.parts@),
    {
        average_of(&self.parts)
    }

    /// Number of parts of the group.
    pub fn parts_count(&self) -> (r: usize)
        ensures
            r == self.parts@.len(),
    {
        self.parts.len()
    }

    /// Number of programs over all parts of the group.
    pub fn programs_count(&self) -> (r: usize)
        requires
            programs_in_parts(self.parts@) <= usize::MAX,
        ensures
            r == programs_in_parts(self.parts@),
    {
        count_programs_in_parts(&self.parts)
    }
}

impl SummaryPartGroup {
    /// The summary of a group: its name and average.
    pub fn from(value: &PartGroup) -> (r: Self)
        ensures
            r.name == value.name,
            r.avg_tools_count == value.avg_tools_count,
    {
        SummaryPartGroup { name: value.name.clone(), avg_tools_count: value.avg_tools_count }
    }
}

/// Sums the parts of a list of groups.
pub fn count_parts_in_groups(groups: &Vec<PartGroup>) -> (r: usize)
    requires
        parts_in_groups(groups@) <= usize::MAX,
    ensures
        r == parts_in_groups(groups@),
{
    let mut sum: usize = 0;
    let mut i: usize = 0;
    while i < groups.len()
        invariant
            i <= groups.len(),
            parts_in_groups(groups@) <= usize::MAX,
            sum == parts_in_groups(groups@.take(i as int)),
        decreases groups.len() - i,
    {
        assert(groups@.take(i + 1).drop_last() =~= groups@.take(i as int));
        proof {
            lemma_parts_in_groups_prefix(groups@, i + 1);
        }
        sum = sum + groups[i].parts_count();
        i = i + 1;
    }
    assert(groups@.take(i as int) =~= groups@);
    sum
}

/// Sums the programs of a list of groups.
pub fn count_programs_in_groups(groups: &Vec<PartGroup>) -> (r: usize)
    requires
        programs_in_groups(groups@) <= usize::MAX,
    ensures
        r == programs_in_groups(groups@),
{
    let mut sum: usize = 0;
    let mut i: usize = 0;
    while i < groups.len()
        invariant
            i <= groups.len(),
            programs_in_groups(groups@) <= usize::MAX,
            sum == programs_in_groups(groups@.take(i as int)),
        decreases groups.len() - i,
    {
        assert(groups@.take(i + 1).drop_last() =~= groups@.take(i as int));
        proof {
            lemma_programs_in_groups_prefix(groups@, i + 1);
        }
        let n = groups[i].programs_count();
        sum = sum + n;
        i = i + 1;
    }
    assert(groups@.take(i as int) =~= groups@);
    sum
}

impl Machine {
    /// Number of parts over all groups of the machine.
    pub fn parts_count(&self) -> (r: usize)
        requires
            parts_in_groups(self.part_groups@) <= usize::MAX,
        ensures
            r == parts_in_groups(self.part_groups@),
    {
        count_parts_in_groups(&self.part_groups)
    }

    /// Number of programs over all groups of the machine.
    pub fn programs_count(&self) -> (r: usize)
        requires
            programs_in_groups(self.part_groups@) <= usize::MAX,
        ensures
            r == programs_in_groups(self.part_groups@),
    {
        count_programs_in_groups(&self.part_groups)
    }
}

impl SummaryMachine {
    /// The summary of a machine: its name and the summary of each group, in order.
    pub fn from(value: &Machine) -> (r: Self)
        ensures
            r.name == value.name,
            r.part_groups@.len() == value.part_groups@.len(),
            forall|i: int|
                0 <= i < r.part_groups@.len() ==> (#[trigger] r.part_groups@[i]).name
                    == value.part_groups@[i].name && r.part_groups@[i].avg_tools_count
                    == value.part_groups@[i].avg_tools_count,
    {
        let mut groups: Vec<SummaryPartGroup> = Vec::new();
        let mut i: usize = 0;
        while i < value.part_groups.len()
            invariant
                i <= value.part_groups.len(),
                groups@.len() == i,
                forall|j: int|
                    0 <= j < i ==> (#[trigger] groups@[j]).name == value.part_groups@[j].name
                        && groups@[j].avg_tools_count == value.part_groups@[j].avg_tools_count,
            decreases value.part_groups.len() - i,
        {
            groups.push(SummaryPartGroup::from(&value.part_groups[i]));
            i = i + 1;
        }
        SummaryMachine { name: value.name.clone(), part_groups: groups }
    }
}

/// The average of a group lies where integer division puts it: with at
/// least one program, `avg * programs <= tools < (avg + 1) * programs`.
pub proof fn law_average_bounds(parts: Seq<Part>)
    requires
        programs_in_parts(parts) > 0,
    ensures
        average_tools(parts) * programs_in_parts(parts) <= tools_in_parts(parts),
        tools_in_parts(parts) < (average_tools(parts) + 1) * programs_in_parts(parts),
{
    let t = tools_in_parts(parts) as int;
    let p = programs_in_parts(parts) as int;
    assert((t / p) * p <= t && t < (t / p + 1) * p) by (nonlinear_arith)
        requires
            p > 0,
            t >= 0,
    ;
}

/// Any name that contains a part directory's name is a part directory's
/// name too.
pub proof fn law_part_dir_superstring(inner: Seq<char>, outer: Seq<char>)
    requires
        names_part_dir(inner),
        contains_chars(outer, inner),
    ensures
        names_part_dir(outer),
{
    let k = choose|k: int|
        0 <= k < part_dir_signs().len() && contains_chars(inner, #[trigger] part_dir_signs()[k]);
    let sign = part_dir_signs()[k];
    let i = choose|i: int| occurs_at(inner, sign, i);
    let j = choose|j: int| occurs_at(outer, inner, j);
    assert(occurs_at(outer, sign, i + j)) by {
        assert forall|t: int| 0 <= t < sign.len() implies outer.subrange(
            i + j,
            i + j + sign.len(),
        )[t] == sign[t] by {
            assert(outer.subrange(j, j + inner.len())[i + t] == inner[i + t]);
            assert(inner.subrange(i, i + sign.len())[t] == sign[t]);
        }
        assert(outer.subrange(i + j, i + j + sign.len()) =~= sign);
    }
    assert(contains_chars(outer, part_dir_signs()[k]));
}

/// Counting the tools of a list of programs: a program counts its own tools, and the count of two lists one after the other is the
/// sum of their counts, so every element is counted once.
pub proof fn law_tools_in_programs_adds_up(a: Seq<Program>, b: Seq<Program>, x: Program)
    ensures
        tools_in_programs(a + b) == tools_in_programs(a) + tools_in_programs(b),
        tools_in_programs(seq![x]) == x.tools@.len(),
    decreases b.len(),
{
    if b.len() > 0 {
        law_tools_in_programs_adds_up(a, b.drop_last(), x);
        assert((a + b).drop_last() =~= a + b.drop_last());
        assert((a + b).last() == b.last());
    } else {
        assert(a + b =~= a);
    }
    assert(seq![x].drop_last() =~= Seq::<Program>::empty());
    assert(seq![x].last() == x);
    assert(tools_in_programs(seq![x].drop_last()) == 0);
}

/// Counting the tools of a list of parts: a part counts the tools of its programs, and the count of two lists one after the other is the
/// sum of their counts, so every element is counted once.
pub proof fn law_tools_in_parts_adds_up(a: Seq<Part>, b: Seq<Part>, x: Part)
    ensures
        tools_in_parts(a + b) == tools_in_parts(a) + tools_in_parts(b),
        tools_in_parts(seq![x]) == tools_in_programs(x.programs@),
    decreases b.len(),
{
    if b.len() > 0 {
        law_tools_in_parts_adds_up(a, b.drop_last(), x);
        assert((a + b).drop_last() =~= a + b.drop_last());
        assert((a + b).last() == b.last());
    } else {
        assert(a + b =~= a);
    }
    assert(seq![x].drop_last() =~= Seq::<Part>::empty());
    assert(seq![x].last() == x);
    assert(tools_in_parts(seq![x].drop_last()) == 0);
}

/// Counting the programs of a list of parts: a part counts its own programs, and the count of two lists one after the other is the
/// sum of their counts, so every element is counted once.
pub proof fn law_programs_in_parts_adds_up(a: Seq<Part>, b: Seq<Part>, x: Part)
    ensures
        programs_in_parts(a + b) == programs_in_parts(a) + programs_in_parts(b),
        programs_in_parts(seq![x]) == x.programs@.len(),
    decreases b.len(),
{
    if b.len() > 0 {
        law_programs_in_parts_adds_up(a, b.drop_last(), x);
        assert((a + b).drop_last() =~= a + b.drop_last());
        assert((a + b).last() == b.last());
    } else {
        assert(a + b =~= a);
    }
    assert(seq![x].drop_last() =~= Seq::<Part>::empty());
    assert(seq![x].last() == x);
    assert(programs_in_parts(seq![x].drop_last()) == 0);
}

/// Counting the parts of a list of groups: a group counts its own parts, and the count of two lists one after the other is the
/// sum of their counts, so every element is counted once.
pub proof fn law_parts_in_groups_adds_up(a: Seq<PartGroup>, b: Seq<PartGroup>, x: PartGroup)
    ensures
        parts_in_groups(a + b) == parts_in_groups(a) + parts_in_groups(b),
        parts_in_groups(seq![x]) == x.parts@.len(),
    decreases b.len(),
{
    if b.len() > 0 {
        law_parts_in_groups_adds_up(a, b.drop_last(), x);
        assert((a + b).drop_last() =~= a + b.drop_last());
        assert((a + b).last() == b.last());
    } else {
        assert(a + b =~= a);
    }
    assert(seq![x].drop_last() =~= Seq::<PartGroup>::empty());
    assert(seq![x].last() == x);
    assert(parts_in_groups(seq![x].drop_last()) == 0);
}

/// Counting the programs of a list of groups: a group counts the programs of its parts, and the count of two lists one after the other is the
/// sum of their counts, so every element is counted once.
pub proof fn law_programs_in_groups_adds_up(a: Seq<PartGroup>, b: Seq<PartGroup>, x: PartGroup)
    ensures
        programs_in_groups(a + b) == programs_in_groups(a) + programs_in_groups(b),
        programs_in_groups(seq![x]) == programs_in_parts(x.parts@),
    decreases b.len(),
{
    if b.len() > 0 {
        law_programs_in_groups_adds_up(a, b.drop_last(), x);
        assert((a + b).drop_last() =~= a + b.drop_last());
        assert((a + b).last() == b.last());
    } else {
        assert(a + b =~= a);
    }
    assert(seq![x].drop_last() =~= Seq::<PartGroup>::empty());
    assert(seq![x].last() == x);
    assert(programs_in_groups(seq![x].drop_last()) == 0);
}

} // verus!
