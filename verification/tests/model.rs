use cnc_tools::data::{is_part_dir, Machine, Part, PartGroup, Program, SummaryMachine, SummaryPartGroup, Tool};
use cnc_tools::order::{sort_machines, sort_part_groups};
use cnc_tools::parser::{has_part_children, is_group_candidate, is_part_entry, program_of, DirEntryInfo};
use cnc_tools::report::{
    archive_totals, csv_full_rows, csv_rows, progress_prefix, progress_summary,
};

fn program(name: &str, n: u32) -> Program {
    Program { name: name.to_string(), tools: (1..=n).map(Tool::gcode).collect() }
}

fn part(name: &str, programs: Vec<Program>) -> Part {
    Part { name: name.to_string(), programs }
}

fn sample_group(name: &str) -> PartGroup {
    PartGroup::new(
        name.to_string(),
        vec![part("АР-1", vec![program("P1", 2), program("P2", 3)]), part("АР-2", vec![program("P3", 4)])],
    )
}

#[test]
fn part_dir_signs() {
    assert!(is_part_dir("АРМ.123.001"));
    assert!(is_part_dir("Корпус АТГ-5"));
    assert!(is_part_dir("10-345"));
    assert!(is_part_dir("AP7"));
    assert!(is_part_dir("ИНО"));
    assert!(!is_part_dir("Прочее"));
    assert!(!is_part_dir("ap7"));
    assert!(!is_part_dir(""));
}

#[test]
fn group_average_rounds_down() {
    let g = sample_group("G");
    assert_eq!(g.avg_tools_count, 3);
    assert_eq!(g._avg_tools_per_program(), 3);
    assert_eq!(g.parts_count(), 2);
    assert_eq!(g.programs_count(), 3);
    let g2 = PartGroup::new("E".to_string(), vec![part("АР", vec![program("A", 1), program("B", 2)])]);
    assert_eq!(g2.avg_tools_count, 1);
    let empty = PartGroup::new("E".to_string(), vec![part("АР", vec![])]);
    assert_eq!(empty.avg_tools_count, 0);
    assert_eq!(empty._avg_tools_per_program(), 0);
}

#[test]
fn machine_counts_and_summaries() {
    let m = Machine { name: "M1".to_string(), part_groups: vec![sample_group("G1"), sample_group("G2")] };
    assert_eq!(m.parts_count(), 4);
    assert_eq!(m.programs_count(), 6);
    let s = SummaryMachine::from(&m);
    assert_eq!(s.name, "M1");
    assert_eq!(s.part_groups.len(), 2);
    assert_eq!(s.part_groups[1].name, "G2");
    assert_eq!(s.part_groups[1].avg_tools_count, 3);
    let sg = SummaryPartGroup::from(&m.part_groups[0]);
    assert_eq!(sg.name, "G1");
    assert_eq!(sg.avg_tools_count, 3);
    assert_eq!(m.part_groups[0].parts[0].programs_count(), 2);
    assert_eq!(m.part_groups[0].parts[0].programs[1].tools_count(), 3);
}

#[test]
fn tool_texts() {
    assert_eq!(Tool::gcode(12).to_text(), "T12");
    assert_eq!(Tool::gcode(0).to_text(), "T0");
    assert_eq!(Tool::mazatrol(25000, 'A').to_text(), "25000A");
    assert_eq!(Tool::mazatrol(4294901765, '\0').to_text(), "4294901765\0");
}

#[test]
fn program_and_part_texts() {
    assert_eq!(program("P1", 2).to_text(), "P1 [2 инстр.] → T1, T2");
    assert_eq!(program("P0", 0).to_text(), "P0 [0 инстр.]");
    let p = part("АР-1", vec![program("P1", 1), program("P2", 0)]);
    assert_eq!(
        p.to_text(),
        "АР-1\n        ├── P1 [1 инстр.] → T1\n        └── P2 [0 инстр.]\n"
    );
    assert_eq!(part("АР-9", vec![]).to_text(), "АР-9\n");
}

#[test]
fn group_and_machine_texts() {
    let g = sample_group("Валы");
    assert_eq!(g.to_text(), "  📂 Валы (В среднем инструмента на программу: 3)\n");
    let m = Machine { name: "DMG".to_string(), part_groups: vec![g] };
    assert_eq!(
        m.to_text(),
        "🔧 DMG\n  📂 Валы (В среднем инструмента на программу: 3)\n"
    );
}

#[test]
fn machines_sorted_by_name_stably() {
    let mk = |name: &str, groups: usize| Machine {
        name: name.to_string(),
        part_groups: (0..groups).map(|i| sample_group(&format!("g{}", i))).collect(),
    };
    let sorted = sort_machines(vec![mk("b", 1), mk("a", 0), mk("b", 2), mk("A", 0), mk("ab", 0)]);
    let names: Vec<(&str, usize)> = sorted.iter().map(|m| (m.name.as_str(), m.part_groups.len())).collect();
    assert_eq!(names, vec![("A", 0), ("a", 0), ("ab", 0), ("b", 1), ("b", 2)]);
}

#[test]
fn groups_sorted_by_name() {
    let sorted = sort_part_groups(vec![sample_group("Ш"), sample_group("Б"), sample_group("Z")]);
    let names: Vec<&str> = sorted.iter().map(|g| g.name.as_str()).collect();
    assert_eq!(names, vec!["Z", "Б", "Ш"]);
}

#[test]
fn directory_decisions() {
    let children = vec![
        DirEntryInfo { name: "АР-1".to_string(), is_dir: false },
        DirEntryInfo { name: "docs".to_string(), is_dir: true },
    ];
    assert!(!has_part_children(&children));
    let children2 = vec![DirEntryInfo { name: "АР-1".to_string(), is_dir: true }];
    assert!(has_part_children(&children2));
    assert!(is_part_entry(true, "ТОС-4"));
    assert!(!is_part_entry(false, "ТОС-4"));
    assert!(is_group_candidate(true, "Фланцы"));
    assert!(!is_group_candidate(true, "АРКП.1"));
    assert!(!is_group_candidate(false, "Фланцы"));
    assert!(program_of("X".to_string(), vec![]).is_none());
    assert_eq!(program_of("X".to_string(), vec![Tool::gcode(1)]).unwrap().tools.len(), 1);
}

#[test]
fn csv_rows_and_totals() {
    let machines = vec![
        Machine { name: "M1".to_string(), part_groups: vec![sample_group("G1"), sample_group("G2")] },
        Machine { name: "M2".to_string(), part_groups: vec![] },
        Machine { name: "M3".to_string(), part_groups: vec![sample_group("G3")] },
    ];
    let rows = csv_rows(&machines);
    let short: Vec<(&str, &str, usize)> =
        rows.iter().map(|r| (r.machine.as_str(), r.group.as_str(), r.avg_programs)).collect();
    assert_eq!(short, vec![("M1", "G1", 3), ("M1", "G2", 3), ("M3", "G3", 3)]);
    let full = csv_full_rows(&machines);
    assert_eq!(full.len(), 6);
    assert_eq!(full[1].part, "АР-2");
    assert_eq!(full[5].machine, "M3");
    let totals = archive_totals(&machines);
    assert_eq!(
        (totals.machines, totals.groups, totals.parts, totals.programs),
        (3, 3, 6, 9)
    );
    assert_eq!(totals.groups, rows.len());
    assert_eq!(totals.parts, full.len());
}

#[test]
fn progress_lines() {
    let groups = vec![sample_group("G1")];
    assert_eq!(progress_summary(&groups), "✓    1 групп,    2 деталей,     3 программ");
    assert_eq!(progress_prefix("M1"), format!("M1{}", " ".repeat(28)));
    let long = "x".repeat(31);
    assert_eq!(progress_prefix(&long), long);
}

#[test]
fn part_dir_names_stay_part_dirs_when_extended() {
    for inner in ["АРМ", "10-2", "ТОМ3"] {
        assert!(is_part_dir(inner));
        assert!(is_part_dir(&format!("Вал {} ред.2", inner)));
    }
}
