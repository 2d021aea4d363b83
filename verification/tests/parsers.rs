use cnc_tools::data::Tool;
use cnc_tools::lines::split_lines;
use cnc_tools::parser::{
    format_of_extension, format_of_lowercase, gcode, h, is_program_file, maz, parse_tools, pbg,
    should_skip, FileFormat,
};
use cnc_tools::toolset::corrector_char;

fn section(len: usize) -> Vec<u8> {
    vec![0u8; len]
}

fn put_u16(d: &mut [u8], at: usize, v: u16) {
    d[at] = (v & 0xff) as u8;
    d[at + 1] = (v >> 8) as u8;
}

fn put_u32(d: &mut [u8], at: usize, v: u32) {
    for k in 0..4 {
        d[at + k] = ((v >> (8 * k)) & 0xff) as u8;
    }
}

#[test]
fn corrector_letters_skip_i_and_o() {
    assert_eq!(corrector_char(1), 'A');
    assert_eq!(corrector_char(8), 'H');
    assert_eq!(corrector_char(9), 'J');
    assert_eq!(corrector_char(13), 'N');
    assert_eq!(corrector_char(14), 'P');
    assert_eq!(corrector_char(24), 'Z');
    assert_eq!(corrector_char(0), '\0');
    assert_eq!(corrector_char(25), '\0');
    assert_eq!(corrector_char(255), '\0');
}

#[test]
fn pbg_tools_are_distinct_and_ordered() {
    let mut d = section(0x160 + 4 * 0x64 + 10);
    let s0 = 0x160;
    put_u16(&mut d, s0, 0xB4);
    put_u16(&mut d, s0 + 0x5A, 7);
    d[s0 + 0x0B] = 2;
    let s1 = s0 + 0x64;
    put_u16(&mut d, s1, 0xB4);
    put_u16(&mut d, s1 + 0x5A, 3);
    d[s1 + 0x0B] = 1;
    let s2 = s1 + 0x64;
    put_u16(&mut d, s2, 0xB4);
    put_u16(&mut d, s2 + 0x5A, 7);
    d[s2 + 0x0B] = 2;
    let s3 = s2 + 0x64;
    put_u16(&mut d, s3, 0xB4);
    put_u16(&mut d, s3 + 0x5A, 7);
    d[s3 + 0x0B] = 30;
    let tools = pbg::parse(&d);
    assert_eq!(
        tools,
        vec![Tool::mazatrol(3, 'A'), Tool::mazatrol(7, 'B'), Tool::mazatrol(7, '\0')]
    );
}

#[test]
fn pbg_header_only_and_short_files_have_no_tools() {
    assert!(pbg::parse(&[]).is_empty());
    let mut d = section(0x160 + 0x63);
    put_u16(&mut d, 0x160, 0xB4);
    assert!(pbg::parse(&d).is_empty());
}

#[test]
fn pbg_other_section_types_are_ignored() {
    let mut d = section(0x160 + 0x64);
    put_u16(&mut d, 0x160, 0xB0);
    put_u16(&mut d, 0x160 + 0x5A, 9);
    assert!(pbg::parse(&d).is_empty());
}

#[test]
fn maz_tools_and_probes() {
    let mut d = section(4 * 0x64 + 50);
    // drill of type 4: whole millimetres scaled by 1000
    put_u16(&mut d, 0, 0xB0);
    d[0x09] = 4;
    put_u16(&mut d, 0x26, 12);
    d[0x0B] = 1;
    // other tool: diameter as u32
    let s1 = 0x64;
    put_u16(&mut d, s1, 0xB0);
    d[s1 + 0x09] = 1;
    put_u32(&mut d, s1 + 0x24, 6350);
    d[s1 + 0x0B] = 3;
    // probe: pocket marked by 0xFFFF0000
    let s2 = 2 * 0x64;
    put_u16(&mut d, s2, 0xC0);
    put_u16(&mut d, s2 + 0x08, 5);
    d[s2 + 0x0B] = 0;
    // unknown section
    let s3 = 3 * 0x64;
    put_u16(&mut d, s3, 0x10);
    let tools = maz::parse(&d);
    assert_eq!(
        tools,
        vec![
            Tool::mazatrol(6350, 'C'),
            Tool::mazatrol(12000, 'A'),
            Tool::mazatrol(0xFFFF0005, '\0'),
        ]
    );
}

#[test]
fn maz_duplicate_sections_count_once() {
    let mut d = section(2 * 0x64);
    for s in [0usize, 0x64] {
        put_u16(&mut d, s, 0xB0);
        put_u32(&mut d, s + 0x24, 10000);
        d[s + 0x0B] = 2;
    }
    assert_eq!(maz::parse(&d), vec![Tool::mazatrol(10000, 'B')]);
}

#[test]
fn gcode_tool_numbers_sorted_and_unique() {
    let text = b"%\nT1 M6\nG0 X0 T9\nM6 T3\nT1\nN10 T20 M6\r\nG1 Y2\n";
    let tools = gcode::parse(text);
    assert_eq!(tools, vec![Tool::gcode(1), Tool::gcode(3), Tool::gcode(20)]);
}

#[test]
fn gcode_stops_at_a_line_that_is_not_utf8() {
    let text = b"T5\n\xff\xfe\nT6\n";
    assert_eq!(gcode::parse(text), vec![Tool::gcode(5)]);
}

#[test]
fn gcode_number_too_large_is_ignored() {
    let text = b"T4294967296\nT4294967295\n";
    assert_eq!(gcode::parse(text), vec![Tool::gcode(4294967295)]);
}

#[test]
fn heidenhain_calls_in_order_with_repeats() {
    let text = b"0 BEGIN PGM X MM\nTOOL CALL 5 Z S2000\n  tool  call 12\n\xff\nTOOL CALL 5\nL X+0\n";
    let tools = h::parse(text);
    assert_eq!(tools, vec![Tool::gcode(5), Tool::gcode(12), Tool::gcode(5)]);
}

#[test]
fn heidenhain_single_line_call() {
    assert_eq!(h::parse(b"7 TOOL CALL 42 Z S1000"), vec![Tool::gcode(42)]);
    assert!(h::parse(b"TOOL DEF 3").is_empty());
    assert!(h::parse(b"TOOL CALL 99999999999").is_empty());
}

#[test]
fn lines_split_like_bufread() {
    let lines = split_lines(b"a\r\nb\n\nc\r");
    assert_eq!(lines, vec![b"a".to_vec(), b"b".to_vec(), b"".to_vec(), b"c\r".to_vec()]);
    assert!(split_lines(b"").is_empty());
    assert_eq!(split_lines(b"x\n"), vec![b"x".to_vec()]);
}

#[test]
fn lines_decode_only_utf8() {
    assert_eq!(gcode::parse("ТОС\nT4\n".as_bytes()), vec![Tool::gcode(4)]);
    assert!(gcode::parse(b"\xc3\nT4\n").is_empty());
}

#[test]
fn formats_by_extension_any_case() {
    assert_eq!(format_of_extension(Some("PBG")), FileFormat::Pbg);
    assert_eq!(format_of_extension(Some("maz")), FileFormat::Maz);
    assert_eq!(format_of_extension(Some("H")), FileFormat::Heidenhain);
    assert_eq!(format_of_extension(Some("Mpf")), FileFormat::Sinumerik);
    assert_eq!(format_of_extension(Some("nc")), FileFormat::Gcode);
    assert_eq!(format_of_extension(None), FileFormat::Gcode);
    assert_eq!(format_of_lowercase("pbg"), FileFormat::Pbg);
    assert_eq!(format_of_lowercase("PBG"), FileFormat::Gcode);
}

#[test]
fn skipped_extensions_any_case() {
    assert!(should_skip(Some("PNG")));
    assert!(should_skip(Some("lnk")));
    assert!(!should_skip(Some("pbg")));
    assert!(!should_skip(None));
    // the Kelvin sign lower-cases to an ASCII k
    assert!(should_skip(Some("M\u{212A}V")));
    assert!(is_program_file(true, Some("nc")));
    assert!(!is_program_file(false, Some("nc")));
    assert!(!is_program_file(true, Some("Jpg")));
}

#[test]
fn dispatch_by_format() {
    assert_eq!(parse_tools(FileFormat::Gcode, b"T2\n"), vec![Tool::gcode(2)]);
    assert_eq!(parse_tools(FileFormat::Heidenhain, b"TOOL CALL 2\nTOOL CALL 2\n").len(), 2);
    assert!(parse_tools(FileFormat::Sinumerik, b"T2\n").is_empty());
    assert!(parse_tools(FileFormat::Pbg, b"T2\n").is_empty());
}
