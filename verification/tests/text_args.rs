use cnc_tools::args::{
    check_archive, default_output, output_format, ArgAction, ArgError, ArgEvent, ArgState,
    OutputFormat, OutputFormatError,
};
use cnc_tools::text::{chars_of, decimal_chars, parse_u32};

fn chars(s: &str) -> Vec<char> {
    s.chars().collect()
}

#[test]
fn parse_u32_like_from_str() {
    assert_eq!(parse_u32(&chars("0")), Some(0));
    assert_eq!(parse_u32(&chars("+5")), Some(5));
    assert_eq!(parse_u32(&chars("007")), Some(7));
    assert_eq!(parse_u32(&chars("4294967295")), Some(4294967295));
    assert_eq!(parse_u32(&chars("4294967296")), None);
    assert_eq!(parse_u32(&chars("99999999999")), None);
    assert_eq!(parse_u32(&chars("")), None);
    assert_eq!(parse_u32(&chars("+")), None);
    assert_eq!(parse_u32(&chars("-1")), None);
    assert_eq!(parse_u32(&chars("12a")), None);
    assert_eq!(parse_u32(&chars("١٢")), None);
}

#[test]
fn decimal_round_trip() {
    for n in [0u32, 7, 10, 1234, 4294967295] {
        let d = decimal_chars(n as u64);
        assert_eq!(d.iter().collect::<String>(), n.to_string());
        assert_eq!(parse_u32(&d), Some(n));
    }
}

#[test]
fn chars_in_order() {
    assert_eq!(chars_of("аб"), vec!['а', 'б']);
}

#[test]
fn argument_steps() {
    let mut s = ArgState::new();
    assert_eq!(s.step(&ArgEvent::Short('f')), ArgAction::SetFull);
    assert!(s.full);
    assert_eq!(s.step(&ArgEvent::Value), ArgAction::SetArchive);
    assert_eq!(s.step(&ArgEvent::Long("output".to_string())), ArgAction::ReadOutput);
    assert_eq!(s.step(&ArgEvent::Short('o')), ArgAction::Fail(ArgError::DuplicateOutput));
    assert_eq!(s.step(&ArgEvent::Value), ArgAction::Fail(ArgError::ExtraArgument));
    assert_eq!(s.step(&ArgEvent::Long("verbose".to_string())), ArgAction::Fail(ArgError::Unexpected));
    assert_eq!(s.step(&ArgEvent::Short('x')), ArgAction::Fail(ArgError::Unexpected));
    assert_eq!(s.step(&ArgEvent::Long("help".to_string())), ArgAction::ShowHelp);
    assert_eq!(s.step(&ArgEvent::Short('V')), ArgAction::ShowVersion);
    assert_eq!(s.finish(), Ok(()));
    assert_eq!(ArgState::new().finish(), Err(ArgError::MissingArchive));
}

#[test]
fn archive_checks_and_defaults() {
    assert_eq!(check_archive(false, false), Err(ArgError::ArchiveNotFound));
    assert_eq!(check_archive(true, false), Err(ArgError::ArchiveNotDirectory));
    assert_eq!(check_archive(true, true), Ok(()));
    assert_eq!(default_output(), ".\\output.json");
}

#[test]
fn output_formats() {
    assert!(matches!(output_format(Some("JSON")), Ok(OutputFormat::Json)));
    assert!(matches!(output_format(Some("csv")), Ok(OutputFormat::Csv)));
    match output_format(Some("TXT")) {
        Err(OutputFormatError::Unsupported(e)) => assert_eq!(e, "txt"),
        other => panic!("unexpected {:?}", other),
    }
    assert!(matches!(output_format(None), Err(OutputFormatError::MissingExtension)));
}
