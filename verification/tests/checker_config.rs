use setools::checker::{config_bool, has_unexpected, nonempty, parse_ini, split_value, validate_keys, CheckType,
    CheckerConfigError};

fn option<'a>(section: &'a setools::checker::IniSection, key: &str) -> Option<&'a String> {
    section.options.iter().find(|(name, _)| name == key).map(|(_, value)| value)
}

#[test]
fn ini_sections_inherit_defaults_they_do_not_set() {
    let contents = "[DEFAULT]\ndesc = shared\n\n[first]\ncheck_type = empty_typeattr\n[second]\nDESC: own\n";
    let sections = parse_ini(contents).expect("document should parse");
    assert_eq!(sections.len(), 2);
    assert_eq!(sections[0].name, "first");
    assert_eq!(option(&sections[0], "desc").map(String::as_str), Some("shared"));
    assert_eq!(option(&sections[0], "check_type").map(String::as_str), Some("empty_typeattr"));
    assert_eq!(sections[1].name, "second");
    assert_eq!(option(&sections[1], "desc").map(String::as_str), Some("own"));
    assert_eq!(sections[1].explicit, vec!["desc".to_owned()]);
}

#[test]
fn ini_defaults_after_a_section_reach_it() {
    let sections = parse_ini("[first]\nattr = a\n[DEFAULT]\nmissing_ok = yes\n").expect("document should parse");
    assert_eq!(option(&sections[0], "missing_ok").map(String::as_str), Some("yes"));
    assert!(sections[0].explicit.iter().all(|key| key != "missing_ok"));
}

#[test]
fn ini_continuation_lines_extend_the_last_value() {
    let sections = parse_ini("; comment\n[check]\nexempt_source = a\n  b\n# note\n\tc\n").expect("document should parse");
    assert_eq!(option(&sections[0], "exempt_source").map(String::as_str), Some("a\nb\nc"));
}

#[test]
fn ini_errors_name_the_line() {
    assert_eq!(parse_ini("[broken\n").err().unwrap(), "invalid section header at line 1");
    assert_eq!(parse_ini("\n[]\n").err().unwrap(), "empty section name at line 2");
    assert_eq!(parse_ini("key = value\n").err().unwrap(), "option found before any section at line 1");
    assert_eq!(parse_ini("[a]\nno separator\n").err().unwrap(), "option line has no separator at line 2");
    assert_eq!(parse_ini("[a]\n = value\n").err().unwrap(), "unexpected continuation at line 2");
    assert_eq!(parse_ini("[a]\n: value\n").err().unwrap(), "empty option name at line 2");
    assert_eq!(parse_ini("[a]\nx = 1\n[a]\n").err().unwrap(), "section 'a' already exists");
    assert_eq!(parse_ini("[a]\nx = 1\nX = 2\n").err().unwrap(), "option 'x' already exists");
    assert_eq!(parse_ini("[DEFAULT]\nx = 1\nx = 2\n").err().unwrap(), "option 'x' already exists");
}

#[test]
fn ini_empty_document_has_no_sections() {
    assert!(parse_ini("").unwrap().is_empty());
    assert!(parse_ini("[DEFAULT]\nx = 1\n").unwrap().is_empty());
}

#[test]
fn validate_keys_reports_the_first_refused_key() {
    let options = vec![
        ("check_type".to_owned(), "assert_te".to_owned()),
        ("zeta".to_owned(), "1".to_owned()),
        ("alpha".to_owned(), "2".to_owned()),
        ("source".to_owned(), "x".to_owned()),
    ];
    let local = vec!["source".to_owned()];
    let error = validate_keys("invalid", &options, &local).unwrap_err();
    assert_eq!(error.to_string(), "invalid: Invalid option: alpha");
    assert!(validate_keys("valid", &options[..1].to_vec(), &local).is_ok());
    assert_eq!(CheckerConfigError::new("message").message(), "message");
}

#[test]
fn option_values_are_read_like_the_configuration_format() {
    let yes = " Yes ".to_owned();
    let one = "1".to_owned();
    let no = "no".to_owned();
    assert!(config_bool(Some(&yes)));
    assert!(config_bool(Some(&one)));
    assert!(!config_bool(Some(&no)));
    assert!(!config_bool(None));
    let words = " a  b\nc ".to_owned();
    assert_eq!(split_value(Some(&words)), vec!["a", "b", "c"]);
    assert!(split_value(None).is_empty());
    let blank = "   ".to_owned();
    assert_eq!(nonempty(Some(&blank)), None);
    assert_eq!(nonempty(Some(&words)), Some("a  b\nc".to_owned()));
}

#[test]
fn unexpected_members_are_neither_expected_nor_exempt() {
    assert!(has_unexpected(&vec![1, 2, 3], &vec![1], &vec![2]));
    assert!(!has_unexpected(&vec![1, 2], &vec![1], &vec![2]));
    assert!(!has_unexpected(&Vec::new(), &Vec::new(), &Vec::new()));
}

#[test]
fn check_types_name_their_configuration_and_logger() {
    assert_eq!(CheckType::EmptyTypeAttribute.name(), "empty_typeattr");
    assert_eq!(CheckType::AssertTe.name(), "assert_te");
    assert_eq!(CheckType::AssertRbac.logger(), "setools.checker.assertrbac");
    assert_eq!(CheckType::ReadOnlyExecutables.run_message(), "Checking executables are read-only.");
    assert_eq!(CheckType::ReadOnlyKernelModules.name(), "ro_kmods");
}
