use setools::arguments::parse;
use setools::json::push_string;
use setools::numbers::{format_xpermission_range, parse_xpermissions};
use setools::runtime::{civil_from_days, limited_result_count, RunningPolicyInfo, Tool};
use std::collections::BTreeSet;

#[test]
fn escapes_json_strings_without_changing_unicode() {
    let mut output = String::new();
    push_string(
        &mut output,
        "quote=\" slash=\\\u{0008}\u{000c}\n\r\t\u{001f} 中文",
    );
    assert_eq!(
        output,
        "\"quote=\\\" slash=\\\\\\b\\f\\n\\r\\t\\u001f 中文\""
    );
}

#[test]
fn tool_names_match_installed_binaries() {
    assert_eq!(Tool::Sesearch.to_string(), "sesearch");
    assert_eq!(Tool::Seinfo.to_string(), "seinfo");
    assert_eq!(Tool::Sediff.to_string(), "sediff");
    assert_eq!(Tool::Sedta.to_string(), "sedta");
    assert_eq!(Tool::Seinfoflow.to_string(), "seinfoflow");
    assert_eq!(Tool::Sechecker.to_string(), "sechecker");
}

#[test]
fn candidates_follow_the_running_policy_then_descending_installed_order() {
    let info = RunningPolicyInfo {
        selinuxfs_exists: true,
        minimum_version: 32,
        maximum_version: 35,
        current_policy_path: Some("/sys/fs/selinux/policy".to_owned()),
        binary_policy_path: Some("/etc/selinux/policy/policy".to_owned()),
    };
    assert_eq!(
        info.candidates(),
        [
            "/sys/fs/selinux/policy",
            "/etc/selinux/policy/policy.35",
            "/etc/selinux/policy/policy.34",
            "/etc/selinux/policy/policy.33",
            "/etc/selinux/policy/policy.32",
        ]
        .map(String::from)
    );
}

#[test]
fn unix_epoch_has_expected_civil_date() {
    assert_eq!(civil_from_days(0), (1970, 1, 1));
    assert_eq!(civil_from_days(20_686), (2026, 8, 21));
}

#[test]
fn config_is_required() {
    let error = parse(Vec::new()).err().expect("missing config should fail");
    assert_eq!(error, "the following arguments are required: config");
}

#[test]
fn result_limit_is_applied_to_top_level_results() {
    assert_eq!(limited_result_count(3, 0), 3);
    assert_eq!(limited_result_count(3, 2), 2);
    assert_eq!(limited_result_count(1, 2), 1);
}

#[test]
fn parses_xpermission_ranges() {
    assert_eq!(
        parse_xpermissions("0x0001,0x0010-0x0012").expect("range must parse"),
        BTreeSet::from([0x0001, 0x0010, 0x0011, 0x0012])
    );
    assert_eq!(format_xpermission_range(1, 3), "0x0001-0x0003");
}

#[test]
fn accepts_output_file_equals_form() {
    let action = parse(vec!["--output_file=report.txt".to_owned(), "checks.ini".to_owned()])
        .expect("options should parse");
    assert!(matches!(action, setools::arguments::ParseAction::Run(_)));
}

#[test]
fn sechecker_parses_hidden_json_option() {
    let action = parse(vec!["--json".to_owned(), "checks.ini".to_owned(), "policy.bin".to_owned()])
        .expect("options should parse");
    let setools::arguments::ParseAction::Run(options) = action else {
        panic!("expected runnable options");
    };
    assert!(options.json);
    assert_eq!(options.config.as_deref(), Some("checks.ini"));
    assert_eq!(options.policy.as_deref(), Some("policy.bin"));
}

#[test]
fn parses_hidden_json_path_and_boolean_query() {
    let action = setools::flow_args::parse(
        [
            "--json",
            "--source",
            "alpha",
            "--target",
            "delta",
            "--all_paths=3",
            "--min_weight=2",
            "--limit_flows=1",
            "--booleans=second:false,first:true",
            "--full",
            "--stats",
            "excluded",
        ]
        .into_iter()
        .map(String::from)
        .collect(),
    )
    .expect("arguments should parse");
    let setools::flow_args::ParseAction::Run(options) = action else {
        panic!("expected runnable options");
    };
    assert!(options.json);
    assert!(options.full);
    assert!(options.stats);
    assert_eq!(options.all_paths, Some(3));
    assert_eq!(options.minimum_weight, 2);
    assert_eq!(options.limit_flows, 1);
    assert_eq!(options.exclude, ["excluded"]);
    assert_eq!(
        options.booleans.as_ref().expect("Boolean assignments should exist"),
        &vec![("first".to_owned(), true), ("second".to_owned(), false)]
    );
    assert_eq!(setools::flow_args::query_mode(&options), "all_paths");
}
