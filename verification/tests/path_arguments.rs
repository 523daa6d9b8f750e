use setools::dta_args::{check_usage, parse as parse_transitions, query_reverse, ParseAction};
use setools::flow_args::{check_usage as check_flow_usage, parse as parse_flows};

fn words(values: &[&str]) -> Vec<String> {
    values.iter().map(|v| v.to_string()).collect()
}

#[test]
fn transition_queries_need_a_source() {
    assert_eq!(
        parse_transitions(words(&["policy.35"])).unwrap_err(),
        "the following arguments are required: -s/--source"
    );
}

#[test]
fn transition_options_take_both_spellings() {
    let action = parse_transitions(words(&["-s", "init_t", "--target=user_t", "-S", "-r", "--", "-odd"])).unwrap();
    let ParseAction::Run(options) = action else {
        panic!("expected runnable options");
    };
    assert_eq!(options.source.as_deref(), Some("init_t"));
    assert_eq!(options.target.as_deref(), Some("user_t"));
    assert!(options.shortest_path);
    assert!(options.reverse);
    assert_eq!(options.exclude, ["-odd"]);
    assert!(check_usage(&options).is_ok());
    assert!(query_reverse(&options));
}

#[test]
fn transition_option_errors_name_the_option() {
    assert_eq!(
        parse_transitions(words(&["-s", "a", "-A", "many"])).unwrap_err(),
        "argument -A/--all_paths: invalid int value: 'many'"
    );
    assert_eq!(parse_transitions(words(&["-s", "a", "-t"])).unwrap_err(), "argument -t/--target: expected one argument");
    assert_eq!(parse_transitions(words(&["-s", "a", "--bogus"])).unwrap_err(), "unrecognized arguments: --bogus");
    assert!(matches!(parse_transitions(words(&["--version"])), Ok(ParseAction::Version)));
    assert!(matches!(parse_transitions(words(&["-h"])), Ok(ParseAction::Help)));
}

#[test]
fn transition_targets_need_an_algorithm() {
    let ParseAction::Run(options) = parse_transitions(words(&["-s", "a", "-t", "b"])).unwrap() else {
        panic!("expected runnable options");
    };
    assert_eq!(check_usage(&options).unwrap_err(), "An algorithm must be specified to determine a path.");
    let ParseAction::Run(options) = parse_transitions(words(&["-s", "a", "-A", "3"])).unwrap() else {
        panic!("expected runnable options");
    };
    assert_eq!(check_usage(&options).unwrap_err(), "The target type must be specified to determine a path.");
    assert!(!query_reverse(&options));
}

#[test]
fn flow_queries_check_their_options_together() {
    let setools::flow_args::ParseAction::Run(options) = parse_flows(words(&["-s", "a", "-t", "b"])).unwrap() else {
        panic!("expected runnable options");
    };
    assert_eq!(check_flow_usage(&options).unwrap_err(), "A target type is not used for flows in/out of a type.");
    let setools::flow_args::ParseAction::Run(options) =
        parse_flows(words(&["--json", "-s", "a", "-t", "b", "-S", "-o", "flows.dot"])).unwrap()
    else {
        panic!("expected runnable options");
    };
    assert_eq!(check_flow_usage(&options).unwrap_err(), "--json cannot be used with --output_file.");
}
