use setools::compat::statement_set_difference;
use setools::diff::set_difference;
use setools::diff_args::{components, parse_diff, wants, Component, DiffAction};
use setools::diff_report::{render_diff_json, render_section, render_selected, PropertyValue, SectionDifference};
use setools::policy::{
    AliasedSymbol, Boolean, HandleUnknown, Policy, PolicyMetadata, TargetPlatform, TypeSymbol,
};
use setools::policy_diff::PolicyDiff;

fn words(values: &[&str]) -> Vec<String> {
    values.iter().map(|v| v.to_string()).collect()
}

fn concrete(name: &str) -> TypeSymbol {
    TypeSymbol { name: name.to_owned(), attribute: false, members: Vec::new(), aliases: Vec::new(), permissive: false }
}

fn attribute(name: &str, members: Vec<usize>) -> TypeSymbol {
    TypeSymbol { name: name.to_owned(), attribute: true, members, aliases: Vec::new(), permissive: false }
}

fn aliased(name: &str, aliases: &[&str]) -> AliasedSymbol {
    AliasedSymbol { name: name.to_owned(), aliases: aliases.iter().map(|a| a.to_string()).collect() }
}

fn policy(right: bool) -> Policy {
    let side = |r: &str, l: &str| if right { r.to_owned() } else { l.to_owned() };
    Policy {
        metadata: PolicyMetadata {
            version: if right { 35 } else { 33 },
            mls: right,
            target: TargetPlatform::Selinux,
            handle_unknown: if right { HandleUnknown::Allow } else { HandleUnknown::Reject },
        },
        types: vec![
            concrete("shared_type"),
            concrete("left_member"),
            concrete("right_member"),
            attribute("changing_attr", if right { vec![0, 2] } else { vec![0, 1] }),
            attribute(&side("added_attr", "removed_attr"), Vec::new()),
        ],
        classes: Vec::new(),
        booleans: vec![
            Boolean { name: "same_bool".to_owned(), state: true },
            Boolean { name: side("added_bool", "removed_bool"), state: true },
            Boolean { name: "modified_bool".to_owned(), state: right },
        ],
        conditionals: Vec::new(),
        te_rules: Vec::new(),
        capabilities: vec![side("always_check_network", "network_peer_controls")],
        categories: vec![
            aliased("c0", &["same_category_alias", &side("added_category_alias", "removed_category_alias")]),
            aliased(&side("added_category", "removed_category"), &[]),
        ],
        sensitivities: vec![
            aliased("s0", &["same_sens_alias", &side("added_sens_alias", "removed_sens_alias")]),
            aliased(&side("added_sensitivity", "removed_sensitivity"), &[]),
        ],
        roles: Vec::new(),
        role_allows: Vec::new(),
    }
}

#[test]
fn canonical_components_never_compare_policy_local_ids() {
    let left = policy(false);
    let right = policy(true);
    let diff = PolicyDiff::new(&left, &right);

    let properties = diff.properties();
    assert_eq!(properties.len(), 3);
    assert_eq!(properties[0].property, "MLS");
    assert_eq!(properties[0].added, PropertyValue::Boolean(true));
    assert_eq!(properties[1].property, "handle_unknown");
    assert_eq!(properties[2].property, "version");

    let polcaps = diff.policy_capabilities();
    assert_eq!(polcaps.added(), ["always_check_network"]);
    assert_eq!(polcaps.removed(), ["network_peer_controls"]);

    let booleans = diff.booleans();
    assert_eq!(booleans.added(), ["added_bool"]);
    assert_eq!(booleans.removed(), ["removed_bool"]);
    assert_eq!(booleans.modified()[0].name(), "modified_bool");
    assert!(booleans.modified()[0].added_state());
    assert!(!booleans.modified()[0].removed_state());

    let attributes = diff.type_attributes();
    assert_eq!(attributes.added(), ["added_attr"]);
    assert_eq!(attributes.removed(), ["removed_attr"]);
    assert_eq!(attributes.modified()[0].name(), "changing_attr");
    assert_eq!(attributes.modified()[0].added_types(), ["right_member"]);
    assert_eq!(attributes.modified()[0].removed_types(), ["left_member"]);

    let categories = diff.categories();
    assert_eq!(categories.added(), ["added_category"]);
    assert_eq!(categories.removed(), ["removed_category"]);
    assert_eq!(categories.modified()[0].name(), "c0");

    let sensitivities = diff.sensitivities();
    assert_eq!(sensitivities.added(), ["added_sensitivity"]);
    assert_eq!(sensitivities.removed(), ["removed_sensitivity"]);
    assert_eq!(sensitivities.modified()[0].name(), "s0");
}

#[test]
fn parses_implemented_component_selection() {
    let DiffAction::Run(options) = parse_diff(words(&["--stats", "--bool", "--attribute", "left", "right"])).unwrap() else {
        panic!("expected runnable options");
    };
    assert!(options.stats);
    assert!(!options.json);
    assert_eq!(options.components, [Component::Boolean, Component::Attribute]);
    assert_eq!(options.policies.len(), 2);
}

#[test]
fn sediff_parses_hidden_json_option() {
    let DiffAction::Run(options) = parse_diff(words(&["--json", "--property", "left", "right"])).unwrap() else {
        panic!("expected runnable options");
    };
    assert!(options.json);
    assert_eq!(options.components, [Component::Property]);
}

#[test]
fn requires_both_policy_paths() {
    assert_eq!(parse_diff(words(&["left"])).unwrap_err(), "the following arguments are required: POLICY2");
    assert_eq!(parse_diff(words(&[])).unwrap_err(), "the following arguments are required: POLICY1, POLICY2");
    assert_eq!(parse_diff(words(&["a", "b", "c", "d"])).unwrap_err(), "unrecognized arguments: c d");
    assert_eq!(parse_diff(words(&["--bogus", "a", "b"])).unwrap_err(), "unrecognized arguments: --bogus");
    assert!(matches!(parse_diff(words(&["-A", "--help"])), Ok(DiffAction::Help)));
    let DiffAction::Run(options) = parse_diff(words(&["-A", "--", "-left", "right"])).unwrap() else {
        panic!("expected runnable options");
    };
    assert_eq!(options.components, [Component::Allow, Component::AllowXperm]);
    assert_eq!(options.policies, ["-left", "right"]);
}

#[test]
fn text_sections_show_what_differs() {
    let left = policy(false);
    let right = policy(true);
    let diff = PolicyDiff::new(&left, &right);
    let DiffAction::Run(options) = parse_diff(words(&["left", "right"])).unwrap() else {
        panic!("expected runnable options");
    };
    let order = components();
    assert_eq!(order.len(), 38);
    assert!(order.iter().all(|c| wants(&options, *c)));
    let sections = vec![
        (Component::Property, SectionDifference::Properties(diff.properties())),
        (Component::Polcap, SectionDifference::Names(diff.policy_capabilities())),
        (Component::Boolean, SectionDifference::Booleans(diff.booleans())),
        (Component::Attribute, SectionDifference::Attributes(diff.type_attributes())),
        (Component::Category, SectionDifference::Aliases(diff.categories())),
        (Component::Allow, SectionDifference::Compatibility(statement_set_difference(&Vec::new(), &Vec::new()))),
    ];
    let text = render_selected(&options, &sections);
    assert!(text.starts_with(
        "Policy Properties (3 Modified)\n      * MLS +True -False\n      * handle_unknown +allow -reject\n      \
         * version +35 -33\n\nPolicy Capabilities (1 Added, 1 Removed)\n   Added Policy Capabilities: 1\n      \
         + always_check_network\n   Removed Policy Capabilities: 1\n      - network_peer_controls\n\n"
    ));
    assert!(text.contains(
        "Booleans (1 Added, 1 Removed, 1 Modified)\n   Added Booleans: 1\n      + added_bool\n   Removed Booleans: 1\n      \
         - removed_bool\n   Modified Booleans: 1\n      * modified_bool (Modified default state)\n          + True\n          \
         - False\n\n"
    ));
    assert!(text.contains(
        "   Modified Type Attributes: 1\n      * changing_attr (1 Added types, 1 Removed types)\n          + right_member\n          \
         - left_member\n\n"
    ));
    assert!(text.contains(
        "      * c0 (1 Added Aliases, 1 Removed Aliases)\n          Aliases:\n          + added_category_alias\n          \
         - removed_category_alias\n\n"
    ));
    assert!(!text.contains("Allow Rules"));
}

#[test]
fn asked_for_sections_show_even_when_equal() {
    let DiffAction::Run(options) = parse_diff(words(&["--allow", "--role_allow", "left", "right"])).unwrap() else {
        panic!("expected runnable options");
    };
    assert!(wants(&options, Component::Allow));
    assert!(!wants(&options, Component::Boolean));
    let mut text = String::new();
    let empty = SectionDifference::Compatibility(statement_set_difference(&Vec::new(), &Vec::new()));
    render_section(&mut text, &options, Component::Allow, &empty);
    render_section(&mut text, &options, Component::RoleAllow, &empty);
    let names = SectionDifference::Names(set_difference(&vec!["a".to_owned()], &vec!["b".to_owned()]));
    render_section(&mut text, &options, Component::Polcap, &names);
    assert_eq!(text, "Allow Rules (0 Added, 0 Removed, 0 Modified)\n\nRole allow Rules (0 Added, 0 Removed)\n\n");
}

#[test]
fn json_report_counts_every_item() {
    let left = policy(false);
    let right = policy(true);
    let diff = PolicyDiff::new(&left, &right);
    let DiffAction::Run(options) = parse_diff(words(&["--json", "--bool", "--polcap", "l.pol", "r.pol"])).unwrap() else {
        panic!("expected runnable options");
    };
    let sections = vec![
        (Component::Polcap, SectionDifference::Names(diff.policy_capabilities())),
        (Component::Boolean, SectionDifference::Booleans(diff.booleans())),
    ];
    let json = render_diff_json(&options, "l.pol", "r.pol", "4.7.1", &sections);
    assert_eq!(
        json,
        "{\"schema\":\"setools-rs.sediff\",\"schema_version\":1,\"tool\":{\"name\":\"sediff\",\"version\":\"4.7.1\"},\
         \"policy\":{\"left_path\":\"l.pol\",\"right_path\":\"r.pol\"},\"query\":{\"all\":false,\"stats\":false,\
         \"components\":[\"polcap\",\"boolean\"]},\"result_count\":5,\"results\":[{\"component\":\"polcap\",\
         \"description\":\"Policy Capabilities\",\"counts\":{\"added\":1,\"removed\":1,\"modified\":0},\
         \"added\":[\"always_check_network\"],\"removed\":[\"network_peer_controls\"],\"modified\":[]},\
         {\"component\":\"boolean\",\"description\":\"Booleans\",\"counts\":{\"added\":1,\"removed\":1,\"modified\":1},\
         \"added\":[\"added_bool\"],\"removed\":[\"removed_bool\"],\"modified\":[{\"summary\":\"modified_bool \
         (Modified default state)\",\"details\":[\"+ True\",\"- False\"]}]}]}\n"
    );
}
