use setools::infoflow::{InformationFlowError, InformationFlowGraph};
use setools::permmap::PermissionMap;
use setools::policy::{
    Boolean, ConditionalToken, HandleUnknown, ObjectClass, Policy, PolicyMetadata, RuleCondition, TargetPlatform,
    TeRule, TeRuleData, TeRuleKind, TypeSymbol,
};

const CHANNEL: usize = 0;

fn allow(source: usize, target: usize, permission: usize) -> TeRule {
    TeRule {
        kind: TeRuleKind::Allow,
        source,
        target,
        target_class: CHANNEL,
        data: TeRuleData::Permissions(vec![permission]),
        condition: None,
    }
}

fn conditional(mut rule: TeRule, block: bool) -> TeRule {
    rule.condition = Some(RuleCondition { conditional: 0, block });
    rule
}

fn flow_policy() -> Policy {
    let mut types: Vec<TypeSymbol> = ["alpha", "beta", "gamma", "low", "inbound", "flow_true", "flow_false"]
        .into_iter()
        .map(|name| TypeSymbol {
            name: name.to_owned(),
            attribute: false,
            members: Vec::new(),
            aliases: Vec::new(),
            permissive: false,
        })
        .collect();
    types.push(TypeSymbol {
        name: "writers".to_owned(),
        attribute: true,
        members: vec![0, 4],
        aliases: Vec::new(),
        permissive: false,
    });
    let rules = vec![
        allow(0, 1, 2),
        allow(1, 0, 1),
        allow(1, 2, 3),
        allow(0, 3, 2),
        allow(4, 0, 3),
        conditional(allow(0, 5, 3), true),
        conditional(allow(0, 6, 3), false),
        allow(7, 3, 2),
    ];
    Policy {
        metadata: PolicyMetadata {
            version: 35,
            mls: false,
            target: TargetPlatform::Selinux,
            handle_unknown: HandleUnknown::Reject,
        },
        types,
        classes: vec![ObjectClass {
            name: "channel".to_owned(),
            permissions: ["read_low", "read_medium", "write_low", "write_high"].iter().map(|p| p.to_string()).collect(),
        }],
        booleans: vec![Boolean { name: "enabled".to_owned(), state: false }],
        conditionals: vec![vec![ConditionalToken::Boolean(0)]],
        te_rules: rules,
        capabilities: Vec::new(),
        categories: Vec::new(),
        sensitivities: Vec::new(),
        roles: Vec::new(),
        role_allows: Vec::new(),
    }
}

fn flow_map() -> PermissionMap {
    PermissionMap::parse(
        "1\nclass channel 4\nread_low r 1\nread_medium r 5\nwrite_low w 1\nwrite_high w 10\n",
        "test.map",
    )
    .unwrap()
}

#[test]
fn builds_weighted_edges_and_expands_attributes() {
    let policy = flow_policy();
    let graph = InformationFlowGraph::new(&policy, &flow_map());
    assert_eq!(graph.stats().nodes, 7);
    assert_eq!(graph.stats().edges, 7);

    let flows = graph.flows_out("alpha", 1, &Vec::new(), None).unwrap();
    assert_eq!(flows.len(), 4);
    assert_eq!(flows[0].target(), 1);
    assert_eq!(flows[0].weight(), 5);
    assert_eq!(flows[0].rules().len(), 2);
    assert_eq!(flows[1].target(), 3);
    assert_eq!(flows[1].rules().len(), 2);

    let expanded = graph.flows_out("inbound", 1, &Vec::new(), None).unwrap();
    assert_eq!(expanded.len(), 2);
    assert!(expanded.iter().any(|flow| flow.target() == 3));
}

#[test]
fn filters_weights_exclusions_and_conditional_branches() {
    let policy = flow_policy();
    let graph = InformationFlowGraph::new(&policy, &flow_map());
    let weighted = graph.flows_out("alpha", 3, &Vec::new(), None).unwrap();
    assert_eq!(weighted.len(), 3);
    assert!(weighted.iter().all(|flow| flow.weight() >= 3));

    let defaults: Vec<(String, bool)> = Vec::new();
    let filtered = graph.flows_out("alpha", 1, &Vec::new(), Some(&defaults)).unwrap();
    assert!(filtered.iter().any(|flow| flow.target() == 6));
    assert!(!filtered.iter().any(|flow| flow.target() == 5));

    let enabled = vec![("enabled".to_owned(), true)];
    let filtered = graph.flows_out("alpha", 1, &Vec::new(), Some(&enabled)).unwrap();
    assert!(filtered.iter().any(|flow| flow.target() == 5));
    assert!(!filtered.iter().any(|flow| flow.target() == 6));

    let excluded = graph.flows_out("alpha", 1, &vec!["beta".to_owned()], None).unwrap();
    assert!(!excluded.iter().any(|flow| flow.target() == 1));
}

#[test]
fn enumerates_paths_reverse_flows_and_errors() {
    let policy = flow_policy();
    let graph = InformationFlowGraph::new(&policy, &flow_map());
    let shortest = graph.shortest_paths("alpha", "gamma", 1, &Vec::new(), None).unwrap();
    assert_eq!(shortest.len(), 1);
    assert_eq!(shortest[0].len(), 2);
    assert_eq!(shortest[0][1].target(), 2);

    let paths = graph.all_paths("alpha", "gamma", 2, 1, &Vec::new(), None).unwrap();
    assert_eq!(paths.len(), 1);
    assert_eq!(paths[0].len(), 2);
    let reverse = graph.flows_in("alpha", 1, &Vec::new(), None).unwrap();
    assert_eq!(reverse.len(), 1);
    assert_eq!(reverse[0].source(), 4);

    assert_eq!(
        graph.flows_out("missing", 1, &Vec::new(), None).unwrap_err(),
        InformationFlowError::UnknownType("missing".to_owned())
    );
    assert_eq!(
        graph.flows_out("alpha", 0, &Vec::new(), None).unwrap_err(),
        InformationFlowError::InvalidWeight
    );
    assert_eq!(
        graph.all_paths("alpha", "gamma", 0, 1, &Vec::new(), None).unwrap_err(),
        InformationFlowError::InvalidDepth
    );
}

#[test]
fn boolean_overrides_choose_the_enabled_branch() {
    let policy = flow_policy();
    let graph = InformationFlowGraph::new(&policy, &flow_map());
    let disabled = vec![("enabled".to_owned(), false)];
    let flows = graph.flows_out("alpha", 1, &Vec::new(), Some(&disabled)).unwrap();
    assert!(flows.iter().any(|flow| flow.target() == 6));
    assert!(!flows.iter().any(|flow| flow.target() == 5));
    let stats = graph.subgraph_stats(1, &Vec::new(), Some(&disabled)).unwrap();
    assert_eq!(stats.edges, 6);
}

#[test]
fn heavy_minimum_keeps_only_heavy_flows() {
    let policy = flow_policy();
    let graph = InformationFlowGraph::new(&policy, &flow_map());
    let heavy = graph.flows_out("alpha", 10, &Vec::new(), None).unwrap();
    assert!(heavy.iter().all(|flow| flow.weight() == 10));
    assert_eq!(graph.flows_out("alpha", 11, &Vec::new(), None).unwrap_err(), InformationFlowError::InvalidWeight);
}
