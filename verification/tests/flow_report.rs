use setools::flow_args::Options;
use setools::flow_report::{render_flow_dot, render_flow_json, render_flow_results, render_flow_stats, render_step, FlowResults};
use setools::infoflow::{InformationFlowGraph, InformationFlowStats};
use setools::permmap::PermissionMap;
use setools::policy::{
    HandleUnknown, ObjectClass, Policy, PolicyMetadata, TargetPlatform, TeRule, TeRuleData, TeRuleKind, TypeSymbol,
};

fn allow(source: usize, target: usize, permission: usize) -> TeRule {
    TeRule {
        kind: TeRuleKind::Allow,
        source,
        target,
        target_class: 0,
        data: TeRuleData::Permissions(vec![permission]),
        condition: None,
    }
}

fn policy(names: &[&str]) -> Policy {
    Policy {
        metadata: PolicyMetadata {
            version: 31,
            mls: false,
            target: TargetPlatform::Selinux,
            handle_unknown: HandleUnknown::Allow,
        },
        types: names
            .iter()
            .map(|name| TypeSymbol {
                name: name.to_string(),
                attribute: false,
                members: Vec::new(),
                aliases: Vec::new(),
                permissive: false,
            })
            .collect(),
        classes: vec![ObjectClass {
            name: "channel".to_owned(),
            permissions: vec!["read_low".to_owned(), "write_high".to_owned()],
        }],
        booleans: Vec::new(),
        conditionals: Vec::new(),
        te_rules: vec![allow(0, 1, 1), allow(2, 1, 0)],
        capabilities: Vec::new(),
        categories: Vec::new(),
        sensitivities: Vec::new(),
        roles: Vec::new(),
        role_allows: Vec::new(),
    }
}

fn map() -> PermissionMap {
    PermissionMap::parse("1\nclass channel 2\nread_low r 1\nwrite_high w 10\n", "test.map").unwrap()
}

#[test]
fn renders_a_flow_with_its_rules() {
    let policy = policy(&["alpha", "beta", "gamma"]);
    let map = map();
    let graph = InformationFlowGraph::new(&policy, &map);
    let flows = graph.flows_out("alpha", 1, &Vec::new(), None).unwrap();
    assert_eq!(flows.len(), 1);
    assert_eq!(render_step(&policy, &flows[0], false).unwrap(), "alpha -> beta");
    assert_eq!(render_step(&policy, &flows[0], true).unwrap(), "alpha -> beta\n   allow alpha beta:channel write_high;");
    let smaller = policy_with_one_type();
    assert_eq!(render_step(&smaller, &flows[0], false).unwrap_err(), "information flow refers to a missing type");
}

fn policy_with_one_type() -> Policy {
    policy(&["alpha"])
}

#[test]
fn lists_flows_and_flow_paths() {
    let policy = policy(&["alpha", "beta", "gamma"]);
    let map = map();
    let graph = InformationFlowGraph::new(&policy, &map);
    let stats = InformationFlowStats { nodes: 3, edges: 2 };
    let flows = FlowResults::Flows(graph.flows_out("alpha", 1, &Vec::new(), None).unwrap());
    assert_eq!(
        render_flow_results(&policy, &flows, false, 0, false, stats).unwrap(),
        "Flow 1: alpha -> beta\n\n1 information flow(s) found.\n"
    );
    assert_eq!(
        render_flow_results(&policy, &flows, true, 0, true, stats).unwrap(),
        "Flow 1: alpha -> beta\n   allow alpha beta:channel write_high;\n\n\n1 information flow(s) found.\n\
         \nGraph statistics:\nnx.number_of_nodes(self.G)=3\nnx.number_of_edges(self.G)=2\nlen(self.G)=3\n\n"
    );
    let paths = FlowResults::Paths(graph.shortest_paths("alpha", "gamma", 1, &Vec::new(), None).unwrap());
    assert_eq!(
        render_flow_results(&policy, &paths, false, 0, false, stats).unwrap(),
        "Flow 1:\n  Step 1: alpha -> beta\n  Step 2: beta -> gamma\n\n1 information flow(s) found.\n"
    );
    assert_eq!(
        render_flow_dot(&policy, &paths).unwrap(),
        "digraph seinfoflow {\n    \"alpha\" -> \"beta\";\n    \"beta\" -> \"gamma\";\n}\n"
    );
}

#[test]
fn writes_flow_statistics_only_when_asked() {
    let stats = InformationFlowStats { nodes: 4, edges: 9 };
    assert_eq!(render_flow_stats(false, stats), "");
    assert_eq!(
        render_flow_stats(true, stats),
        "\nGraph statistics:\nnx.number_of_nodes(self.G)=4\nnx.number_of_edges(self.G)=9\nlen(self.G)=4\n\n"
    );
}

fn options(source: &str) -> Options {
    Options {
        policy: None,
        permission_map: None,
        source: Some(source.to_owned()),
        target: None,
        json: true,
        full: false,
        stats: false,
        verbose: false,
        debug: false,
        shortest_path: false,
        all_paths: None,
        reverse: false,
        minimum_weight: 1,
        limit_flows: 0,
        booleans: None,
        output_file: None,
        exclude: Vec::new(),
    }
}

#[test]
fn writes_flows_as_json() {
    let policy = policy(&["alpha", "beta", "gamma"]);
    let map = map();
    let graph = InformationFlowGraph::new(&policy, &map);
    let stats = InformationFlowStats { nodes: 3, edges: 2 };
    let flows = FlowResults::Flows(graph.flows_out("alpha", 1, &Vec::new(), None).unwrap());
    let mut settings = options("alpha");
    settings.permission_map = Some("test.map".to_owned());
    settings.minimum_weight = 3;
    settings.booleans = Some(vec![("enabled".to_owned(), true)]);
    settings.exclude = vec!["gamma".to_owned()];
    assert_eq!(
        render_flow_json(&policy, "policy.33", "4.7.1", &settings, &flows, stats).unwrap(),
        "{\"schema\":\"setools-rs.seinfoflow\",\"schema_version\":1,\"tool\":{\"name\":\"seinfoflow\",\"version\":\"4.7.1\"},\
         \"policy\":{\"path\":\"policy.33\"},\"query\":{\"mode\":\"flows_out\",\"source\":\"alpha\",\"target\":null,\
         \"reverse\":false,\"max_steps\":null,\"minimum_weight\":3,\"limit\":0,\"exclude\":[\"gamma\"],\
         \"booleans\":{\"mode\":\"assignments\",\"values\":[{\"name\":\"enabled\",\"state\":true}]},\
         \"permission_map\":{\"kind\":\"file\",\"path\":\"test.map\"},\"full\":false,\"stats\":false},\
         \"result_type\":\"flow\",\"statistics\":null,\"result_count\":1,\
         \"results\":[{\"kind\":\"flow\",\"source\":\"alpha\",\"target\":\"beta\",\"weight\":10,\"rules\":null}]}\n"
    );
}

#[test]
fn writes_flow_paths_as_json() {
    let policy = policy(&["alpha", "beta", "gamma"]);
    let map = map();
    let graph = InformationFlowGraph::new(&policy, &map);
    let stats = InformationFlowStats { nodes: 3, edges: 2 };
    let paths = FlowResults::Paths(graph.shortest_paths("alpha", "gamma", 1, &Vec::new(), None).unwrap());
    let mut settings = options("alpha");
    settings.target = Some("gamma".to_owned());
    settings.all_paths = Some(4);
    settings.full = true;
    settings.stats = true;
    settings.booleans = Some(Vec::new());
    assert_eq!(
        render_flow_json(&policy, "policy.33", "4.7.1", &settings, &paths, stats).unwrap(),
        "{\"schema\":\"setools-rs.seinfoflow\",\"schema_version\":1,\"tool\":{\"name\":\"seinfoflow\",\"version\":\"4.7.1\"},\
         \"policy\":{\"path\":\"policy.33\"},\"query\":{\"mode\":\"all_paths\",\"source\":\"alpha\",\"target\":\"gamma\",\
         \"reverse\":false,\"max_steps\":4,\"minimum_weight\":1,\"limit\":0,\"exclude\":[],\
         \"booleans\":{\"mode\":\"default\",\"values\":[]},\"permission_map\":{\"kind\":\"built_in\",\"path\":null},\
         \"full\":true,\"stats\":true},\"result_type\":\"path\",\"statistics\":{\"nodes\":3,\"edges\":2},\"result_count\":1,\
         \"results\":[{\"kind\":\"path\",\"step_count\":2,\"steps\":[\
         {\"source\":\"alpha\",\"target\":\"beta\",\"weight\":10,\"rules\":[\"allow alpha beta:channel write_high;\"]},\
         {\"source\":\"beta\",\"target\":\"gamma\",\"weight\":1,\"rules\":[\"allow gamma beta:channel read_low;\"]}]}]}\n"
    );
}
