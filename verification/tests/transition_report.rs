use setools::dta_report::{render_dot, render_results, render_stats, render_transition, Results};
use setools::graph::{DomainTransitionGraph, DomainTransitionStats};
use setools::policy::{
    HandleUnknown, ObjectClass, Policy, PolicyMetadata, TargetPlatform, TeRule, TeRuleData, TeRuleKind,
    TypeSymbol,
};

const PROCESS: usize = 0;
const FILE: usize = 1;

fn symbol(name: &str) -> TypeSymbol {
    TypeSymbol { name: name.to_owned(), attribute: false, members: Vec::new(), aliases: Vec::new(), permissive: false }
}

fn rule(kind: TeRuleKind, source: usize, target: usize, class: usize, data: TeRuleData) -> TeRule {
    TeRule { kind, source, target, target_class: class, data, condition: None }
}

fn class(name: &str, permissions: &[&str]) -> ObjectClass {
    ObjectClass { name: name.to_owned(), permissions: permissions.iter().map(|p| p.to_string()).collect() }
}

fn policy_named(names: &[&str]) -> Policy {
    let allow = TeRuleKind::Allow;
    let rules = vec![
        rule(allow, 0, 1, PROCESS, TeRuleData::Permissions(vec![0])),
        rule(allow, 0, 2, FILE, TeRuleData::Permissions(vec![0])),
        rule(allow, 1, 2, FILE, TeRuleData::Permissions(vec![1])),
        rule(TeRuleKind::TypeTransition, 0, 2, PROCESS, TeRuleData::DefaultType(1)),
        rule(allow, 0, 3, PROCESS, TeRuleData::Permissions(vec![1])),
        rule(allow, 0, 0, PROCESS, TeRuleData::Permissions(vec![3])),
    ];
    Policy {
        metadata: PolicyMetadata {
            version: 33,
            mls: false,
            target: TargetPlatform::Selinux,
            handle_unknown: HandleUnknown::Deny,
        },
        types: names.iter().map(|name| symbol(name)).collect(),
        classes: vec![
            class("process", &["transition", "dyntransition", "setexec", "setcurrent"]),
            class("file", &["execute", "entrypoint"]),
        ],
        booleans: Vec::new(),
        conditionals: Vec::new(),
        te_rules: rules,
        capabilities: Vec::new(),
        categories: Vec::new(),
        sensitivities: Vec::new(),
        roles: Vec::new(),
        role_allows: Vec::new(),
    }
}

fn policy() -> Policy {
    policy_named(&["alpha", "beta", "beta_exec", "dyn"])
}

#[test]
fn renders_full_standard_and_dynamic_transitions() {
    let policy = policy();
    let graph = DomainTransitionGraph::new(&policy);
    let transitions = graph.transitions_out("alpha", &Vec::new()).unwrap();
    assert_eq!(transitions.len(), 2);
    assert_eq!(
        render_transition(&policy, &transitions[0], true).unwrap(),
        "alpha -> beta\n\nDomain transition rule(s):\nallow alpha beta:process transition;\n\n\
         Entrypoint beta_exec:\n\tDomain entrypoint rule(s):\n\tallow beta beta_exec:file entrypoint;\n\n\
         \tFile execute rule(s):\n\tallow alpha beta_exec:file execute;\n\n\
         \tType transition rule(s):\n\ttype_transition alpha beta_exec:process beta;\n"
    );
    assert_eq!(
        render_transition(&policy, &transitions[1], true).unwrap(),
        "alpha -> dyn\n\nDynamic transition rule(s):\nallow alpha dyn:process dyntransition;\n\n\
         Set current process context rule(s):\nallow alpha alpha:process setcurrent;\n"
    );
    assert_eq!(render_transition(&policy, &transitions[1], false).unwrap(), "alpha -> dyn\n");
}

#[test]
fn renders_a_missing_type_as_an_error() {
    let policy = policy();
    let graph = DomainTransitionGraph::new(&policy);
    let transitions = graph.transitions_out("alpha", &Vec::new()).unwrap();
    let smaller = policy_named(&["alpha"]);
    assert_eq!(
        render_transition(&smaller, &transitions[0], false).unwrap_err(),
        "domain transition refers to a missing type"
    );
}

#[test]
fn lists_transitions_up_to_the_limit() {
    let policy = policy();
    let graph = DomainTransitionGraph::new(&policy);
    let stats = DomainTransitionStats { nodes: 3, edges: 2 };
    let all = Results::Transitions(graph.transitions_out("alpha", &Vec::new()).unwrap());
    assert_eq!(
        render_results(&policy, &all, false, 0, false, stats).unwrap(),
        "Transition 1: alpha -> beta\n\nTransition 2: alpha -> dyn\n\n\n2 domain transition(s) found.\n"
    );
    assert_eq!(
        render_results(&policy, &all, false, 1, false, stats).unwrap(),
        "Transition 1: alpha -> beta\n\n\n1 domain transition(s) found.\n"
    );
    assert_eq!(
        render_results(&policy, &all, false, -3, true, stats).unwrap(),
        "Transition 1: alpha -> beta\n\n\n1 domain transition(s) found.\n\
         \nGraph statistics:\nnx.number_of_nodes(self.G)=3\nnx.number_of_edges(self.G)=2\nlen(self.G)=3\n\n"
    );
}

#[test]
fn lists_paths_with_numbered_steps() {
    let policy = policy();
    let graph = DomainTransitionGraph::new(&policy);
    let stats = DomainTransitionStats { nodes: 0, edges: 0 };
    let paths = Results::Paths(vec![graph.transitions_out("alpha", &Vec::new()).unwrap()]);
    assert_eq!(
        render_results(&policy, &paths, false, 0, false, stats).unwrap(),
        "Domain transition path 1:\nStep 1: alpha -> beta\n\nStep 2: alpha -> dyn\n\n\n\n1 domain transition path(s) found.\n"
    );
    assert_eq!(
        render_results(&policy, &paths, false, 1, false, stats).unwrap(),
        "Domain transition path 1:\nStep 1: alpha -> beta\n\nStep 2: alpha -> dyn\n\n\n1 domain transition path(s) found.\n"
    );
}

#[test]
fn writes_statistics_only_when_asked() {
    let stats = DomainTransitionStats { nodes: 12, edges: 7 };
    assert_eq!(render_stats(false, stats), "");
    assert_eq!(
        render_stats(true, stats),
        "\nGraph statistics:\nnx.number_of_nodes(self.G)=12\nnx.number_of_edges(self.G)=7\nlen(self.G)=12\n\n"
    );
}

#[test]
fn writes_each_graph_edge_once_with_escaped_names() {
    let policy = policy_named(&["al\"pha", "be\\ta", "beta_exec", "dyn"]);
    let graph = DomainTransitionGraph::new(&policy);
    let first = graph.transitions_out("al\"pha", &Vec::new()).unwrap();
    let second = graph.transitions_out("al\"pha", &Vec::new()).unwrap();
    let paths = Results::Paths(vec![first, second]);
    assert_eq!(
        render_dot(&policy, &paths).unwrap(),
        "digraph sedta {\n    \"al\\\"pha\" -> \"be\\\\ta\";\n    \"al\\\"pha\" -> \"dyn\";\n}\n"
    );
}
