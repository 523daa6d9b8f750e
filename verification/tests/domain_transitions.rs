use setools::graph::{DomainTransitionGraph, GraphError};
use setools::policy::{
    HandleUnknown, ObjectClass, Policy, PolicyMetadata, TargetPlatform, TeRule, TeRuleData, TeRuleKind,
    TypeSymbol,
};

const PROCESS: usize = 0;
const FILE: usize = 1;

fn symbol(name: &str) -> TypeSymbol {
    TypeSymbol { name: name.to_owned(), attribute: false, members: Vec::new(), aliases: Vec::new(), permissive: false }
}

fn allow(source: usize, target: usize, class: usize, permissions: &[usize]) -> TeRule {
    TeRule {
        kind: TeRuleKind::Allow,
        source,
        target,
        target_class: class,
        data: TeRuleData::Permissions(permissions.to_vec()),
        condition: None,
    }
}

fn type_transition(source: usize, executable: usize, target: usize) -> TeRule {
    TeRule {
        kind: TeRuleKind::TypeTransition,
        source,
        target: executable,
        target_class: PROCESS,
        data: TeRuleData::DefaultType(target),
        condition: None,
    }
}

fn class(name: &str, permissions: &[&str]) -> ObjectClass {
    ObjectClass { name: name.to_owned(), permissions: permissions.iter().map(|p| p.to_string()).collect() }
}

fn policy() -> Policy {
    let mut types: Vec<TypeSymbol> = ["alpha", "beta", "beta_exec", "gamma", "gamma_exec", "dynamic", "invalid"]
        .into_iter()
        .map(symbol)
        .collect();
    types.push(TypeSymbol {
        name: "source_domains".to_owned(),
        attribute: true,
        members: vec![0, 5],
        aliases: Vec::new(),
        permissive: false,
    });
    let rules = vec![
        allow(0, 1, PROCESS, &[0]),
        allow(0, 2, FILE, &[0]),
        allow(1, 2, FILE, &[1]),
        type_transition(0, 2, 1),
        allow(1, 3, PROCESS, &[0]),
        allow(1, 1, PROCESS, &[2]),
        allow(1, 4, FILE, &[0]),
        allow(3, 4, FILE, &[1]),
        allow(0, 5, PROCESS, &[1]),
        allow(0, 0, PROCESS, &[3]),
        allow(0, 6, PROCESS, &[0]),
        allow(5, 3, PROCESS, &[1]),
        allow(5, 5, PROCESS, &[3]),
        allow(7, 1, PROCESS, &[0]),
        allow(7, 2, FILE, &[0]),
        type_transition(7, 2, 1),
    ];
    Policy {
        metadata: PolicyMetadata {
            version: 35,
            mls: false,
            target: TargetPlatform::Selinux,
            handle_unknown: HandleUnknown::Reject,
        },
        types,
        classes: vec![
            class("process", &["transition", "dyntransition", "setexec", "setcurrent"]),
            class("file", &["execute", "entrypoint"]),
        ],
        booleans: Vec::new(),
        conditionals: Vec::new(),
        te_rules: rules,
        capabilities: Vec::new(),
        categories: Vec::new(),
        sensitivities: Vec::new(),
        roles: Vec::new(),
        role_allows: Vec::new(),
    }
}

#[test]
fn builds_only_complete_standard_and_dynamic_transitions() {
    let policy = policy();
    let graph = DomainTransitionGraph::new(&policy);
    assert_eq!(graph.stats().nodes, 5);
    assert_eq!(graph.stats().edges, 5);

    let transitions = graph.transitions_out("alpha", &Vec::new()).unwrap();
    assert_eq!(transitions.len(), 2);
    assert_eq!(transitions[0].target(), 1);
    assert_eq!(transitions[0].entrypoints()[0].name(), 2);
    assert_eq!(transitions[1].target(), 5);
    assert!(transitions[1].transition_rules().is_empty());
    assert_eq!(transitions[1].dyntransition_rules().len(), 1);
}

#[test]
fn enumerates_forward_and_reverse_paths() {
    let policy = policy();
    let graph = DomainTransitionGraph::new(&policy);
    let paths = graph.shortest_paths("alpha", "gamma", false, &Vec::new()).unwrap();
    assert_eq!(paths.len(), 2);
    assert_eq!(paths[0].len(), 2);
    assert_eq!(paths[0][0].source(), 0);
    assert_eq!(paths[0][1].target(), 3);
    assert_eq!(paths[1][0].target(), 5);
    assert_eq!(paths[1][1].source(), 5);

    let reverse = graph.shortest_paths("gamma", "alpha", true, &Vec::new()).unwrap();
    assert_eq!(reverse.len(), 2);
    assert_eq!(reverse[0][0].source(), 1);
    assert_eq!(reverse[0][0].target(), 3);
    assert_eq!(reverse[0][1].source(), 0);

    let expanded = graph.transitions_out("dynamic", &Vec::new()).unwrap();
    assert!(expanded
        .iter()
        .any(|transition| transition.target() == 1 && !transition.transition_rules().is_empty()));
}

#[test]
fn excludes_domains_and_entrypoints_and_validates_names() {
    let policy = policy();
    let graph = DomainTransitionGraph::new(&policy);
    assert!(graph
        .transitions_out("alpha", &vec!["beta_exec".to_owned()])
        .unwrap()
        .iter()
        .all(|transition| transition.target() != 1));
    assert_eq!(
        graph.transitions_out("missing", &Vec::new()).unwrap_err(),
        GraphError::UnknownType("missing".to_owned())
    );
    assert!(matches!(
        graph.all_paths("alpha", "gamma", 0, false, &Vec::new()),
        Err(GraphError::InvalidDepth)
    ));
}

#[test]
fn reverse_transitions_end_at_the_target() {
    let policy = policy();
    let graph = DomainTransitionGraph::new(&policy);
    let incoming = graph.transitions_in("gamma", &Vec::new()).unwrap();
    assert!(!incoming.is_empty());
    assert!(incoming.iter().all(|transition| transition.target() == 3));
    let sources: Vec<usize> = incoming.iter().map(|transition| transition.source()).collect();
    assert!(sources.contains(&1));
    assert!(sources.contains(&5));
}

#[test]
fn all_paths_respect_the_depth_limit() {
    let policy = policy();
    let graph = DomainTransitionGraph::new(&policy);
    let short = graph.all_paths("alpha", "gamma", 1, false, &Vec::new()).unwrap();
    assert!(short.is_empty());
    let paths = graph.all_paths("alpha", "gamma", 2, false, &Vec::new()).unwrap();
    assert_eq!(paths.len(), 2);
    assert!(paths.iter().all(|path| path.len() == 2 && path[0].source() == 0 && path[1].target() == 3));
}

#[test]
fn excluding_a_domain_shrinks_the_graph() {
    let policy = policy();
    let graph = DomainTransitionGraph::new(&policy);
    let full = graph.subgraph_stats(&Vec::new()).unwrap();
    assert_eq!(full, graph.stats());
    let smaller = graph.subgraph_stats(&vec!["dynamic".to_owned()]).unwrap();
    assert!(smaller.edges < full.edges);
    assert_eq!(graph.subgraph_stats(&vec!["missing".to_owned()]).unwrap_err(), GraphError::UnknownType("missing".to_owned()));
    assert_eq!(GraphError::UnknownType("missing".to_owned()).message(), "missing is not a valid type");
}
