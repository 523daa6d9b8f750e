use setools::policy::{
    Boolean, ConditionalToken, HandleUnknown, ObjectClass, Policy, PolicyMetadata, RoleAllow, RoleSymbol,
    RuleCondition, TargetPlatform, TeRule, TeRuleData, TeRuleKind, TypeSymbol,
};
use setools::policy::ConditionalToken::{And, Boolean as Variable, Not, Or};
use setools::report::render_rbac_rule;
use setools::rule_text::{keyword, render_conditional, render_rule};

fn concrete(name: &str) -> TypeSymbol {
    TypeSymbol { name: name.to_owned(), attribute: false, members: Vec::new(), aliases: Vec::new(), permissive: false }
}

fn policy() -> Policy {
    Policy {
        metadata: PolicyMetadata {
            version: 33,
            mls: false,
            target: TargetPlatform::Selinux,
            handle_unknown: HandleUnknown::Deny,
        },
        types: vec![concrete("source_t"), concrete("target_t"), concrete("new_t")],
        classes: vec![
            ObjectClass { name: "file".to_owned(), permissions: vec!["read".to_owned(), "execute".to_owned()] },
            ObjectClass { name: "process".to_owned(), permissions: vec!["transition".to_owned()] },
        ],
        booleans: ["a", "b", "c"].into_iter().map(|n| Boolean { name: n.to_owned(), state: false }).collect(),
        conditionals: vec![vec![Variable(0), Variable(1), And]],
        te_rules: Vec::new(),
        capabilities: Vec::new(),
        categories: Vec::new(),
        sensitivities: Vec::new(),
        roles: vec![
            RoleSymbol { name: "staff_r".to_owned(), attribute: false, members: Vec::new() },
            RoleSymbol { name: "user_r".to_owned(), attribute: false, members: Vec::new() },
        ],
        role_allows: vec![RoleAllow { source: 0, target: 1 }, RoleAllow { source: 0, target: 5 }],
    }
}

fn rule(kind: TeRuleKind, data: TeRuleData, condition: Option<RuleCondition>) -> TeRule {
    TeRule { kind, source: 0, target: 1, target_class: 0, data, condition }
}

#[test]
fn rules_list_sorted_permissions() {
    let p = policy();
    let one = rule(TeRuleKind::Allow, TeRuleData::Permissions(vec![1]), None);
    assert_eq!(render_rule(&p, &one).unwrap(), "allow source_t target_t:file execute;");
    let two = rule(TeRuleKind::DontAudit, TeRuleData::Permissions(vec![0, 1]), None);
    assert_eq!(render_rule(&p, &two).unwrap(), "dontaudit source_t target_t:file { execute read };");
}

#[test]
fn type_rules_name_their_default() {
    let p = policy();
    let mut transition = rule(TeRuleKind::TypeTransition, TeRuleData::DefaultType(2), None);
    transition.target_class = 1;
    assert_eq!(render_rule(&p, &transition).unwrap(), "type_transition source_t target_t:process new_t;");
    assert_eq!(keyword(TeRuleKind::TypeMember), "type_member");
}

#[test]
fn conditional_rules_carry_their_branch() {
    let p = policy();
    let guarded = rule(
        TeRuleKind::Allow,
        TeRuleData::Permissions(vec![0]),
        Some(RuleCondition { conditional: 0, block: false }),
    );
    assert_eq!(render_rule(&p, &guarded).unwrap(), "allow source_t target_t:file read; [ b && a ]:False");
}

#[test]
fn broken_rules_report_what_is_missing() {
    let p = policy();
    let missing_permission = rule(TeRuleKind::Allow, TeRuleData::Permissions(vec![7]), None);
    assert_eq!(render_rule(&p, &missing_permission).unwrap_err(), "rule refers to a missing permission");
    let mut missing_class = rule(TeRuleKind::Allow, TeRuleData::Permissions(vec![0]), None);
    missing_class.target_class = 9;
    assert_eq!(render_rule(&p, &missing_class).unwrap_err(), "rule refers to a missing object class");
    let missing_branch = rule(
        TeRuleKind::Allow,
        TeRuleData::Permissions(vec![0]),
        Some(RuleCondition { conditional: 4, block: true }),
    );
    assert_eq!(render_rule(&p, &missing_branch).unwrap_err(), "rule refers to a missing conditional expression");
}

#[test]
fn conditionals_render_in_the_traditional_order() {
    let p = policy();
    assert_eq!(render_conditional(&p, &vec![Variable(0), Not]).unwrap(), "! a");
    assert_eq!(render_conditional(&p, &vec![Variable(0), Variable(1), Or, Not]).unwrap(), "! ( b || a )");
    assert_eq!(render_conditional(&p, &vec![Variable(0), Variable(1), And, Variable(2), Or]).unwrap(), "c || b && a");
    assert_eq!(render_conditional(&p, &vec![Variable(0), Variable(1), Or, Variable(2), And]).unwrap(), "( c && b || a )");
}

#[test]
fn malformed_conditionals_are_refused() {
    let p = policy();
    assert_eq!(render_conditional(&p, &vec![And]).unwrap_err(), "conditional expression has a missing operand");
    assert_eq!(render_conditional(&p, &vec![Variable(5)]).unwrap_err(), "conditional refers to a missing Boolean");
    assert_eq!(render_conditional(&p, &vec![Variable(0), Variable(1)]).unwrap_err(), "conditional expression has extra operands");
    assert_eq!(render_conditional(&p, &Vec::new()).unwrap_err(), "conditional expression has extra operands");
}

#[test]
fn role_allow_rules_name_both_roles() {
    let p = policy();
    assert_eq!(render_rbac_rule(&p, 0).unwrap(), "allow staff_r user_r;");
    assert_eq!(render_rbac_rule(&p, 1).unwrap_err(), "RBAC rule refers to a missing target role");
}
