use setools::checker::ReadOnlyKind;
use setools::checks::{roles_distinct, Checker};
use setools::permmap::PermissionMap;
use setools::policy::{
    is_well_formed, HandleUnknown, ObjectClass, Policy, PolicyMetadata, RoleAllow, RoleSymbol, TargetPlatform, TeRule,
    TeRuleData, TeRuleKind, TypeSymbol,
};
use setools::trace::{use_criteria, write_criteria};
use setools::verdicts::RuleSelection;

fn empty_policy() -> Policy {
    Policy {
        metadata: PolicyMetadata {
            version: 33,
            mls: false,
            target: TargetPlatform::Selinux,
            handle_unknown: HandleUnknown::Reject,
        },
        types: Vec::new(),
        classes: Vec::new(),
        booleans: Vec::new(),
        conditionals: Vec::new(),
        te_rules: Vec::new(),
        capabilities: Vec::new(),
        categories: Vec::new(),
        sensitivities: Vec::new(),
        roles: Vec::new(),
        role_allows: Vec::new(),
    }
}

fn concrete(name: &str) -> TypeSymbol {
    TypeSymbol { name: name.to_owned(), attribute: false, members: Vec::new(), aliases: Vec::new(), permissive: false }
}

fn allow(source: usize, target: usize, class: usize, permissions: &[usize]) -> TeRule {
    TeRule {
        kind: TeRuleKind::Allow,
        source,
        target,
        target_class: class,
        data: TeRuleData::Permissions(permissions.to_vec()),
        condition: None,
    }
}

fn role(name: &str) -> RoleSymbol {
    RoleSymbol { name: name.to_owned(), attribute: false, members: Vec::new() }
}

const FILE: usize = 0;
const SYSTEM: usize = 1;
const READ: usize = 0;
const WRITE: usize = 1;
const EXECUTE: usize = 3;
const EXECUTE_NO_TRANS: usize = 4;

/// Types: init_t, user_t, bin_t, lib_t, etc_t, admin_t, the attribute
/// `domain` over init_t, user_t and admin_t, and module_t.
fn sample_policy() -> Policy {
    let mut types: Vec<TypeSymbol> =
        ["init_t", "user_t", "bin_t", "lib_t", "etc_t", "admin_t"].into_iter().map(concrete).collect();
    types.push(TypeSymbol {
        name: "domain".to_owned(),
        attribute: true,
        members: vec![0, 1, 5],
        aliases: Vec::new(),
        permissive: false,
    });
    types.push(concrete("module_t"));
    let mut policy = empty_policy();
    policy.types = types;
    policy.classes = vec![
        ObjectClass {
            name: "file".to_owned(),
            permissions: ["read", "write", "append", "execute", "execute_no_trans"].map(String::from).to_vec(),
        },
        ObjectClass { name: "system".to_owned(), permissions: vec!["module_load".to_owned()] },
    ];
    policy.te_rules = vec![
        allow(6, 2, FILE, &[EXECUTE]),
        allow(1, 2, FILE, &[WRITE]),
        allow(5, 3, FILE, &[WRITE]),
        allow(0, 3, FILE, &[EXECUTE, EXECUTE_NO_TRANS]),
        allow(0, 7, SYSTEM, &[0]),
        allow(1, 4, FILE, &[READ]),
    ];
    policy.roles = vec![role("system_r"), role("staff_r"), role("user_r")];
    policy.role_allows = vec![RoleAllow { source: 0, target: 1 }, RoleAllow { source: 1, target: 2 }];
    policy
}

const CONFIG: &str = "[attr]\ncheck_type = empty_typeattr\nattr = domain\n\n\
[te]\ncheck_type = assert_te\ndesc = Only init writes binaries\ntclass = file\nperms = write\n\
expect_source = init_t\nexpect_target = etc_t\nexempt_source = admin_t\n\n\
[rbac]\ncheck_type = assert_rbac\nsource = staff_r\nexpect_target = user_r\n\n\
[roexec]\ncheck_type = ro_execs\nexempt_write_domain = admin_t\n\n\
[off]\ncheck_type = ro_kmods\ndisable = not today\n";

fn selection(rules: &[usize], write_rules: &[usize]) -> Result<RuleSelection, String> {
    Ok(RuleSelection { rules: rules.to_vec(), write_rules: write_rules.to_vec() })
}

#[test]
fn read_only_query_criteria() {
    let (class, permissions) = use_criteria(ReadOnlyKind::Executable);
    assert_eq!(class, "file");
    assert_eq!(permissions, vec!["execute".to_owned(), "execute_no_trans".to_owned()]);
    let (class, permissions) = use_criteria(ReadOnlyKind::KernelModule);
    assert_eq!(class, "system");
    assert_eq!(permissions, vec!["module_load".to_owned()]);
    let (class, permissions) = write_criteria();
    assert_eq!(class, "file");
    assert_eq!(permissions, vec!["write".to_owned(), "append".to_owned()]);
}

#[test]
fn policy_consistency_is_checked() {
    let policy = sample_policy();
    assert!(is_well_formed(&policy));
    assert!(roles_distinct(&policy));
    let mut duplicate = sample_policy();
    duplicate.types.push(concrete("bin_t"));
    assert!(!is_well_formed(&duplicate));
    let mut outside = sample_policy();
    outside.types[6].members.push(42);
    assert!(!is_well_formed(&outside));
    let mut attribute_member = sample_policy();
    attribute_member.types[6].members.push(6);
    assert!(!is_well_formed(&attribute_member));
    let mut repeated = sample_policy();
    repeated.types[6].members.push(0);
    assert!(!is_well_formed(&repeated));
    let mut roles = sample_policy();
    roles.roles.push(role("staff_r"));
    assert!(!roles_distinct(&roles));
}

#[test]
fn answers_are_checked_against_the_policy() {
    let policy = sample_policy();
    let checker = Checker::from_config(&policy, "checks.ini", CONFIG).unwrap();
    let fitting = vec![selection(&[], &[]), selection(&[1, 2], &[]), selection(&[1], &[]), selection(&[0, 3], &[1, 2]), selection(&[], &[])];
    assert!(checker.answers_fit(&fitting));
    let too_few = vec![selection(&[], &[])];
    assert!(!checker.answers_fit(&too_few));
    let unknown_role_allow = vec![selection(&[], &[]), selection(&[], &[]), selection(&[2], &[]), selection(&[], &[]), selection(&[], &[])];
    assert!(!checker.answers_fit(&unknown_role_allow));
    let unknown_write = vec![selection(&[], &[]), selection(&[], &[]), selection(&[], &[]), selection(&[0], &[6]), selection(&[], &[])];
    assert!(!checker.answers_fit(&unknown_write));
    let failed_query = vec![selection(&[], &[]), Err("no such type".to_owned()), selection(&[], &[]), selection(&[], &[]), selection(&[], &[])];
    assert!(checker.answers_fit(&failed_query));
}

#[test]
fn permission_map_laws_on_a_redeclared_class() {
    let map = PermissionMap::parse("3\nclass file 2\nread r 10\nread w 3\nclass dir 1\nsearch r 1\nclass file 1\nread b 5\n", "laws.map")
        .unwrap();
    assert_eq!(map.source(), "laws.map");
    assert_eq!(map.class_count(), 3);
    assert!(map.class_count() <= map.declared_class_count());
    let entries: Vec<(String, String, &str)> = map
        .mappings()
        .iter()
        .map(|m| (m.class().to_owned(), m.permission().to_owned(), m.direction().code()))
        .collect();
    assert_eq!(
        entries,
        vec![
            ("file".to_owned(), "read".to_owned(), "r"),
            ("file".to_owned(), "read".to_owned(), "w"),
            ("dir".to_owned(), "search".to_owned(), "r"),
            ("file".to_owned(), "read".to_owned(), "b"),
        ]
    );
    assert_eq!(map.mapping("file", "read").unwrap().weight(), 5);
    assert_eq!(map.mapping("dir", "search").unwrap().weight(), 1);
    assert!(map.mapping("dir", "read").is_none());
    assert!(map.mapping("socket", "read").is_none());
}
