use setools::checks::Checker;
use setools::policy::{
    HandleUnknown, ObjectClass, Policy, PolicyMetadata, RoleAllow, RoleSymbol, TargetPlatform, TeRule, TeRuleData,
    TeRuleKind, TypeSymbol,
};
use setools::trace::{check_trace, LogLevel, LogLine};
use setools::verdicts::{CheckResult, RuleSelection};

fn empty_policy() -> Policy {
    Policy {
        metadata: PolicyMetadata {
            version: 33,
            mls: false,
            target: TargetPlatform::Selinux,
            handle_unknown: HandleUnknown::Reject,
        },
        types: Vec::new(),
        classes: Vec::new(),
        booleans: Vec::new(),
        conditionals: Vec::new(),
        te_rules: Vec::new(),
        capabilities: Vec::new(),
        categories: Vec::new(),
        sensitivities: Vec::new(),
        roles: Vec::new(),
        role_allows: Vec::new(),
    }
}

fn concrete(name: &str) -> TypeSymbol {
    TypeSymbol { name: name.to_owned(), attribute: false, members: Vec::new(), aliases: Vec::new(), permissive: false }
}

fn allow(source: usize, target: usize, class: usize, permissions: &[usize]) -> TeRule {
    TeRule {
        kind: TeRuleKind::Allow,
        source,
        target,
        target_class: class,
        data: TeRuleData::Permissions(permissions.to_vec()),
        condition: None,
    }
}

fn role(name: &str) -> RoleSymbol {
    RoleSymbol { name: name.to_owned(), attribute: false, members: Vec::new() }
}

const FILE: usize = 0;
const SYSTEM: usize = 1;
const READ: usize = 0;
const WRITE: usize = 1;
const EXECUTE: usize = 3;
const EXECUTE_NO_TRANS: usize = 4;

/// Types: init_t, user_t, bin_t, lib_t, etc_t, admin_t, the attribute
/// `domain` over init_t, user_t and admin_t, and module_t.
fn sample_policy() -> Policy {
    let mut types: Vec<TypeSymbol> =
        ["init_t", "user_t", "bin_t", "lib_t", "etc_t", "admin_t"].into_iter().map(concrete).collect();
    types.push(TypeSymbol {
        name: "domain".to_owned(),
        attribute: true,
        members: vec![0, 1, 5],
        aliases: Vec::new(),
        permissive: false,
    });
    types.push(concrete("module_t"));
    let mut policy = empty_policy();
    policy.types = types;
    policy.classes = vec![
        ObjectClass {
            name: "file".to_owned(),
            permissions: ["read", "write", "append", "execute", "execute_no_trans"].map(String::from).to_vec(),
        },
        ObjectClass { name: "system".to_owned(), permissions: vec!["module_load".to_owned()] },
    ];
    policy.te_rules = vec![
        allow(6, 2, FILE, &[EXECUTE]),
        allow(1, 2, FILE, &[WRITE]),
        allow(5, 3, FILE, &[WRITE]),
        allow(0, 3, FILE, &[EXECUTE, EXECUTE_NO_TRANS]),
        allow(0, 7, SYSTEM, &[0]),
        allow(1, 4, FILE, &[READ]),
    ];
    policy.roles = vec![role("system_r"), role("staff_r"), role("user_r")];
    policy.role_allows = vec![RoleAllow { source: 0, target: 1 }, RoleAllow { source: 1, target: 2 }];
    policy
}

const CONFIG: &str = "[attr]\ncheck_type = empty_typeattr\nattr = domain\n\n\
[te]\ncheck_type = assert_te\ndesc = Only init writes binaries\ntclass = file\nperms = write\n\
expect_source = init_t\nexpect_target = etc_t\nexempt_source = admin_t\n\n\
[rbac]\ncheck_type = assert_rbac\nsource = staff_r\nexpect_target = user_r\n\n\
[roexec]\ncheck_type = ro_execs\nexempt_write_domain = admin_t\n\n\
[off]\ncheck_type = ro_kmods\ndisable = not today\n";

fn selection(rules: &[usize], write_rules: &[usize]) -> Result<RuleSelection, String> {
    Ok(RuleSelection { rules: rules.to_vec(), write_rules: write_rules.to_vec() })
}

fn sample_results(policy: &Policy) -> Vec<CheckResult> {
    let checker = Checker::from_config(policy, "checks.ini", CONFIG).expect("configuration should validate");
    assert_eq!(checker.len(), 5);
    let answers = vec![
        selection(&[], &[]),
        selection(&[1, 2], &[]),
        selection(&[1], &[]),
        selection(&[0, 3], &[1, 2]),
        selection(&[], &[]),
    ];
    checker.run(&answers)
}


fn messages(lines: &[LogLine]) -> Vec<String> {
    lines.iter().map(|line| line.message.clone()).collect()
}

#[test]
fn empty_attribute_trace_lists_members_in_debug_mode_only() {
    let policy = sample_policy();
    let checker = Checker::from_config(&policy, "checks.ini", CONFIG).unwrap();
    let results = sample_results(&policy);
    let check = &checker.checks()[0];
    let debug = check_trace(false, true, &policy, "p.bin", check, &results[0]);
    assert_eq!(
        messages(&debug),
        [
            "F   * admin_t",
            "F   * init_t",
            "F   * user_t",
            "[<Type(<SELinuxPolicy(\"p.bin\")>, \"admin_t\")>, <Type(<SELinuxPolicy(\"p.bin\")>, \"init_t\")>, \
             <Type(<SELinuxPolicy(\"p.bin\")>, \"user_t\")>] failure(s)",
        ]
    );
    assert!(debug.iter().all(|line| line.level == LogLevel::Debug && line.module == "setools.checker.emptyattr"));
    assert!(check_trace(true, false, &policy, "p.bin", check, &results[0]).is_empty());
}

#[test]
fn te_assertion_trace_logs_query_rules_and_findings() {
    let policy = sample_policy();
    let checker = Checker::from_config(&policy, "checks.ini", CONFIG).unwrap();
    let results = sample_results(&policy);
    let check = &checker.checks()[1];
    let verbose = check_trace(true, false, &policy, "p.bin", check, &results[1]);
    assert_eq!(messages(&verbose), ["Generating TE rule results from p.bin"]);
    assert_eq!(verbose[0].level, LogLevel::Info);
    assert_eq!(verbose[0].module, "setools.terulequery");
    let debug = check_trace(false, true, &policy, "p.bin", check, &results[1]);
    assert_eq!(
        messages(&debug),
        [
            "Generating TE rule results from p.bin",
            "self.ruletype=frozenset({<TERuletype.allow: 1>})",
            "self.source=None, self.source_indirect=True, self.source_regex=False",
            "self.target=None, self.target_indirect=True, self.target_regex=False",
            "self.tclass=frozenset({<ObjClass(<SELinuxPolicy(\"p.bin\")>, \"file\")>}), self.tclass_regex=False",
            "self.perms=frozenset({'write'}), self.perms_regex=False, self.perms_equal=False, self.perms_subset=False",
            "self.xperms=None, self.xperms_equal=False",
            "self.default=None, self.default_regex=False",
            "self.boolean=None, self.boolean_equal=False, self.boolean_regex=False",
            "P   * allow admin_t lib_t:file write;",
            "F   * allow user_t bin_t:file write;",
            "F   * Expected rule with source \"init_t\" not found.",
            "F   * Expected rule with target \"etc_t\" not found.",
            "[<AVRule(<SELinuxPolicy(\"p.bin\")>, \"allow user_t bin_t:file write;\")>, \
             'Expected rule with source \"init_t\" not found.', 'Expected rule with target \"etc_t\" not found.'] failure(s)",
        ]
    );
}

#[test]
fn disabled_checks_and_quiet_mode_log_nothing() {
    let policy = sample_policy();
    let checker = Checker::from_config(&policy, "checks.ini", CONFIG).unwrap();
    let results = sample_results(&policy);
    assert!(check_trace(true, true, &policy, "p.bin", &checker.checks()[4], &results[4]).is_empty());
    for index in 0..5 {
        assert!(check_trace(false, false, &policy, "p.bin", &checker.checks()[index], &results[index]).is_empty());
    }
}

#[test]
fn read_only_trace_reports_checked_types_and_failures() {
    let policy = sample_policy();
    let checker = Checker::from_config(&policy, "checks.ini", CONFIG).unwrap();
    let results = sample_results(&policy);
    let debug = check_trace(false, true, &policy, "p.bin", &checker.checks()[3], &results[3]);
    let text = messages(&debug);
    assert_eq!(text[0], "Collecting list of executable file types.");
    assert_eq!(text[1], "self.exempt_exec_domain=frozenset()");
    assert_eq!(text[2], "Generating TE rule results from p.bin");
    assert_eq!(text.last().unwrap(), "1 failure(s)");
    assert!(text.iter().any(|line| line == "Checking if executable type bin_t is writable."));
}
