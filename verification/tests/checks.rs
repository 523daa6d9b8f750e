use setools::checker::ReadOnlyKind;
use setools::checks::Checker;
use setools::policy::{
    HandleUnknown, ObjectClass, Policy, PolicyMetadata, RoleAllow, RoleSymbol, TargetPlatform, TeRule, TeRuleData,
    TeRuleKind, TypeSymbol,
};
use setools::report::{render_json, render_outcome, render_report, result_status};
use setools::verdicts::{CheckOutcome, CheckResult, RuleSelection};

fn empty_policy() -> Policy {
    Policy {
        metadata: PolicyMetadata {
            version: 33,
            mls: false,
            target: TargetPlatform::Selinux,
            handle_unknown: HandleUnknown::Reject,
        },
        types: Vec::new(),
        classes: Vec::new(),
        booleans: Vec::new(),
        conditionals: Vec::new(),
        te_rules: Vec::new(),
        capabilities: Vec::new(),
        categories: Vec::new(),
        sensitivities: Vec::new(),
        roles: Vec::new(),
        role_allows: Vec::new(),
    }
}

fn concrete(name: &str) -> TypeSymbol {
    TypeSymbol { name: name.to_owned(), attribute: false, members: Vec::new(), aliases: Vec::new(), permissive: false }
}

fn allow(source: usize, target: usize, class: usize, permissions: &[usize]) -> TeRule {
    TeRule {
        kind: TeRuleKind::Allow,
        source,
        target,
        target_class: class,
        data: TeRuleData::Permissions(permissions.to_vec()),
        condition: None,
    }
}

fn role(name: &str) -> RoleSymbol {
    RoleSymbol { name: name.to_owned(), attribute: false, members: Vec::new() }
}

const FILE: usize = 0;
const SYSTEM: usize = 1;
const READ: usize = 0;
const WRITE: usize = 1;
const EXECUTE: usize = 3;
const EXECUTE_NO_TRANS: usize = 4;

/// Types: init_t, user_t, bin_t, lib_t, etc_t, admin_t, the attribute
/// `domain` over init_t, user_t and admin_t, and module_t.
fn sample_policy() -> Policy {
    let mut types: Vec<TypeSymbol> =
        ["init_t", "user_t", "bin_t", "lib_t", "etc_t", "admin_t"].into_iter().map(concrete).collect();
    types.push(TypeSymbol {
        name: "domain".to_owned(),
        attribute: true,
        members: vec![0, 1, 5],
        aliases: Vec::new(),
        permissive: false,
    });
    types.push(concrete("module_t"));
    let mut policy = empty_policy();
    policy.types = types;
    policy.classes = vec![
        ObjectClass {
            name: "file".to_owned(),
            permissions: ["read", "write", "append", "execute", "execute_no_trans"].map(String::from).to_vec(),
        },
        ObjectClass { name: "system".to_owned(), permissions: vec!["module_load".to_owned()] },
    ];
    policy.te_rules = vec![
        allow(6, 2, FILE, &[EXECUTE]),
        allow(1, 2, FILE, &[WRITE]),
        allow(5, 3, FILE, &[WRITE]),
        allow(0, 3, FILE, &[EXECUTE, EXECUTE_NO_TRANS]),
        allow(0, 7, SYSTEM, &[0]),
        allow(1, 4, FILE, &[READ]),
    ];
    policy.roles = vec![role("system_r"), role("staff_r"), role("user_r")];
    policy.role_allows = vec![RoleAllow { source: 0, target: 1 }, RoleAllow { source: 1, target: 2 }];
    policy
}

const CONFIG: &str = "[attr]\ncheck_type = empty_typeattr\nattr = domain\n\n\
[te]\ncheck_type = assert_te\ndesc = Only init writes binaries\ntclass = file\nperms = write\n\
expect_source = init_t\nexpect_target = etc_t\nexempt_source = admin_t\n\n\
[rbac]\ncheck_type = assert_rbac\nsource = staff_r\nexpect_target = user_r\n\n\
[roexec]\ncheck_type = ro_execs\nexempt_write_domain = admin_t\n\n\
[off]\ncheck_type = ro_kmods\ndisable = not today\n";

fn selection(rules: &[usize], write_rules: &[usize]) -> Result<RuleSelection, String> {
    Ok(RuleSelection { rules: rules.to_vec(), write_rules: write_rules.to_vec() })
}

fn sample_results(policy: &Policy) -> Vec<CheckResult> {
    let checker = Checker::from_config(policy, "checks.ini", CONFIG).expect("configuration should validate");
    assert_eq!(checker.len(), 5);
    let answers = vec![
        selection(&[], &[]),
        selection(&[1, 2], &[]),
        selection(&[1], &[]),
        selection(&[0, 3], &[1, 2]),
        selection(&[], &[]),
    ];
    checker.run(&answers)
}

#[test]
fn rejects_empty_configuration() {
    let policy = empty_policy();
    match Checker::from_config(&policy, "empty.ini", "") {
        Ok(_) => panic!("empty config should fail"),
        Err(error) => assert_eq!(error.message(), "No checks found in empty.ini."),
    }
}

#[test]
fn accepts_missing_attribute_when_configured() {
    let policy = empty_policy();
    let checker = Checker::from_config(
        &policy,
        "missing.ini",
        "[missing]\ncheck_type = empty_typeattr\nattr = absent\nmissing_ok = yes\n",
    )
    .expect("configuration should validate");
    let results = checker.run(&vec![selection(&[], &[])]);
    assert_eq!(results.len(), 1);
    assert_eq!(results[0].failure_count(), 0);
}

#[test]
fn rejects_unknown_check_type() {
    let policy = empty_policy();
    let error = match Checker::from_config(&policy, "unknown.ini", "[unknown]\ncheck_type = mystery\n") {
        Ok(_) => panic!("unknown check should fail"),
        Err(error) => error,
    };
    assert_eq!(error.to_string(), "unknown: Unknown policy check type: mystery");
}

#[test]
fn every_check_counts_its_findings() {
    let policy = sample_policy();
    let results = sample_results(&policy);
    let names: Vec<&str> = results.iter().map(|r| r.name.as_str()).collect();
    assert_eq!(names, ["attr", "te", "rbac", "roexec", "off"]);
    let counts: Vec<usize> = results.iter().map(|r| r.failure_count()).collect();
    assert_eq!(counts, [3, 3, 0, 1, 0]);
    let statuses: Vec<&str> = results.iter().map(result_status).collect();
    assert_eq!(statuses, ["failed", "failed", "passed", "failed", "disabled"]);
    assert_eq!(results[1].description.as_deref(), Some("Only init writes binaries"));
}

#[test]
fn empty_attribute_lists_members_by_name() {
    let policy = sample_policy();
    let results = sample_results(&policy);
    match &results[0].outcome {
        CheckOutcome::EmptyTypeAttribute(verdict) => {
            assert_eq!(verdict.attribute, "domain");
            assert!(!verdict.missing);
            assert_eq!(verdict.members, ["admin_t", "init_t", "user_t"]);
        },
        other => panic!("unexpected outcome {other:?}"),
    }
}

#[test]
fn te_assertion_reports_unexpected_rules_and_missing_expectations() {
    let policy = sample_policy();
    let results = sample_results(&policy);
    match &results[1].outcome {
        CheckOutcome::AssertTe(verdict) => {
            assert_eq!(verdict.rules, [1]);
            assert_eq!(verdict.missing_sources, ["init_t"]);
            assert_eq!(verdict.missing_targets, ["etc_t"]);
            let evaluated: Vec<(usize, bool)> = verdict.evaluated.iter().map(|e| (e.rule, e.failed)).collect();
            assert_eq!(evaluated, [(1, true), (2, false)]);
        },
        other => panic!("unexpected outcome {other:?}"),
    }
}

#[test]
fn rbac_assertion_accepts_expected_targets() {
    let policy = sample_policy();
    let results = sample_results(&policy);
    match &results[2].outcome {
        CheckOutcome::AssertRbac(verdict) => {
            assert!(verdict.rules.is_empty());
            assert!(verdict.missing_sources.is_empty());
            assert!(verdict.missing_targets.is_empty());
        },
        other => panic!("unexpected outcome {other:?}"),
    }
}

#[test]
fn read_only_check_finds_writable_executables() {
    let policy = sample_policy();
    let results = sample_results(&policy);
    match &results[3].outcome {
        CheckOutcome::ReadOnly { kind, verdict } => {
            assert_eq!(*kind, ReadOnlyKind::Executable);
            assert_eq!(verdict.checked_types, ["bin_t", "lib_t"]);
            assert_eq!(verdict.files.len(), 1);
            assert_eq!(verdict.files[0].name, "bin_t");
            assert_eq!(verdict.files[0].use_rules, [0]);
            assert_eq!(verdict.files[0].write_rules, [1]);
            assert!(verdict.exempt_users.is_empty());
            let trace: Vec<(usize, Vec<String>)> =
                verdict.use_rules.iter().map(|u| (u.rule, u.targets.clone())).collect();
            assert_eq!(trace, [(0, vec!["bin_t".to_owned()]), (3, vec!["lib_t".to_owned()])]);
        },
        other => panic!("unexpected outcome {other:?}"),
    }
}

#[test]
fn kernel_module_check_ignores_self_loading_domains() {
    let mut policy = sample_policy();
    policy.te_rules.push(allow(7, 7, SYSTEM, &[0]));
    policy.te_rules.push(allow(1, 7, FILE, &[WRITE]));
    let checker = Checker::from_config(&policy, "kmod.ini", "[kmod]\ncheck_type = ro_kmods\n").expect("valid");
    let results = checker.run(&vec![selection(&[4, 6], &[7])]);
    match &results[0].outcome {
        CheckOutcome::ReadOnly { kind, verdict } => {
            assert_eq!(*kind, ReadOnlyKind::KernelModule);
            assert_eq!(verdict.checked_types, ["module_t"]);
            let trace: Vec<(usize, usize)> = verdict.use_rules.iter().map(|u| (u.rule, u.targets.len())).collect();
            assert_eq!(trace, [(4, 1), (6, 0)]);
            assert_eq!(verdict.files.len(), 1);
            assert_eq!(verdict.files[0].use_rules, [4]);
            assert_eq!(verdict.files[0].write_rules, [7]);
        },
        other => panic!("unexpected outcome {other:?}"),
    }
}

#[test]
fn failed_queries_become_unexpected_findings() {
    let policy = sample_policy();
    let checker = Checker::from_config(&policy, "te.ini", "[te]\ncheck_type = assert_te\ntclass = file\n").expect("valid");
    let results = checker.run(&vec![Err("query failed".to_owned())]);
    assert_eq!(results[0].failure_count(), 1);
    let mut text = String::new();
    render_outcome(&policy, &results[0].outcome, &mut text).expect("renders");
    assert_eq!(text, "Unexpected error: query failed.  Failing check.\n\n");
}

#[test]
fn text_report_lists_sections_and_summary() {
    let policy = sample_policy();
    let results = sample_results(&policy);
    let report = render_report(&policy, "checks.ini", "policy.35", "start", "end", &results).expect("renders");
    let separator = "---------------------------------------------------------\n\n";
    assert!(report.starts_with(&format!(
        "{separator}Policy check configuration: checks.ini\nPolicy being checked: policy.35\nStart time: start\n\n"
    )));
    assert!(report.contains(&format!(
        "{separator}Check name: attr\n\nMember types of domain:\n    * admin_t\n    * init_t\n    * user_t\n\nCheck FAILED\n\n"
    )));
    assert!(report.contains(
        "Check name: te\n\nDescription: Only init writes binaries\n\n    * allow user_t bin_t:file write;\n    \
         * Expected rule with source \"init_t\" not found.\n    * Expected rule with target \"etc_t\" not found.\n\n\
         Check FAILED\n\n"
    ));
    assert!(report.contains(
        "\n------------\n\nExecutable type bin_t is writable.\n\nExecute rules:\n    * allow domain bin_t:file execute;\n\n\
         Write rules:\n    * allow user_t bin_t:file write;\n\nCheck FAILED\n\n"
    ));
    assert!(report.contains("Check name: off\n\nCheck DISABLED.  Reason: not today\n\n"));
    assert!(report.contains(&format!("attr{} FAILED (3 failures)\n", " ".repeat(35))));
    assert!(report.contains(&format!("rbac{} PASSED\n", " ".repeat(35))));
    assert!(report.contains(&format!("off{} DISABLED (not today)\n", " ".repeat(36))));
    assert!(report.ends_with(
        "\n7 failure(s) found.\n\nPolicy check configuration: checks.ini\nPolicy being checked: policy.35\nEnd time: end\n"
    ));
}

#[test]
fn json_report_summarises_statuses() {
    let policy = sample_policy();
    let results = sample_results(&policy);
    let report = render_json(&policy, "checks.ini", "policy.35", "4.7.1", &results).expect("renders");
    assert!(report.starts_with(
        "{\"schema\":\"setools-rs.sechecker\",\"schema_version\":1,\"tool\":{\"name\":\"sechecker\",\"version\":\"4.7.1\"},\
         \"policy\":{\"path\":\"policy.35\"},\"query\":{\"configuration_path\":\"checks.ini\"},\"summary\":{\"check_count\":5,\
         \"passed_check_count\":1,\"failed_check_count\":3,\"disabled_check_count\":1,\"failure_count\":7},\"result_count\":5,"
    ));
    assert!(report.contains(
        "{\"name\":\"rbac\",\"description\":null,\"check_type\":\"assert_rbac\",\"status\":\"passed\",\"failure_count\":0,\
         \"details\":{\"kind\":\"assert_rbac\",\"rules\":[],\"missing_sources\":[],\"missing_targets\":[]}}"
    ));
    assert!(report.contains(
        "\"details\":{\"kind\":\"read_only\",\"category\":\"executable\",\"checked_types\":[\"bin_t\",\"lib_t\"],\
         \"files\":[{\"type_name\":\"bin_t\",\"use_rules\":[\"allow domain bin_t:file execute;\"],\
         \"write_rules\":[\"allow user_t bin_t:file write;\"]}]}"
    ));
    assert!(report.contains("\"details\":{\"kind\":\"disabled\",\"reason\":\"not today\"}"));
    assert!(report.ends_with("]}\n"));
}
