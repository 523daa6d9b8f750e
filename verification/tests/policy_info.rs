use setools::class_rules::{write_expression, ClassDetail, Constraint, DefaultRule, ExprToken};
use setools::components::{seinfo_listing, Common, ComponentOptions, ComponentTables, User};
use setools::numbers::BuildError;
use setools::table_counts::{listing_statistics, RuleCounts};
use setools::labeling::{LabelingOptions, LabelingRule, Level, MlsRange, SecurityContext};
use setools::policy::{ObjectClass, RoleSymbol};
use setools::policy::{
    AliasedSymbol, Boolean, HandleUnknown, Policy, PolicyMetadata, TargetPlatform, TeRule, TeRuleData, TeRuleKind,
    TypeSymbol,
};
use setools::seinfo::{seinfo_sections, QueryAnswers, SeinfoOptions, Section, Selection};
use setools::statistics::{policy_statistics, OutsideCounts};

fn symbol(name: &str, aliases: &[&str], permissive: bool) -> TypeSymbol {
    TypeSymbol {
        name: name.to_owned(),
        attribute: false,
        members: Vec::new(),
        aliases: aliases.iter().map(|a| a.to_string()).collect(),
        permissive,
    }
}

fn policy() -> Policy {
    let mut types = vec![symbol("alpha_t", &["a_t"], true), symbol("beta_t", &[], false)];
    types.push(TypeSymbol { name: "dom".to_owned(), attribute: true, members: vec![0, 1], aliases: Vec::new(), permissive: false });
    Policy {
        metadata: PolicyMetadata { version: 31, mls: true, target: TargetPlatform::Selinux, handle_unknown: HandleUnknown::Allow },
        types,
        classes: Vec::new(),
        booleans: vec![
            Boolean { name: "b_on".to_owned(), state: true },
            Boolean { name: "a_off".to_owned(), state: false },
        ],
        conditionals: Vec::new(),
        te_rules: vec![TeRule {
            kind: TeRuleKind::TypeChange,
            source: 0,
            target: 1,
            target_class: 0,
            data: TeRuleData::DefaultType(1),
            condition: None,
        }],
        capabilities: vec!["open_perms".to_owned(), "network_peer_controls".to_owned()],
        categories: vec![
            AliasedSymbol { name: "c0".to_owned(), aliases: vec!["c0a".to_owned()] },
            AliasedSymbol { name: "c1".to_owned(), aliases: Vec::new() },
        ],
        sensitivities: vec![AliasedSymbol { name: "s0".to_owned(), aliases: vec!["low".to_owned(), "base".to_owned()] }],
        roles: Vec::new(),
        role_allows: Vec::new(),
    }
}

fn none() -> SeinfoOptions {
    SeinfoOptions {
        boolean: None,
        category: None,
        permissive: None,
        polcap: None,
        sensitivity: None,
        target_type: None,
        attribute: None,
        all: false,
        expand: false,
    }
}

fn answers() -> QueryAnswers {
    QueryAnswers { booleans: vec![0, 1], types: vec![1, 0], attributes: vec![2] }
}

fn shown(sections: &[Section]) -> Vec<(String, Vec<String>)> {
    sections.iter().map(|s| (s.description.clone(), s.items.clone())).collect()
}

fn section(name: &str, items: &[&str]) -> (String, Vec<String>) {
    (name.to_owned(), items.iter().map(|i| i.to_string()).collect())
}

#[test]
fn lists_every_modelled_component_by_name() {
    let policy = policy();
    let mut options = none();
    options.all = true;
    assert_eq!(
        shown(&seinfo_sections(&policy, &options, &answers())),
        [
            section("Booleans", &["a_off", "b_on"]),
            section("Categories", &["c0", "c1"]),
            section("Permissive Types", &["alpha_t"]),
            section("Polcap", &["network_peer_controls", "open_perms"]),
            section("Sensitivities", &["s0"]),
            section("Types", &["alpha_t", "beta_t"]),
            section("Type Attributes", &["dom"]),
        ]
    );
}

#[test]
fn expands_symbols_into_statements() {
    let policy = policy();
    let mut options = none();
    options.expand = true;
    options.boolean = Some(Selection::All);
    options.category = Some(Selection::Named("c0a".to_owned()));
    options.sensitivity = Some(Selection::All);
    options.target_type = Some(Selection::Named("alpha_t".to_owned()));
    options.attribute = Some(Selection::All);
    options.polcap = Some(Selection::Named("open_perms".to_owned()));
    let chosen = QueryAnswers { booleans: vec![0, 1], types: vec![0], attributes: vec![2] };
    assert_eq!(
        shown(&seinfo_sections(&policy, &options, &chosen)),
        [
            section("Booleans", &["bool a_off false;", "bool b_on true;"]),
            section("Categories", &["category c0 alias c0a;"]),
            section("Polcap", &["policycap open_perms;"]),
            section("Sensitivities", &["sensitivity s0 alias { low base };"]),
            section("Types", &["type alpha_t alias a_t, dom;"]),
            section("Type Attributes", &["attribute dom;\n\talpha_t\n\tbeta_t"]),
        ]
    );
}

#[test]
fn permissive_query_matches_aliases_and_lists_nothing_unasked() {
    let policy = policy();
    let mut options = none();
    options.permissive = Some(Selection::Named("a_t".to_owned()));
    assert_eq!(shown(&seinfo_sections(&policy, &options, &answers())), [section("Permissive Types", &["alpha_t"])]);
    assert!(seinfo_sections(&policy, &none(), &answers()).is_empty());
}

#[test]
fn statistics_count_the_model_and_take_the_rest() {
    let policy = policy();
    let outside = OutsideCounts {
        permissions: 9,
        users: 3,
        roles: 2,
        range_transitions: 0,
        role_transitions: 0,
        constraints: 0,
        validatetrans: 0,
        mls_constraints: 0,
        mls_validatetrans: 0,
        defaults: 0,
        typebounds: 0,
        allowxperm: 0,
        auditallowxperm: 0,
        dontauditxperm: 0,
        ibendportcons: 0,
        ibpkeycons: 0,
        initial_sids: 1,
        fs_uses: 0,
        genfscons: 0,
        portcons: 0,
        netifcons: 0,
        nodecons: 0,
        devicetreecons: 0,
        iomemcons: 0,
        ioportcons: 0,
        pcidevicecons: 0,
        pirqcons: 0,
    };
    let s = policy_statistics(&policy, &outside);
    assert_eq!((s.types, s.attributes, s.permissives, s.polcaps), (2, 1, 1, 2));
    assert_eq!((s.booleans, s.categories, s.sensitivities, s.classes), (2, 2, 1, 0));
    assert_eq!((s.type_changes, s.allow, s.neverallow), (1, 0, 0));
    assert_eq!((s.users, s.roles, s.permissions, s.initial_sids), (3, 2, 9, 1));
    assert!(s.metadata.mls);
}

fn no_labeling() -> LabelingOptions {
    LabelingOptions {
        fs_use: None,
        genfscon: None,
        ibendportcon: None,
        ibpkeycon: None,
        initialsid: None,
        netifcon: None,
        nodecon: None,
        portcon: None,
        devicetreecon: None,
        iomemcon: None,
        ioportcon: None,
        pcidevicecon: None,
        pirqcon: None,
        all: false,
        expand: false,
        xen: false,
    }
}

fn no_components() -> ComponentOptions {
    ComponentOptions {
        target_class: None,
        constrain: None,
        default_rule: None,
        validatetrans: None,
        common: None,
        role: None,
        role_types: None,
        typebounds: None,
        user: None,
    }
}

fn role_policy() -> Policy {
    let mut p = policy();
    p.roles = vec![
        RoleSymbol { name: "system_r".to_owned(), attribute: false, members: Vec::new() },
        RoleSymbol { name: "object_r".to_owned(), attribute: false, members: Vec::new() },
        RoleSymbol { name: "staff_r".to_owned(), attribute: false, members: Vec::new() },
    ];
    p.classes = vec![
        ObjectClass { name: "process".to_owned(), permissions: vec!["transition".to_owned()] },
        ObjectClass { name: "file".to_owned(), permissions: vec!["read".to_owned(), "write".to_owned()] },
    ];
    p
}

fn operator(keyword: &str, precedence: u8, unary: bool) -> ExprToken {
    ExprToken::Operator { keyword: keyword.to_owned(), precedence, unary }
}

fn operand(value: &str) -> ExprToken {
    ExprToken::Operand(value.to_owned())
}

fn tables() -> ComponentTables {
    ComponentTables {
        commons: vec![
            Common { name: "file".to_owned(), permissions: vec!["read".to_owned(), "write".to_owned()] },
            Common { name: "socket".to_owned(), permissions: vec!["bind".to_owned()] },
        ],
        users: vec![
            User { name: "system_u".to_owned(), roles: vec![0, 1], mls: None },
            User {
                name: "staff_u".to_owned(),
                roles: vec![2],
                mls: Some((
                    Level { sensitivity: "s0".to_owned(), categories: Vec::new() },
                    MlsRange {
                        low: Level { sensitivity: "s0".to_owned(), categories: Vec::new() },
                        high: Level { sensitivity: "s0".to_owned(), categories: vec![(0, "c0".to_owned()), (1, "c1".to_owned())] },
                    },
                )),
            },
        ],
        role_types: vec![vec![1, 0], Vec::new(), vec![1]],
        bounds: vec![None, Some(0), None],
        class_details: vec![
            ClassDetail { common: None, local_permissions: vec!["transition".to_owned()] },
            ClassDetail { common: Some("file".to_owned()), local_permissions: Vec::new() },
        ],
        defaults: vec![DefaultRule {
            keyword: "default_range".to_owned(),
            class: 0,
            value: "target".to_owned(),
            range_part: Some("low".to_owned()),
        }],
        constraints: vec![
            Constraint {
                keyword: "mlsconstrain".to_owned(),
                validate_transition: false,
                class: 1,
                permissions: vec!["write".to_owned(), "read".to_owned()],
                expression: vec![operand("u1"), operand("u2"), operator("==", 3, false)],
            },
            Constraint {
                keyword: "mlsvalidatetrans".to_owned(),
                validate_transition: true,
                class: 1,
                permissions: Vec::new(),
                expression: vec![operand("l1"), operand("h2"), operator("domby", 3, false)],
            },
        ],
    }
}

#[test]
fn other_components_list_in_tool_order() {
    let mut options = none();
    options.all = true;
    let sections = seinfo_listing(
        &role_policy(),
        &options,
        &no_components(),
        &answers(),
        &vec![2, 0],
        &vec![1, 0],
        &tables(),
        &Vec::new(),
        &no_labeling(),
    )
    .unwrap();
    let headings: Vec<&str> = sections.iter().map(|s| s.description.as_str()).collect();
    assert_eq!(
        headings,
        vec![
            "Booleans",
            "Categories",
            "Classes",
            "Commons",
            "Constraints",
            "Default rules",
            "Permissive Types",
            "Polcap",
            "Roles",
            "Sensitivities",
            "Typebounds",
            "Types",
            "Type Attributes",
            "Users",
            "Validatetrans",
        ]
    );
    assert_eq!(sections[2].items, vec!["file".to_owned(), "process".to_owned()]);
    assert_eq!(sections[3].items, vec!["file".to_owned(), "socket".to_owned()]);
    assert_eq!(sections[4].items, vec!["mlsconstrain file { read write } (u1 == u2);".to_owned()]);
    assert_eq!(sections[5].items, vec!["default_range process target low;".to_owned()]);
    assert_eq!(sections[8].items, vec!["staff_r".to_owned(), "system_r".to_owned()]);
    assert_eq!(sections[10].items, vec!["typebounds alpha_t beta_t;".to_owned()]);
    assert_eq!(sections[13].items, vec!["staff_u".to_owned(), "system_u".to_owned()]);
    assert_eq!(sections[14].items, vec!["mlsvalidatetrans file (l1 domby h2);".to_owned()]);
}

#[test]
fn other_components_expand_into_statements() {
    let mut options = none();
    options.expand = true;
    let extra = ComponentOptions {
        target_class: None,
        constrain: None,
        default_rule: None,
        validatetrans: None,
        common: Some(Selection::Named("file".to_owned())),
        role: Some(Selection::All),
        role_types: Some("alpha_t".to_owned()),
        typebounds: None,
        user: Some(Selection::All),
    };
    let sections =
        seinfo_listing(&role_policy(), &options, &extra, &answers(), &vec![2, 0, 1], &Vec::new(), &tables(), &Vec::new(), &no_labeling())
            .unwrap();
    assert_eq!(
        shown(&sections),
        vec![
            section("Commons", &["common file\n{\n\tread\n\twrite\n}"]),
            section(
                "Roles",
                &["role object_r;", "role staff_r types beta_t;", "role system_r types { alpha_t beta_t };"]
            ),
            section("Roles", &["role system_r types { alpha_t beta_t };"]),
            section(
                "Users",
                &["user staff_u roles staff_r level s0 range s0 - s0:c0.c1;", "user system_u roles { object_r system_r };"]
            ),
        ]
    );
}

#[test]
fn listing_ends_with_labeling_or_its_error() {
    let mut options = none();
    options.polcap = Some(Selection::All);
    let context = SecurityContext {
        user: "system_u".to_owned(),
        role: "object_r".to_owned(),
        target: "beta_t".to_owned(),
        range: None,
    };
    let rules = vec![LabelingRule::Netifcon {
        interface: "eth0".to_owned(),
        interface_context: SecurityContext {
            user: "system_u".to_owned(),
            role: "object_r".to_owned(),
            target: "alpha_t".to_owned(),
            range: None,
        },
        packet_context: context,
    }];
    let mut labeling = no_labeling();
    labeling.netifcon = Some(Selection::Named("eth0".to_owned()));
    let sections =
        seinfo_listing(&role_policy(), &options, &no_components(), &answers(), &Vec::new(), &Vec::new(), &tables(), &rules, &labeling)
            .unwrap();
    assert_eq!(
        shown(&sections),
        vec![
            section("Polcap", &["network_peer_controls", "open_perms"]),
            section("Netifcon", &["netifcon eth0 system_u:object_r:alpha_t system_u:object_r:beta_t"]),
        ]
    );
    labeling.portcon = Some(Selection::Named("0".to_owned()));
    assert!(
        seinfo_listing(&role_policy(), &options, &no_components(), &answers(), &Vec::new(), &Vec::new(), &tables(), &rules, &labeling)
            .is_err()
    );
}

#[test]
fn classes_expand_and_class_criteria_are_checked() {
    let mut options = none();
    options.expand = true;
    let mut extra = no_components();
    extra.target_class = Some(Selection::All);
    let sections =
        seinfo_listing(&role_policy(), &options, &extra, &answers(), &Vec::new(), &vec![0, 1], &tables(), &Vec::new(), &no_labeling())
            .unwrap();
    assert_eq!(
        shown(&sections),
        vec![section("Classes", &["class file\ninherits file\n", "class process\n{\n\ttransition\n}"])]
    );
    extra.target_class = None;
    extra.default_rule = Some(Selection::Named("socket".to_owned()));
    assert_eq!(
        seinfo_listing(&role_policy(), &options, &extra, &answers(), &Vec::new(), &Vec::new(), &tables(), &Vec::new(), &no_labeling())
            .unwrap_err(),
        BuildError::Analysis("socket is not a valid class".to_owned())
    );
    extra.default_rule = Some(Selection::Named("process".to_owned()));
    let sections =
        seinfo_listing(&role_policy(), &options, &extra, &answers(), &Vec::new(), &Vec::new(), &tables(), &Vec::new(), &no_labeling())
            .unwrap();
    assert_eq!(shown(&sections), vec![section("Default rules", &["default_range process target low;"])]);
}

#[test]
fn constraint_expressions_are_written_in_infix_order() {
    let tokens = vec![
        operand("u1"),
        operand("u2"),
        operator("==", 3, false),
        operand("t1"),
        ExprToken::Names(vec!["b_t".to_owned(), "a_t".to_owned()]),
        operator("==", 3, false),
        operator("or", 1, false),
        operator("not", 2, true),
        operand("r1"),
        ExprToken::Names(vec!["system_r".to_owned()]),
        operator("==", 3, false),
        operator("and", 2, false),
    ];
    assert_eq!(write_expression(&tokens), "not ( u1 == u2 or t1 == { a_t b_t } ) and r1 == system_r");
    assert_eq!(write_expression(&vec![operator("and", 2, false)]), "<invalid expression>");
    assert_eq!(write_expression(&vec![operand("u1"), operand("u2")]), "u1 u2");
}

#[test]
fn statistics_count_the_tables_and_labeling() {
    let context = SecurityContext {
        user: "system_u".to_owned(),
        role: "object_r".to_owned(),
        target: "beta_t".to_owned(),
        range: None,
    };
    let rules = vec![LabelingRule::Pirqcon { irq: 3, context }];
    let rest = RuleCounts { range_transitions: 2, role_transitions: 1, allowxperm: 0, auditallowxperm: 0, dontauditxperm: 5 };
    let s = listing_statistics(&role_policy(), &tables(), &rules, &rest);
    assert_eq!(s.permissions, 4);
    assert_eq!(s.users, 2);
    assert_eq!(s.roles, 3);
    assert_eq!(s.constraints, 0);
    assert_eq!(s.mls_constraints, 1);
    assert_eq!(s.mls_validatetrans, 1);
    assert_eq!(s.defaults, 1);
    assert_eq!(s.typebounds, 1);
    assert_eq!(s.pirqcons, 1);
    assert_eq!(s.netifcons, 0);
    assert_eq!(s.range_transitions, 2);
    assert_eq!(s.dontauditxperm, 5);
    assert_eq!(s.classes, 2);
}
