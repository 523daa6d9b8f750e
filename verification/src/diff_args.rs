//! The command line of the policy comparison: the components to compare
//! and the two policies.
use vstd::prelude::*;
use crate::text::{texts, owned, same_text, joined_by, join_texts};

verus! {

/// A component two policies are compared on.
#[derive(PartialEq, Eq, Structural, Clone, Copy, Debug)]
pub enum Component {
    /// Policy-wide properties.
    Property,
    /// Policy capabilities.
    Polcap,
    /// Common permission sets.
    Common,
    /// Object classes.
    Class,
    /// `default_*` statements.
    Default,
    /// Booleans.
    Boolean,
    /// Roles.
    Role,
    /// Types.
    Type,
    /// Type bounds.
    Typebounds,
    /// Type attributes.
    Attribute,
    /// Users.
    User,
    /// Categories.
    Category,
    /// Sensitivities.
    Sensitivity,
    /// Level declarations.
    Level,
    /// `allow` rules.
    Allow,
    /// `allowxperm` rules.
    AllowXperm,
    /// `auditallow` rules.
    AuditAllow,
    /// `auditallowxperm` rules.
    AuditAllowXperm,
    /// `dontaudit` rules.
    DontAudit,
    /// `dontauditxperm` rules.
    DontAuditXperm,
    /// `type_transition` rules.
    TypeTransition,
    /// `type_change` rules.
    TypeChange,
    /// `type_member` rules.
    TypeMember,
    /// Role `allow` rules.
    RoleAllow,
    /// `role_transition` rules.
    RoleTransition,
    /// `range_transition` rules.
    RangeTransition,
    /// `constrain` statements.
    Constrain,
    /// `mlsconstrain` statements.
    MlsConstrain,
    /// `validatetrans` statements.
    ValidateTrans,
    /// `mlsvalidatetrans` statements.
    MlsValidateTrans,
    /// Initial SIDs.
    InitialSid,
    /// `ibendportcon` statements.
    IbEndportCon,
    /// `ibpkeycon` statements.
    IbPkeyCon,
    /// `fs_use_*` statements.
    FsUse,
    /// `genfscon` statements.
    GenfsCon,
    /// `netifcon` statements.
    NetifCon,
    /// `nodecon` statements.
    NodeCon,
    /// `portcon` statements.
    PortCon,
}

/// The components in the order the comparison reports them.
pub open spec fn component_order() -> Seq<Component> {
    seq![
        Component::Property, Component::Polcap, Component::Common, Component::Class, Component::Default,
        Component::Boolean, Component::Role, Component::Type, Component::Typebounds, Component::Attribute,
        Component::User, Component::Category, Component::Sensitivity, Component::Level, Component::Allow,
        Component::AllowXperm, Component::AuditAllow, Component::AuditAllowXperm, Component::DontAudit,
        Component::DontAuditXperm, Component::TypeTransition, Component::TypeChange, Component::TypeMember,
        Component::RoleAllow, Component::RoleTransition, Component::RangeTransition, Component::Constrain,
        Component::MlsConstrain, Component::ValidateTrans, Component::MlsValidateTrans, Component::InitialSid,
        Component::IbEndportCon, Component::IbPkeyCon, Component::FsUse, Component::GenfsCon, Component::NetifCon,
        Component::NodeCon, Component::PortCon
    ]
}

/// Returns the components in the order the comparison reports them.
pub fn components() -> (result: Vec<Component>)
    ensures
        result@ == component_order(),
{
    let result = vec![
        Component::Property, Component::Polcap, Component::Common, Component::Class, Component::Default,
        Component::Boolean, Component::Role, Component::Type, Component::Typebounds, Component::Attribute,
        Component::User, Component::Category, Component::Sensitivity, Component::Level, Component::Allow,
        Component::AllowXperm, Component::AuditAllow, Component::AuditAllowXperm, Component::DontAudit,
        Component::DontAuditXperm, Component::TypeTransition, Component::TypeChange, Component::TypeMember,
        Component::RoleAllow, Component::RoleTransition, Component::RangeTransition, Component::Constrain,
        Component::MlsConstrain, Component::ValidateTrans, Component::MlsValidateTrans, Component::InitialSid,
        Component::IbEndportCon, Component::IbPkeyCon, Component::FsUse, Component::GenfsCon, Component::NetifCon,
        Component::NodeCon, Component::PortCon
    ];
    assert(result@ =~= component_order());
    result
}

/// The name a component goes by in structured output.
pub open spec fn component_key(c: Component) -> Seq<char> {
    match c {
        Component::Property => "property"@,
        Component::Polcap => "polcap"@,
        Component::Common => "common"@,
        Component::Class => "class"@,
        Component::Default => "default"@,
        Component::Boolean => "boolean"@,
        Component::Role => "role"@,
        Component::Type => "type"@,
        Component::Typebounds => "typebounds"@,
        Component::Attribute => "attribute"@,
        Component::User => "user"@,
        Component::Category => "category"@,
        Component::Sensitivity => "sensitivity"@,
        Component::Level => "level"@,
        Component::Allow => "allow"@,
        Component::AllowXperm => "allowxperm"@,
        Component::AuditAllow => "auditallow"@,
        Component::AuditAllowXperm => "auditallowxperm"@,
        Component::DontAudit => "dontaudit"@,
        Component::DontAuditXperm => "dontauditxperm"@,
        Component::TypeTransition => "type_transition"@,
        Component::TypeChange => "type_change"@,
        Component::TypeMember => "type_member"@,
        Component::RoleAllow => "role_allow"@,
        Component::RoleTransition => "role_transition"@,
        Component::RangeTransition => "range_transition"@,
        Component::Constrain => "constrain"@,
        Component::MlsConstrain => "mlsconstrain"@,
        Component::ValidateTrans => "validatetrans"@,
        Component::MlsValidateTrans => "mlsvalidatetrans"@,
        Component::InitialSid => "initialsid"@,
        Component::IbEndportCon => "ibendportcon"@,
        Component::IbPkeyCon => "ibpkeycon"@,
        Component::FsUse => "fs_use"@,
        Component::GenfsCon => "genfscon"@,
        Component::NetifCon => "netifcon"@,
        Component::NodeCon => "nodecon"@,
        Component::PortCon => "portcon"@,
    }
}

/// Returns the name a component goes by in structured output.
pub fn key(c: Component) -> (result: &'static str)
    ensures
        result@ == component_key(c),
{
    match c {
        Component::Property => "property",
        Component::Polcap => "polcap",
        Component::Common => "common",
        Component::Class => "class",
        Component::Default => "default",
        Component::Boolean => "boolean",
        Component::Role => "role",
        Component::Type => "type",
        Component::Typebounds => "typebounds",
        Component::Attribute => "attribute",
        Component::User => "user",
        Component::Category => "category",
        Component::Sensitivity => "sensitivity",
        Component::Level => "level",
        Component::Allow => "allow",
        Component::AllowXperm => "allowxperm",
        Component::AuditAllow => "auditallow",
        Component::AuditAllowXperm => "auditallowxperm",
        Component::DontAudit => "dontaudit",
        Component::DontAuditXperm => "dontauditxperm",
        Component::TypeTransition => "type_transition",
        Component::TypeChange => "type_change",
        Component::TypeMember => "type_member",
        Component::RoleAllow => "role_allow",
        Component::RoleTransition => "role_transition",
        Component::RangeTransition => "range_transition",
        Component::Constrain => "constrain",
        Component::MlsConstrain => "mlsconstrain",
        Component::ValidateTrans => "validatetrans",
        Component::MlsValidateTrans => "mlsvalidatetrans",
        Component::InitialSid => "initialsid",
        Component::IbEndportCon => "ibendportcon",
        Component::IbPkeyCon => "ibpkeycon",
        Component::FsUse => "fs_use",
        Component::GenfsCon => "genfscon",
        Component::NetifCon => "netifcon",
        Component::NodeCon => "nodecon",
        Component::PortCon => "portcon",
    }
}

/// The heading of a component's section.
pub open spec fn component_title(c: Component) -> Seq<char> {
    match c {
        Component::Property => "Policy Properties"@,
        Component::Polcap => "Policy Capabilities"@,
        Component::Common => "Commons"@,
        Component::Class => "Classes"@,
        Component::Default => "Defaults"@,
        Component::Boolean => "Booleans"@,
        Component::Role => "Roles"@,
        Component::Type => "Types"@,
        Component::Typebounds => "Typebounds"@,
        Component::Attribute => "Type Attributes"@,
        Component::User => "Users"@,
        Component::Category => "Categories"@,
        Component::Sensitivity => "Sensitivities"@,
        Component::Level => "Levels"@,
        Component::Allow => "Allow Rules"@,
        Component::AllowXperm => "Allowxperm Rules"@,
        Component::AuditAllow => "Auditallow Rules"@,
        Component::AuditAllowXperm => "Auditallowxperm Rules"@,
        Component::DontAudit => "Dontaudit Rules"@,
        Component::DontAuditXperm => "Dontauditxperm Rules"@,
        Component::TypeTransition => "Type_transition Rules"@,
        Component::TypeChange => "Type_change Rules"@,
        Component::TypeMember => "Type_member Rules"@,
        Component::RoleAllow => "Role allow Rules"@,
        Component::RoleTransition => "Role_transition Rules"@,
        Component::RangeTransition => "Range_transition Rules"@,
        Component::Constrain => "Constraints"@,
        Component::MlsConstrain => "MLS Constraints"@,
        Component::ValidateTrans => "Validatetrans"@,
        Component::MlsValidateTrans => "MLS Validatetrans"@,
        Component::InitialSid => "Initial SIDs"@,
        Component::IbEndportCon => "Ibendportcons"@,
        Component::IbPkeyCon => "Ibpkeycons"@,
        Component::FsUse => "Fs_use"@,
        Component::GenfsCon => "Genfscons"@,
        Component::NetifCon => "Netifcons"@,
        Component::NodeCon => "Nodecons"@,
        Component::PortCon => "Portcons"@,
    }
}

/// Returns the heading of a component's section.
pub fn heading(c: Component) -> (result: &'static str)
    ensures
        result@ == component_title(c),
{
    match c {
        Component::Property => "Policy Properties",
        Component::Polcap => "Policy Capabilities",
        Component::Common => "Commons",
        Component::Class => "Classes",
        Component::Default => "Defaults",
        Component::Boolean => "Booleans",
        Component::Role => "Roles",
        Component::Type => "Types",
        Component::Typebounds => "Typebounds",
        Component::Attribute => "Type Attributes",
        Component::User => "Users",
        Component::Category => "Categories",
        Component::Sensitivity => "Sensitivities",
        Component::Level => "Levels",
        Component::Allow => "Allow Rules",
        Component::AllowXperm => "Allowxperm Rules",
        Component::AuditAllow => "Auditallow Rules",
        Component::AuditAllowXperm => "Auditallowxperm Rules",
        Component::DontAudit => "Dontaudit Rules",
        Component::DontAuditXperm => "Dontauditxperm Rules",
        Component::TypeTransition => "Type_transition Rules",
        Component::TypeChange => "Type_change Rules",
        Component::TypeMember => "Type_member Rules",
        Component::RoleAllow => "Role allow Rules",
        Component::RoleTransition => "Role_transition Rules",
        Component::RangeTransition => "Range_transition Rules",
        Component::Constrain => "Constraints",
        Component::MlsConstrain => "MLS Constraints",
        Component::ValidateTrans => "Validatetrans",
        Component::MlsValidateTrans => "MLS Validatetrans",
        Component::InitialSid => "Initial SIDs",
        Component::IbEndportCon => "Ibendportcons",
        Component::IbPkeyCon => "Ibpkeycons",
        Component::FsUse => "Fs_use",
        Component::GenfsCon => "Genfscons",
        Component::NetifCon => "Netifcons",
        Component::NodeCon => "Nodecons",
        Component::PortCon => "Portcons",
    }
}

/// What a component's items are called in the count lines: its heading,
/// except for role allow rules.
pub open spec fn component_items(c: Component) -> Seq<char> {
    if c == Component::RoleAllow { "Role Allow Rules"@ } else { component_title(c) }
}

/// Returns what a component's items are called in the count lines.
pub fn item_name(c: Component) -> (result: &'static str)
    ensures
        result@ == component_items(c),
{
    match c {
        Component::RoleAllow => "Role Allow Rules",
        _ => heading(c),
    }
}

/// The comparison's settings.
#[derive(Debug)]
pub struct DiffOptions {
    /// The two policy files, left then right.
    pub policies: Vec<String>,
    /// Whether to write JSON.
    pub json: bool,
    /// Whether to print counts only.
    pub stats: bool,
    /// Whether to log informational messages.
    pub verbose: bool,
    /// Whether to log debugging messages.
    pub debug: bool,
    /// The components asked for, in the order asked.
    pub components: Vec<Component>,
}

/// The settings as plain values.
#[verifier::ext_equal]
pub struct DiffOptionsView {
    /// The policy files.
    pub policies: Seq<Seq<char>>,
    /// Whether to write JSON.
    pub json: bool,
    /// Whether to print counts only.
    pub stats: bool,
    /// Whether to log informational messages.
    pub verbose: bool,
    /// Whether to log debugging messages.
    pub debug: bool,
    /// The components asked for.
    pub components: Seq<Component>,
}

/// The plain values of the settings.
pub open spec fn diff_options_view(options: DiffOptions) -> DiffOptionsView {
    DiffOptionsView {
        policies: texts(options.policies@),
        json: options.json,
        stats: options.stats,
        verbose: options.verbose,
        debug: options.debug,
        components: options.components@,
    }
}

/// What the command line asks for.
#[derive(Debug)]
pub enum DiffAction {
    /// Compare the policies.
    Run(DiffOptions),
    /// Show the help text.
    Help,
    /// Show the version.
    Version,
}

/// What the command line asks for, as plain values.
pub enum DiffActionView {
    /// Compare the policies.
    Run(DiffOptionsView),
    /// Show the help text.
    Help,
    /// Show the version.
    Version,
}

/// The plain value of a parse result.
pub open spec fn diff_parse_view(result: Result<DiffAction, String>) -> Result<DiffActionView, Seq<char>> {
    match result {
        Ok(DiffAction::Run(options)) => Ok(DiffActionView::Run(diff_options_view(options))),
        Ok(DiffAction::Help) => Ok(DiffActionView::Help),
        Ok(DiffAction::Version) => Ok(DiffActionView::Version),
        Err(message) => Err(message@),
    }
}

/// The components an option asks for, if it is a component option.
pub open spec fn option_components(word: Seq<char>) -> Option<Seq<Component>> {
    if word == "--property"@ { Some(seq![Component::Property]) }
    else if word == "--polcap"@ { Some(seq![Component::Polcap]) }
    else if word == "-b"@ || word == "--bool"@ { Some(seq![Component::Boolean]) }
    else if word == "-a"@ || word == "--attribute"@ { Some(seq![Component::Attribute]) }
    else if word == "--category"@ { Some(seq![Component::Category]) }
    else if word == "--sensitivity"@ { Some(seq![Component::Sensitivity]) }
    else if word == "--common"@ { Some(seq![Component::Common]) }
    else if word == "-c"@ || word == "--class"@ { Some(seq![Component::Class]) }
    else if word == "-t"@ || word == "--type"@ { Some(seq![Component::Type]) }
    else if word == "-r"@ || word == "--role"@ { Some(seq![Component::Role]) }
    else if word == "-u"@ || word == "--user"@ { Some(seq![Component::User]) }
    else if word == "--level"@ { Some(seq![Component::Level]) }
    else if word == "-A"@ { Some(seq![Component::Allow, Component::AllowXperm]) }
    else if word == "--allow"@ { Some(seq![Component::Allow]) }
    else if word == "--auditallow"@ { Some(seq![Component::AuditAllow]) }
    else if word == "--dontaudit"@ { Some(seq![Component::DontAudit]) }
    else if word == "--allowxperm"@ { Some(seq![Component::AllowXperm]) }
    else if word == "--auditallowxperm"@ { Some(seq![Component::AuditAllowXperm]) }
    else if word == "--dontauditxperm"@ { Some(seq![Component::DontAuditXperm]) }
    else if word == "-T"@ || word == "--type_trans"@ { Some(seq![Component::TypeTransition]) }
    else if word == "--type_change"@ { Some(seq![Component::TypeChange]) }
    else if word == "--type_member"@ { Some(seq![Component::TypeMember]) }
    else if word == "--role_allow"@ { Some(seq![Component::RoleAllow]) }
    else if word == "--role_trans"@ { Some(seq![Component::RoleTransition]) }
    else if word == "--range_trans"@ { Some(seq![Component::RangeTransition]) }
    else if word == "--constrain"@ { Some(seq![Component::Constrain]) }
    else if word == "--mlsconstrain"@ { Some(seq![Component::MlsConstrain]) }
    else if word == "--validatetrans"@ { Some(seq![Component::ValidateTrans]) }
    else if word == "--mlsvalidatetrans"@ { Some(seq![Component::MlsValidateTrans]) }
    else if word == "--ibendportcon"@ { Some(seq![Component::IbEndportCon]) }
    else if word == "--ibpkeycon"@ { Some(seq![Component::IbPkeyCon]) }
    else if word == "--initialsid"@ { Some(seq![Component::InitialSid]) }
    else if word == "--fs_use"@ { Some(seq![Component::FsUse]) }
    else if word == "--genfscon"@ { Some(seq![Component::GenfsCon]) }
    else if word == "--netifcon"@ { Some(seq![Component::NetifCon]) }
    else if word == "--nodecon"@ { Some(seq![Component::NodeCon]) }
    else if word == "--portcon"@ { Some(seq![Component::PortCon]) }
    else if word == "--default"@ { Some(seq![Component::Default]) }
    else if word == "--typebounds"@ { Some(seq![Component::Typebounds]) }
    else { None }
}

/// Returns the components an option asks for, if it is a component option.
fn components_of(word: &str) -> (result: Option<Vec<Component>>)
    ensures
        match option_components(word@) {
            Some(cs) => result matches Some(v) && v@ == cs,
            None => result is None,
        },
{
    let one = |c: Component| -> (v: Vec<Component>)
        ensures
            v@ == seq![c],
        {
            let v = vec![c];
            assert(v@ =~= seq![c]);
            v
        };
    if same_text(word, "--property") { Some(one(Component::Property)) }
    else if same_text(word, "--polcap") { Some(one(Component::Polcap)) }
    else if same_text(word, "-b") || same_text(word, "--bool") { Some(one(Component::Boolean)) }
    else if same_text(word, "-a") || same_text(word, "--attribute") { Some(one(Component::Attribute)) }
    else if same_text(word, "--category") { Some(one(Component::Category)) }
    else if same_text(word, "--sensitivity") { Some(one(Component::Sensitivity)) }
    else if same_text(word, "--common") { Some(one(Component::Common)) }
    else if same_text(word, "-c") || same_text(word, "--class") { Some(one(Component::Class)) }
    else if same_text(word, "-t") || same_text(word, "--type") { Some(one(Component::Type)) }
    else if same_text(word, "-r") || same_text(word, "--role") { Some(one(Component::Role)) }
    else if same_text(word, "-u") || same_text(word, "--user") { Some(one(Component::User)) }
    else if same_text(word, "--level") { Some(one(Component::Level)) }
    else if same_text(word, "-A") {
        let v = vec![Component::Allow, Component::AllowXperm];
        assert(v@ =~= seq![Component::Allow, Component::AllowXperm]);
        Some(v)
    }
    else if same_text(word, "--allow") { Some(one(Component::Allow)) }
    else if same_text(word, "--auditallow") { Some(one(Component::AuditAllow)) }
    else if same_text(word, "--dontaudit") { Some(one(Component::DontAudit)) }
    else if same_text(word, "--allowxperm") { Some(one(Component::AllowXperm)) }
    else if same_text(word, "--auditallowxperm") { Some(one(Component::AuditAllowXperm)) }
    else if same_text(word, "--dontauditxperm") { Some(one(Component::DontAuditXperm)) }
    else if same_text(word, "-T") || same_text(word, "--type_trans") { Some(one(Component::TypeTransition)) }
    else if same_text(word, "--type_change") { Some(one(Component::TypeChange)) }
    else if same_text(word, "--type_member") { Some(one(Component::TypeMember)) }
    else if same_text(word, "--role_allow") { Some(one(Component::RoleAllow)) }
    else if same_text(word, "--role_trans") { Some(one(Component::RoleTransition)) }
    else if same_text(word, "--range_trans") { Some(one(Component::RangeTransition)) }
    else if same_text(word, "--constrain") { Some(one(Component::Constrain)) }
    else if same_text(word, "--mlsconstrain") { Some(one(Component::MlsConstrain)) }
    else if same_text(word, "--validatetrans") { Some(one(Component::ValidateTrans)) }
    else if same_text(word, "--mlsvalidatetrans") { Some(one(Component::MlsValidateTrans)) }
    else if same_text(word, "--ibendportcon") { Some(one(Component::IbEndportCon)) }
    else if same_text(word, "--ibpkeycon") { Some(one(Component::IbPkeyCon)) }
    else if same_text(word, "--initialsid") { Some(one(Component::InitialSid)) }
    else if same_text(word, "--fs_use") { Some(one(Component::FsUse)) }
    else if same_text(word, "--genfscon") { Some(one(Component::GenfsCon)) }
    else if same_text(word, "--netifcon") { Some(one(Component::NetifCon)) }
    else if same_text(word, "--nodecon") { Some(one(Component::NodeCon)) }
    else if same_text(word, "--portcon") { Some(one(Component::PortCon)) }
    else if same_text(word, "--default") { Some(one(Component::Default)) }
    else if same_text(word, "--typebounds") { Some(one(Component::Typebounds)) }
    else { None }
}

/// The parser's state between arguments.
#[verifier::ext_equal]
pub struct DiffParseState {
    /// The settings so far.
    pub options: DiffOptionsView,
    /// Whether `--` has been seen.
    pub positional_only: bool,
}

/// The state before any argument.
pub open spec fn diff_initial_state() -> DiffParseState {
    DiffParseState {
        options: DiffOptionsView {
            policies: Seq::empty(),
            json: false,
            stats: false,
            verbose: false,
            debug: false,
            components: Seq::empty(),
        },
        positional_only: false,
    }
}

/// The state after a policy path.
pub open spec fn with_policy(state: DiffParseState, path: Seq<char>) -> DiffParseState {
    DiffParseState { options: DiffOptionsView { policies: state.options.policies.push(path), ..state.options }, ..state }
}

/// The settings after a switch that is not a component option, if `word`
/// is one.
pub open spec fn diff_flag(o: DiffOptionsView, word: Seq<char>) -> Option<DiffOptionsView> {
    if word == "--stats"@ { Some(DiffOptionsView { stats: true, ..o }) }
    else if word == "--json"@ { Some(DiffOptionsView { json: true, ..o }) }
    else if word == "-v"@ || word == "--verbose"@ { Some(DiffOptionsView { verbose: true, ..o }) }
    else if word == "--debug"@ { Some(DiffOptionsView { debug: true, ..o }) }
    else { None }
}

/// The outcome once every argument is read: exactly two policies are needed.
pub open spec fn diff_finish(options: DiffOptionsView) -> Result<DiffActionView, Seq<char>> {
    if options.policies.len() == 0 {
        Err("the following arguments are required: POLICY1, POLICY2"@)
    } else if options.policies.len() == 1 {
        Err("the following arguments are required: POLICY2"@)
    } else if options.policies.len() == 2 {
        Ok(DiffActionView::Run(options))
    } else {
        Err("unrecognized arguments: "@ + joined_by(options.policies.skip(2), " "@))
    }
}

/// Sets the switch `word` names, if it is one that is not a component
/// option; says whether it was.
fn apply_diff_flag(options: &mut DiffOptions, word: &str) -> (applied: bool)
    ensures
        match diff_flag(diff_options_view(*old(options)), word@) {
            Some(o) => applied && diff_options_view(*final(options)) == o,
            None => !applied && *final(options) == *old(options),
        },
{
    if same_text(word, "--stats") {
        options.stats = true;
    } else if same_text(word, "--json") {
        options.json = true;
    } else if same_text(word, "-v") || same_text(word, "--verbose") {
        options.verbose = true;
    } else if same_text(word, "--debug") {
        options.debug = true;
    } else {
        return false;
    }
    assert(diff_options_view(*options) =~= diff_flag(diff_options_view(*old(options)), word@)->Some_0);
    true
}

/// What the command line asks for, reading from argument `i` on.
pub open spec fn diff_parse_from(arguments: Seq<Seq<char>>, i: int, state: DiffParseState) -> Result<DiffActionView, Seq<char>>
    decreases arguments.len() - i,
{
    if i < 0 || i >= arguments.len() {
        diff_finish(state.options)
    } else {
        let a = arguments[i];
        if state.positional_only {
            diff_parse_from(arguments, i + 1, with_policy(state, a))
        } else if a == "-h"@ || a == "--help"@ {
            Ok(DiffActionView::Help)
        } else if a == "--version"@ {
            Ok(DiffActionView::Version)
        } else if a == "--"@ {
            diff_parse_from(arguments, i + 1, DiffParseState { positional_only: true, ..state })
        } else {
            match diff_flag(state.options, a) {
                Some(options) => diff_parse_from(arguments, i + 1, DiffParseState { options, ..state }),
                None => match option_components(a) {
                    Some(cs) => diff_parse_from(
                        arguments,
                        i + 1,
                        DiffParseState {
                            options: DiffOptionsView { components: state.options.components + cs, ..state.options },
                            ..state
                        },
                    ),
                    None => if a.len() > 0 && a[0] == '-' {
                        Err("unrecognized arguments: "@ + a)
                    } else {
                        diff_parse_from(arguments, i + 1, with_policy(state, a))
                    },
                },
            }
        }
    }
}

/// Appends components to a list.
fn append_components(list: &mut Vec<Component>, cs: &Vec<Component>)
    ensures
        final(list)@ == old(list)@ + cs@,
{
    let ghost before = list@;
    let mut k: usize = 0;
    while k < cs.len()
        invariant
            k <= cs.len(),
            list@ == before + cs@.take(k as int),
        decreases cs.len() - k,
    {
        list.push(cs[k]);
        k = k + 1;
        assert(list@ =~= before + cs@.take(k as int));
    }
    assert(cs@.take(cs.len() as int) =~= cs@);
}

/// Reads the comparison's command line.
pub fn parse_diff(arguments: Vec<String>) -> (result: Result<DiffAction, String>)
    ensures
        diff_parse_view(result) == diff_parse_from(texts(arguments@), 0, diff_initial_state()),
{
    let ghost args = texts(arguments@);
    let mut options = DiffOptions {
        policies: Vec::new(),
        json: false,
        stats: false,
        verbose: false,
        debug: false,
        components: Vec::new(),
    };
    let mut positional_only = false;
    let mut index: usize = 0;
    assert(diff_options_view(options) =~= diff_initial_state().options);
    while index < arguments.len()
        invariant
            index <= arguments.len(),
            args == texts(arguments@),
            diff_parse_from(args, 0, diff_initial_state()) == diff_parse_from(
                args,
                index as int,
                DiffParseState { options: diff_options_view(options), positional_only },
            ),
        decreases arguments.len() - index,
    {
        let a = arguments[index].as_str();
        let ghost state = DiffParseState { options: diff_options_view(options), positional_only };
        assert(args[index as int] == a@);
        if positional_only {
            options.policies.push(owned(a));
            assert(diff_options_view(options) =~= with_policy(state, a@).options);
        } else if same_text(a, "-h") || same_text(a, "--help") {
            return Ok(DiffAction::Help);
        } else if same_text(a, "--version") {
            return Ok(DiffAction::Version);
        } else if same_text(a, "--") {
            positional_only = true;
        } else if apply_diff_flag(&mut options, a) {
        } else {
            match components_of(a) {
                Some(cs) => {
                    append_components(&mut options.components, &cs);
                    assert(diff_options_view(options) =~= (DiffOptionsView {
                        components: state.options.components + cs@,
                        ..state.options
                    }));
                },
                None => {
                    let chars = crate::text::chars_of(a);
                    if chars.len() > 0 && chars[0] == '-' {
                        let mut message = owned("unrecognized arguments: ");
                        crate::text::push_str(&mut message, a);
                        return Err(message);
                    }
                    options.policies.push(owned(a));
                    assert(diff_options_view(options) =~= with_policy(state, a@).options);
                },
            }
        }
        index = index + 1;
    }
    if options.policies.len() == 0 {
        return Err(owned("the following arguments are required: POLICY1, POLICY2"));
    }
    if options.policies.len() == 1 {
        return Err(owned("the following arguments are required: POLICY2"));
    }
    if options.policies.len() > 2 {
        let ghost rest = texts(options.policies@).skip(2);
        let mut extra: Vec<String> = Vec::new();
        let mut k: usize = 2;
        assert(texts(extra@) =~= rest.take(0));
        while k < options.policies.len()
            invariant
                2 <= k <= options.policies.len(),
                rest == texts(options.policies@).skip(2),
                texts(extra@) == rest.take(k - 2),
            decreases options.policies.len() - k,
        {
            assert(rest[k - 2] == options.policies@[k as int]@);
            let ghost before = texts(extra@);
            extra.push(owned(options.policies[k].as_str()));
            assert(texts(extra@) =~= before.push(rest[k - 2]));
            assert(rest.take(k - 1) =~= rest.take(k - 2).push(rest[k - 2]));
            k = k + 1;
        }
        assert(rest.take(options.policies.len() - 2) =~= rest);
        let mut message = owned("unrecognized arguments: ");
        let joined = join_texts(&extra, " ");
        crate::text::push_str(&mut message, joined.as_str());
        return Err(message);
    }
    Ok(DiffAction::Run(options))
}

/// Whether any component was asked for; none means all of them.
pub open spec fn has_selection(options: DiffOptionsView) -> bool {
    options.components.len() > 0
}

/// Whether a component was asked for.
pub open spec fn asks_for(options: DiffOptionsView, c: Component) -> bool {
    options.components.contains(c)
}

/// Returns whether a component was asked for.
pub fn selects(options: &DiffOptions, c: Component) -> (result: bool)
    ensures
        result == asks_for(diff_options_view(*options), c),
{
    let mut index: usize = 0;
    while index < options.components.len()
        invariant
            index <= options.components.len(),
            forall|k: int| 0 <= k < index ==> options.components@[k] != c,
        decreases options.components.len() - index,
    {
        if options.components[index] == c {
            return true;
        }
        index = index + 1;
    }
    false
}

/// Whether the comparison computes a component: when all are wanted, or
/// this one was asked for.
pub open spec fn computes(options: DiffOptionsView, c: Component) -> bool {
    !has_selection(options) || asks_for(options, c)
}

/// Returns whether the comparison computes a component.
pub fn wants(options: &DiffOptions, c: Component) -> (result: bool)
    ensures
        result == computes(diff_options_view(*options), c),
{
    options.components.len() == 0 || selects(options, c)
}

} // verus!
