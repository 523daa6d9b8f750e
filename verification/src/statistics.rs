//! The statistics summary of a policy.
use vstd::prelude::*;
use crate::text::push_str;
use crate::policy::{Policy, PolicyMetadata, TargetPlatform, HandleUnknown, TeRuleKind};
use crate::report::{decimal, push_decimal, padded};

verus! {

/// How many of each component a policy has.
#[derive(Debug)]
pub struct PolicyStatistics {
    /// Policy-wide properties.
    pub metadata: PolicyMetadata,
    /// Object classes.
    pub classes: usize,
    /// Permissions, of classes and of commons.
    pub permissions: usize,
    /// Sensitivities.
    pub sensitivities: usize,
    /// Categories.
    pub categories: usize,
    /// Concrete types.
    pub types: usize,
    /// Type attributes.
    pub attributes: usize,
    /// Users.
    pub users: usize,
    /// Roles.
    pub roles: usize,
    /// Booleans.
    pub booleans: usize,
    /// Conditional expressions.
    pub conditionals: usize,
    /// `allow` rules.
    pub allow: usize,
    /// `neverallow` rules.
    pub neverallow: usize,
    /// `auditallow` rules.
    pub auditallow: usize,
    /// `dontaudit` rules.
    pub dontaudit: usize,
    /// `type_transition` rules.
    pub type_transitions: usize,
    /// `type_change` rules.
    pub type_changes: usize,
    /// `type_member` rules.
    pub type_members: usize,
    /// `range_transition` rules.
    pub range_transitions: usize,
    /// Role `allow` rules.
    pub role_allows: usize,
    /// `role_transition` rules.
    pub role_transitions: usize,
    /// `constrain` statements.
    pub constraints: usize,
    /// `validatetrans` statements.
    pub validatetrans: usize,
    /// `mlsconstrain` statements.
    pub mls_constraints: usize,
    /// `mlsvalidatetrans` statements.
    pub mls_validatetrans: usize,
    /// Permissive types.
    pub permissives: usize,
    /// Policy capabilities.
    pub polcaps: usize,
    /// `default_*` statements.
    pub defaults: usize,
    /// Bounded types.
    pub typebounds: usize,
    /// `allowxperm` rules.
    pub allowxperm: usize,
    /// `neverallowxperm` rules.
    pub neverallowxperm: usize,
    /// `auditallowxperm` rules.
    pub auditallowxperm: usize,
    /// `dontauditxperm` rules.
    pub dontauditxperm: usize,
    /// `ibendportcon` statements.
    pub ibendportcons: usize,
    /// `ibpkeycon` statements.
    pub ibpkeycons: usize,
    /// Initial SIDs.
    pub initial_sids: usize,
    /// `fs_use_*` statements.
    pub fs_uses: usize,
    /// `genfscon` statements.
    pub genfscons: usize,
    /// `portcon` statements.
    pub portcons: usize,
    /// `netifcon` statements.
    pub netifcons: usize,
    /// `nodecon` statements.
    pub nodecons: usize,
    /// `devicetreecon` statements.
    pub devicetreecons: usize,
    /// `iomemcon` statements.
    pub iomemcons: usize,
    /// `ioportcon` statements.
    pub ioportcons: usize,
    /// `pcidevicecon` statements.
    pub pcidevicecons: usize,
    /// `pirqcon` statements.
    pub pirqcons: usize,
}

/// A number right-aligned in a field at least `width` characters wide.
pub open spec fn right_aligned(digits: Seq<char>, width: nat) -> Seq<char> {
    if digits.len() < width {
        Seq::new((width - digits.len()) as nat, |i: int| ' ') + digits
    } else {
        digits
    }
}

/// One line of two labelled counts.
#[verifier::opaque]
pub open spec fn stats_line(left_label: Seq<char>, left: nat, right_label: Seq<char>, right: nat) -> Seq<char> {
    "  "@ + padded(left_label, 17) + right_aligned(decimal(left), 7) + "    "@ + padded(right_label, 17)
        + right_aligned(decimal(right), 7) + "\n"@
}

/// Appends spaces.
fn push_spaces(output: &mut String, count: usize)
    ensures
        final(output)@ == old(output)@ + Seq::new(count as nat, |i: int| ' '),
{
    let ghost start = output@;
    let mut done: usize = 0;
    while done < count
        invariant
            done <= count,
            output@ == start + Seq::new(done as nat, |i: int| ' '),
        decreases count - done,
    {
        crate::text::push_char(output, ' ');
        done = done + 1;
        assert(output@ =~= start + Seq::new(done as nat, |i: int| ' '));
    }
}

/// Appends a number right-aligned in a field at least `width` characters
/// wide.
fn push_right_aligned(output: &mut String, n: usize, width: usize)
    ensures
        final(output)@ == old(output)@ + right_aligned(decimal(n as nat), width as nat),
{
    let digits = crate::report::decimal_text(n);
    let count = crate::text::chars_of(digits.as_str()).len();
    if count < width {
        push_spaces(output, width - count);
    }
    push_str(output, digits.as_str());
    assert(final(output)@ =~= old(output)@ + right_aligned(decimal(n as nat), width as nat));
}

/// Appends a text left-aligned in a field at least `width` characters wide.
fn push_left_aligned(output: &mut String, text: &str, width: usize)
    ensures
        final(output)@ == old(output)@ + padded(text@, width as nat),
{
    push_str(output, text);
    let count = crate::text::chars_of(text).len();
    if count < width {
        push_spaces(output, width - count);
    }
    assert(final(output)@ =~= old(output)@ + padded(text@, width as nat));
}

/// Appends one line of two labelled counts.
fn push_stats_line(output: &mut String, left_label: &str, left: usize, right_label: &str, right: usize)
    ensures
        final(output)@ == old(output)@ + stats_line(left_label@, left as nat, right_label@, right as nat),
{
    let ghost start = output@;
    push_str(output, "  ");
    push_left_aligned(output, left_label, 17);
    push_right_aligned(output, left, 7);
    push_str(output, "    ");
    push_left_aligned(output, right_label, 17);
    push_right_aligned(output, right, 7);
    push_str(output, "\n");
    reveal(stats_line);
    assert(output@ =~= start + stats_line(left_label@, left as nat, right_label@, right as nat));
}

/// The heading lines: the file, version, platform and unknown handling.
pub open spec fn statistics_heading(s: PolicyStatistics, path: Seq<char>) -> Seq<char> {
    "Statistics for policy file: "@ + path + "\n"@ + "Policy Version:             "@ + decimal(s.metadata.version as nat)
        + " (MLS "@ + (if s.metadata.mls { "enabled"@ } else { "disabled"@ }) + ")\n"@ + "Target Policy:              "@
        + (match s.metadata.target { TargetPlatform::Selinux => "selinux"@, TargetPlatform::Xen => "xen"@ }) + "\n"@
        + "Handle unknown classes:     "@ + (match s.metadata.handle_unknown {
            HandleUnknown::Deny => "deny"@,
            HandleUnknown::Reject => "reject"@,
            HandleUnknown::Allow => "allow"@,
        }) + "\n"@
}

/// The count lines every policy has.
pub open spec fn common_counts(s: PolicyStatistics) -> Seq<char> {
    stats_line("Classes:"@, s.classes as nat, "Permissions:"@, s.permissions as nat)
        + stats_line("Sensitivities:"@, s.sensitivities as nat, "Categories:"@, s.categories as nat)
        + stats_line("Types:"@, s.types as nat, "Attributes:"@, s.attributes as nat)
        + stats_line("Users:"@, s.users as nat, "Roles:"@, s.roles as nat)
        + stats_line("Booleans:"@, s.booleans as nat, "Cond. Expr.:"@, s.conditionals as nat)
        + stats_line("Allow:"@, s.allow as nat, "Neverallow:"@, s.neverallow as nat)
        + stats_line("Auditallow:"@, s.auditallow as nat, "Dontaudit:"@, s.dontaudit as nat)
        + stats_line("Type_trans:"@, s.type_transitions as nat, "Type_change:"@, s.type_changes as nat)
        + stats_line("Type_member:"@, s.type_members as nat, "Range_trans:"@, s.range_transitions as nat)
        + stats_line("Role allow:"@, s.role_allows as nat, "Role_trans:"@, s.role_transitions as nat)
        + stats_line("Constraints:"@, s.constraints as nat, "Validatetrans:"@, s.validatetrans as nat)
        + stats_line("MLS Constrain:"@, s.mls_constraints as nat, "MLS Val. Tran:"@, s.mls_validatetrans as nat)
        + stats_line("Permissives:"@, s.permissives as nat, "Polcap:"@, s.polcaps as nat)
        + stats_line("Defaults:"@, s.defaults as nat, "Typebounds:"@, s.typebounds as nat)
}

/// The count lines of the target platform.
pub open spec fn platform_counts(s: PolicyStatistics) -> Seq<char> {
    match s.metadata.target {
        TargetPlatform::Selinux => stats_line("Allowxperm:"@, s.allowxperm as nat, "Neverallowxperm:"@, s.neverallowxperm as nat)
            + stats_line("Auditallowxperm:"@, s.auditallowxperm as nat, "Dontauditxperm:"@, s.dontauditxperm as nat)
            + stats_line("Ibendportcon:"@, s.ibendportcons as nat, "Ibpkeycon:"@, s.ibpkeycons as nat)
            + stats_line("Initial SIDs:"@, s.initial_sids as nat, "Fs_use:"@, s.fs_uses as nat)
            + stats_line("Genfscon:"@, s.genfscons as nat, "Portcon:"@, s.portcons as nat)
            + stats_line("Netifcon:"@, s.netifcons as nat, "Nodecon:"@, s.nodecons as nat),
        TargetPlatform::Xen => stats_line("Initial SIDs:"@, s.initial_sids as nat, "Devicetreecon:"@, s.devicetreecons as nat)
            + stats_line("Iomemcon:"@, s.iomemcons as nat, "Ioportcon:"@, s.ioportcons as nat)
            + stats_line("Pcidevicecon:"@, s.pcidevicecons as nat, "Pirqcon:"@, s.pirqcons as nat),
    }
}

/// The statistics summary of a policy.
pub open spec fn statistics_text(s: PolicyStatistics, path: Seq<char>) -> Seq<char> {
    statistics_heading(s, path) + common_counts(s) + platform_counts(s)
}

/// Appends the heading lines.
fn push_statistics_heading(output: &mut String, s: &PolicyStatistics, path: &str)
    ensures
        final(output)@ == old(output)@ + statistics_heading(*s, path@),
{
    let ghost start = output@;
    push_str(output, "Statistics for policy file: ");
    push_str(output, path);
    push_str(output, "\n");
    push_str(output, "Policy Version:             ");
    push_decimal(output, s.metadata.version as usize);
    push_str(output, " (MLS ");
    push_str(output, if s.metadata.mls { "enabled" } else { "disabled" });
    push_str(output, ")\n");
    push_str(output, "Target Policy:              ");
    push_str(output, match s.metadata.target { TargetPlatform::Selinux => "selinux", TargetPlatform::Xen => "xen" });
    push_str(output, "\n");
    push_str(output, "Handle unknown classes:     ");
    push_str(output, match s.metadata.handle_unknown {
        HandleUnknown::Deny => "deny",
        HandleUnknown::Reject => "reject",
        HandleUnknown::Allow => "allow",
    });
    push_str(output, "\n");
    assert(output@ =~= start + statistics_heading(*s, path@));
}

/// Appends the count lines every policy has.
fn push_common_counts(mut output: String, s: &PolicyStatistics) -> (result: String)
    ensures
        result@ == output@ + common_counts(*s),
{
    let ghost start = output@;
    push_stats_line(&mut output, "Classes:", s.classes, "Permissions:", s.permissions);
    push_stats_line(&mut output, "Sensitivities:", s.sensitivities, "Categories:", s.categories);
    push_stats_line(&mut output, "Types:", s.types, "Attributes:", s.attributes);
    push_stats_line(&mut output, "Users:", s.users, "Roles:", s.roles);
    push_stats_line(&mut output, "Booleans:", s.booleans, "Cond. Expr.:", s.conditionals);
    push_stats_line(&mut output, "Allow:", s.allow, "Neverallow:", s.neverallow);
    push_stats_line(&mut output, "Auditallow:", s.auditallow, "Dontaudit:", s.dontaudit);
    push_stats_line(&mut output, "Type_trans:", s.type_transitions, "Type_change:", s.type_changes);
    push_stats_line(&mut output, "Type_member:", s.type_members, "Range_trans:", s.range_transitions);
    push_stats_line(&mut output, "Role allow:", s.role_allows, "Role_trans:", s.role_transitions);
    push_stats_line(&mut output, "Constraints:", s.constraints, "Validatetrans:", s.validatetrans);
    push_stats_line(&mut output, "MLS Constrain:", s.mls_constraints, "MLS Val. Tran:", s.mls_validatetrans);
    push_stats_line(&mut output, "Permissives:", s.permissives, "Polcap:", s.polcaps);
    push_stats_line(&mut output, "Defaults:", s.defaults, "Typebounds:", s.typebounds);
    assert(output@ =~= start + common_counts(*s));
    output
}

/// Appends the count lines of the target platform.
fn push_platform_counts(mut output: String, s: &PolicyStatistics) -> (result: String)
    ensures
        result@ == output@ + platform_counts(*s),
{
    let ghost start = output@;
    match s.metadata.target {
        TargetPlatform::Selinux => {
            push_stats_line(&mut output, "Allowxperm:", s.allowxperm, "Neverallowxperm:", s.neverallowxperm);
            push_stats_line(&mut output, "Auditallowxperm:", s.auditallowxperm, "Dontauditxperm:", s.dontauditxperm);
            push_stats_line(&mut output, "Ibendportcon:", s.ibendportcons, "Ibpkeycon:", s.ibpkeycons);
            push_stats_line(&mut output, "Initial SIDs:", s.initial_sids, "Fs_use:", s.fs_uses);
            push_stats_line(&mut output, "Genfscon:", s.genfscons, "Portcon:", s.portcons);
            push_stats_line(&mut output, "Netifcon:", s.netifcons, "Nodecon:", s.nodecons);
        },
        TargetPlatform::Xen => {
            push_stats_line(&mut output, "Initial SIDs:", s.initial_sids, "Devicetreecon:", s.devicetreecons);
            push_stats_line(&mut output, "Iomemcon:", s.iomemcons, "Ioportcon:", s.ioportcons);
            push_stats_line(&mut output, "Pcidevicecon:", s.pcidevicecons, "Pirqcon:", s.pirqcons);
        },
    }
    assert(output@ =~= start + platform_counts(*s));
    output
}

/// Writes the statistics summary of a policy; `path` names its file.
pub fn render_statistics(s: &PolicyStatistics, path: &str) -> (result: String)
    ensures
        result@ == statistics_text(*s, path@),
{
    let mut output = String::new();
    push_statistics_heading(&mut output, s, path);
    let output = push_common_counts(output, s);
    let output = push_platform_counts(output, s);
    assert(output@ =~= statistics_text(*s, path@));
    output
}


/// The counts of the components the policy model does not hold, read from
/// the loaded policy.
#[derive(Debug)]
pub struct OutsideCounts {
    /// Permissions, local and common.
    pub permissions: usize,
    /// Users.
    pub users: usize,
    /// Roles.
    pub roles: usize,
    /// Range transition rules.
    pub range_transitions: usize,
    /// Role transition rules.
    pub role_transitions: usize,
    /// Constraints.
    pub constraints: usize,
    /// Validatetrans statements.
    pub validatetrans: usize,
    /// MLS constraints.
    pub mls_constraints: usize,
    /// MLS validatetrans statements.
    pub mls_validatetrans: usize,
    /// Default rules.
    pub defaults: usize,
    /// Typebounds.
    pub typebounds: usize,
    /// `allowxperm` rules.
    pub allowxperm: usize,
    /// `auditallowxperm` rules.
    pub auditallowxperm: usize,
    /// `dontauditxperm` rules.
    pub dontauditxperm: usize,
    /// `ibendportcon` statements.
    pub ibendportcons: usize,
    /// `ibpkeycon` statements.
    pub ibpkeycons: usize,
    /// Initial SIDs.
    pub initial_sids: usize,
    /// `fs_use_*` statements.
    pub fs_uses: usize,
    /// `genfscon` statements.
    pub genfscons: usize,
    /// `portcon` statements.
    pub portcons: usize,
    /// `netifcon` statements.
    pub netifcons: usize,
    /// `nodecon` statements.
    pub nodecons: usize,
    /// `devicetreecon` statements.
    pub devicetreecons: usize,
    /// `iomemcon` statements.
    pub iomemcons: usize,
    /// `ioportcon` statements.
    pub ioportcons: usize,
    /// `pcidevicecon` statements.
    pub pcidevicecons: usize,
    /// `pirqcon` statements.
    pub pirqcons: usize,
}

/// The number of the first `n` TE rules of a kind.
pub open spec fn kind_count(policy: Policy, kind: TeRuleKind, n: nat) -> nat
    decreases n,
{
    if n == 0 || n > policy.te_rules@.len() {
        0
    } else {
        kind_count(policy, kind, (n - 1) as nat) + if policy.te_rules@[n - 1].kind == kind { 1nat } else { 0nat }
    }
}

/// The number of the first `n` symbols that are concrete types.
pub open spec fn type_count(policy: Policy, n: nat) -> nat
    decreases n,
{
    if n == 0 || n > policy.types@.len() {
        0
    } else {
        type_count(policy, (n - 1) as nat) + if !policy.types@[n - 1].attribute { 1nat } else { 0nat }
    }
}

/// The number of the first `n` symbols that are permissive.
pub open spec fn permissive_count(policy: Policy, n: nat) -> nat
    decreases n,
{
    if n == 0 || n > policy.types@.len() {
        0
    } else {
        permissive_count(policy, (n - 1) as nat) + if policy.types@[n - 1].permissive { 1nat } else { 0nat }
    }
}

/// A count never exceeds the number of items counted.
proof fn lemma_counts_bounded(policy: Policy, n: nat)
    ensures
        n <= policy.te_rules@.len() ==> forall|kind: TeRuleKind| #[trigger] kind_count(policy, kind, n) <= n,
        n <= policy.types@.len() ==> type_count(policy, n) <= n && permissive_count(policy, n) <= n,
    decreases n,
{
    if n > 0 {
        lemma_counts_bounded(policy, (n - 1) as nat);
    }
    assert forall|kind: TeRuleKind| n <= policy.te_rules@.len() implies #[trigger] kind_count(policy, kind, n) <= n by {
        if n > 0 {
            assert(kind_count(policy, kind, (n - 1) as nat) <= n - 1);
        }
    }
}

/// Counts the TE rules of a kind.
fn count_kind(policy: &Policy, kind: TeRuleKind) -> (result: usize)
    ensures
        result == kind_count(*policy, kind, policy.te_rules@.len()),
{
    let mut count: usize = 0;
    let mut index: usize = 0;
    while index < policy.te_rules.len()
        invariant
            index <= policy.te_rules@.len(),
            count == kind_count(*policy, kind, index as nat),
        decreases policy.te_rules@.len() - index,
    {
        proof {
            lemma_counts_bounded(*policy, index as nat);
            lemma_counts_bounded(*policy, (index + 1) as nat);
        }
        if policy.te_rules[index].kind == kind {
            count = count + 1;
        }
        index = index + 1;
    }
    count
}

/// Counts the concrete types and the permissive symbols.
fn count_types(policy: &Policy) -> (result: (usize, usize))
    ensures
        result.0 == type_count(*policy, policy.types@.len()),
        result.1 == permissive_count(*policy, policy.types@.len()),
{
    let mut types: usize = 0;
    let mut permissive: usize = 0;
    let mut index: usize = 0;
    while index < policy.types.len()
        invariant
            index <= policy.types@.len(),
            types == type_count(*policy, index as nat),
            permissive == permissive_count(*policy, index as nat),
        decreases policy.types@.len() - index,
    {
        proof {
            lemma_counts_bounded(*policy, index as nat);
            lemma_counts_bounded(*policy, (index + 1) as nat);
        }
        if !policy.types[index].attribute {
            types = types + 1;
        }
        if policy.types[index].permissive {
            permissive = permissive + 1;
        }
        index = index + 1;
    }
    (types, permissive)
}

/// The statistics of a policy: the model's own components counted, the
/// others as read from the loaded policy; `neverallow` rules are never
/// counted, as the kernel policy holds none.
pub open spec fn statistics_of(policy: Policy, outside: OutsideCounts) -> PolicyStatistics {
    let types = type_count(policy, policy.types@.len());
    PolicyStatistics {
        metadata: PolicyMetadata {
            version: policy.metadata.version,
            mls: policy.metadata.mls,
            target: policy.metadata.target,
            handle_unknown: policy.metadata.handle_unknown,
        },
        classes: policy.classes@.len() as usize,
        permissions: outside.permissions,
        sensitivities: policy.sensitivities@.len() as usize,
        categories: policy.categories@.len() as usize,
        types: types as usize,
        attributes: (policy.types@.len() - types) as usize,
        users: outside.users,
        roles: outside.roles,
        booleans: policy.booleans@.len() as usize,
        conditionals: policy.conditionals@.len() as usize,
        allow: kind_count(policy, TeRuleKind::Allow, policy.te_rules@.len()) as usize,
        neverallow: 0,
        auditallow: kind_count(policy, TeRuleKind::AuditAllow, policy.te_rules@.len()) as usize,
        dontaudit: kind_count(policy, TeRuleKind::DontAudit, policy.te_rules@.len()) as usize,
        type_transitions: kind_count(policy, TeRuleKind::TypeTransition, policy.te_rules@.len()) as usize,
        type_changes: kind_count(policy, TeRuleKind::TypeChange, policy.te_rules@.len()) as usize,
        type_members: kind_count(policy, TeRuleKind::TypeMember, policy.te_rules@.len()) as usize,
        range_transitions: outside.range_transitions,
        role_allows: policy.role_allows@.len() as usize,
        role_transitions: outside.role_transitions,
        constraints: outside.constraints,
        validatetrans: outside.validatetrans,
        mls_constraints: outside.mls_constraints,
        mls_validatetrans: outside.mls_validatetrans,
        permissives: permissive_count(policy, policy.types@.len()) as usize,
        polcaps: policy.capabilities@.len() as usize,
        defaults: outside.defaults,
        typebounds: outside.typebounds,
        allowxperm: outside.allowxperm,
        neverallowxperm: 0,
        auditallowxperm: outside.auditallowxperm,
        dontauditxperm: outside.dontauditxperm,
        ibendportcons: outside.ibendportcons,
        ibpkeycons: outside.ibpkeycons,
        initial_sids: outside.initial_sids,
        fs_uses: outside.fs_uses,
        genfscons: outside.genfscons,
        portcons: outside.portcons,
        netifcons: outside.netifcons,
        nodecons: outside.nodecons,
        devicetreecons: outside.devicetreecons,
        iomemcons: outside.iomemcons,
        ioportcons: outside.ioportcons,
        pcidevicecons: outside.pcidevicecons,
        pirqcons: outside.pirqcons,
    }
}

/// Counts the components of a policy.
pub fn policy_statistics(policy: &Policy, outside: &OutsideCounts) -> (s: PolicyStatistics)
    ensures
        s == statistics_of(*policy, *outside),
{
    let (types, permissives) = count_types(policy);
    proof {
        lemma_counts_bounded(*policy, policy.types@.len());
    }
    PolicyStatistics {
        metadata: PolicyMetadata {
            version: policy.metadata.version,
            mls: policy.metadata.mls,
            target: policy.metadata.target,
            handle_unknown: policy.metadata.handle_unknown,
        },
        classes: policy.classes.len(),
        permissions: outside.permissions,
        sensitivities: policy.sensitivities.len(),
        categories: policy.categories.len(),
        types,
        attributes: policy.types.len() - types,
        users: outside.users,
        roles: outside.roles,
        booleans: policy.booleans.len(),
        conditionals: policy.conditionals.len(),
        allow: count_kind(policy, TeRuleKind::Allow),
        neverallow: 0,
        auditallow: count_kind(policy, TeRuleKind::AuditAllow),
        dontaudit: count_kind(policy, TeRuleKind::DontAudit),
        type_transitions: count_kind(policy, TeRuleKind::TypeTransition),
        type_changes: count_kind(policy, TeRuleKind::TypeChange),
        type_members: count_kind(policy, TeRuleKind::TypeMember),
        range_transitions: outside.range_transitions,
        role_allows: policy.role_allows.len(),
        role_transitions: outside.role_transitions,
        constraints: outside.constraints,
        validatetrans: outside.validatetrans,
        mls_constraints: outside.mls_constraints,
        mls_validatetrans: outside.mls_validatetrans,
        permissives,
        polcaps: policy.capabilities.len(),
        defaults: outside.defaults,
        typebounds: outside.typebounds,
        allowxperm: outside.allowxperm,
        neverallowxperm: 0,
        auditallowxperm: outside.auditallowxperm,
        dontauditxperm: outside.dontauditxperm,
        ibendportcons: outside.ibendportcons,
        ibpkeycons: outside.ibpkeycons,
        initial_sids: outside.initial_sids,
        fs_uses: outside.fs_uses,
        genfscons: outside.genfscons,
        portcons: outside.portcons,
        netifcons: outside.netifcons,
        nodecons: outside.nodecons,
        devicetreecons: outside.devicetreecons,
        iomemcons: outside.iomemcons,
        ioportcons: outside.ioportcons,
        pcidevicecons: outside.pcidevicecons,
        pirqcons: outside.pirqcons,
    }
}

} // verus!
