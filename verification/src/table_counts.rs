//! The counts of the policy statistics that come from the component tables
//! and labeling statements beside the policy model.
use vstd::prelude::*;
use crate::policy::Policy;
use crate::components::{ComponentTables, Common};
use crate::class_rules::{ClassDetail, Constraint};
use crate::labeling::{LabelingRule, LabelKind};
use crate::statistics::{OutsideCounts, PolicyStatistics, statistics_of, policy_statistics};

verus! {

/// The counts of rules the tables do not hold either.
#[derive(Debug)]
pub struct RuleCounts {
    /// Range transition rules.
    pub range_transitions: usize,
    /// Role transition rules.
    pub role_transitions: usize,
    /// `allowxperm` rules.
    pub allowxperm: usize,
    /// `auditallowxperm` rules.
    pub auditallowxperm: usize,
    /// `dontauditxperm` rules.
    pub dontauditxperm: usize,
}

/// The listing a labeling statement belongs to.
pub open spec fn rule_kind(rule: LabelingRule) -> LabelKind {
    match rule {
        LabelingRule::InitialSid { .. } => LabelKind::InitialSid,
        LabelingRule::FsUse { .. } => LabelKind::FsUse,
        LabelingRule::Genfscon { .. } => LabelKind::Genfscon,
        LabelingRule::Portcon { .. } => LabelKind::Portcon,
        LabelingRule::Netifcon { .. } => LabelKind::Netifcon,
        LabelingRule::Nodecon { .. } => LabelKind::Nodecon,
        LabelingRule::Ibpkeycon { .. } => LabelKind::Ibpkeycon,
        LabelingRule::Ibendportcon { .. } => LabelKind::Ibendportcon,
        LabelingRule::Devicetreecon { .. } => LabelKind::Devicetreecon,
        LabelingRule::Iomemcon { .. } => LabelKind::Iomemcon,
        LabelingRule::Ioportcon { .. } => LabelKind::Ioportcon,
        LabelingRule::Pcidevicecon { .. } => LabelKind::Pcidevicecon,
        LabelingRule::Pirqcon { .. } => LabelKind::Pirqcon,
    }
}

/// The number of labeling statements of a kind.
pub open spec fn label_count(rules: Seq<LabelingRule>, kind: LabelKind) -> nat
    decreases rules.len(),
{
    if rules.len() == 0 {
        0
    } else {
        label_count(rules.drop_last(), kind) + if rule_kind(rules.last()) == kind { 1nat } else { 0nat }
    }
}

/// The number of constraints with the given keyword.
pub open spec fn constraint_count(rules: Seq<Constraint>, keyword: Seq<char>) -> nat
    decreases rules.len(),
{
    if rules.len() == 0 {
        0
    } else {
        constraint_count(rules.drop_last(), keyword) + if rules.last().keyword@ == keyword { 1nat } else { 0nat }
    }
}

/// The number of types with a bound.
pub open spec fn bound_count(bounds: Seq<Option<usize>>) -> nat
    decreases bounds.len(),
{
    if bounds.len() == 0 {
        0
    } else {
        bound_count(bounds.drop_last()) + if bounds.last() is Some { 1nat } else { 0nat }
    }
}

/// The permissions the classes declare themselves.
pub open spec fn local_permission_count(details: Seq<ClassDetail>) -> nat
    decreases details.len(),
{
    if details.len() == 0 {
        0
    } else {
        local_permission_count(details.drop_last()) + details.last().local_permissions@.len()
    }
}

/// The permissions of the commons.
pub open spec fn common_permission_count(commons: Seq<Common>) -> nat
    decreases commons.len(),
{
    if commons.len() == 0 {
        0
    } else {
        common_permission_count(commons.drop_last()) + commons.last().permissions@.len()
    }
}

/// The permission total fits a machine word.
pub open spec fn permissions_fit(t: ComponentTables) -> bool {
    local_permission_count(t.class_details@) + common_permission_count(t.commons@) <= usize::MAX
}

/// The counts the tables, the labeling statements and the other rule
/// counts give.
pub open spec fn table_counts(policy: Policy, t: ComponentTables, rules: Seq<LabelingRule>, rest: RuleCounts) -> OutsideCounts {
    OutsideCounts {
        permissions: (local_permission_count(t.class_details@) + common_permission_count(t.commons@)) as usize,
        users: t.users@.len() as usize,
        roles: policy.roles@.len() as usize,
        range_transitions: rest.range_transitions,
        role_transitions: rest.role_transitions,
        constraints: constraint_count(t.constraints@, "constrain"@) as usize,
        validatetrans: constraint_count(t.constraints@, "validatetrans"@) as usize,
        mls_constraints: constraint_count(t.constraints@, "mlsconstrain"@) as usize,
        mls_validatetrans: constraint_count(t.constraints@, "mlsvalidatetrans"@) as usize,
        defaults: t.defaults@.len() as usize,
        typebounds: bound_count(t.bounds@) as usize,
        allowxperm: rest.allowxperm,
        auditallowxperm: rest.auditallowxperm,
        dontauditxperm: rest.dontauditxperm,
        ibendportcons: label_count(rules, LabelKind::Ibendportcon) as usize,
        ibpkeycons: label_count(rules, LabelKind::Ibpkeycon) as usize,
        initial_sids: label_count(rules, LabelKind::InitialSid) as usize,
        fs_uses: label_count(rules, LabelKind::FsUse) as usize,
        genfscons: label_count(rules, LabelKind::Genfscon) as usize,
        portcons: label_count(rules, LabelKind::Portcon) as usize,
        netifcons: label_count(rules, LabelKind::Netifcon) as usize,
        nodecons: label_count(rules, LabelKind::Nodecon) as usize,
        devicetreecons: label_count(rules, LabelKind::Devicetreecon) as usize,
        iomemcons: label_count(rules, LabelKind::Iomemcon) as usize,
        ioportcons: label_count(rules, LabelKind::Ioportcon) as usize,
        pcidevicecons: label_count(rules, LabelKind::Pcidevicecon) as usize,
        pirqcons: label_count(rules, LabelKind::Pirqcon) as usize,
    }
}

proof fn lemma_label_count_bounded(rules: Seq<LabelingRule>, kind: LabelKind)
    ensures
        label_count(rules, kind) <= rules.len(),
    decreases rules.len(),
{
    if rules.len() > 0 {
        lemma_label_count_bounded(rules.drop_last(), kind);
    }
}

proof fn lemma_constraint_count_bounded(rules: Seq<Constraint>, keyword: Seq<char>)
    ensures
        constraint_count(rules, keyword) <= rules.len(),
    decreases rules.len(),
{
    if rules.len() > 0 {
        lemma_constraint_count_bounded(rules.drop_last(), keyword);
    }
}

proof fn lemma_bound_count_bounded(bounds: Seq<Option<usize>>)
    ensures
        bound_count(bounds) <= bounds.len(),
    decreases bounds.len(),
{
    if bounds.len() > 0 {
        lemma_bound_count_bounded(bounds.drop_last());
    }
}

/// The listing a labeling statement belongs to.
fn kind_of(rule: &LabelingRule) -> (result: LabelKind)
    ensures
        result == rule_kind(*rule),
{
    match rule {
        LabelingRule::InitialSid { .. } => LabelKind::InitialSid,
        LabelingRule::FsUse { .. } => LabelKind::FsUse,
        LabelingRule::Genfscon { .. } => LabelKind::Genfscon,
        LabelingRule::Portcon { .. } => LabelKind::Portcon,
        LabelingRule::Netifcon { .. } => LabelKind::Netifcon,
        LabelingRule::Nodecon { .. } => LabelKind::Nodecon,
        LabelingRule::Ibpkeycon { .. } => LabelKind::Ibpkeycon,
        LabelingRule::Ibendportcon { .. } => LabelKind::Ibendportcon,
        LabelingRule::Devicetreecon { .. } => LabelKind::Devicetreecon,
        LabelingRule::Iomemcon { .. } => LabelKind::Iomemcon,
        LabelingRule::Ioportcon { .. } => LabelKind::Ioportcon,
        LabelingRule::Pcidevicecon { .. } => LabelKind::Pcidevicecon,
        LabelingRule::Pirqcon { .. } => LabelKind::Pirqcon,
    }
}

/// Counts the labeling statements of a kind.
fn count_labels(rules: &Vec<LabelingRule>, kind: LabelKind) -> (result: usize)
    ensures
        result == label_count(rules@, kind),
{
    let mut count: usize = 0;
    let mut index: usize = 0;
    while index < rules.len()
        invariant
            index <= rules@.len(),
            count == label_count(rules@.take(index as int), kind),
        decreases rules.len() - index,
    {
        let ghost taken = rules@.take(index as int + 1);
        assert(taken.drop_last() =~= rules@.take(index as int));
        proof {
            lemma_label_count_bounded(rules@.take(index as int), kind);
        }
        if kind_of(&rules[index]) == kind {
            count = count + 1;
        }
        index = index + 1;
    }
    assert(rules@.take(rules.len() as int) =~= rules@);
    count
}

/// Counts the constraints with a keyword.
fn count_constraints(rules: &Vec<Constraint>, keyword: &str) -> (result: usize)
    ensures
        result == constraint_count(rules@, keyword@),
{
    let mut count: usize = 0;
    let mut index: usize = 0;
    while index < rules.len()
        invariant
            index <= rules@.len(),
            count == constraint_count(rules@.take(index as int), keyword@),
        decreases rules.len() - index,
    {
        let ghost taken = rules@.take(index as int + 1);
        assert(taken.drop_last() =~= rules@.take(index as int));
        proof {
            lemma_constraint_count_bounded(rules@.take(index as int), keyword@);
        }
        if crate::text::same_text(rules[index].keyword.as_str(), keyword) {
            count = count + 1;
        }
        index = index + 1;
    }
    assert(rules@.take(rules.len() as int) =~= rules@);
    count
}

/// Counts the bounded types.
fn count_bounds(bounds: &Vec<Option<usize>>) -> (result: usize)
    ensures
        result == bound_count(bounds@),
{
    let mut count: usize = 0;
    let mut index: usize = 0;
    while index < bounds.len()
        invariant
            index <= bounds@.len(),
            count == bound_count(bounds@.take(index as int)),
        decreases bounds.len() - index,
    {
        let ghost taken = bounds@.take(index as int + 1);
        assert(taken.drop_last() =~= bounds@.take(index as int));
        proof {
            lemma_bound_count_bounded(bounds@.take(index as int));
        }
        if bounds[index].is_some() {
            count = count + 1;
        }
        index = index + 1;
    }
    assert(bounds@.take(bounds.len() as int) =~= bounds@);
    count
}

proof fn lemma_permission_counts_grow(details: Seq<ClassDetail>, commons: Seq<Common>, i: int, j: int)
    requires
        0 <= i <= details.len(),
        0 <= j <= commons.len(),
    ensures
        local_permission_count(details.take(i)) <= local_permission_count(details),
        common_permission_count(commons.take(j)) <= common_permission_count(commons),
    decreases details.len() + commons.len(),
{
    if details.len() > i {
        assert(details.drop_last().take(i) =~= details.take(i));
        lemma_permission_counts_grow(details.drop_last(), commons, i, j);
    } else if commons.len() > j {
        assert(commons.drop_last().take(j) =~= commons.take(j));
        lemma_permission_counts_grow(details, commons.drop_last(), i, j);
    } else {
        assert(details.take(i) =~= details);
        assert(commons.take(j) =~= commons);
    }
}

/// Counts the permissions of the classes and commons.
fn count_permissions(t: &ComponentTables) -> (result: usize)
    requires
        permissions_fit(*t),
    ensures
        result == local_permission_count(t.class_details@) + common_permission_count(t.commons@),
{
    let mut count: usize = 0;
    let mut index: usize = 0;
    while index < t.class_details.len()
        invariant
            index <= t.class_details@.len(),
            permissions_fit(*t),
            count == local_permission_count(t.class_details@.take(index as int)),
        decreases t.class_details.len() - index,
    {
        let ghost taken = t.class_details@.take(index as int + 1);
        assert(taken.drop_last() =~= t.class_details@.take(index as int));
        proof {
            lemma_permission_counts_grow(t.class_details@, t.commons@, index as int + 1, 0);
        }
        count = count + t.class_details[index].local_permissions.len();
        index = index + 1;
    }
    assert(t.class_details@.take(t.class_details.len() as int) =~= t.class_details@);
    let ghost local = count as int;
    index = 0;
    while index < t.commons.len()
        invariant
            index <= t.commons@.len(),
            permissions_fit(*t),
            local == local_permission_count(t.class_details@),
            count == local + common_permission_count(t.commons@.take(index as int)),
        decreases t.commons.len() - index,
    {
        let ghost taken = t.commons@.take(index as int + 1);
        assert(taken.drop_last() =~= t.commons@.take(index as int));
        proof {
            lemma_permission_counts_grow(t.class_details@, t.commons@, 0, index as int + 1);
        }
        count = count + t.commons[index].permissions.len();
        index = index + 1;
    }
    assert(t.commons@.take(t.commons.len() as int) =~= t.commons@);
    count
}

/// Counts the components of a policy with its tables and labeling
/// statements; the other rule counts are given.
pub fn listing_statistics(policy: &Policy, tables: &ComponentTables, rules: &Vec<LabelingRule>, rest: &RuleCounts)
    -> (s: PolicyStatistics)
    requires
        permissions_fit(*tables),
    ensures
        s == statistics_of(*policy, table_counts(*policy, *tables, rules@, *rest)),
{
    let counts = OutsideCounts {
        permissions: count_permissions(tables),
        users: tables.users.len(),
        roles: policy.roles.len(),
        range_transitions: rest.range_transitions,
        role_transitions: rest.role_transitions,
        constraints: count_constraints(&tables.constraints, "constrain"),
        validatetrans: count_constraints(&tables.constraints, "validatetrans"),
        mls_constraints: count_constraints(&tables.constraints, "mlsconstrain"),
        mls_validatetrans: count_constraints(&tables.constraints, "mlsvalidatetrans"),
        defaults: tables.defaults.len(),
        typebounds: count_bounds(&tables.bounds),
        allowxperm: rest.allowxperm,
        auditallowxperm: rest.auditallowxperm,
        dontauditxperm: rest.dontauditxperm,
        ibendportcons: count_labels(rules, LabelKind::Ibendportcon),
        ibpkeycons: count_labels(rules, LabelKind::Ibpkeycon),
        initial_sids: count_labels(rules, LabelKind::InitialSid),
        fs_uses: count_labels(rules, LabelKind::FsUse),
        genfscons: count_labels(rules, LabelKind::Genfscon),
        portcons: count_labels(rules, LabelKind::Portcon),
        netifcons: count_labels(rules, LabelKind::Netifcon),
        nodecons: count_labels(rules, LabelKind::Nodecon),
        devicetreecons: count_labels(rules, LabelKind::Devicetreecon),
        iomemcons: count_labels(rules, LabelKind::Iomemcon),
        ioportcons: count_labels(rules, LabelKind::Ioportcon),
        pcidevicecons: count_labels(rules, LabelKind::Pcidevicecon),
        pirqcons: count_labels(rules, LabelKind::Pirqcon),
    };
    assert(counts == table_counts(*policy, *tables, rules@, *rest));
    policy_statistics(policy, &counts)
}

} // verus!
