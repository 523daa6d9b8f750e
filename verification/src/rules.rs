//! Selecting the type-enforcement rules of a policy that match a query,
//! in rule order.  Rules are named by their position in `te_rules`.
use vstd::prelude::*;
use crate::policy::{Policy, TeRule, TeRuleKind, TeRuleData, expansion, grants, on_class, expand,
    has_permission, class_is};

verus! {

/// The positions below `n` that satisfy `keep`, in increasing order.
pub open spec fn select(n: nat, keep: spec_fn(int) -> bool) -> Seq<usize>
    decreases n,
{
    if n == 0 {
        Seq::empty()
    } else {
        let before = select((n - 1) as nat, keep);
        if keep(n - 1) { before.push((n - 1) as usize) } else { before }
    }
}

/// `select` holds exactly the kept positions below `n`, each once, in
/// increasing order.
pub proof fn lemma_select(n: nat, keep: spec_fn(int) -> bool)
    requires
        n <= usize::MAX + 1,
    ensures
        forall|r: int| 0 <= r < n && #[trigger] keep(r) ==> select(n, keep).contains(r as usize),
        forall|i: int, j: int| 0 <= i < j < select(n, keep).len() ==> select(n, keep)[i] < select(n, keep)[j],
        forall|i: int| 0 <= i < select(n, keep).len() ==> select(n, keep)[i] < n && keep(select(n, keep)[i] as int),
    decreases n,
{
    if n > 0 {
        lemma_select((n - 1) as nat, keep);
        let before = select((n - 1) as nat, keep);
        assert forall|r: int| 0 <= r < n && #[trigger] keep(r) implies select(n, keep).contains(r as usize) by {
            if r < n - 1 {
                let k = choose|k: int| 0 <= k < before.len() && before[k] == r as usize;
                assert(select(n, keep)[k] == r as usize);
            } else {
                assert(select(n, keep).last() == r as usize);
            }
        }
    }
}

/// The `index`th rule of the policy.
pub open spec fn rule_at(policy: Policy, index: int) -> TeRule {
    policy.te_rules@[index]
}

/// The symbol `symbol` stands for the type `t`.
pub open spec fn covers(policy: Policy, symbol: usize, t: usize) -> bool {
    expansion(policy, symbol as int).contains(t)
}

/// Rule `r` is an `allow` rule on the named class that grants the named
/// permission.
pub open spec fn allows(policy: Policy, r: int, class: Seq<char>, permission: Seq<char>) -> bool {
    &&& 0 <= r < policy.te_rules@.len()
    &&& rule_at(policy, r).kind == TeRuleKind::Allow
    &&& on_class(policy, rule_at(policy, r), class)
    &&& grants(policy, rule_at(policy, r), permission)
}

/// Rule `r` is an `allow` rule on `class` granting `permission` from
/// `source` to `target`.
pub open spec fn pair_keep(policy: Policy, class: Seq<char>, permission: Seq<char>, source: usize, target: usize) -> spec_fn(int) -> bool {
    |r: int| allows(policy, r, class, permission)
        && covers(policy, rule_at(policy, r).source, source)
        && covers(policy, rule_at(policy, r).target, target)
}

/// The `allow` rules on `class` granting `permission` from `source` to `target`.
pub open spec fn pair_rules(policy: Policy, class: Seq<char>, permission: Seq<char>, source: usize, target: usize) -> Seq<usize> {
    select(policy.te_rules@.len(), pair_keep(policy, class, permission, source, target))
}

/// Rule `r` is an `allow` rule on `class` granting `permission` to `source`.
pub open spec fn source_keep(policy: Policy, class: Seq<char>, permission: Seq<char>, source: usize) -> spec_fn(int) -> bool {
    |r: int| allows(policy, r, class, permission) && covers(policy, rule_at(policy, r).source, source)
}

/// The `allow` rules on `class` granting `permission` to `source`, whatever
/// their target.
pub open spec fn source_rules(policy: Policy, class: Seq<char>, permission: Seq<char>, source: usize) -> Seq<usize> {
    select(policy.te_rules@.len(), source_keep(policy, class, permission, source))
}

/// Rule `r` is a `type_transition` rule on the named class.
pub open spec fn transitions_on(policy: Policy, r: int, class: Seq<char>) -> bool {
    &&& 0 <= r < policy.te_rules@.len()
    &&& rule_at(policy, r).kind == TeRuleKind::TypeTransition
    &&& on_class(policy, rule_at(policy, r), class)
    &&& rule_at(policy, r).data is DefaultType
}

/// Rule `r` is a `type_transition` rule on `class` from `source` for `object`.
pub open spec fn default_keep(policy: Policy, class: Seq<char>, source: usize, object: usize) -> spec_fn(int) -> bool {
    |r: int| transitions_on(policy, r, class)
        && covers(policy, rule_at(policy, r).source, source)
        && covers(policy, rule_at(policy, r).target, object)
}

/// The `type_transition` rules on `class` from `source` for `object`, whatever
/// their default type.
pub open spec fn default_rules(policy: Policy, class: Seq<char>, source: usize, object: usize) -> Seq<usize> {
    select(policy.te_rules@.len(), default_keep(policy, class, source, object))
}

/// Whether a symbol's expansion contains a type.
pub fn covers_type(policy: &Policy, symbol: usize, t: usize) -> (result: bool)
    ensures
        result == covers(*policy, symbol, t),
{
    let members = expand(policy, symbol);
    let mut index: usize = 0;
    while index < members.len()
        invariant
            members@ == expansion(*policy, symbol as int),
            index <= members.len(),
            forall|k: int| 0 <= k < index ==> members@[k] != t,
        decreases members.len() - index,
    {
        if members[index] == t {
            assert(members@[index as int] == t);
            return true;
        }
        index = index + 1;
    }
    false
}

/// Whether a rule is an `allow` rule on the class granting the permission.
pub fn is_allow(policy: &Policy, r: usize, class: &str, permission: &str) -> (result: bool)
    requires
        r < policy.te_rules@.len(),
    ensures
        result == allows(*policy, r as int, class@, permission@),
{
    let rule = &policy.te_rules[r];
    rule.kind == TeRuleKind::Allow && class_is(policy, rule, class) && has_permission(policy, rule, permission)
}

/// The `allow` rules on `class` granting `permission` from `source`, and to
/// `target` when one is given.
pub fn allow_rules(policy: &Policy, class: &str, permission: &str, source: usize, target: Option<usize>) -> (result: Vec<usize>)
    ensures
        target matches Some(t) ==> result@ == pair_rules(*policy, class@, permission@, source, t),
        target is None ==> result@ == source_rules(*policy, class@, permission@, source),
{
    let mut result: Vec<usize> = Vec::new();
    let mut r: usize = 0;
    while r < policy.te_rules.len()
        invariant
            r <= policy.te_rules@.len(),
            target matches Some(t) ==> result@ == select(r as nat, pair_keep(*policy, class@, permission@, source, t)),
            target is None ==> result@ == select(r as nat, source_keep(*policy, class@, permission@, source)),
        decreases policy.te_rules@.len() - r,
    {
        let rule = &policy.te_rules[r];
        let mut keep = is_allow(policy, r, class, permission) && covers_type(policy, rule.source, source);
        if keep {
            match target {
                Some(t) => {
                    keep = covers_type(policy, rule.target, t);
                },
                None => {},
            }
        }
        if keep {
            result.push(r);
        }
        r = r + 1;
    }
    result
}

/// The `type_transition` rules on `class` from `source` for `object`.
pub fn type_transition_rules(policy: &Policy, class: &str, source: usize, object: usize) -> (result: Vec<usize>)
    ensures
        result@ == default_rules(*policy, class@, source, object),
{
    let mut result: Vec<usize> = Vec::new();
    let mut r: usize = 0;
    while r < policy.te_rules.len()
        invariant
            r <= policy.te_rules@.len(),
            result@ == select(r as nat, default_keep(*policy, class@, source, object)),
        decreases policy.te_rules@.len() - r,
    {
        let rule = &policy.te_rules[r];
        let keep = rule.kind == TeRuleKind::TypeTransition && class_is(policy, rule, class)
            && (match rule.data { TeRuleData::DefaultType(_) => true, TeRuleData::Permissions(_) => false })
            && covers_type(policy, rule.source, source) && covers_type(policy, rule.target, object);
        if keep {
            result.push(r);
        }
        r = r + 1;
    }
    result
}

} // verus!
