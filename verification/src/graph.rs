//! Domain-transition analysis: which domains can enter which, through which
//! rules and entrypoint executables.
//!
//! A standard transition from `s` to `t` needs `allow s t:process transition`,
//! an executable `e` with `allow s e:file execute` and `allow t e:file
//! entrypoint`, and either `allow s self:process setexec` or a
//! `type_transition s e:process t` rule.  A dynamic transition needs
//! `allow s t:process dyntransition` and `allow s self:process setcurrent`.
use vstd::prelude::*;
use crate::policy::{Policy, TeRuleData, well_formed, expansion, expand};
use crate::rules::{select, lemma_select, rule_at, covers, allows, pair_rules, pair_keep, source_rules,
    default_rules, default_keep, covers_type, is_allow, allow_rules, type_transition_rules};
use crate::text::{text_lt, text_less, chars_of, lemma_text_lt_transitive, lemma_text_lt_total,
    lemma_text_lt_irreflexive};
use crate::pairs::{product, extend_new, push_product, lemma_extend_concat, lemma_extend_members};

verus! {

/// The name of a type or attribute; empty for a number with no symbol.
pub open spec fn name_of(policy: Policy, symbol: usize) -> Seq<char> {
    if symbol < policy.types@.len() { policy.types@[symbol as int].name@ } else { Seq::empty() }
}

/// Types ordered by name.
pub open spec fn name_order(policy: Policy) -> spec_fn(usize, usize) -> bool {
    |a: usize, b: usize| text_lt(name_of(policy, a), name_of(policy, b))
}

/// Rules ordered by source name, then target name, then position.
pub open spec fn rule_order(policy: Policy) -> spec_fn(usize, usize) -> bool {
    |a: usize, b: usize| {
        let sa = name_of(policy, rule_at(policy, a as int).source);
        let sb = name_of(policy, rule_at(policy, b as int).source);
        let ta = name_of(policy, rule_at(policy, a as int).target);
        let tb = name_of(policy, rule_at(policy, b as int).target);
        text_lt(sa, sb) || (sa == sb && (text_lt(ta, tb) || (ta == tb && a < b)))
    }
}

/// Each item comes strictly before every later one.
pub open spec fn sorted_by(items: Seq<usize>, before: spec_fn(usize, usize) -> bool) -> bool {
    forall|i: int, j: int| 0 <= i < j < items.len() ==> before(items[i], items[j])
}

/// The rule order is transitive.
proof fn lemma_rule_order_transitive(policy: Policy, a: usize, b: usize, c: usize)
    requires
        rule_order(policy)(a, b),
        rule_order(policy)(b, c),
    ensures
        rule_order(policy)(a, c),
{
    let sa = name_of(policy, rule_at(policy, a as int).source);
    let sb = name_of(policy, rule_at(policy, b as int).source);
    let sc = name_of(policy, rule_at(policy, c as int).source);
    let ta = name_of(policy, rule_at(policy, a as int).target);
    let tb = name_of(policy, rule_at(policy, b as int).target);
    let tc = name_of(policy, rule_at(policy, c as int).target);
    if text_lt(sa, sb) && text_lt(sb, sc) {
        lemma_text_lt_transitive(sa, sb, sc);
    }
    if sa == sb && sb == sc && text_lt(ta, tb) && text_lt(tb, tc) {
        lemma_text_lt_transitive(ta, tb, tc);
    }
}

/// Distinct rules are ordered one way or the other.
proof fn lemma_rule_order_total(policy: Policy, a: usize, b: usize)
    requires
        a != b,
    ensures
        rule_order(policy)(a, b) || rule_order(policy)(b, a),
{
    lemma_text_lt_total(name_of(policy, rule_at(policy, a as int).source), name_of(policy, rule_at(policy, b as int).source));
    lemma_text_lt_total(name_of(policy, rule_at(policy, a as int).target), name_of(policy, rule_at(policy, b as int).target));
}

/// A rule does not come before itself.
proof fn lemma_rule_order_irreflexive(policy: Policy, a: usize)
    ensures
        !rule_order(policy)(a, a),
{
    lemma_text_lt_irreflexive(name_of(policy, rule_at(policy, a as int).source));
    lemma_text_lt_irreflexive(name_of(policy, rule_at(policy, a as int).target));
}

/// The name of a type or attribute, as characters.
fn symbol_name(policy: &Policy, symbol: usize) -> (result: Vec<char>)
    ensures
        result@ == name_of(*policy, symbol),
{
    if symbol < policy.types.len() {
        chars_of(policy.types[symbol].name.as_str())
    } else {
        Vec::new()
    }
}

/// Whether rule `a` comes before rule `b`.
fn rule_less(policy: &Policy, a: usize, b: usize) -> (result: bool)
    requires
        a < policy.te_rules@.len(),
        b < policy.te_rules@.len(),
    ensures
        result == rule_order(*policy)(a, b),
{
    let sa = symbol_name(policy, policy.te_rules[a].source);
    let sb = symbol_name(policy, policy.te_rules[b].source);
    if text_less(&sa, &sb) {
        return true;
    }
    if text_less(&sb, &sa) {
        proof {
            lemma_text_lt_irreflexive(sa@);
        }
        return false;
    }
    proof {
        lemma_text_lt_total(sa@, sb@);
    }
    let ta = symbol_name(policy, policy.te_rules[a].target);
    let tb = symbol_name(policy, policy.te_rules[b].target);
    if text_less(&ta, &tb) {
        return true;
    }
    if text_less(&tb, &ta) {
        proof {
            lemma_text_lt_irreflexive(ta@);
        }
        return false;
    }
    proof {
        lemma_text_lt_total(ta@, tb@);
    }
    a < b
}

/// Inserts a rule into a list sorted by the rule order.
fn insert_rule(policy: &Policy, sorted: &mut Vec<usize>, r: usize)
    requires
        r < policy.te_rules@.len(),
        forall|i: int| 0 <= i < old(sorted)@.len() ==> #[trigger] old(sorted)@[i] < policy.te_rules@.len(),
        sorted_by(old(sorted)@, rule_order(*policy)),
        !old(sorted)@.contains(r),
    ensures
        forall|i: int| 0 <= i < final(sorted)@.len() ==> #[trigger] final(sorted)@[i] < policy.te_rules@.len(),
        sorted_by(final(sorted)@, rule_order(*policy)),
        final(sorted)@.to_set() == old(sorted)@.to_set().insert(r),
{
    let ghost before = sorted@;
    let mut k: usize = 0;
    let mut searching = true;
    while searching && k < sorted.len()
        invariant
            sorted@ == before,
            !before.contains(r),
            k <= sorted.len(),
            r < policy.te_rules@.len(),
            forall|i: int| 0 <= i < sorted@.len() ==> #[trigger] sorted@[i] < policy.te_rules@.len(),
            forall|i: int| 0 <= i < k ==> rule_order(*policy)(#[trigger] sorted@[i], r),
            !searching ==> k < sorted.len() && rule_order(*policy)(r, sorted@[k as int]),
        decreases sorted.len() - k + if searching { 1int } else { 0int },
    {
        if rule_less(policy, r, sorted[k]) {
            searching = false;
        } else {
            proof {
                assert(sorted@[k as int] != r) by {
                    if sorted@[k as int] == r {
                        assert(before.contains(r));
                    }
                }
                lemma_rule_order_total(*policy, r, sorted@[k as int]);
            }
            k = k + 1;
        }
    }
    sorted.insert(k, r);
    proof {
        let after = sorted@;
        assert(after =~= before.insert(k as int, r));
        assert forall|i: int, j: int| 0 <= i < j < after.len() implies rule_order(*policy)(after[i], after[j]) by {
            if j == k {
                assert(after[i] == before[i]);
            } else if i == k {
                assert(after[j] == before[j - 1]);
                if j - 1 > k {
                    lemma_rule_order_transitive(*policy, r, before[k as int], before[j - 1]);
                }
            } else if i < k && j > k {
                assert(after[i] == before[i]);
                assert(after[j] == before[j - 1]);
            } else if i > k {
                assert(after[i] == before[i - 1]);
                assert(after[j] == before[j - 1]);
            }
        }
        assert forall|x: usize| after.to_set().contains(x) <==> before.to_set().insert(r).contains(x) by {
            if after.to_set().contains(x) {
                let i = choose|i: int| 0 <= i < after.len() && after[i] == x;
                if i < k {
                    assert(before[i] == x);
                } else if i > k {
                    assert(before[i - 1] == x);
                }
            }
            if before.to_set().contains(x) {
                let i = choose|i: int| 0 <= i < before.len() && before[i] == x;
                if i < k {
                    assert(after[i] == x);
                } else {
                    assert(after[i + 1] == x);
                }
            }
            if x == r {
                assert(after[k as int] == x);
            }
        }
        assert(after.to_set() =~= before.to_set().insert(r));
        assert forall|i: int| 0 <= i < after.len() implies #[trigger] after[i] < policy.te_rules@.len() by {
            if i < k {
                assert(after[i] == before[i]);
            } else if i > k {
                assert(after[i] == before[i - 1]);
            }
        }
    }
}

/// The `allow` rules on `process` granting `transition` from `s` to `t`.
pub open spec fn transition_rules_of(policy: Policy, s: usize, t: usize) -> Seq<usize> {
    pair_rules(policy, "process"@, "transition"@, s, t)
}

/// The `allow` rules on `process` granting `dyntransition` from `s` to `t`.
pub open spec fn dyntransition_rules_of(policy: Policy, s: usize, t: usize) -> Seq<usize> {
    pair_rules(policy, "process"@, "dyntransition"@, s, t)
}

/// The `allow` rules on `process` granting `setexec` to `s`.
pub open spec fn setexec_rules_of(policy: Policy, s: usize) -> Seq<usize> {
    source_rules(policy, "process"@, "setexec"@, s)
}

/// The `allow` rules on `process` granting `setcurrent` to `s`.
pub open spec fn setcurrent_rules_of(policy: Policy, s: usize) -> Seq<usize> {
    source_rules(policy, "process"@, "setcurrent"@, s)
}

/// The `allow` rules on `file` granting `execute` from `s` to `e`.
pub open spec fn execute_rules_of(policy: Policy, s: usize, e: usize) -> Seq<usize> {
    pair_rules(policy, "file"@, "execute"@, s, e)
}

/// The `allow` rules on `file` granting `entrypoint` from `t` to `e`.
pub open spec fn entrypoint_rules_of(policy: Policy, t: usize, e: usize) -> Seq<usize> {
    pair_rules(policy, "file"@, "entrypoint"@, t, e)
}

/// The `type_transition` rules on `process` from `s` for executable `e`.
pub open spec fn automatic_rules_of(policy: Policy, s: usize, e: usize) -> Seq<usize> {
    default_rules(policy, "process"@, s, e)
}

/// The default type of a `type_transition` rule.
pub open spec fn default_of(policy: Policy, r: usize) -> usize {
    match rule_at(policy, r as int).data {
        TeRuleData::DefaultType(d) => d,
        TeRuleData::Permissions(_) => 0,
    }
}

/// Rule `r` makes executing `e` from `s` enter `t` automatically.
pub open spec fn typed_transition(policy: Policy, s: usize, e: usize, t: usize, r: usize) -> bool {
    automatic_rules_of(policy, s, e).contains(r) && default_of(policy, r) == t
}

/// Executable `e` is an entrypoint of the transition from `s` to `t`.
pub open spec fn qualifies(policy: Policy, s: usize, t: usize, e: usize) -> bool {
    &&& execute_rules_of(policy, s, e).len() > 0
    &&& entrypoint_rules_of(policy, t, e).len() > 0
    &&& (setexec_rules_of(policy, s).len() > 0 || automatic_rules_of(policy, s, e).len() > 0)
}

/// The standard transition from `s` to `t` is complete.
pub open spec fn standard_valid(policy: Policy, s: usize, t: usize) -> bool {
    &&& transition_rules_of(policy, s, t).len() > 0
    &&& exists|e: usize| #[trigger] execute_rules_of(policy, s, e).len() > 0
    &&& exists|e: usize| #[trigger] entrypoint_rules_of(policy, t, e).len() > 0
    &&& (setexec_rules_of(policy, s).len() > 0
        || exists|e: usize, r: usize| qualifies(policy, s, t, e) && #[trigger] typed_transition(policy, s, e, t, r))
}

/// The dynamic transition from `s` to `t` is complete.
pub open spec fn dynamic_valid(policy: Policy, s: usize, t: usize) -> bool {
    dyntransition_rules_of(policy, s, t).len() > 0 && setcurrent_rules_of(policy, s).len() > 0
}

/// An entrypoint as plain values.
pub struct EntryView {
    /// The executable type.
    pub name: usize,
    /// The target domain's `entrypoint` rules.
    pub entrypoint: Seq<usize>,
    /// The source domain's `execute` rules.
    pub execute: Seq<usize>,
    /// The `type_transition` rules into the target domain.
    pub type_transition: Seq<usize>,
}

/// The rules which make one executable type a domain entrypoint.
#[derive(Debug)]
pub struct DomainEntrypoint {
    name: usize,
    entrypoint: Vec<usize>,
    execute: Vec<usize>,
    type_transition: Vec<usize>,
}

impl View for DomainEntrypoint {
    type V = EntryView;

    closed spec fn view(&self) -> EntryView {
        EntryView {
            name: self.name,
            entrypoint: self.entrypoint@,
            execute: self.execute@,
            type_transition: self.type_transition@,
        }
    }
}

impl DomainEntrypoint {
    /// Returns the executable type.
    pub fn name(&self) -> (result: usize)
        ensures
            result == self@.name,
    {
        self.name
    }

    /// Returns the target domain's `entrypoint` rules.
    pub fn entrypoint_rules(&self) -> (result: &Vec<usize>)
        ensures
            result@ == self@.entrypoint,
    {
        &self.entrypoint
    }

    /// Returns the source domain's `execute` rules.
    pub fn execute_rules(&self) -> (result: &Vec<usize>)
        ensures
            result@ == self@.execute,
    {
        &self.execute
    }

    /// Returns the `type_transition` rules into the target domain.
    pub fn type_transition_rules(&self) -> (result: &Vec<usize>)
        ensures
            result@ == self@.type_transition,
    {
        &self.type_transition
    }
}

/// The entry for executable `e` of the transition from `s` to `t` lists
/// exactly its rules, the `type_transition` rules in rule order.
pub open spec fn entry_ok(policy: Policy, s: usize, t: usize, v: EntryView) -> bool {
    &&& v.entrypoint == entrypoint_rules_of(policy, t, v.name)
    &&& v.execute == execute_rules_of(policy, s, v.name)
    &&& sorted_by(v.type_transition, rule_order(policy))
    &&& forall|r: usize| v.type_transition.contains(r) <==> typed_transition(policy, s, v.name, t, r)
}

/// The `type_transition` rules making executable `e` enter `t` from `s`,
/// in rule order.
fn typed_transitions(policy: &Policy, s: usize, e: usize, t: usize) -> (result: Vec<usize>)
    ensures
        sorted_by(result@, rule_order(*policy)),
        forall|r: usize| result@.contains(r) <==> typed_transition(*policy, s, e, t, r),
{
    let automatic = type_transition_rules(policy, "process", s, e);
    let count = policy.te_rules.len();
    proof {
        lemma_select(count as nat, default_keep(*policy, "process"@, s, e));
    }
    let mut result: Vec<usize> = Vec::new();
    let mut index: usize = 0;
    while index < automatic.len()
        invariant
            automatic@ == automatic_rules_of(*policy, s, e),
            index <= automatic.len(),
            forall|i: int, j: int| 0 <= i < j < automatic@.len() ==> automatic@[i] < automatic@[j],
            forall|i: int| 0 <= i < automatic@.len() ==> #[trigger] automatic@[i] < policy.te_rules@.len(),
            forall|i: int| 0 <= i < automatic@.len() ==> #[trigger] default_keep(*policy, "process"@, s, e)(automatic@[i] as int),
            forall|i: int| 0 <= i < result@.len() ==> #[trigger] result@[i] < policy.te_rules@.len(),
            sorted_by(result@, rule_order(*policy)),
            forall|r: usize| #[trigger] result@.contains(r) <==> (automatic@.take(index as int).contains(r) && default_of(*policy, r) == t),
        decreases automatic.len() - index,
    {
        let r = automatic[index];
        let ghost prior = automatic@.take(index as int);
        let keep = match &policy.te_rules[r].data {
            TeRuleData::DefaultType(d) => *d == t,
            TeRuleData::Permissions(_) => false,
        };
        proof {
            assert(!prior.contains(r)) by {
                if prior.contains(r) {
                    let i = choose|i: int| 0 <= i < prior.len() && prior[i] == r;
                    assert(automatic@[i] == r);
                }
            }
        }
        let ghost before = result@;
        proof {
            assert(default_keep(*policy, "process"@, s, e)(automatic@[index as int] as int));
            assert(rule_at(*policy, r as int).data is DefaultType);
            assert(keep == (default_of(*policy, r) == t));
            if result@.contains(r) {
                assert(prior.contains(r));
            }
        }
        if keep {
            insert_rule(policy, &mut result, r);
        }
        proof {
            let next = automatic@.take(index + 1);
            assert(next =~= prior.push(r));
            assert forall|x: usize| result@.contains(x) <==> (next.contains(x) && default_of(*policy, x) == t) by {
                assert(next.contains(x) <==> (prior.contains(x) || x == r)) by {
                    if next.contains(x) {
                        let i = choose|i: int| 0 <= i < next.len() && next[i] == x;
                        if i < index {
                            assert(prior[i] == x);
                        }
                    }
                    if prior.contains(x) {
                        let i = choose|i: int| 0 <= i < prior.len() && prior[i] == x;
                        assert(next[i] == x);
                    }
                    if x == r {
                        assert(next[index as int] == x);
                    }
                }
                assert(before.contains(x) <==> (prior.contains(x) && default_of(*policy, x) == t));
                if keep {
                    assert(result@.to_set().contains(x) == before.to_set().insert(r).contains(x));
                    assert(result@.contains(x) == result@.to_set().contains(x));
                    assert(before.contains(x) == before.to_set().contains(x));
                } else {
                    assert(result@ == before);
                }
            }
        }
        index = index + 1;
    }
    assert(automatic@.take(automatic.len() as int) =~= automatic@);
    assert forall|r: usize| result@.contains(r) <==> typed_transition(*policy, s, e, t, r) by {
        assert(result@.contains(r) <==> (automatic@.take(automatic.len() as int).contains(r) && default_of(*policy, r) == t));
    }
    result
}

/// The types `e` related to `source` by an `allow` rule on `class` granting
/// `permission`, each once.
fn rule_targets(policy: &Policy, class: &str, permission: &str, source: usize) -> (result: Vec<usize>)
    ensures
        result@.no_duplicates(),
        forall|e: usize| #[trigger] result@.contains(e) <==> pair_rules(*policy, class@, permission@, source, e).len() > 0,
{
    let count = policy.te_rules.len();
    let mut result: Vec<usize> = Vec::new();
    let mut r: usize = 0;
    while r < count
        invariant
            count == policy.te_rules@.len(),
            r <= count,
            result@.no_duplicates(),
            forall|e: usize| #[trigger] result@.contains(e) <==> exists|k: int| 0 <= k < r && #[trigger] pair_keep(*policy, class@, permission@, source, e)(k),
        decreases count - r,
    {
        let rule = &policy.te_rules[r];
        if is_allow(policy, r, class, permission) && covers_type(policy, rule.source, source) {
            let members = expand(policy, rule.target);
            let ghost start = result@;
            let mut index: usize = 0;
            while index < members.len()
                invariant
                    members@ == expansion(*policy, rule.target as int),
                    index <= members.len(),
                    r < count,
                    count == policy.te_rules@.len(),
                    *rule == policy.te_rules@[r as int],
                    allows(*policy, r as int, class@, permission@),
                    covers(*policy, rule.source, source),
                    result@.no_duplicates(),
                    forall|e: usize| #[trigger] result@.contains(e) <==> (start.contains(e) || members@.take(index as int).contains(e)),
                    forall|e: usize| #[trigger] start.contains(e) <==> exists|k: int| 0 <= k < r && #[trigger] pair_keep(*policy, class@, permission@, source, e)(k),
                decreases members.len() - index,
            {
                let m = members[index];
                let ghost before = result@;
                let ghost next = members@.take(index + 1);
                assert(next =~= members@.take(index as int).push(m));
                if !crate::pairs::contains_type(&result, m) {
                    result.push(m);
                }
                proof {
                    assert forall|e: usize| #[trigger] result@.contains(e) <==> (start.contains(e) || next.contains(e)) by {
                        assert(next.contains(e) <==> (members@.take(index as int).contains(e) || e == m)) by {
                            if next.contains(e) {
                                let i = choose|i: int| 0 <= i < next.len() && next[i] == e;
                                if i < index {
                                    assert(members@.take(index as int)[i] == e);
                                }
                            }
                            if members@.take(index as int).contains(e) {
                                let i = choose|i: int| 0 <= i < index && members@.take(index as int)[i] == e;
                                assert(next[i] == e);
                            }
                            if e == m {
                                assert(next[index as int] == e);
                            }
                        }
                        if result@.contains(e) && !before.contains(e) {
                            let i = choose|i: int| 0 <= i < result@.len() && result@[i] == e;
                            if i < before.len() {
                                assert(before[i] == e);
                            }
                        }
                        if before.contains(e) {
                            let i = choose|i: int| 0 <= i < before.len() && before[i] == e;
                            assert(result@[i] == e);
                        }
                        if e == m && !before.contains(e) {
                            assert(result@[before.len() as int] == e);
                        }
                    }
                    assert forall|i: int, j: int| 0 <= i < j < result@.len() implies result@[i] != result@[j] by {
                        if j >= before.len() {
                            assert(!before.contains(m));
                            assert(result@[i] == before[i]);
                        }
                    }
                }
                index = index + 1;
            }
            proof {
                assert(members@.take(members.len() as int) =~= members@);
                assert forall|e: usize| #[trigger] result@.contains(e) <==> exists|k: int| 0 <= k < r + 1 && #[trigger] pair_keep(*policy, class@, permission@, source, e)(k) by {
                    if result@.contains(e) && !start.contains(e) {
                        assert(members@.contains(e));
                        assert(covers(*policy, rule.target, e));
                        assert(pair_keep(*policy, class@, permission@, source, e)(r as int));
                    }
                    if exists|k: int| 0 <= k < r + 1 && #[trigger] pair_keep(*policy, class@, permission@, source, e)(k) {
                        let k = choose|k: int| 0 <= k < r + 1 && #[trigger] pair_keep(*policy, class@, permission@, source, e)(k);
                        if k == r {
                            assert(covers(*policy, policy.te_rules@[r as int].target, e));
                            assert(members@.contains(e));
                        } else {
                            assert(start.contains(e));
                        }
                    }
                }
            }
        } else {
            proof {
                assert forall|e: usize| #[trigger] result@.contains(e) <==> exists|k: int| 0 <= k < r + 1 && #[trigger] pair_keep(*policy, class@, permission@, source, e)(k) by {
                    if exists|k: int| 0 <= k < r + 1 && #[trigger] pair_keep(*policy, class@, permission@, source, e)(k) {
                        let k = choose|k: int| 0 <= k < r + 1 && #[trigger] pair_keep(*policy, class@, permission@, source, e)(k);
                        if k == r {
                            assert(covers(*policy, policy.te_rules@[r as int].source, source));
                        }
                    }
                }
            }
        }
        r = r + 1;
    }
    proof {
        assert forall|e: usize| #[trigger] result@.contains(e) <==> pair_rules(*policy, class@, permission@, source, e).len() > 0 by {
            lemma_select(count as nat, pair_keep(*policy, class@, permission@, source, e));
            let selected = pair_rules(*policy, class@, permission@, source, e);
            if result@.contains(e) {
                let k = choose|k: int| 0 <= k < count && #[trigger] pair_keep(*policy, class@, permission@, source, e)(k);
                assert(selected.contains(k as usize));
            }
            if selected.len() > 0 {
                assert(pair_keep(*policy, class@, permission@, source, e)(selected[0] as int));
            }
        }
    }
    result
}

/// The executables named by a list of entries.
pub open spec fn entry_names(entries: Seq<EntryView>) -> Seq<usize> {
    entries.map_values(|v: EntryView| v.name)
}

/// The plain values of a list of entries.
pub open spec fn entry_views(entries: Seq<DomainEntrypoint>) -> Seq<EntryView> {
    entries.map_values(|v: DomainEntrypoint| v@)
}

/// Distinct types of a well-formed policy have distinct names.
proof fn lemma_name_order_total(policy: Policy, a: usize, b: usize)
    requires
        well_formed(policy),
        a < policy.types@.len(),
        b < policy.types@.len(),
        a != b,
    ensures
        name_order(policy)(a, b) || name_order(policy)(b, a),
{
    lemma_text_lt_total(name_of(policy, a), name_of(policy, b));
}

/// Inserts an entry into a list sorted by executable name.
fn insert_entry(policy: &Policy, entries: &mut Vec<DomainEntrypoint>, entry: DomainEntrypoint)
    requires
        well_formed(*policy),
        entry@.name < policy.types@.len(),
        forall|i: int| 0 <= i < old(entries)@.len() ==> #[trigger] old(entries)@[i]@.name < policy.types@.len(),
        sorted_by(entry_names(entry_views(old(entries)@)), name_order(*policy)),
        !entry_names(entry_views(old(entries)@)).contains(entry@.name),
    ensures
        forall|i: int| 0 <= i < final(entries)@.len() ==> #[trigger] final(entries)@[i]@.name < policy.types@.len(),
        sorted_by(entry_names(entry_views(final(entries)@)), name_order(*policy)),
        entry_views(final(entries)@).to_set() == entry_views(old(entries)@).to_set().insert(entry@),
        entry_names(entry_views(final(entries)@)).to_set() == entry_names(entry_views(old(entries)@)).to_set().insert(entry@.name),
{
    let ghost before = entry_views(entries@);
    let ghost names = entry_names(before);
    let key = symbol_name(policy, entry.name);
    let mut k: usize = 0;
    let mut searching = true;
    while searching && k < entries.len()
        invariant
            entry_views(entries@) == before,
            names == entry_names(before),
            !names.contains(entry@.name),
            key@ == name_of(*policy, entry@.name),
            well_formed(*policy),
            entry@.name < policy.types@.len(),
            forall|i: int| 0 <= i < entries@.len() ==> #[trigger] entries@[i]@.name < policy.types@.len(),
            k <= entries.len(),
            forall|i: int| 0 <= i < k ==> name_order(*policy)(#[trigger] names[i], entry@.name),
            !searching ==> k < entries.len() && name_order(*policy)(entry@.name, names[k as int]),
        decreases entries.len() - k + if searching { 1int } else { 0int },
    {
        let current = symbol_name(policy, entries[k].name);
        assert(names[k as int] == entries@[k as int]@.name);
        if text_less(&key, &current) {
            searching = false;
        } else {
            proof {
                assert(names[k as int] != entry@.name) by {
                    if names[k as int] == entry@.name {
                        assert(names.contains(entry@.name));
                    }
                }
                lemma_name_order_total(*policy, entry@.name, names[k as int]);
            }
            k = k + 1;
        }
    }
    let ghost added = entry@;
    entries.insert(k, entry);
    proof {
        let after = entry_views(entries@);
        assert(after =~= before.insert(k as int, added));
        let after_names = entry_names(after);
        assert(after_names =~= names.insert(k as int, added.name));
        assert forall|i: int, j: int| 0 <= i < j < after_names.len() implies name_order(*policy)(after_names[i], after_names[j]) by {
            if j == k {
                assert(after_names[i] == names[i]);
            } else if i == k {
                assert(after_names[j] == names[j - 1]);
                if j - 1 > k {
                    lemma_text_lt_transitive(name_of(*policy, added.name), name_of(*policy, names[k as int]), name_of(*policy, names[j - 1]));
                }
            } else if i < k && j > k {
                assert(after_names[i] == names[i]);
                assert(after_names[j] == names[j - 1]);
            } else if i > k {
                assert(after_names[i] == names[i - 1]);
                assert(after_names[j] == names[j - 1]);
            }
        }
        assert forall|x: EntryView| after.to_set().contains(x) <==> before.to_set().insert(added).contains(x) by {
            if after.to_set().contains(x) {
                let i = choose|i: int| 0 <= i < after.len() && after[i] == x;
                if i < k {
                    assert(before[i] == x);
                } else if i > k {
                    assert(before[i - 1] == x);
                }
            }
            if before.to_set().contains(x) {
                let i = choose|i: int| 0 <= i < before.len() && before[i] == x;
                if i < k {
                    assert(after[i] == x);
                } else {
                    assert(after[i + 1] == x);
                }
            }
            if x == added {
                assert(after[k as int] == x);
            }
        }
        assert(after.to_set() =~= before.to_set().insert(added));
        assert forall|x: usize| after_names.to_set().contains(x) <==> names.to_set().insert(added.name).contains(x) by {
            if after_names.to_set().contains(x) {
                let i = choose|i: int| 0 <= i < after_names.len() && after_names[i] == x;
                if i < k {
                    assert(names[i] == x);
                } else if i > k {
                    assert(names[i - 1] == x);
                }
            }
            if names.to_set().contains(x) {
                let i = choose|i: int| 0 <= i < names.len() && names[i] == x;
                if i < k {
                    assert(after_names[i] == x);
                } else {
                    assert(after_names[i + 1] == x);
                }
            }
            if x == added.name {
                assert(after_names[k as int] == x);
            }
        }
        assert(after_names.to_set() =~= names.to_set().insert(added.name));
        assert forall|i: int| 0 <= i < entries@.len() implies #[trigger] entries@[i]@.name < policy.types@.len() by {
            assert(entries@[i]@ == after[i]);
            if i < k {
                assert(after[i] == before[i]);
            } else if i > k {
                assert(after[i] == before[i - 1]);
            }
        }
    }
}

/// The entries of the transition from `s` to `t`: one for each qualifying
/// executable, in name order, each listing exactly its rules.
pub open spec fn entries_ok(policy: Policy, s: usize, t: usize, entries: Seq<EntryView>) -> bool {
    &&& sorted_by(entry_names(entries), name_order(policy))
    &&& forall|e: usize| #[trigger] entry_names(entries).contains(e) <==> qualifies(policy, s, t, e)
    &&& forall|i: int| 0 <= i < entries.len() ==> entry_ok(policy, s, t, #[trigger] entries[i])
}

/// A transition as plain values.
pub struct TransitionView {
    /// The source domain.
    pub source: usize,
    /// The target domain.
    pub target: usize,
    /// The `transition` rules of a complete standard transition.
    pub transition: Seq<usize>,
    /// The entrypoints of a complete standard transition.
    pub entrypoints: Seq<EntryView>,
    /// The `setexec` rules of a complete standard transition.
    pub setexec: Seq<usize>,
    /// The `dyntransition` rules of a complete dynamic transition.
    pub dyntransition: Seq<usize>,
    /// The `setcurrent` rules of a complete dynamic transition.
    pub setcurrent: Seq<usize>,
}

/// The transition from `v.source` to `v.target` holds the rules of each
/// kind of transition that is complete, and none of a kind that is not.
pub open spec fn transition_ok(policy: Policy, v: TransitionView) -> bool {
    let s = v.source;
    let t = v.target;
    let standard = standard_valid(policy, s, t);
    let dynamic = dynamic_valid(policy, s, t);
    &&& v.transition == (if standard { transition_rules_of(policy, s, t) } else { Seq::empty() })
    &&& v.setexec == (if standard { setexec_rules_of(policy, s) } else { Seq::empty() })
    &&& v.dyntransition == (if dynamic { dyntransition_rules_of(policy, s, t) } else { Seq::empty() })
    &&& v.setcurrent == (if dynamic { setcurrent_rules_of(policy, s) } else { Seq::empty() })
    &&& standard ==> entries_ok(policy, s, t, v.entrypoints)
    &&& !standard ==> v.entrypoints.len() == 0
}

/// One standard and/or dynamic domain transition.
#[derive(Debug)]
pub struct DomainTransition {
    source: usize,
    target: usize,
    transition: Vec<usize>,
    entrypoints: Vec<DomainEntrypoint>,
    setexec: Vec<usize>,
    dyntransition: Vec<usize>,
    setcurrent: Vec<usize>,
}

impl View for DomainTransition {
    type V = TransitionView;

    closed spec fn view(&self) -> TransitionView {
        TransitionView {
            source: self.source,
            target: self.target,
            transition: self.transition@,
            entrypoints: entry_views(self.entrypoints@),
            setexec: self.setexec@,
            dyntransition: self.dyntransition@,
            setcurrent: self.setcurrent@,
        }
    }
}

impl DomainTransition {
    /// Returns the source domain.
    pub fn source(&self) -> (result: usize)
        ensures
            result == self@.source,
    {
        self.source
    }

    /// Returns the target domain.
    pub fn target(&self) -> (result: usize)
        ensures
            result == self@.target,
    {
        self.target
    }

    /// Returns the `process transition` rules.
    pub fn transition_rules(&self) -> (result: &Vec<usize>)
        ensures
            result@ == self@.transition,
    {
        &self.transition
    }

    /// Returns the entrypoints in executable-name order.
    pub fn entrypoints(&self) -> (result: &Vec<DomainEntrypoint>)
        ensures
            entry_views(result@) == self@.entrypoints,
    {
        &self.entrypoints
    }

    /// Returns the source domain's `setexec` rules.
    pub fn setexec_rules(&self) -> (result: &Vec<usize>)
        ensures
            result@ == self@.setexec,
    {
        &self.setexec
    }

    /// Returns the `process dyntransition` rules.
    pub fn dyntransition_rules(&self) -> (result: &Vec<usize>)
        ensures
            result@ == self@.dyntransition,
    {
        &self.dyntransition
    }

    /// Returns the source domain's `setcurrent` rules.
    pub fn setcurrent_rules(&self) -> (result: &Vec<usize>)
        ensures
            result@ == self@.setcurrent,
    {
        &self.setcurrent
    }
}

/// In a well-formed policy every type a symbol stands for is a type of the
/// policy.
proof fn lemma_covered_in_range(policy: Policy, symbol: usize, t: usize)
    requires
        well_formed(policy),
        covers(policy, symbol, t),
    ensures
        t < policy.types@.len(),
{
    let members = expansion(policy, symbol as int);
    let k = choose|k: int| 0 <= k < members.len() && members[k] == t;
    if 0 <= symbol < policy.types@.len() && policy.types@[symbol as int].attribute {
        assert(policy.types@[symbol as int].members@[k] == t);
    }
}

/// A type related to another by some `allow` rule is a type of the policy.
proof fn lemma_related_in_range(policy: Policy, class: Seq<char>, permission: Seq<char>, s: usize, e: usize)
    requires
        well_formed(policy),
        policy.te_rules@.len() <= usize::MAX,
        pair_rules(policy, class, permission, s, e).len() > 0,
    ensures
        e < policy.types@.len(),
{
    lemma_select(policy.te_rules@.len(), pair_keep(policy, class, permission, s, e));
    let r = pair_rules(policy, class, permission, s, e)[0];
    assert(pair_keep(policy, class, permission, s, e)(r as int));
    lemma_covered_in_range(policy, rule_at(policy, r as int).target, e);
}

/// Builds the transition from `s` to `t`.
fn build_transition(policy: &Policy, s: usize, t: usize) -> (result: DomainTransition)
    requires
        well_formed(*policy),
    ensures
        result@.source == s,
        result@.target == t,
        transition_ok(*policy, result@),
{
    let transition = allow_rules(policy, "process", "transition", s, Some(t));
    let dyntransition = allow_rules(policy, "process", "dyntransition", s, Some(t));
    let setexec = allow_rules(policy, "process", "setexec", s, None);
    let setcurrent = allow_rules(policy, "process", "setcurrent", s, None);
    let executables = rule_targets(policy, "file", "execute", s);
    let entered = rule_targets(policy, "file", "entrypoint", t);
    let mut entries: Vec<DomainEntrypoint> = Vec::new();
    let mut standard = false;
    let count = policy.te_rules.len();
    if transition.len() > 0 && executables.len() > 0 && entered.len() > 0 {
        let mut typed = false;
        let mut index: usize = 0;
        proof {
            assert(entry_views(entries@) =~= Seq::<EntryView>::empty());
            assert(entry_names(entry_views(entries@)) =~= Seq::<usize>::empty());
        }
        while index < executables.len()
            invariant
                well_formed(*policy),
                count == policy.te_rules@.len(),
                setexec@ == setexec_rules_of(*policy, s),
                executables@.no_duplicates(),
                forall|e: usize| #[trigger] executables@.contains(e) <==> execute_rules_of(*policy, s, e).len() > 0,
                index <= executables.len(),
                forall|i: int| 0 <= i < entries@.len() ==> #[trigger] entries@[i]@.name < policy.types@.len(),
                sorted_by(entry_names(entry_views(entries@)), name_order(*policy)),
                forall|e: usize| #[trigger] entry_names(entry_views(entries@)).contains(e)
                    <==> (executables@.take(index as int).contains(e) && qualifies(*policy, s, t, e)),
                forall|i: int| 0 <= i < entries@.len() ==> entry_ok(*policy, s, t, #[trigger] entry_views(entries@)[i]),
                typed <==> exists|e: usize, r: usize| #[trigger] entry_names(entry_views(entries@)).contains(e)
                    && #[trigger] typed_transition(*policy, s, e, t, r),
            decreases executables.len() - index,
        {
            let e = executables[index];
            let ghost prior = executables@.take(index as int);
            let ghost next = executables@.take(index + 1);
            proof {
                assert(next =~= prior.push(e));
                assert(executables@.contains(e));
                lemma_related_in_range(*policy, "file"@, "execute"@, s, e);
                assert(!prior.contains(e)) by {
                    if prior.contains(e) {
                        let i = choose|i: int| 0 <= i < prior.len() && prior[i] == e;
                        assert(executables@[i] == e);
                    }
                }
            }
            let entrypoint = allow_rules(policy, "file", "entrypoint", t, Some(e));
            let automatic = type_transition_rules(policy, "process", s, e);
            let ghost before = entry_views(entries@);
            let ghost old_names = entry_names(before);
            let ghost old_typed = typed;
            let mut added = false;
            let ghost mut typed_added = false;
            if entrypoint.len() > 0 && (setexec.len() > 0 || automatic.len() > 0) {
                let execute = allow_rules(policy, "file", "execute", s, Some(e));
                let type_transition = typed_transitions(policy, s, e, t);
                if type_transition.len() > 0 {
                    typed = true;
                }
                proof {
                    typed_added = type_transition.len() > 0;
                    if type_transition.len() > 0 {
                        assert(type_transition@.contains(type_transition@[0]));
                        assert(typed_transition(*policy, s, e, t, type_transition@[0]));
                    }
                    assert forall|r: usize| typed_transition(*policy, s, e, t, r) implies type_transition.len() > 0 by {
                        assert(type_transition@.contains(r));
                    }
                }
                let entry = DomainEntrypoint { name: e, entrypoint, execute, type_transition };
                assert(!old_names.contains(e));
                let ghost entry_view = entry@;
                insert_entry(policy, &mut entries, entry);
                added = true;
                proof {
                    let after = entry_views(entries@);
                    assert forall|i: int| 0 <= i < entries@.len() implies entry_ok(*policy, s, t, #[trigger] entry_views(entries@)[i]) by {
                        assert(after.to_set().contains(after[i]));
                        if after[i] != entry_view {
                            assert(before.to_set().contains(after[i]));
                            let j = choose|j: int| 0 <= j < before.len() && before[j] == after[i];
                            assert(entry_ok(*policy, s, t, before[j]));
                        }
                    }
                }
            }
            proof {
                let after = entry_views(entries@);
                let names = entry_names(after);
                assert forall|x: usize| #[trigger] names.contains(x) <==> (next.contains(x) && qualifies(*policy, s, t, x)) by {
                    assert(next.contains(x) <==> (prior.contains(x) || x == e)) by {
                        if next.contains(x) {
                            let i = choose|i: int| 0 <= i < next.len() && next[i] == x;
                            if i < index {
                                assert(prior[i] == x);
                            }
                        }
                        if prior.contains(x) {
                            let i = choose|i: int| 0 <= i < prior.len() && prior[i] == x;
                            assert(next[i] == x);
                        }
                        if x == e {
                            assert(next[index as int] == x);
                        }
                    }
                    assert(old_names.contains(x) <==> (prior.contains(x) && qualifies(*policy, s, t, x)));
                    if added {
                        assert(names.contains(x) == names.to_set().contains(x));
                        assert(old_names.contains(x) == old_names.to_set().contains(x));
                    } else {
                        assert(names == old_names);
                    }
                }
                assert(typed <==> exists|x: usize, r: usize| #[trigger] names.contains(x)
                    && #[trigger] typed_transition(*policy, s, x, t, r)) by {
                    if typed && !old_typed {
                        assert(added);
                        assert(names.to_set().contains(e));
                        assert(names.contains(e));
                    }
                    if old_typed {
                        let (x, r) = choose|x: usize, r: usize| #[trigger] old_names.contains(x)
                            && #[trigger] typed_transition(*policy, s, x, t, r);
                        assert(names.contains(x));
                    }
                    if exists|x: usize, r: usize| #[trigger] names.contains(x) && #[trigger] typed_transition(*policy, s, x, t, r) {
                        let (x, r) = choose|x: usize, r: usize| #[trigger] names.contains(x)
                            && #[trigger] typed_transition(*policy, s, x, t, r);
                        if x != e || !added {
                            assert(old_names.contains(x));
                        } else {
                            assert(typed_added);
                        }
                    }
                }
            }
            index = index + 1;
        }
        standard = setexec.len() > 0 || typed;
        proof {
            assert(executables@.take(executables.len() as int) =~= executables@);
            let names = entry_names(entry_views(entries@));
            assert forall|e: usize| #[trigger] names.contains(e) <==> qualifies(*policy, s, t, e) by {
                if qualifies(*policy, s, t, e) {
                    assert(executables@.contains(e));
                }
            }
            assert(executables@.contains(executables@[0]));
            assert(entered@.contains(entered@[0]));
            assert(execute_rules_of(*policy, s, executables@[0]).len() > 0);
            assert(entrypoint_rules_of(*policy, t, entered@[0]).len() > 0);
            assert(standard == standard_valid(*policy, s, t)) by {
                if typed {
                    let (x, r) = choose|x: usize, r: usize| #[trigger] names.contains(x)
                        && #[trigger] typed_transition(*policy, s, x, t, r);
                    assert(qualifies(*policy, s, t, x));
                }
                if exists|x: usize, r: usize| qualifies(*policy, s, t, x) && #[trigger] typed_transition(*policy, s, x, t, r) {
                    let (x, r) = choose|x: usize, r: usize| qualifies(*policy, s, t, x)
                        && #[trigger] typed_transition(*policy, s, x, t, r);
                    assert(names.contains(x));
                }
            }
        }
    } else {
        proof {
            if exists|e: usize| #[trigger] execute_rules_of(*policy, s, e).len() > 0 {
                let e = choose|e: usize| #[trigger] execute_rules_of(*policy, s, e).len() > 0;
                assert(executables@.contains(e));
            }
            if exists|e: usize| #[trigger] entrypoint_rules_of(*policy, t, e).len() > 0 {
                let e = choose|e: usize| #[trigger] entrypoint_rules_of(*policy, t, e).len() > 0;
                assert(entered@.contains(e));
            }
        }
    }
    let dynamic = dyntransition.len() > 0 && setcurrent.len() > 0;
    DomainTransition {
        source: s,
        target: t,
        transition: if standard { transition } else { Vec::new() },
        entrypoints: if standard { entries } else { Vec::new() },
        setexec: if standard { setexec } else { Vec::new() },
        dyntransition: if dynamic { dyntransition } else { Vec::new() },
        setcurrent: if dynamic { setcurrent } else { Vec::new() },
    }
}

/// The type pairs a rule proposes as transitions: its expanded pairs, once
/// if it grants `transition` and once more if it grants `dyntransition`.
pub open spec fn rule_pairs(policy: Policy, r: int) -> Seq<(usize, usize)> {
    let rule = rule_at(policy, r);
    let pairs = product(expansion(policy, rule.source as int), expansion(policy, rule.target as int));
    (if allows(policy, r, "process"@, "transition"@) { pairs } else { Seq::empty() })
        + (if allows(policy, r, "process"@, "dyntransition"@) { pairs } else { Seq::empty() })
}

/// The pairs proposed by the first `n` rules, in rule order.
pub open spec fn raw_pairs(policy: Policy, n: nat) -> Seq<(usize, usize)>
    decreases n,
{
    if n == 0 {
        Seq::empty()
    } else {
        raw_pairs(policy, (n - 1) as nat) + rule_pairs(policy, n - 1)
    }
}

/// The proposed pairs, each once, in order of first proposal.
pub open spec fn candidates(policy: Policy) -> Seq<(usize, usize)> {
    extend_new(Seq::empty(), raw_pairs(policy, policy.te_rules@.len()))
}

/// Keeps a pair whose standard or dynamic transition is complete.
pub open spec fn valid_pair(policy: Policy) -> spec_fn((usize, usize)) -> Option<(usize, usize)> {
    |p: (usize, usize)| if standard_valid(policy, p.0, p.1) || dynamic_valid(policy, p.0, p.1) { Some(p) } else { None }
}

/// The candidate pairs whose transition is complete, in candidate order.
pub open spec fn valid_pairs(policy: Policy) -> Seq<(usize, usize)> {
    candidates(policy).filter_map(valid_pair(policy))
}

/// The pair a transition joins.
pub open spec fn pair_of(v: TransitionView) -> (usize, usize) {
    (v.source, v.target)
}

/// The pairs joined by a list of transitions.
pub open spec fn pair_list(views: Seq<TransitionView>) -> Seq<(usize, usize)> {
    views.map_values(|v: TransitionView| pair_of(v))
}

/// The plain values of a list of transitions.
pub open spec fn transition_views(edges: Seq<DomainTransition>) -> Seq<TransitionView> {
    edges.map_values(|e: DomainTransition| e@)
}

/// The candidate pairs of a policy.
fn candidate_pairs(policy: &Policy) -> (result: Vec<(usize, usize)>)
    ensures
        result@ == candidates(*policy),
{
    let count = policy.te_rules.len();
    let mut pairs: Vec<(usize, usize)> = Vec::new();
    let mut r: usize = 0;
    while r < count
        invariant
            count == policy.te_rules@.len(),
            r <= count,
            pairs@ == extend_new(Seq::empty(), raw_pairs(*policy, r as nat)),
        decreases count - r,
    {
        let transition = is_allow(policy, r, "process", "transition");
        let dynamic = is_allow(policy, r, "process", "dyntransition");
        let ghost before = pairs@;
        let ghost all = product(expansion(*policy, policy.te_rules@[r as int].source as int), expansion(*policy, policy.te_rules@[r as int].target as int));
        let ghost first = if transition { all } else { Seq::<(usize, usize)>::empty() };
        let ghost second = if dynamic { all } else { Seq::<(usize, usize)>::empty() };
        proof {
            assert(rule_pairs(*policy, r as int) == first + second);
            lemma_extend_concat(Seq::empty(), raw_pairs(*policy, r as nat), first + second);
            lemma_extend_concat(before, first, second);
        }
        if transition || dynamic {
            let sources = expand(policy, policy.te_rules[r].source);
            let targets = expand(policy, policy.te_rules[r].target);
            if transition {
                push_product(&mut pairs, &sources, &targets);
            } else {
                assert(extend_new(before, first) == before);
            }
            let ghost middle = pairs@;
            if dynamic {
                push_product(&mut pairs, &sources, &targets);
            } else {
                assert(extend_new(middle, second) == middle);
            }
        } else {
            assert(extend_new(before, first) == before);
            assert(extend_new(before, second) == before);
        }
        r = r + 1;
    }
    pairs
}

/// Copies a list of rule positions.
fn copy_rules(rules: &Vec<usize>) -> (result: Vec<usize>)
    ensures
        result@ == rules@,
{
    crate::paths::copy_nodes(rules)
}

impl DomainEntrypoint {
    /// Copies the entry.
    pub fn copy(&self) -> (result: DomainEntrypoint)
        ensures
            result@ == self@,
    {
        DomainEntrypoint {
            name: self.name,
            entrypoint: copy_rules(&self.entrypoint),
            execute: copy_rules(&self.execute),
            type_transition: copy_rules(&self.type_transition),
        }
    }
}

/// The entries whose executable is not excluded.
pub open spec fn trim_entries(entries: Seq<EntryView>, excluded: Set<usize>) -> Seq<EntryView> {
    entries.filter_map(|e: EntryView| if excluded.contains(e.name) { None } else { Some(e) })
}

/// A transition with its excluded entrypoints removed, unless one of its
/// domains is excluded or it is left with no way through.
pub open spec fn trimmed(v: TransitionView, excluded: Set<usize>) -> Option<TransitionView> {
    if excluded.contains(v.source) || excluded.contains(v.target) {
        None
    } else {
        let entries = trim_entries(v.entrypoints, excluded);
        if entries.len() == 0 && v.dyntransition.len() == 0 {
            None
        } else {
            Some(TransitionView { entrypoints: entries, ..v })
        }
    }
}

/// The transitions that remain once the excluded types are taken out.
pub open spec fn filtered(views: Seq<TransitionView>, excluded: Set<usize>) -> Seq<TransitionView> {
    views.filter_map(|v: TransitionView| trimmed(v, excluded))
}

impl DomainTransition {
    /// Copies the transition, keeping only entries whose executable is not
    /// in `excluded`.
    fn copy_without(&self, excluded: &Vec<usize>) -> (result: DomainTransition)
        ensures
            result@ == (TransitionView { entrypoints: trim_entries(self@.entrypoints, excluded@.to_set()), ..self@ }),
    {
        let mut entries: Vec<DomainEntrypoint> = Vec::new();
        let mut index: usize = 0;
        let ghost all = entry_views(self.entrypoints@);
        let ghost keep = |e: EntryView| if excluded@.to_set().contains(e.name) { None } else { Some(e) };
        assert(all.take(0).filter_map(keep) =~= Seq::<EntryView>::empty());
        assert(entry_views(entries@) =~= Seq::<EntryView>::empty());
        while index < self.entrypoints.len()
            invariant
                index <= self.entrypoints.len(),
                all == entry_views(self.entrypoints@),
                keep == (|e: EntryView| if excluded@.to_set().contains(e.name) { None } else { Some(e) }),
                entry_views(entries@) == all.take(index as int).filter_map(keep),
            decreases self.entrypoints.len() - index,
        {
            let entry = &self.entrypoints[index];
            proof {
                all.lemma_filter_map_take_succ(keep, index as int);
                assert(all[index as int] == entry@);
            }
            let ghost before = entry_views(entries@);
            if !crate::pairs::contains_type(excluded, entry.name) {
                entries.push(entry.copy());
                assert(entry_views(entries@) =~= before + seq![entry@]);
            } else {
                assert(excluded@.to_set().contains(entry@.name));
            }
            index = index + 1;
        }
        assert(all.take(all.len() as int) =~= all);
        DomainTransition {
            source: self.source,
            target: self.target,
            transition: copy_rules(&self.transition),
            entrypoints: entries,
            setexec: copy_rules(&self.setexec),
            dyntransition: copy_rules(&self.dyntransition),
            setcurrent: copy_rules(&self.setcurrent),
        }
    }

    /// Copies the transition.
    pub fn copy(&self) -> (result: DomainTransition)
        ensures
            result@ == self@,
    {
        let none: Vec<usize> = Vec::new();
        let result = self.copy_without(&none);
        proof {
            let keep = |e: EntryView| if none@.to_set().contains(e.name) { None } else { Some(e) };
            lemma_filter_map_identity(self@.entrypoints, keep);
        }
        assert(result@ =~= self@);
        result
    }
}

/// A filter that keeps every entry returns the entries.
proof fn lemma_filter_map_identity(entries: Seq<EntryView>, keep: spec_fn(EntryView) -> Option<EntryView>)
    requires
        forall|e: EntryView| #[trigger] keep(e) == Some(e),
    ensures
        entries.filter_map(keep) == entries,
    decreases entries.len(),
{
    if entries.len() > 0 {
        lemma_filter_map_identity(entries.drop_last(), keep);
        assert(entries.drop_last() + seq![entries.last()] =~= entries);
    }
}

/// A failure to answer a graph query.
#[derive(Debug, PartialEq, Eq)]
pub enum GraphError {
    /// A name is not the name of a concrete type.
    UnknownType(String),
    /// An all-paths depth limit was zero or negative.
    InvalidDepth,
}

impl GraphError {
    /// Returns the message describing the error.
    pub fn message(&self) -> (result: String)
        ensures
            match self {
                GraphError::UnknownType(name) => result@ == name@ + " is not a valid type"@,
                GraphError::InvalidDepth => result@ == "Domain transition max depth must be positive."@,
            },
    {
        match self {
            GraphError::UnknownType(name) => {
                let mut text = crate::text::owned(name.as_str());
                crate::text::push_str(&mut text, " is not a valid type");
                text
            },
            GraphError::InvalidDepth => crate::text::owned("Domain transition max depth must be positive."),
        }
    }
}

/// The numbers of the named concrete types, or the first name that is not
/// one.
pub open spec fn resolve_all(policy: Policy, names: Seq<Seq<char>>) -> Result<Seq<usize>, Seq<char>>
    decreases names.len(),
{
    if names.len() == 0 {
        Ok(Seq::empty())
    } else {
        match resolve_all(policy, names.drop_last()) {
            Err(name) => Err(name),
            Ok(found) => match crate::policy::concrete_type_named(policy, names.last()) {
                Some(t) => Ok(found.push(t)),
                None => Err(names.last()),
            },
        }
    }
}

/// Finds the concrete type with the given name.
pub(crate) fn resolve_type(policy: &Policy, name: &str) -> (result: Result<usize, GraphError>)
    requires
        well_formed(*policy),
    ensures
        match result {
            Ok(t) => crate::policy::concrete_type_named(*policy, name@) == Some(t),
            Err(GraphError::UnknownType(unknown)) => crate::policy::concrete_type_named(*policy, name@) is None && unknown@ == name@,
            Err(GraphError::InvalidDepth) => false,
        },
{
    match crate::policy::resolve_concrete_type(policy, name) {
        Some(t) => Ok(t),
        None => Err(GraphError::UnknownType(crate::text::owned(name))),
    }
}

/// Finds the concrete types with the given names.
pub(crate) fn resolve_names(policy: &Policy, names: &Vec<String>) -> (result: Result<Vec<usize>, GraphError>)
    requires
        well_formed(*policy),
    ensures
        match result {
            Ok(found) => resolve_all(*policy, crate::text::texts(names@)) == Ok::<Seq<usize>, Seq<char>>(found@),
            Err(GraphError::UnknownType(unknown)) => resolve_all(*policy, crate::text::texts(names@)) == Err::<Seq<usize>, Seq<char>>(unknown@),
            Err(GraphError::InvalidDepth) => false,
        },
{
    let mut found: Vec<usize> = Vec::new();
    let mut index: usize = 0;
    let ghost all = crate::text::texts(names@);
    assert(all.take(0) =~= Seq::<Seq<char>>::empty());
    while index < names.len()
        invariant
            well_formed(*policy),
            all == crate::text::texts(names@),
            index <= names.len(),
            resolve_all(*policy, all.take(index as int)) == Ok::<Seq<usize>, Seq<char>>(found@),
        decreases names.len() - index,
    {
        proof {
            let next = all.take(index + 1);
            assert(next.drop_last() =~= all.take(index as int));
            assert(next.last() == names@[index as int]@);
        }
        match resolve_type(policy, names[index].as_str()) {
            Ok(t) => {
                found.push(t);
            },
            Err(error) => {
                proof {
                    lemma_resolve_error_stays(*policy, all, index + 1);
                    assert(all.take(all.len() as int) =~= all);
                }
                return Err(error);
            },
        }
        index = index + 1;
    }
    assert(all.take(all.len() as int) =~= all);
    Ok(found)
}

/// Once a name fails to resolve, the whole list fails with it.
proof fn lemma_resolve_error_stays(policy: Policy, names: Seq<Seq<char>>, k: int)
    requires
        0 <= k <= names.len(),
        resolve_all(policy, names.take(k)) is Err,
    ensures
        resolve_all(policy, names) == resolve_all(policy, names.take(k)),
    decreases names.len(),
{
    if names.len() > k {
        assert(names.drop_last().take(k) =~= names.take(k));
        lemma_resolve_error_stays(policy, names.drop_last(), k);
    } else {
        assert(names.take(k) =~= names);
    }
}

/// Counts from a domain-transition graph.
#[derive(PartialEq, Eq, Structural, Clone, Copy, Debug)]
pub struct DomainTransitionStats {
    /// Domains proposed by `transition` or `dyntransition` rules.
    pub nodes: usize,
    /// Complete standard and/or dynamic transitions.
    pub edges: usize,
}

/// The domain transitions of a policy.
pub struct DomainTransitionGraph<'a> {
    policy: &'a Policy,
    edges: Vec<DomainTransition>,
    nodes: Vec<usize>,
}

impl<'a> DomainTransitionGraph<'a> {
    /// The policy the graph was built from.
    pub closed spec fn source_policy(self) -> Policy {
        *self.policy
    }

    /// The complete transitions, in order of first proposal.
    pub closed spec fn transitions(self) -> Seq<TransitionView> {
        transition_views(self.edges@)
    }

    /// The domains proposed by `transition` or `dyntransition` rules.
    pub closed spec fn node_set(self) -> Set<usize> {
        self.nodes@.to_set()
    }

    #[verifier::type_invariant]
    closed spec fn consistent(self) -> bool {
        &&& well_formed(*self.policy)
        &&& self.nodes@.no_duplicates()
        &&& self.nodes@.to_set() == crate::pairs::endpoints(candidates(*self.policy))
        &&& pair_list(transition_views(self.edges@)) == valid_pairs(*self.policy)
        &&& pair_list(transition_views(self.edges@)).no_duplicates()
        &&& forall|i: int| 0 <= i < self.edges@.len() ==> transition_ok(*self.policy, #[trigger] transition_views(self.edges@)[i])
    }

    /// Builds every complete standard and dynamic domain transition.
    pub fn new(policy: &'a Policy) -> (result: Self)
        requires
            well_formed(*policy),
        ensures
            result.source_policy() == *policy,
            result.node_set() == crate::pairs::endpoints(candidates(*policy)),
            pair_list(result.transitions()) == valid_pairs(*policy),
            forall|i: int| 0 <= i < result.transitions().len() ==> transition_ok(*policy, #[trigger] result.transitions()[i]),
    {
        let proposed = candidate_pairs(policy);
        let nodes = crate::pairs::endpoint_list(&proposed);
        let mut edges: Vec<DomainTransition> = Vec::new();
        let mut index: usize = 0;
        let ghost keep = valid_pair(*policy);
        proof {
            lemma_extend_members(Seq::empty(), raw_pairs(*policy, policy.te_rules@.len()));
        }
        assert(proposed@.take(0).filter_map(keep) =~= Seq::<(usize, usize)>::empty());
        assert(pair_list(transition_views(edges@)) =~= Seq::<(usize, usize)>::empty());
        while index < proposed.len()
            invariant
                well_formed(*policy),
                keep == valid_pair(*policy),
                index <= proposed.len(),
                proposed@ == candidates(*policy),
                proposed@.no_duplicates(),
                pair_list(transition_views(edges@)) == proposed@.take(index as int).filter_map(keep),
                pair_list(transition_views(edges@)).no_duplicates(),
                forall|k: int| 0 <= k < edges@.len() ==> proposed@.take(index as int).contains(#[trigger] pair_list(transition_views(edges@))[k]),
                forall|i: int| 0 <= i < edges@.len() ==> transition_ok(*policy, #[trigger] transition_views(edges@)[i]),
            decreases proposed.len() - index,
        {
            let (s, t) = proposed[index];
            proof {
                proposed@.lemma_filter_map_take_succ(keep, index as int);
            }
            let transition = build_transition(policy, s, t);
            let ghost before = transition_views(edges@);
            let ghost prior = proposed@.take(index as int);
            let ghost next = proposed@.take(index + 1);
            proof {
                assert(next =~= prior.push((s, t)));
                assert(!prior.contains((s, t))) by {
                    if prior.contains((s, t)) {
                        let i = choose|i: int| 0 <= i < prior.len() && prior[i] == (s, t);
                        assert(proposed@[i] == proposed@[index as int]);
                    }
                }
                assert forall|k: int| 0 <= k < edges@.len() implies next.contains(#[trigger] pair_list(transition_views(edges@))[k]) by {
                    let x = pair_list(transition_views(edges@))[k];
                    assert(prior.contains(x));
                    let i = choose|i: int| 0 <= i < prior.len() && prior[i] == x;
                    assert(next[i] == x);
                }
            }
            if transition.transition.len() > 0 || transition.dyntransition.len() > 0 {
                edges.push(transition);
                proof {
                    assert(transition_views(edges@) =~= before.push(transition@));
                    assert(pair_list(transition_views(edges@)) =~= pair_list(before) + seq![(s, t)]);
                    let pl = pair_list(transition_views(edges@));
                    assert forall|a: int, b: int| 0 <= a < b < pl.len() implies pl[a] != pl[b] by {
                        if b == pl.len() - 1 {
                            assert(pl[a] == pair_list(before)[a]);
                            assert(prior.contains(pair_list(before)[a]));
                        } else {
                            assert(pl[a] == pair_list(before)[a]);
                            assert(pl[b] == pair_list(before)[b]);
                        }
                    }
                    assert forall|k: int| 0 <= k < edges@.len() implies next.contains(#[trigger] pair_list(transition_views(edges@))[k]) by {
                        if k == edges@.len() - 1 {
                            assert(next[index as int] == (s, t));
                        } else {
                            assert(pl[k] == pair_list(before)[k]);
                        }
                    }
                }
            }
            index = index + 1;
        }
        assert(proposed@.take(proposed.len() as int) =~= proposed@);
        DomainTransitionGraph { policy, edges, nodes }
    }

    /// Returns the policy the graph was built from.
    pub fn policy(&self) -> (result: &'a Policy)
        ensures
            *result == self.source_policy(),
    {
        self.policy
    }

    /// Returns the counts of the whole graph.
    pub fn stats(&self) -> (result: DomainTransitionStats)
        ensures
            result.nodes == self.node_set().len(),
            result.edges == self.transitions().len(),
    {
        proof {
            use_type_invariant(self);
            self.nodes@.unique_seq_to_set();
        }
        DomainTransitionStats { nodes: self.nodes.len(), edges: self.edges.len() }
    }

    /// The transitions left once the given types are excluded.
    fn filtered_edges(&self, excluded: &Vec<usize>) -> (result: Vec<DomainTransition>)
        ensures
            transition_views(result@) == filtered(self.transitions(), excluded@.to_set()),
    {
        let mut result: Vec<DomainTransition> = Vec::new();
        let ghost all = self.transitions();
        let ghost keep = |v: TransitionView| trimmed(v, excluded@.to_set());
        let mut index: usize = 0;
        assert(all.take(0).filter_map(keep) =~= Seq::<TransitionView>::empty());
        assert(transition_views(result@) =~= Seq::<TransitionView>::empty());
        while index < self.edges.len()
            invariant
                all == self.transitions(),
                all == transition_views(self.edges@),
                keep == (|v: TransitionView| trimmed(v, excluded@.to_set())),
                index <= self.edges.len(),
                transition_views(result@) == all.take(index as int).filter_map(keep),
            decreases self.edges.len() - index,
        {
            let edge = &self.edges[index];
            proof {
                all.lemma_filter_map_take_succ(keep, index as int);
                assert(all[index as int] == edge@);
            }
            let ghost before = transition_views(result@);
            let skip = crate::pairs::contains_type(excluded, edge.source) || crate::pairs::contains_type(excluded, edge.target);
            if !skip {
                let trimmed_edge = edge.copy_without(excluded);
                if trimmed_edge.entrypoints.len() > 0 || trimmed_edge.dyntransition.len() > 0 {
                    result.push(trimmed_edge);
                    assert(transition_views(result@) =~= before + seq![trimmed_edge@]);
                }
            }
            index = index + 1;
        }
        assert(all.take(all.len() as int) =~= all);
        result
    }
}

/// Keeps the transitions leaving `s`.
pub open spec fn leaving(s: usize) -> spec_fn(TransitionView) -> Option<TransitionView> {
    |v: TransitionView| if v.source == s { Some(v) } else { None }
}

/// Keeps the transitions entering `t`.
pub open spec fn entering(t: usize) -> spec_fn(TransitionView) -> Option<TransitionView> {
    |v: TransitionView| if v.target == t { Some(v) } else { None }
}

/// `steps` are the transitions taken along `walk`, each one of `edges`.
pub open spec fn follows(steps: Seq<TransitionView>, edges: Seq<TransitionView>, reverse: bool, walk: Seq<usize>) -> bool {
    &&& steps.len() + 1 == walk.len()
    &&& forall|k: int| 0 <= k < steps.len() ==> edges.contains(#[trigger] steps[k])
        && pair_of(steps[k]) == crate::paths::oriented((walk[k], walk[k + 1]), reverse)
}

/// The plain values of a list of step lists.
pub open spec fn step_lists(paths: Seq<Vec<DomainTransition>>) -> Seq<Seq<TransitionView>> {
    paths.map_values(|p: Vec<DomainTransition>| transition_views(p@))
}

/// `steps` are the steps along some walk that satisfies `walks`.
pub open spec fn walked(steps: Seq<TransitionView>, edges: Seq<TransitionView>, reverse: bool, walks: spec_fn(Seq<usize>) -> bool) -> bool {
    exists|w: Seq<usize>| #[trigger] walks(w) && follows(steps, edges, reverse, w)
}

/// One of `paths` is the steps along `w`.
pub open spec fn listed(paths: Seq<Seq<TransitionView>>, edges: Seq<TransitionView>, reverse: bool, w: Seq<usize>) -> bool {
    exists|i: int| 0 <= i < paths.len() && #[trigger] follows(paths[i], edges, reverse, w)
}

/// `paths` lists, once each, the steps along exactly the walks that
/// satisfy `walks`.
pub open spec fn answers(paths: Seq<Seq<TransitionView>>, edges: Seq<TransitionView>, reverse: bool, walks: spec_fn(Seq<usize>) -> bool) -> bool {
    &&& paths.no_duplicates()
    &&& forall|i: int| 0 <= i < paths.len() ==> walked(#[trigger] paths[i], edges, reverse, walks)
    &&& forall|w: Seq<usize>| #[trigger] walks(w) ==> listed(paths, edges, reverse, w)
}

/// Steps determine the walk from a given start.
proof fn lemma_follows_unique(steps: Seq<TransitionView>, edges: Seq<TransitionView>, reverse: bool, a: Seq<usize>, b: Seq<usize>, n: int)
    requires
        follows(steps, edges, reverse, a),
        follows(steps, edges, reverse, b),
        a[0] == b[0],
        0 <= n < a.len(),
    ensures
        forall|k: int| 0 <= k <= n ==> a[k] == b[k],
    decreases n,
{
    if n > 0 {
        lemma_follows_unique(steps, edges, reverse, a, b, n - 1);
        assert(pair_of(steps[n - 1]) == crate::paths::oriented((a[n - 1], a[n]), reverse));
        assert(pair_of(steps[n - 1]) == crate::paths::oriented((b[n - 1], b[n]), reverse));
    }
}

/// The transitions taken along a walk over the transitions' pairs.
fn steps_along(edges: &Vec<DomainTransition>, walk: &Vec<usize>, reverse: bool) -> (result: Vec<DomainTransition>)
    requires
        crate::paths::is_walk(pair_list(transition_views(edges@)), reverse, walk@),
    ensures
        follows(transition_views(result@), transition_views(edges@), reverse, walk@),
{
    let ghost views = transition_views(edges@);
    let ghost pairs = pair_list(views);
    let mut result: Vec<DomainTransition> = Vec::new();
    let mut k: usize = 0;
    while k + 1 < walk.len()
        invariant
            views == transition_views(edges@),
            pairs == pair_list(views),
            crate::paths::is_walk(pairs, reverse, walk@),
            k + 1 <= walk.len(),
            result@.len() == k,
            forall|j: int| 0 <= j < k ==> views.contains(#[trigger] transition_views(result@)[j])
                && pair_of(transition_views(result@)[j]) == crate::paths::oriented((walk@[j], walk@[j + 1]), reverse),
        decreases walk.len() - k,
    {
        let wanted = if reverse { (walk[k + 1], walk[k]) } else { (walk[k], walk[k + 1]) };
        proof {
            assert(crate::paths::arc(pairs, reverse, walk@[k as int], walk@[k + 1]));
        }
        let mut i: usize = 0;
        let mut found = false;
        while !found && i < edges.len()
            invariant
                views == transition_views(edges@),
                pairs == pair_list(views),
                crate::paths::arc(pairs, reverse, walk@[k as int], walk@[k + 1]),
                wanted == crate::paths::oriented((walk@[k as int], walk@[k + 1]), reverse),
                i <= edges.len(),
                found ==> i < edges.len() && pair_of(views[i as int]) == wanted,
                !found ==> forall|j: int| 0 <= j < i ==> pair_of(#[trigger] views[j]) != wanted,
            decreases edges.len() - i + if found { 0int } else { 1int },
        {
            if edges[i].source == wanted.0 && edges[i].target == wanted.1 {
                found = true;
            } else {
                i = i + 1;
            }
        }
        proof {
            if !found {
                let j = choose|j: int| 0 <= j < pairs.len() && #[trigger] crate::paths::oriented(pairs[j], reverse) == (walk@[k as int], walk@[k + 1]);
                assert(pairs[j] == pair_of(views[j]));
                assert(false);
            }
        }
        let ghost before = transition_views(result@);
        let step = edges[i].copy();
        result.push(step);
        proof {
            assert(transition_views(result@) =~= before.push(views[i as int]));
            assert(views.contains(views[i as int]));
        }
        k = k + 1;
    }
    result
}

/// The steps along each of a list of walks from `source`.
fn steps_for_walks(
    edges: &Vec<DomainTransition>,
    walks: &Vec<Vec<usize>>,
    reverse: bool,
    source: usize,
    wanted: Ghost<spec_fn(Seq<usize>) -> bool>,
) -> (result: Vec<Vec<DomainTransition>>)
    requires
        crate::paths::path_views(walks@).no_duplicates(),
        forall|w: Seq<usize>| crate::paths::path_views(walks@).contains(w) <==> #[trigger] wanted@(w),
        forall|w: Seq<usize>| #[trigger] wanted@(w) ==> crate::paths::is_walk(pair_list(transition_views(edges@)), reverse, w) && w[0] == source,
    ensures
        answers(step_lists(result@), transition_views(edges@), reverse, wanted@),
{
    let ghost views = transition_views(edges@);
    let ghost nodes = crate::paths::path_views(walks@);
    let mut result: Vec<Vec<DomainTransition>> = Vec::new();
    let mut index: usize = 0;
    while index < walks.len()
        invariant
            views == transition_views(edges@),
            nodes == crate::paths::path_views(walks@),
            nodes.no_duplicates(),
            forall|w: Seq<usize>| nodes.contains(w) <==> #[trigger] wanted@(w),
            forall|w: Seq<usize>| #[trigger] wanted@(w) ==> crate::paths::is_walk(pair_list(views), reverse, w) && w[0] == source,
            index <= walks.len(),
            result@.len() == index,
            forall|i: int| 0 <= i < index ==> follows(#[trigger] step_lists(result@)[i], views, reverse, nodes[i]),
        decreases walks.len() - index,
    {
        proof {
            assert(nodes.contains(nodes[index as int]));
            assert(wanted@(nodes[index as int]));
            assert(nodes[index as int] == walks@[index as int]@);
        }
        let steps = steps_along(edges, &walks[index], reverse);
        let ghost before = step_lists(result@);
        result.push(steps);
        proof {
            assert(step_lists(result@) =~= before.push(transition_views(steps@)));
        }
        index = index + 1;
    }
    proof {
        let lists = step_lists(result@);
        assert forall|i: int| 0 <= i < lists.len() implies walked(#[trigger] lists[i], views, reverse, wanted@) by {
            assert(nodes.contains(nodes[i]));
            assert(wanted@(nodes[i]));
            assert(follows(lists[i], views, reverse, nodes[i]));
        }
        assert forall|w: Seq<usize>| #[trigger] wanted@(w) implies listed(lists, views, reverse, w) by {
            assert(nodes.contains(w));
            let i = choose|i: int| 0 <= i < nodes.len() && nodes[i] == w;
            assert(follows(lists[i], views, reverse, nodes[i]));
        }
        assert forall|i: int, j: int| 0 <= i < lists.len() && 0 <= j < lists.len() && i != j implies lists[i] != lists[j] by {
            if lists[i] == lists[j] {
                assert(nodes.contains(nodes[i]));
                assert(nodes.contains(nodes[j]));
                assert(wanted@(nodes[i]));
                assert(wanted@(nodes[j]));
                assert(follows(lists[i], views, reverse, nodes[i]));
                assert(follows(lists[i], views, reverse, nodes[j]));
                lemma_follows_unique(lists[i], views, reverse, nodes[i], nodes[j], nodes[i].len() - 1);
                assert(nodes[i] =~= nodes[j]);
            }
        }
        assert(lists.no_duplicates());
    }
    result
}

/// Filtering keeps pairs distinct, and keeps only pairs already present.
proof fn lemma_filtered_pairs(views: Seq<TransitionView>, excluded: Set<usize>)
    requires
        pair_list(views).no_duplicates(),
    ensures
        pair_list(filtered(views, excluded)).no_duplicates(),
        forall|k: int| 0 <= k < filtered(views, excluded).len() ==> pair_list(views).contains(#[trigger] pair_list(filtered(views, excluded))[k]),
    decreases views.len(),
{
    if views.len() > 0 {
        let rest = views.drop_last();
        assert(pair_list(rest) =~= pair_list(views).drop_last());
        lemma_filtered_pairs(rest, excluded);
        let before = filtered(rest, excluded);
        let keep = |v: TransitionView| trimmed(v, excluded);
        assert(filtered(views, excluded) == views.filter_map(keep));
        assert(before == rest.filter_map(keep));
        let pl = pair_list(views);
        assert forall|k: int| 0 <= k < before.len() implies pl.contains(#[trigger] pair_list(before)[k]) by {
            let x = pair_list(before)[k];
            assert(pair_list(rest).contains(x));
            let i = choose|i: int| 0 <= i < pair_list(rest).len() && pair_list(rest)[i] == x;
            assert(pl[i] == x);
        }
        match trimmed(views.last(), excluded) {
            Some(v) => {
                let after = filtered(views, excluded);
                assert(after =~= before + seq![v]);
                assert(pair_of(v) == pair_of(views.last()));
                assert(pl[views.len() - 1] == pair_of(v));
                assert(!pair_list(rest).contains(pair_of(v))) by {
                    if pair_list(rest).contains(pair_of(v)) {
                        let i = choose|i: int| 0 <= i < pair_list(rest).len() && pair_list(rest)[i] == pair_of(v);
                        assert(pl[i] == pl[views.len() - 1]);
                    }
                }
                assert forall|a: int, b: int| 0 <= a < b < pair_list(after).len() implies pair_list(after)[a] != pair_list(after)[b] by {
                    if b == pair_list(after).len() - 1 {
                        assert(pair_list(after)[a] == pair_list(before)[a]);
                        assert(pair_list(rest).contains(pair_list(before)[a]));
                    } else {
                        assert(pair_list(after)[a] == pair_list(before)[a]);
                        assert(pair_list(after)[b] == pair_list(before)[b]);
                    }
                }
                assert forall|k: int| 0 <= k < after.len() implies pl.contains(#[trigger] pair_list(after)[k]) by {
                    if k < before.len() {
                        assert(pair_list(after)[k] == pair_list(before)[k]);
                    }
                }
            },
            None => {
                assert(filtered(views, excluded) == before);
            },
        }
    } else {
        assert(filtered(views, excluded) =~= Seq::<TransitionView>::empty());
    }
}

impl<'a> DomainTransitionGraph<'a> {
    /// Returns the counts of the graph once the named types are excluded.
    pub fn subgraph_stats(&self, exclude: &Vec<String>) -> (result: Result<DomainTransitionStats, GraphError>)
        ensures
            match result {
                Ok(stats) => resolve_all(self.source_policy(), crate::text::texts(exclude@)) matches Ok(excluded)
                    && stats.nodes == self.node_set().difference(excluded.to_set()).len()
                    && stats.edges == filtered(self.transitions(), excluded.to_set()).len(),
                Err(GraphError::UnknownType(name)) => resolve_all(self.source_policy(), crate::text::texts(exclude@))
                    == Err::<Seq<usize>, Seq<char>>(name@),
                Err(GraphError::InvalidDepth) => false,
            },
    {
        proof {
            use_type_invariant(self);
        }
        let excluded = resolve_names(self.policy, exclude)?;
        let edges = self.filtered_edges(&excluded);
        let mut count: usize = 0;
        let mut index: usize = 0;
        let ghost dropped = excluded@.to_set();
        assert(self.nodes@.take(0).to_set().difference(dropped) =~= Set::<usize>::empty());
        while index < self.nodes.len()
            invariant
                self.nodes@.no_duplicates(),
                dropped == excluded@.to_set(),
                index <= self.nodes.len(),
                count <= index,
                count == self.nodes@.take(index as int).to_set().difference(dropped).len(),
            decreases self.nodes.len() - index,
        {
            let x = self.nodes[index];
            let ghost prior = self.nodes@.take(index as int);
            proof {
                assert(self.nodes@.take(index + 1) =~= prior.push(x));
                prior.lemma_push_to_set_commute(x);
                vstd::seq_lib::seq_to_set_is_finite(prior);
                assert(!prior.contains(x)) by {
                    if prior.contains(x) {
                        let i = choose|i: int| 0 <= i < prior.len() && prior[i] == x;
                        assert(self.nodes@[i] == self.nodes@[index as int]);
                    }
                }
            }
            if !crate::pairs::contains_type(&excluded, x) {
                proof {
                    let d = prior.to_set().difference(dropped);
                    assert(prior.to_set().insert(x).difference(dropped) =~= d.insert(x));
                    assert(!d.contains(x));
                    vstd::set::axiom_set_difference_finite(prior.to_set(), dropped);
                    vstd::set::axiom_set_insert_len(d, x);
                }
                count = count + 1;
            } else {
                assert(prior.to_set().insert(x).difference(dropped) =~= prior.to_set().difference(dropped));
            }
            index = index + 1;
        }
        assert(self.nodes@.take(self.nodes.len() as int) =~= self.nodes@);
        Ok(DomainTransitionStats { nodes: count, edges: edges.len() })
    }

    /// Returns the transitions out of a domain once the named types are
    /// excluded.
    pub fn transitions_out(&self, source: &str, exclude: &Vec<String>) -> (result: Result<Vec<DomainTransition>, GraphError>)
        ensures
            match result {
                Ok(list) => crate::policy::concrete_type_named(self.source_policy(), source@) matches Some(s)
                    && resolve_all(self.source_policy(), crate::text::texts(exclude@)) matches Ok(excluded)
                    && transition_views(list@) == filtered(self.transitions(), excluded.to_set()).filter_map(leaving(s)),
                Err(GraphError::UnknownType(name)) =>
                    (crate::policy::concrete_type_named(self.source_policy(), source@) is None && name@ == source@)
                    || (crate::policy::concrete_type_named(self.source_policy(), source@) is Some
                        && resolve_all(self.source_policy(), crate::text::texts(exclude@)) == Err::<Seq<usize>, Seq<char>>(name@)),
                Err(GraphError::InvalidDepth) => false,
            },
    {
        proof {
            use_type_invariant(self);
        }
        let s = resolve_type(self.policy, source)?;
        let excluded = resolve_names(self.policy, exclude)?;
        let edges = self.filtered_edges(&excluded);
        Ok(select_transitions(&edges, s, true))
    }

    /// Returns the transitions into a domain once the named types are
    /// excluded.
    pub fn transitions_in(&self, target: &str, exclude: &Vec<String>) -> (result: Result<Vec<DomainTransition>, GraphError>)
        ensures
            match result {
                Ok(list) => crate::policy::concrete_type_named(self.source_policy(), target@) matches Some(t)
                    && resolve_all(self.source_policy(), crate::text::texts(exclude@)) matches Ok(excluded)
                    && transition_views(list@) == filtered(self.transitions(), excluded.to_set()).filter_map(entering(t)),
                Err(GraphError::UnknownType(name)) =>
                    (crate::policy::concrete_type_named(self.source_policy(), target@) is None && name@ == target@)
                    || (crate::policy::concrete_type_named(self.source_policy(), target@) is Some
                        && resolve_all(self.source_policy(), crate::text::texts(exclude@)) == Err::<Seq<usize>, Seq<char>>(name@)),
                Err(GraphError::InvalidDepth) => false,
            },
    {
        proof {
            use_type_invariant(self);
        }
        let t = resolve_type(self.policy, target)?;
        let excluded = resolve_names(self.policy, exclude)?;
        let edges = self.filtered_edges(&excluded);
        Ok(select_transitions(&edges, t, false))
    }
}

/// The transitions leaving `node` (when `outgoing`) or entering it.
fn select_transitions(edges: &Vec<DomainTransition>, node: usize, outgoing: bool) -> (result: Vec<DomainTransition>)
    ensures
        outgoing ==> transition_views(result@) == transition_views(edges@).filter_map(leaving(node)),
        !outgoing ==> transition_views(result@) == transition_views(edges@).filter_map(entering(node)),
{
    let ghost all = transition_views(edges@);
    let ghost keep = if outgoing { leaving(node) } else { entering(node) };
    let mut result: Vec<DomainTransition> = Vec::new();
    let mut index: usize = 0;
    assert(all.take(0).filter_map(keep) =~= Seq::<TransitionView>::empty());
    assert(transition_views(result@) =~= Seq::<TransitionView>::empty());
    while index < edges.len()
        invariant
            all == transition_views(edges@),
            keep == (if outgoing { leaving(node) } else { entering(node) }),
            index <= edges.len(),
            transition_views(result@) == all.take(index as int).filter_map(keep),
        decreases edges.len() - index,
    {
        let edge = &edges[index];
        proof {
            all.lemma_filter_map_take_succ(keep, index as int);
            assert(all[index as int] == edge@);
        }
        let ghost before = transition_views(result@);
        let end = if outgoing { edge.source } else { edge.target };
        if end == node {
            result.push(edge.copy());
            assert(transition_views(result@) =~= before + seq![edge@]);
        }
        index = index + 1;
    }
    assert(all.take(all.len() as int) =~= all);
    result
}

/// The shortest walks from `s` to `t` over the given pairs.
pub open spec fn shortest_from(pairs: Seq<(usize, usize)>, reverse: bool, s: usize, t: usize) -> spec_fn(Seq<usize>) -> bool {
    |w: Seq<usize>| crate::paths::shortest_walk(pairs, reverse, s, t, w)
}

/// The walks from `s` to `t` over the given pairs that repeat no domain and
/// take at most `depth` steps.
pub open spec fn simple_from(pairs: Seq<(usize, usize)>, reverse: bool, s: usize, t: usize, depth: nat) -> spec_fn(Seq<usize>) -> bool {
    |w: Seq<usize>| crate::paths::bounded_simple_path(pairs, reverse, s, t, depth, w)
}

/// The pairs of a list of transitions.
fn transition_pairs(edges: &Vec<DomainTransition>) -> (result: Vec<(usize, usize)>)
    ensures
        result@ == pair_list(transition_views(edges@)),
{
    let mut result: Vec<(usize, usize)> = Vec::new();
    let mut index: usize = 0;
    while index < edges.len()
        invariant
            index <= edges.len(),
            result@ == pair_list(transition_views(edges@)).take(index as int),
        decreases edges.len() - index,
    {
        result.push((edges[index].source, edges[index].target));
        index = index + 1;
        assert(result@ =~= pair_list(transition_views(edges@)).take(index as int));
    }
    assert(pair_list(transition_views(edges@)).take(edges.len() as int) =~= pair_list(transition_views(edges@)));
    result
}

impl<'a> DomainTransitionGraph<'a> {
    /// The listed paths are the steps along the walks of `walks` over the
    /// transitions left once `excluded` is taken out; none when an end is
    /// excluded.
    pub open spec fn paths_answer(
        self,
        paths: Seq<Seq<TransitionView>>,
        s: usize,
        t: usize,
        excluded: Seq<usize>,
        reverse: bool,
        walks: spec_fn(Seq<usize>) -> bool,
    ) -> bool {
        if excluded.contains(s) || excluded.contains(t) {
            paths.len() == 0
        } else {
            answers(paths, filtered(self.transitions(), excluded.to_set()), reverse, walks)
        }
    }

    /// Returns the steps along every shortest path between two domains once
    /// the named types are excluded; with `reverse`, paths follow
    /// transitions backwards.
    pub fn shortest_paths(&self, source: &str, target: &str, reverse: bool, exclude: &Vec<String>) -> (result: Result<Vec<Vec<DomainTransition>>, GraphError>)
        ensures
            match result {
                Ok(paths) => crate::policy::concrete_type_named(self.source_policy(), source@) matches Some(s)
                    && crate::policy::concrete_type_named(self.source_policy(), target@) matches Some(t)
                    && resolve_all(self.source_policy(), crate::text::texts(exclude@)) matches Ok(excluded)
                    && self.paths_answer(step_lists(paths@), s, t, excluded, reverse, shortest_from(
                        pair_list(filtered(self.transitions(), excluded.to_set())), reverse, s, t)),
                Err(GraphError::UnknownType(name)) =>
                    (crate::policy::concrete_type_named(self.source_policy(), source@) is None && name@ == source@)
                    || (crate::policy::concrete_type_named(self.source_policy(), source@) is Some
                        && crate::policy::concrete_type_named(self.source_policy(), target@) is None && name@ == target@)
                    || (crate::policy::concrete_type_named(self.source_policy(), source@) is Some
                        && crate::policy::concrete_type_named(self.source_policy(), target@) is Some
                        && resolve_all(self.source_policy(), crate::text::texts(exclude@)) == Err::<Seq<usize>, Seq<char>>(name@)),
                Err(GraphError::InvalidDepth) => false,
            },
    {
        proof {
            use_type_invariant(self);
        }
        let s = resolve_type(self.policy, source)?;
        let t = resolve_type(self.policy, target)?;
        let excluded = resolve_names(self.policy, exclude)?;
        let edges = self.filtered_edges(&excluded);
        if crate::pairs::contains_type(&excluded, s) || crate::pairs::contains_type(&excluded, t) {
            return Ok(Vec::new());
        }
        let pairs = transition_pairs(&edges);
        proof {
            lemma_filtered_pairs(self.transitions(), excluded@.to_set());
        }
        let walks = crate::paths::shortest_node_paths(&pairs, s, t, reverse);
        let ghost wanted = shortest_from(pairs@, reverse, s, t);
        let paths = steps_for_walks(&edges, &walks, reverse, s, Ghost(wanted));
        Ok(paths)
    }

    /// Returns the steps along every path of at most `depth_limit` steps
    /// that repeats no domain, between two domains once the named types are
    /// excluded; with `reverse`, paths follow transitions backwards.
    pub fn all_paths(&self, source: &str, target: &str, depth_limit: i32, reverse: bool, exclude: &Vec<String>) -> (result: Result<Vec<Vec<DomainTransition>>, GraphError>)
        ensures
            depth_limit < 1 <==> result == Err::<Vec<Vec<DomainTransition>>, GraphError>(GraphError::InvalidDepth),
            match result {
                Ok(paths) => crate::policy::concrete_type_named(self.source_policy(), source@) matches Some(s)
                    && crate::policy::concrete_type_named(self.source_policy(), target@) matches Some(t)
                    && resolve_all(self.source_policy(), crate::text::texts(exclude@)) matches Ok(excluded)
                    && self.paths_answer(step_lists(paths@), s, t, excluded, reverse, simple_from(
                        pair_list(filtered(self.transitions(), excluded.to_set())), reverse, s, t, depth_limit as nat)),
                Err(GraphError::UnknownType(name)) =>
                    (crate::policy::concrete_type_named(self.source_policy(), source@) is None && name@ == source@)
                    || (crate::policy::concrete_type_named(self.source_policy(), source@) is Some
                        && crate::policy::concrete_type_named(self.source_policy(), target@) is None && name@ == target@)
                    || (crate::policy::concrete_type_named(self.source_policy(), source@) is Some
                        && crate::policy::concrete_type_named(self.source_policy(), target@) is Some
                        && resolve_all(self.source_policy(), crate::text::texts(exclude@)) == Err::<Seq<usize>, Seq<char>>(name@)),
                Err(GraphError::InvalidDepth) => depth_limit < 1,
            },
    {
        proof {
            use_type_invariant(self);
        }
        if depth_limit < 1 {
            return Err(GraphError::InvalidDepth);
        }
        let s = resolve_type(self.policy, source)?;
        let t = resolve_type(self.policy, target)?;
        let excluded = resolve_names(self.policy, exclude)?;
        if crate::pairs::contains_type(&excluded, s) || crate::pairs::contains_type(&excluded, t) {
            return Ok(Vec::new());
        }
        let edges = self.filtered_edges(&excluded);
        let pairs = transition_pairs(&edges);
        proof {
            lemma_filtered_pairs(self.transitions(), excluded@.to_set());
        }
        let depth = depth_limit as usize;
        let walks = crate::paths::all_node_paths(&pairs, s, t, depth, reverse);
        let ghost wanted = simple_from(pairs@, reverse, s, t, depth as nat);
        let paths = steps_for_walks(&edges, &walks, reverse, s, Ghost(wanted));
        Ok(paths)
    }
}

/// Excluding nothing keeps every entrypoint.
proof fn lemma_trim_nothing(entries: Seq<EntryView>)
    ensures
        trim_entries(entries, Set::empty()) == entries,
    decreases entries.len(),
{
    if entries.len() > 0 {
        lemma_trim_nothing(entries.drop_last());
        assert(entries =~= entries.drop_last() + seq![entries.last()]);
    }
}

/// Excluding no type keeps every transition that has a way through.
pub proof fn law_no_exclusion_keeps_transitions(views: Seq<TransitionView>)
    requires
        forall|i: int| 0 <= i < views.len() ==> (#[trigger] views[i]).entrypoints.len() > 0 || views[i].dyntransition.len() > 0,
    ensures
        filtered(views, Set::empty()) == views,
    decreases views.len(),
{
    if views.len() > 0 {
        let last = views.last();
        assert(views.drop_last().len() < views.len());
        assert forall|i: int| 0 <= i < views.drop_last().len() implies
            (#[trigger] views.drop_last()[i]).entrypoints.len() > 0 || views.drop_last()[i].dyntransition.len() > 0 by {
            assert(views.drop_last()[i] == views[i]);
        }
        law_no_exclusion_keeps_transitions(views.drop_last());
        lemma_trim_nothing(last.entrypoints);
        assert(views[views.len() - 1] == last);
        assert(trimmed(last, Set::empty()) == Some(TransitionView { entrypoints: last.entrypoints, ..last }));
        assert(views =~= views.drop_last() + seq![last]);
    } else {
        assert(filtered(views, Set::empty()) =~= views);
    }
}

/// Excluded types never remain in the graph: neither as a domain of a
/// transition nor as one of its entrypoints.
pub proof fn law_excluded_types_never_remain(views: Seq<TransitionView>, excluded: Set<usize>, remaining: TransitionView)
    requires
        filtered(views, excluded).contains(remaining),
    ensures
        !excluded.contains(remaining.source),
        !excluded.contains(remaining.target),
        forall|k: int| 0 <= k < remaining.entrypoints.len() ==> !excluded.contains(#[trigger] remaining.entrypoints[k].name),
{
    let keep = |v: TransitionView| trimmed(v, excluded);
    views.lemma_filter_map_contains(keep, remaining);
    let v = choose|v: TransitionView| #[trigger] views.contains(v) && keep(v) == Some(remaining);
    assert(trimmed(v, excluded) == Some(remaining));
    let entry_keep = |e: EntryView| if excluded.contains(e.name) { None } else { Some(e) };
    assert(remaining.entrypoints == v.entrypoints.filter_map(entry_keep));
    assert forall|k: int| 0 <= k < remaining.entrypoints.len() implies !excluded.contains(#[trigger] remaining.entrypoints[k].name) by {
        let x = remaining.entrypoints[k];
        assert(v.entrypoints.filter_map(entry_keep).contains(x));
        v.entrypoints.lemma_filter_map_contains(entry_keep, x);
    }
}

} // verus!
