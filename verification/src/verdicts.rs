//! What each check finds, given the rules a policy query selected for it.
use vstd::prelude::*;
use crate::text::{texts, owned, same_text, text_order, lemma_text_order_total};
use crate::policy::{Policy, expansion, expand, well_formed};
use crate::checker::{RuleEvaluation, ReadOnlyKind, CheckType, has_unexpected};
use crate::arguments::{text_view, copy_text};
use crate::checks::{AssertTe, AssertTeView, assert_te_view, assert_te_ok, AssertRbac, AssertRbacView, assert_rbac_view,
    assert_rbac_ok, ReadOnly, Check, CheckKind, CheckKindView, CheckView, Checker, check_ok, check_view, check_views,
    roles_well_formed, increasing, id_listing, lemma_id_listing, type_name_list, role_name_list, type_names,
    role_names, role_expansion, expand_role, add_all};

verus! {

/// The set of numbers a sequence holds.
pub open spec fn members(ids: Seq<usize>) -> Set<usize> {
    ids.to_set()
}

/// Some member of `actual` is neither expected nor exempt.
pub open spec fn unexpected(actual: Set<usize>, expected: Set<usize>, exempt: Set<usize>) -> bool {
    exists|x: usize| actual.contains(x) && !expected.contains(x) && !exempt.contains(x)
}

/// A selected TE rule is a finding when both its sources and its targets
/// include a type that is neither expected nor exempt.
pub open spec fn te_rule_fails(policy: Policy, settings: AssertTeView, r: usize) -> bool {
    let rule = policy.te_rules@[r as int];
    unexpected(members(expansion(policy, rule.source as int)), settings.expect_sources, settings.exempt_sources)
        && unexpected(members(expansion(policy, rule.target as int)), settings.expect_targets, settings.exempt_targets)
}

/// Whether the source (or target) of TE rule `r` stands for type `t`.
pub open spec fn rule_end_has(policy: Policy, r: usize, sources: bool, t: usize) -> bool {
    let rule = policy.te_rules@[r as int];
    members(expansion(policy, if sources { rule.source as int } else { rule.target as int })).contains(t)
}

/// The types the sources (or targets) of the selected TE rules stand for.
pub open spec fn te_types_seen(policy: Policy, selected: Seq<usize>, sources: bool) -> Set<usize> {
    Set::new(|t: usize| exists|i: int| 0 <= i < selected.len() && #[trigger] rule_end_has(policy, selected[i], sources, t))
}

/// A TE assertion's findings as plain values.
pub struct TeVerdictView {
    /// The rules that are findings, in query order.
    pub rules: Seq<usize>,
    /// Expected sources no selected rule has, by name.
    pub missing_sources: Seq<Seq<char>>,
    /// Expected targets no selected rule has, by name.
    pub missing_targets: Seq<Seq<char>>,
    /// Each selected rule and whether it is a finding.
    pub evaluated: Seq<(usize, bool)>,
}

/// What a TE assertion finds among the selected rules.
pub open spec fn te_verdict(policy: Policy, settings: AssertTeView, selected: Seq<usize>) -> TeVerdictView {
    TeVerdictView {
        rules: selected.filter_map(|r: usize| if te_rule_fails(policy, settings, r) { Some(r) } else { None }),
        missing_sources: type_name_list(policy, id_listing(settings.expect_sources.difference(te_types_seen(policy, selected, true)))),
        missing_targets: type_name_list(policy, id_listing(settings.expect_targets.difference(te_types_seen(policy, selected, false)))),
        evaluated: selected.map_values(|r: usize| (r, te_rule_fails(policy, settings, r))),
    }
}

/// A TE assertion's findings.
#[derive(Debug)]
pub struct TeVerdict {
    /// The rules that are findings, in query order.
    pub rules: Vec<usize>,
    /// Expected sources no selected rule has, by name.
    pub missing_sources: Vec<String>,
    /// Expected targets no selected rule has, by name.
    pub missing_targets: Vec<String>,
    /// Each selected rule and whether it is a finding.
    pub evaluated: Vec<RuleEvaluation>,
}

/// The plain values of TE findings.
pub open spec fn te_verdict_view(verdict: TeVerdict) -> TeVerdictView {
    TeVerdictView {
        rules: verdict.rules@,
        missing_sources: texts(verdict.missing_sources@),
        missing_targets: texts(verdict.missing_targets@),
        evaluated: verdict.evaluated@.map_values(|e: RuleEvaluation| (e.rule, e.failed)),
    }
}

/// The members of an increasing list that are not in `drop`.
fn without(set: &Vec<usize>, drop: &Vec<usize>) -> (result: Vec<usize>)
    requires
        increasing(set@),
    ensures
        increasing(result@),
        result@.to_set() == set@.to_set().difference(drop@.to_set()),
{
    let mut result: Vec<usize> = Vec::new();
    let mut index: usize = 0;
    while index < set.len()
        invariant
            index <= set.len(),
            increasing(set@),
            increasing(result@),
            forall|k: int| 0 <= k < result@.len() ==> exists|j: int| 0 <= j < index && set@[j] == #[trigger] result@[k],
            forall|y: usize| #[trigger] result@.contains(y) <==> (set@.take(index as int).contains(y) && !drop@.contains(y)),
        decreases set.len() - index,
    {
        let x = set[index];
        let ghost before = result@;
        if !crate::pairs::contains_type(drop, x) {
            result.push(x);
            proof {
                assert forall|i: int, j: int| 0 <= i < j < result@.len() implies result@[i] < result@[j] by {
                    if j == before.len() {
                        let m = choose|m: int| 0 <= m < index && set@[m] == #[trigger] before[i];
                        assert(set@[m] < set@[index as int]);
                    } else {
                        assert(before[i] == result@[i] && before[j] == result@[j]);
                    }
                }
                assert forall|k: int| 0 <= k < result@.len() implies exists|j: int| 0 <= j < index + 1 && set@[j] == #[trigger] result@[k] by {
                    if k < before.len() {
                        assert(before[k] == result@[k]);
                        let m = choose|m: int| 0 <= m < index && set@[m] == #[trigger] before[k];
                    } else {
                        assert(set@[index as int] == result@[k]);
                    }
                }
            }
        }
        proof {
            assert(set@.take(index + 1) =~= set@.take(index as int).push(x));
            assert forall|y: usize| #[trigger] result@.contains(y) <==> (set@.take(index + 1).contains(y) && !drop@.contains(y)) by {
                if result@.contains(y) {
                    let k = choose|k: int| 0 <= k < result@.len() && result@[k] == y;
                    if k < before.len() {
                        assert(before[k] == y);
                        assert(before.contains(y));
                        assert(set@.take(index as int).contains(y));
                        let m = choose|m: int| 0 <= m < index && set@.take(index as int)[m] == y;
                        assert(set@.take(index + 1)[m] == y);
                    } else {
                        assert(y == x);
                        assert(set@.take(index + 1)[index as int] == x);
                    }
                }
                if set@.take(index + 1).contains(y) && !drop@.contains(y) {
                    if y == x {
                        assert(result@[before.len() as int] == y);
                    } else {
                        assert(set@.take(index as int).contains(y));
                        assert(before.contains(y));
                        let k = choose|k: int| 0 <= k < before.len() && before[k] == y;
                        assert(result@[k] == y);
                    }
                }
            }
        }
        index = index + 1;
    }
    assert(set@.take(set.len() as int) =~= set@);
    assert(result@.to_set() =~= set@.to_set().difference(drop@.to_set()));
    result
}

/// Evaluates a TE assertion over the allow rules its query selected, in
/// query order.
pub fn evaluate_assert_te(policy: &Policy, settings: &AssertTe, selected: &Vec<usize>) -> (result: TeVerdict)
    requires
        assert_te_ok(*settings),
        forall|i: int| 0 <= i < selected@.len() ==> #[trigger] selected@[i] < policy.te_rules@.len(),
    ensures
        te_verdict_view(result) == te_verdict(*policy, assert_te_view(*settings), selected@),
{
    let ghost view = assert_te_view(*settings);
    let ghost fails = |r: usize| if te_rule_fails(*policy, view, r) { Some(r) } else { None };
    let ghost pair = |r: usize| (r, te_rule_fails(*policy, view, r));
    let mut unseen_sources = copy_ids(&settings.expect_sources);
    let mut unseen_targets = copy_ids(&settings.expect_targets);
    let mut rules: Vec<usize> = Vec::new();
    let mut evaluated: Vec<RuleEvaluation> = Vec::new();
    let mut index: usize = 0;
    proof {
        assert(selected@.take(0).filter_map(fails) =~= Seq::<usize>::empty());
        assert(te_types_seen(*policy, selected@.take(0), true) =~= Set::<usize>::empty());
        assert(te_types_seen(*policy, selected@.take(0), false) =~= Set::<usize>::empty());
        assert(view.expect_sources.difference(Set::<usize>::empty()) =~= view.expect_sources);
        assert(view.expect_targets.difference(Set::<usize>::empty()) =~= view.expect_targets);
    }
    while index < selected.len()
        invariant
            index <= selected.len(),
            assert_te_ok(*settings),
            view == assert_te_view(*settings),
            fails == (|r: usize| if te_rule_fails(*policy, view, r) { Some(r) } else { None }),
            pair == (|r: usize| (r, te_rule_fails(*policy, view, r))),
            forall|i: int| 0 <= i < selected@.len() ==> #[trigger] selected@[i] < policy.te_rules@.len(),
            increasing(unseen_sources@),
            increasing(unseen_targets@),
            unseen_sources@.to_set() == view.expect_sources.difference(te_types_seen(*policy, selected@.take(index as int), true)),
            unseen_targets@.to_set() == view.expect_targets.difference(te_types_seen(*policy, selected@.take(index as int), false)),
            rules@ == selected@.take(index as int).filter_map(fails),
            evaluated@.map_values(|e: RuleEvaluation| (e.rule, e.failed)) == selected@.take(index as int).map_values(pair),
        decreases selected.len() - index,
    {
        let r = selected[index];
        let rule = &policy.te_rules[r];
        let sources = expand(policy, rule.source);
        let targets = expand(policy, rule.target);
        let ghost seen_before_s = te_types_seen(*policy, selected@.take(index as int), true);
        let ghost seen_before_t = te_types_seen(*policy, selected@.take(index as int), false);
        unseen_sources = without(&unseen_sources, &sources);
        unseen_targets = without(&unseen_targets, &targets);
        let source_unexpected = has_unexpected(&sources, &settings.expect_sources, &settings.exempt_sources);
        let target_unexpected = has_unexpected(&targets, &settings.expect_targets, &settings.exempt_targets);
        let failed = source_unexpected && target_unexpected;
        proof {
            assert(source_unexpected == unexpected(members(sources@), view.expect_sources, view.exempt_sources)) by {
                if source_unexpected {
                    let x = choose|x: usize| sources@.contains(x) && !settings.expect_sources@.contains(x) && !settings.exempt_sources@.contains(x);
                    assert(members(sources@).contains(x));
                }
                if unexpected(members(sources@), view.expect_sources, view.exempt_sources) {
                    let x = choose|x: usize| members(sources@).contains(x) && !view.expect_sources.contains(x) && !view.exempt_sources.contains(x);
                    assert(sources@.contains(x));
                }
            }
            assert(target_unexpected == unexpected(members(targets@), view.expect_targets, view.exempt_targets)) by {
                if target_unexpected {
                    let x = choose|x: usize| targets@.contains(x) && !settings.expect_targets@.contains(x) && !settings.exempt_targets@.contains(x);
                    assert(members(targets@).contains(x));
                }
                if unexpected(members(targets@), view.expect_targets, view.exempt_targets) {
                    let x = choose|x: usize| members(targets@).contains(x) && !view.expect_targets.contains(x) && !view.exempt_targets.contains(x);
                    assert(targets@.contains(x));
                }
            }
            assert(failed == te_rule_fails(*policy, view, r));
            let next = selected@.take(index + 1);
            assert(next =~= selected@.take(index as int).push(r));
            assert(te_types_seen(*policy, next, true) =~= seen_before_s.union(members(sources@))) by {
                assert forall|t: usize| te_types_seen(*policy, next, true).contains(t) <==> seen_before_s.union(members(sources@)).contains(t) by {
                    if te_types_seen(*policy, next, true).contains(t) {
                        let i = choose|i: int| 0 <= i < next.len() && #[trigger] rule_end_has(*policy, next[i], true, t);
                        if i < index {
                            assert(selected@.take(index as int)[i] == next[i]);
                            assert(seen_before_s.contains(t));
                        }
                    }
                    if seen_before_s.contains(t) {
                        let i = choose|i: int| 0 <= i < index && #[trigger] rule_end_has(*policy, selected@.take(index as int)[i], true, t);
                        assert(next[i] == selected@.take(index as int)[i]);
                    }
                    if members(sources@).contains(t) {
                        assert(next[index as int] == r);
                        assert(rule_end_has(*policy, next[index as int], true, t));
                    }
                }
            }
            assert(te_types_seen(*policy, next, false) =~= seen_before_t.union(members(targets@))) by {
                assert forall|t: usize| te_types_seen(*policy, next, false).contains(t) <==> seen_before_t.union(members(targets@)).contains(t) by {
                    if te_types_seen(*policy, next, false).contains(t) {
                        let i = choose|i: int| 0 <= i < next.len() && #[trigger] rule_end_has(*policy, next[i], false, t);
                        if i < index {
                            assert(selected@.take(index as int)[i] == next[i]);
                            assert(seen_before_t.contains(t));
                        }
                    }
                    if seen_before_t.contains(t) {
                        let i = choose|i: int| 0 <= i < index && #[trigger] rule_end_has(*policy, selected@.take(index as int)[i], false, t);
                        assert(next[i] == selected@.take(index as int)[i]);
                    }
                    if members(targets@).contains(t) {
                        assert(next[index as int] == r);
                        assert(rule_end_has(*policy, next[index as int], false, t));
                    }
                }
            }
            assert(unseen_sources@.to_set() =~= view.expect_sources.difference(te_types_seen(*policy, next, true)));
            assert(unseen_targets@.to_set() =~= view.expect_targets.difference(te_types_seen(*policy, next, false)));
            selected@.lemma_filter_map_take_succ(fails, index as int);
        }
        if failed {
            rules.push(r);
        }
        let ghost before = evaluated@.map_values(|e: RuleEvaluation| (e.rule, e.failed));
        evaluated.push(RuleEvaluation { rule: r, failed });
        proof {
            assert(evaluated@.map_values(|e: RuleEvaluation| (e.rule, e.failed)) =~= before.push((r, failed)));
            assert(selected@.take(index + 1).map_values(pair) =~= selected@.take(index as int).map_values(pair).push(pair(r)));
        }
        index = index + 1;
    }
    proof {
        assert(selected@.take(selected.len() as int) =~= selected@);
        lemma_id_listing(unseen_sources@);
        lemma_id_listing(unseen_targets@);
    }
    let missing_sources = type_names(policy, &unseen_sources);
    let missing_targets = type_names(policy, &unseen_targets);
    TeVerdict { rules, missing_sources, missing_targets, evaluated }
}

/// A selected role allow rule is a finding when both its sources and its
/// targets include a role that is neither expected nor exempt.
pub open spec fn rbac_rule_fails(policy: Policy, settings: AssertRbacView, r: usize) -> bool {
    let rule = policy.role_allows@[r as int];
    unexpected(members(role_expansion(policy, rule.source as int)), settings.expect_sources, settings.exempt_sources)
        && unexpected(members(role_expansion(policy, rule.target as int)), settings.expect_targets, settings.exempt_targets)
}

/// Whether the source (or target) of role allow rule `r` stands for role `t`.
pub open spec fn role_end_has(policy: Policy, r: usize, sources: bool, t: usize) -> bool {
    let rule = policy.role_allows@[r as int];
    members(role_expansion(policy, if sources { rule.source as int } else { rule.target as int })).contains(t)
}

/// The roles the sources (or targets) of the selected role allow rules stand for.
pub open spec fn roles_seen(policy: Policy, selected: Seq<usize>, sources: bool) -> Set<usize> {
    Set::new(|t: usize| exists|i: int| 0 <= i < selected.len() && #[trigger] role_end_has(policy, selected[i], sources, t))
}

/// An RBAC assertion's findings as plain values.
pub struct RbacVerdictView {
    /// The rules that are findings, in query order.
    pub rules: Seq<usize>,
    /// Expected source roles no selected rule has, by name.
    pub missing_sources: Seq<Seq<char>>,
    /// Expected target roles no selected rule has, by name.
    pub missing_targets: Seq<Seq<char>>,
    /// Each selected rule and whether it is a finding.
    pub evaluated: Seq<(usize, bool)>,
}

/// What an RBAC assertion finds among the selected role allow rules.
pub open spec fn rbac_verdict(policy: Policy, settings: AssertRbacView, selected: Seq<usize>) -> RbacVerdictView {
    RbacVerdictView {
        rules: selected.filter_map(|r: usize| if rbac_rule_fails(policy, settings, r) { Some(r) } else { None }),
        missing_sources: role_name_list(policy, id_listing(settings.expect_sources.difference(roles_seen(policy, selected, true)))),
        missing_targets: role_name_list(policy, id_listing(settings.expect_targets.difference(roles_seen(policy, selected, false)))),
        evaluated: selected.map_values(|r: usize| (r, rbac_rule_fails(policy, settings, r))),
    }
}

/// An RBAC assertion's findings.
#[derive(Debug)]
pub struct RbacVerdict {
    /// The rules that are findings, in query order.
    pub rules: Vec<usize>,
    /// Expected source roles no selected rule has, by name.
    pub missing_sources: Vec<String>,
    /// Expected target roles no selected rule has, by name.
    pub missing_targets: Vec<String>,
    /// Each selected rule and whether it is a finding.
    pub evaluated: Vec<RuleEvaluation>,
}

/// The plain values of RBAC findings.
pub open spec fn rbac_verdict_view(verdict: RbacVerdict) -> RbacVerdictView {
    RbacVerdictView {
        rules: verdict.rules@,
        missing_sources: texts(verdict.missing_sources@),
        missing_targets: texts(verdict.missing_targets@),
        evaluated: verdict.evaluated@.map_values(|e: RuleEvaluation| (e.rule, e.failed)),
    }
}

/// Evaluates an RBAC assertion over the role allow rules its query
/// selected, in query order.
pub fn evaluate_assert_rbac(policy: &Policy, settings: &AssertRbac, selected: &Vec<usize>) -> (result: RbacVerdict)
    requires
        assert_rbac_ok(*settings),
        forall|i: int| 0 <= i < selected@.len() ==> #[trigger] selected@[i] < policy.role_allows@.len(),
    ensures
        rbac_verdict_view(result) == rbac_verdict(*policy, assert_rbac_view(*settings), selected@),
{
    let ghost view = assert_rbac_view(*settings);
    let ghost fails = |r: usize| if rbac_rule_fails(*policy, view, r) { Some(r) } else { None };
    let ghost pair = |r: usize| (r, rbac_rule_fails(*policy, view, r));
    let mut unseen_sources = copy_ids(&settings.expect_sources);
    let mut unseen_targets = copy_ids(&settings.expect_targets);
    let mut rules: Vec<usize> = Vec::new();
    let mut evaluated: Vec<RuleEvaluation> = Vec::new();
    let mut index: usize = 0;
    proof {
        assert(selected@.take(0).filter_map(fails) =~= Seq::<usize>::empty());
        assert(roles_seen(*policy, selected@.take(0), true) =~= Set::<usize>::empty());
        assert(roles_seen(*policy, selected@.take(0), false) =~= Set::<usize>::empty());
        assert(view.expect_sources.difference(Set::<usize>::empty()) =~= view.expect_sources);
        assert(view.expect_targets.difference(Set::<usize>::empty()) =~= view.expect_targets);
    }
    while index < selected.len()
        invariant
            index <= selected.len(),
            assert_rbac_ok(*settings),
            view == assert_rbac_view(*settings),
            fails == (|r: usize| if rbac_rule_fails(*policy, view, r) { Some(r) } else { None }),
            pair == (|r: usize| (r, rbac_rule_fails(*policy, view, r))),
            forall|i: int| 0 <= i < selected@.len() ==> #[trigger] selected@[i] < policy.role_allows@.len(),
            increasing(unseen_sources@),
            increasing(unseen_targets@),
            unseen_sources@.to_set() == view.expect_sources.difference(roles_seen(*policy, selected@.take(index as int), true)),
            unseen_targets@.to_set() == view.expect_targets.difference(roles_seen(*policy, selected@.take(index as int), false)),
            rules@ == selected@.take(index as int).filter_map(fails),
            evaluated@.map_values(|e: RuleEvaluation| (e.rule, e.failed)) == selected@.take(index as int).map_values(pair),
        decreases selected.len() - index,
    {
        let r = selected[index];
        let rule = &policy.role_allows[r];
        let sources = expand_role(policy, rule.source);
        let targets = expand_role(policy, rule.target);
        let ghost seen_before_s = roles_seen(*policy, selected@.take(index as int), true);
        let ghost seen_before_t = roles_seen(*policy, selected@.take(index as int), false);
        unseen_sources = without(&unseen_sources, &sources);
        unseen_targets = without(&unseen_targets, &targets);
        let source_unexpected = has_unexpected(&sources, &settings.expect_sources, &settings.exempt_sources);
        let target_unexpected = has_unexpected(&targets, &settings.expect_targets, &settings.exempt_targets);
        let failed = source_unexpected && target_unexpected;
        proof {
            assert(source_unexpected == unexpected(members(sources@), view.expect_sources, view.exempt_sources)) by {
                if source_unexpected {
                    let x = choose|x: usize| sources@.contains(x) && !settings.expect_sources@.contains(x) && !settings.exempt_sources@.contains(x);
                    assert(members(sources@).contains(x));
                }
                if unexpected(members(sources@), view.expect_sources, view.exempt_sources) {
                    let x = choose|x: usize| members(sources@).contains(x) && !view.expect_sources.contains(x) && !view.exempt_sources.contains(x);
                    assert(sources@.contains(x));
                }
            }
            assert(target_unexpected == unexpected(members(targets@), view.expect_targets, view.exempt_targets)) by {
                if target_unexpected {
                    let x = choose|x: usize| targets@.contains(x) && !settings.expect_targets@.contains(x) && !settings.exempt_targets@.contains(x);
                    assert(members(targets@).contains(x));
                }
                if unexpected(members(targets@), view.expect_targets, view.exempt_targets) {
                    let x = choose|x: usize| members(targets@).contains(x) && !view.expect_targets.contains(x) && !view.exempt_targets.contains(x);
                    assert(targets@.contains(x));
                }
            }
            assert(failed == rbac_rule_fails(*policy, view, r));
            let next = selected@.take(index + 1);
            assert(next =~= selected@.take(index as int).push(r));
            assert(roles_seen(*policy, next, true) =~= seen_before_s.union(members(sources@))) by {
                assert forall|t: usize| roles_seen(*policy, next, true).contains(t) <==> seen_before_s.union(members(sources@)).contains(t) by {
                    if roles_seen(*policy, next, true).contains(t) {
                        let i = choose|i: int| 0 <= i < next.len() && #[trigger] role_end_has(*policy, next[i], true, t);
                        if i < index {
                            assert(selected@.take(index as int)[i] == next[i]);
                            assert(seen_before_s.contains(t));
                        }
                    }
                    if seen_before_s.contains(t) {
                        let i = choose|i: int| 0 <= i < index && #[trigger] role_end_has(*policy, selected@.take(index as int)[i], true, t);
                        assert(next[i] == selected@.take(index as int)[i]);
                    }
                    if members(sources@).contains(t) {
                        assert(next[index as int] == r);
                        assert(role_end_has(*policy, next[index as int], true, t));
                    }
                }
            }
            assert(roles_seen(*policy, next, false) =~= seen_before_t.union(members(targets@))) by {
                assert forall|t: usize| roles_seen(*policy, next, false).contains(t) <==> seen_before_t.union(members(targets@)).contains(t) by {
                    if roles_seen(*policy, next, false).contains(t) {
                        let i = choose|i: int| 0 <= i < next.len() && #[trigger] role_end_has(*policy, next[i], false, t);
                        if i < index {
                            assert(selected@.take(index as int)[i] == next[i]);
                            assert(seen_before_t.contains(t));
                        }
                    }
                    if seen_before_t.contains(t) {
                        let i = choose|i: int| 0 <= i < index && #[trigger] role_end_has(*policy, selected@.take(index as int)[i], false, t);
                        assert(next[i] == selected@.take(index as int)[i]);
                    }
                    if members(targets@).contains(t) {
                        assert(next[index as int] == r);
                        assert(role_end_has(*policy, next[index as int], false, t));
                    }
                }
            }
            assert(unseen_sources@.to_set() =~= view.expect_sources.difference(roles_seen(*policy, next, true)));
            assert(unseen_targets@.to_set() =~= view.expect_targets.difference(roles_seen(*policy, next, false)));
            selected@.lemma_filter_map_take_succ(fails, index as int);
        }
        if failed {
            rules.push(r);
        }
        let ghost before = evaluated@.map_values(|e: RuleEvaluation| (e.rule, e.failed));
        evaluated.push(RuleEvaluation { rule: r, failed });
        proof {
            assert(evaluated@.map_values(|e: RuleEvaluation| (e.rule, e.failed)) =~= before.push((r, failed)));
            assert(selected@.take(index + 1).map_values(pair) =~= selected@.take(index as int).map_values(pair).push(pair(r)));
        }
        index = index + 1;
    }
    proof {
        assert(selected@.take(selected.len() as int) =~= selected@);
        lemma_id_listing(unseen_sources@);
        lemma_id_listing(unseen_targets@);
    }
    let missing_sources = role_names(policy, &unseen_sources);
    let missing_targets = role_names(policy, &unseen_targets);
    RbacVerdict { rules, missing_sources, missing_targets, evaluated }
}

/// Copies a list of numbers.
fn copy_ids(ids: &Vec<usize>) -> (result: Vec<usize>)
    ensures
        result@ == ids@,
{
    let mut result: Vec<usize> = Vec::new();
    let mut index: usize = 0;
    while index < ids.len()
        invariant
            index <= ids.len(),
            result@ == ids@.take(index as int),
        decreases ids.len() - index,
    {
        result.push(ids[index]);
        index = index + 1;
        assert(result@ =~= ids@.take(index as int));
    }
    assert(ids@.take(ids.len() as int) =~= ids@);
    result
}


/// The sets a read-only check looks at, as plain values.
pub struct ReadOnlyView {
    /// The kind of file protected.
    pub kind: ReadOnlyKind,
    /// Domains allowed to write the files.
    pub writers: Set<usize>,
    /// Domains whose execute or load rules are ignored.
    pub users: Set<usize>,
    /// File types left unchecked.
    pub files: Set<usize>,
}

/// The plain values of read-only settings.
pub open spec fn read_only_view(settings: ReadOnly) -> ReadOnlyView {
    ReadOnlyView {
        kind: settings.kind,
        writers: settings.exempt_writers@.to_set(),
        users: settings.exempt_users@.to_set(),
        files: settings.exempt_files@.to_set(),
    }
}

/// Some number is in the set.
pub open spec fn occupied(s: Set<usize>) -> bool {
    exists|x: usize| s.contains(x)
}

/// The domains that use files through use rule `r`, exempt users left out.
pub open spec fn use_sources(policy: Policy, settings: ReadOnlyView, r: usize) -> Set<usize> {
    members(expansion(policy, policy.te_rules@[r as int].source as int)).difference(settings.users)
}

/// The file types use rule `r` protects: exempt files left out, and for
/// kernel modules also the domains that load through the rule.
pub open spec fn use_targets(policy: Policy, settings: ReadOnlyView, r: usize) -> Set<usize> {
    let targets = members(expansion(policy, policy.te_rules@[r as int].target as int)).difference(
        settings.files,
    );
    match settings.kind {
        ReadOnlyKind::KernelModule => targets.difference(use_sources(policy, settings, r)),
        ReadOnlyKind::Executable => targets,
    }
}

/// A use rule counts when some domain uses some file type through it.
pub open spec fn use_counts(policy: Policy, settings: ReadOnlyView, r: usize) -> bool {
    occupied(use_sources(policy, settings, r)) && occupied(use_targets(policy, settings, r))
}

/// Use rule `r` makes file type `t` protected.
pub open spec fn protects(policy: Policy, settings: ReadOnlyView, r: usize, t: usize) -> bool {
    use_counts(policy, settings, r) && use_targets(policy, settings, r).contains(t)
}

/// The file types the selected use rules protect.
pub open spec fn protected_types(policy: Policy, settings: ReadOnlyView, uses: Seq<usize>) -> Set<usize> {
    Set::new(|t: usize| exists|i: int| 0 <= i < uses.len() && #[trigger] protects(policy, settings, uses[i], t))
}

/// Write rule `w` lets some domain that is not exempt write file type `t`.
pub open spec fn writes(policy: Policy, settings: ReadOnlyView, w: usize, t: usize) -> bool {
    let rule = policy.te_rules@[w as int];
    members(expansion(policy, rule.target as int)).contains(t) && occupied(
        members(expansion(policy, rule.source as int)).difference(settings.writers),
    )
}

/// The selected use rules that protect `t`, in query order.
pub open spec fn users_of(policy: Policy, settings: ReadOnlyView, uses: Seq<usize>, t: usize) -> Seq<usize> {
    uses.filter_map(|r: usize| if protects(policy, settings, r, t) { Some(r) } else { None })
}

/// The selected write rules that make `t` writable, in query order.
pub open spec fn writers_of(policy: Policy, settings: ReadOnlyView, writers: Seq<usize>, t: usize) -> Seq<usize> {
    writers.filter_map(|w: usize| if writes(policy, settings, w, t) { Some(w) } else { None })
}

/// The protected file types some selected write rule makes writable.
pub open spec fn writable_types(policy: Policy, settings: ReadOnlyView, uses: Seq<usize>, writers: Seq<usize>) -> Set<usize> {
    protected_types(policy, settings, uses).filter(|t: usize| writers_of(policy, settings, writers, t).len() > 0)
}

/// The member of `candidates` with the given name.
pub open spec fn type_of_name(policy: Policy, candidates: Set<usize>, name: Seq<char>) -> usize {
    choose|t: usize| candidates.contains(t) && policy.types@[t as int].name@ == name
}

/// A writable protected file type as plain values.
pub struct WritableFileView {
    /// The file type's name.
    pub name: Seq<char>,
    /// The use rules that protect it.
    pub use_rules: Seq<usize>,
    /// The write rules that make it writable.
    pub write_rules: Seq<usize>,
}

/// A read-only check's findings as plain values.
pub struct ReadOnlyVerdictView {
    /// The names of the protected file types, by increasing number.
    pub checked_types: Seq<Seq<char>>,
    /// The writable protected file types, by name.
    pub files: Seq<WritableFileView>,
    /// The names of the exempt using domains, sorted.
    pub exempt_users: Seq<Seq<char>>,
    /// Each selected use rule and the names of the file types it protects.
    pub use_rules: Seq<(usize, Seq<Seq<char>>)>,
}

/// What a read-only check finds among the selected use and write rules.
pub open spec fn read_only_verdict(policy: Policy, settings: ReadOnlyView, uses: Seq<usize>, writers: Seq<usize>) -> ReadOnlyVerdictView {
    let writable = writable_types(policy, settings, uses, writers);
    ReadOnlyVerdictView {
        checked_types: id_listing(protected_types(policy, settings, uses)).map_values(
            |t: usize| policy.types@[t as int].name@,
        ),
        files: type_name_list(policy, id_listing(writable)).map_values(
            |name: Seq<char>|
                WritableFileView {
                    name: name,
                    use_rules: users_of(policy, settings, uses, type_of_name(policy, writable, name)),
                    write_rules: writers_of(policy, settings, writers, type_of_name(policy, writable, name)),
                },
        ),
        exempt_users: type_name_list(policy, id_listing(settings.users)),
        use_rules: uses.map_values(
            |r: usize|
                (r, if use_counts(policy, settings, r) {
                    type_name_list(policy, id_listing(use_targets(policy, settings, r)))
                } else {
                    Seq::empty()
                }),
        ),
    }
}

/// Evidence that a protected file type is writable.
#[derive(Debug)]
pub struct WritableFile {
    /// The file type's name.
    pub name: String,
    /// The use rules that protect it, in query order.
    pub use_rules: Vec<usize>,
    /// The write rules that make it writable, in query order.
    pub write_rules: Vec<usize>,
}

/// A use rule and the names of the file types it protects.
#[derive(Debug)]
pub struct UseRuleEvaluation {
    /// The position of the rule.
    pub rule: usize,
    /// The protected file types, by name; none when the rule does not count.
    pub targets: Vec<String>,
}

/// A read-only check's findings.
#[derive(Debug)]
pub struct ReadOnlyVerdict {
    /// The names of the protected file types, by increasing number.
    pub checked_types: Vec<String>,
    /// The writable protected file types, by name.
    pub files: Vec<WritableFile>,
    /// The names of the exempt using domains, sorted.
    pub exempt_users: Vec<String>,
    /// Each selected use rule and the file types it protects.
    pub use_rules: Vec<UseRuleEvaluation>,
}

/// The plain values of a writable file finding.
pub open spec fn writable_file_view(file: WritableFile) -> WritableFileView {
    WritableFileView { name: file.name@, use_rules: file.use_rules@, write_rules: file.write_rules@ }
}

/// The plain values of read-only findings.
pub open spec fn read_only_verdict_view(verdict: ReadOnlyVerdict) -> ReadOnlyVerdictView {
    ReadOnlyVerdictView {
        checked_types: texts(verdict.checked_types@),
        files: verdict.files@.map_values(|f: WritableFile| writable_file_view(f)),
        exempt_users: texts(verdict.exempt_users@),
        use_rules: verdict.use_rules@.map_values(|u: UseRuleEvaluation| (u.rule, texts(u.targets@))),
    }
}


/// The members of a list, increasing.
fn normalized(items: &Vec<usize>) -> (result: Vec<usize>)
    ensures
        increasing(result@),
        result@.to_set() == items@.to_set(),
{
    let mut result: Vec<usize> = Vec::new();
    proof {
        assert(result@.to_set() =~= Set::<usize>::empty());
        assert(Set::<usize>::empty().union(items@.to_set()) =~= items@.to_set());
    }
    add_all(&mut result, items);
    result
}

/// A list with the members of `set` is empty exactly when the set is.
proof fn lemma_occupied(ids: Seq<usize>, set: Set<usize>)
    requires
        ids.to_set() == set,
    ensures
        occupied(set) <==> ids.len() > 0,
{
    if ids.len() > 0 {
        assert(ids.to_set().contains(ids[0]));
    }
    if occupied(set) {
        let x = choose|x: usize| set.contains(x);
        assert(ids.contains(x));
    }
}

/// The file types use rule `r` protects when it counts, and none when it
/// does not.
fn counted_targets(policy: &Policy, settings: &ReadOnly, r: usize) -> (result: Vec<usize>)
    requires
        r < policy.te_rules@.len(),
        increasing(settings.exempt_users@),
        increasing(settings.exempt_files@),
    ensures
        increasing(result@),
        result@.to_set() == if use_counts(*policy, read_only_view(*settings), r) {
            use_targets(*policy, read_only_view(*settings), r)
        } else {
            Set::<usize>::empty()
        },
{
    let rule = &policy.te_rules[r];
    let sources = without(&normalized(&expand(policy, rule.source)), &settings.exempt_users);
    let mut targets = without(&normalized(&expand(policy, rule.target)), &settings.exempt_files);
    match settings.kind {
        ReadOnlyKind::KernelModule => {
            targets = without(&targets, &sources);
        },
        ReadOnlyKind::Executable => {},
    }
    proof {
        assert(sources@.to_set() == use_sources(*policy, read_only_view(*settings), r));
        assert(targets@.to_set() == use_targets(*policy, read_only_view(*settings), r));
        lemma_occupied(sources@, use_sources(*policy, read_only_view(*settings), r));
        lemma_occupied(targets@, use_targets(*policy, read_only_view(*settings), r));
    }
    if sources.len() > 0 && targets.len() > 0 {
        targets
    } else {
        let none: Vec<usize> = Vec::new();
        assert(none@.to_set() =~= Set::<usize>::empty());
        none
    }
}

/// Whether use rule `r` makes file type `t` protected.
fn protects_type(policy: &Policy, settings: &ReadOnly, r: usize, t: usize) -> (result: bool)
    requires
        r < policy.te_rules@.len(),
        increasing(settings.exempt_users@),
        increasing(settings.exempt_files@),
    ensures
        result == protects(*policy, read_only_view(*settings), r, t),
{
    let targets = counted_targets(policy, settings, r);
    let found = crate::pairs::contains_type(&targets, t);
    assert(found == targets@.to_set().contains(t));
    found
}

/// Whether write rule `w` lets some domain that is not exempt write `t`.
fn writes_type(policy: &Policy, settings: &ReadOnly, w: usize, t: usize) -> (result: bool)
    requires
        w < policy.te_rules@.len(),
    ensures
        result == writes(*policy, read_only_view(*settings), w, t),
{
    let rule = &policy.te_rules[w];
    let targets = expand(policy, rule.target);
    let sources = expand(policy, rule.source);
    let nobody: Vec<usize> = Vec::new();
    let hit = crate::pairs::contains_type(&targets, t);
    let open = has_unexpected(&sources, &settings.exempt_writers, &nobody);
    proof {
        let free = members(sources@).difference(members(settings.exempt_writers@));
        if open {
            let x = choose|x: usize| sources@.contains(x) && !settings.exempt_writers@.contains(x) && !nobody@.contains(x);
            assert(free.contains(x));
        }
        if occupied(free) {
            let x = choose|x: usize| free.contains(x);
            assert(sources@.contains(x) && !settings.exempt_writers@.contains(x) && !nobody@.contains(x));
        }
        assert(hit == members(targets@).contains(t));
    }
    hit && open
}

/// The selected use rules that protect `t`, in query order.
fn users_of_type(policy: &Policy, settings: &ReadOnly, uses: &Vec<usize>, t: usize) -> (result: Vec<usize>)
    requires
        forall|i: int| 0 <= i < uses@.len() ==> #[trigger] uses@[i] < policy.te_rules@.len(),
        increasing(settings.exempt_users@),
        increasing(settings.exempt_files@),
    ensures
        result@ == users_of(*policy, read_only_view(*settings), uses@, t),
{
    let ghost keep = |r: usize| if protects(*policy, read_only_view(*settings), r, t) { Some(r) } else { None };
    let mut result: Vec<usize> = Vec::new();
    let mut index: usize = 0;
    assert(uses@.take(0).filter_map(keep) =~= Seq::<usize>::empty());
    while index < uses.len()
        invariant
            index <= uses.len(),
            forall|i: int| 0 <= i < uses@.len() ==> #[trigger] uses@[i] < policy.te_rules@.len(),
            increasing(settings.exempt_users@),
            increasing(settings.exempt_files@),
            keep == (|r: usize| if protects(*policy, read_only_view(*settings), r, t) { Some(r) } else { None }),
            result@ == uses@.take(index as int).filter_map(keep),
        decreases uses.len() - index,
    {
        let r = uses[index];
        proof {
            uses@.lemma_filter_map_take_succ(keep, index as int);
        }
        if protects_type(policy, settings, r, t) {
            result.push(r);
        }
        index = index + 1;
    }
    assert(uses@.take(uses.len() as int) =~= uses@);
    result
}

/// The selected write rules that make `t` writable, in query order.
fn writers_of_type(policy: &Policy, settings: &ReadOnly, writers: &Vec<usize>, t: usize) -> (result: Vec<usize>)
    requires
        forall|i: int| 0 <= i < writers@.len() ==> #[trigger] writers@[i] < policy.te_rules@.len(),
    ensures
        result@ == writers_of(*policy, read_only_view(*settings), writers@, t),
{
    let ghost keep = |w: usize| if writes(*policy, read_only_view(*settings), w, t) { Some(w) } else { None };
    let mut result: Vec<usize> = Vec::new();
    let mut index: usize = 0;
    assert(writers@.take(0).filter_map(keep) =~= Seq::<usize>::empty());
    while index < writers.len()
        invariant
            index <= writers.len(),
            forall|i: int| 0 <= i < writers@.len() ==> #[trigger] writers@[i] < policy.te_rules@.len(),
            keep == (|w: usize| if writes(*policy, read_only_view(*settings), w, t) { Some(w) } else { None }),
            result@ == writers@.take(index as int).filter_map(keep),
        decreases writers.len() - index,
    {
        let w = writers[index];
        proof {
            writers@.lemma_filter_map_take_succ(keep, index as int);
        }
        if writes_type(policy, settings, w, t) {
            result.push(w);
        }
        index = index + 1;
    }
    assert(writers@.take(writers.len() as int) =~= writers@);
    result
}


/// In a well-formed policy every type a symbol stands for is a type of the
/// policy.
proof fn lemma_expansion_in_policy(policy: Policy, symbol: int, t: usize)
    requires
        well_formed(policy),
        members(expansion(policy, symbol)).contains(t),
    ensures
        t < policy.types@.len(),
{
    let ids = expansion(policy, symbol);
    let k = choose|k: int| 0 <= k < ids.len() && ids[k] == t;
    if 0 <= symbol < policy.types@.len() && policy.types@[symbol].attribute {
        let entry = policy.types@[symbol];
        assert(entry.members@[k] == t);
    }
}

/// The trace entry of one use rule.
pub open spec fn use_trace(policy: Policy, settings: ReadOnlyView, r: usize) -> (usize, Seq<Seq<char>>) {
    (r, if use_counts(policy, settings, r) {
        type_name_list(policy, id_listing(use_targets(policy, settings, r)))
    } else {
        Seq::empty()
    })
}

/// The protected file types, increasing, and the trace of the use rules.
fn protected_and_trace(policy: &Policy, settings: &ReadOnly, uses: &Vec<usize>) -> (result: (Vec<usize>, Vec<UseRuleEvaluation>))
    requires
        forall|i: int| 0 <= i < uses@.len() ==> #[trigger] uses@[i] < policy.te_rules@.len(),
        increasing(settings.exempt_users@),
        increasing(settings.exempt_files@),
    ensures
        increasing(result.0@),
        result.0@.to_set() == protected_types(*policy, read_only_view(*settings), uses@),
        result.1@.map_values(|u: UseRuleEvaluation| (u.rule, texts(u.targets@))) == uses@.map_values(
            |r: usize| use_trace(*policy, read_only_view(*settings), r),
        ),
{
    let ghost step = |r: usize| use_trace(*policy, read_only_view(*settings), r);
    let mut protected: Vec<usize> = Vec::new();
    let mut trace: Vec<UseRuleEvaluation> = Vec::new();
    let mut index: usize = 0;
    proof {
        assert(protected@.to_set() =~= protected_types(*policy, read_only_view(*settings), uses@.take(0)));
        assert(trace@.map_values(|u: UseRuleEvaluation| (u.rule, texts(u.targets@))) =~= uses@.take(0).map_values(step));
    }
    while index < uses.len()
        invariant
            index <= uses.len(),
            forall|i: int| 0 <= i < uses@.len() ==> #[trigger] uses@[i] < policy.te_rules@.len(),
            increasing(settings.exempt_users@),
            increasing(settings.exempt_files@),
            step == (|r: usize| use_trace(*policy, read_only_view(*settings), r)),
            increasing(protected@),
            protected@.to_set() == protected_types(*policy, read_only_view(*settings), uses@.take(index as int)),
            trace@.map_values(|u: UseRuleEvaluation| (u.rule, texts(u.targets@))) == uses@.take(index as int).map_values(step),
        decreases uses.len() - index,
    {
        let r = uses[index];
        let targets = counted_targets(policy, settings, r);
        let ghost before = protected@.to_set();
        add_all(&mut protected, &targets);
        let names = if targets.len() > 0 {
            type_names(policy, &targets)
        } else {
            Vec::new()
        };
        proof {
            let next = uses@.take(index + 1);
            assert(next =~= uses@.take(index as int).push(r));
            assert(protected_types(*policy, read_only_view(*settings), next) =~= before.union(targets@.to_set())) by {
                assert forall|t: usize| #[trigger] protected_types(*policy, read_only_view(*settings), next).contains(t)
                    <==> before.union(targets@.to_set()).contains(t) by {
                    if protected_types(*policy, read_only_view(*settings), next).contains(t) {
                        let i = choose|i: int| 0 <= i < next.len() && #[trigger] protects(*policy, read_only_view(*settings), next[i], t);
                        if i < index {
                            assert(uses@.take(index as int)[i] == next[i]);
                            assert(protected_types(*policy, read_only_view(*settings), uses@.take(index as int)).contains(t));
                        } else {
                            assert(next[i] == r);
                        }
                    }
                    if before.contains(t) {
                        let i = choose|i: int| 0 <= i < index && #[trigger] protects(*policy, read_only_view(*settings), uses@.take(index as int)[i], t);
                        assert(next[i] == uses@.take(index as int)[i]);
                    }
                    if targets@.to_set().contains(t) {
                        assert(next[index as int] == r);
                        assert(protects(*policy, read_only_view(*settings), next[index as int], t));
                    }
                }
            }
            if use_counts(*policy, read_only_view(*settings), r) {
                lemma_occupied(targets@, use_targets(*policy, read_only_view(*settings), r));
                lemma_id_listing(targets@);
            } else {
                lemma_occupied(targets@, Set::<usize>::empty());
            }
            assert(texts(names@) == step(r).1);
        }
        let ghost shown = trace@.map_values(|u: UseRuleEvaluation| (u.rule, texts(u.targets@)));
        trace.push(UseRuleEvaluation { rule: r, targets: names });
        proof {
            assert(trace@.map_values(|u: UseRuleEvaluation| (u.rule, texts(u.targets@))) =~= shown.push(step(r)));
            assert(uses@.take(index + 1).map_values(step) =~= uses@.take(index as int).map_values(step).push(step(r)));
        }
        index = index + 1;
    }
    assert(uses@.take(uses.len() as int) =~= uses@);
    (protected, trace)
}


/// The names of the given types, in the given order.
fn names_in_order(policy: &Policy, ids: &Vec<usize>) -> (result: Vec<String>)
    requires
        forall|i: int| 0 <= i < ids@.len() ==> #[trigger] ids@[i] < policy.types@.len(),
    ensures
        texts(result@) == ids@.map_values(|t: usize| policy.types@[t as int].name@),
{
    let ghost name = |t: usize| policy.types@[t as int].name@;
    let mut result: Vec<String> = Vec::new();
    let mut index: usize = 0;
    assert(texts(result@) =~= ids@.take(0).map_values(name));
    while index < ids.len()
        invariant
            index <= ids.len(),
            forall|i: int| 0 <= i < ids@.len() ==> #[trigger] ids@[i] < policy.types@.len(),
            name == (|t: usize| policy.types@[t as int].name@),
            texts(result@) == ids@.take(index as int).map_values(name),
        decreases ids.len() - index,
    {
        let t = ids[index];
        let text = owned(policy.types[t].name.as_str());
        let ghost before = texts(result@);
        result.push(text);
        proof {
            assert(texts(result@) =~= before.push(name(t)));
            assert(ids@.take(index + 1).map_values(name) =~= ids@.take(index as int).map_values(name).push(name(t)));
        }
        index = index + 1;
    }
    assert(ids@.take(ids.len() as int) =~= ids@);
    result
}

/// Each writable type comes with its use rules and its write rules.
pub open spec fn rules_match(
    policy: Policy,
    settings: ReadOnlyView,
    uses: Seq<usize>,
    writers: Seq<usize>,
    writable: Seq<usize>,
    users: Seq<Vec<usize>>,
    writing: Seq<Vec<usize>>,
) -> bool {
    &&& users.len() == writable.len()
    &&& writing.len() == writable.len()
    &&& forall|j: int| 0 <= j < writable.len() ==> {
        &&& (#[trigger] users[j])@ == users_of(policy, settings, uses, writable[j])
        &&& writing[j]@ == writers_of(policy, settings, writers, writable[j])
    }
}

/// The protected types some selected write rule makes writable,
/// increasing, each with its use rules and its write rules.
fn writable_files(
    policy: &Policy,
    settings: &ReadOnly,
    uses: &Vec<usize>,
    writers: &Vec<usize>,
    protected: &Vec<usize>,
) -> (result: (Vec<usize>, Vec<Vec<usize>>, Vec<Vec<usize>>))
    requires
        forall|i: int| 0 <= i < uses@.len() ==> #[trigger] uses@[i] < policy.te_rules@.len(),
        forall|i: int| 0 <= i < writers@.len() ==> #[trigger] writers@[i] < policy.te_rules@.len(),
        increasing(settings.exempt_users@),
        increasing(settings.exempt_files@),
        increasing(protected@),
    ensures
        increasing(result.0@),
        result.0@.to_set() == protected@.to_set().filter(
            |t: usize| writers_of(*policy, read_only_view(*settings), writers@, t).len() > 0,
        ),
        rules_match(*policy, read_only_view(*settings), uses@, writers@, result.0@, result.1@, result.2@),
{
    let mut writable: Vec<usize> = Vec::new();
    let mut users: Vec<Vec<usize>> = Vec::new();
    let mut writing: Vec<Vec<usize>> = Vec::new();
    let mut index: usize = 0;
    while index < protected.len()
        invariant
            index <= protected.len(),
            forall|i: int| 0 <= i < uses@.len() ==> #[trigger] uses@[i] < policy.te_rules@.len(),
            forall|i: int| 0 <= i < writers@.len() ==> #[trigger] writers@[i] < policy.te_rules@.len(),
            increasing(settings.exempt_users@),
            increasing(settings.exempt_files@),
            increasing(protected@),
            increasing(writable@),
            forall|k: int| 0 <= k < writable@.len() ==> exists|j: int| 0 <= j < index && protected@[j] == #[trigger] writable@[k],
            forall|y: usize| #[trigger] writable@.contains(y) <==> (protected@.take(index as int).contains(y)
                && writers_of(*policy, read_only_view(*settings), writers@, y).len() > 0),
            rules_match(*policy, read_only_view(*settings), uses@, writers@, writable@, users@, writing@),
        decreases protected.len() - index,
    {
        let t = protected[index];
        let found = writers_of_type(policy, settings, writers, t);
        let ghost before = writable@;
        let ghost users_before = users@;
        let ghost writing_before = writing@;
        if found.len() > 0 {
            let protecting = users_of_type(policy, settings, uses, t);
            writable.push(t);
            users.push(protecting);
            writing.push(found);
            proof {
                assert forall|j: int| 0 <= j < writable@.len() implies {
                    &&& (#[trigger] users@[j])@ == users_of(*policy, read_only_view(*settings), uses@, writable@[j])
                    &&& writing@[j]@ == writers_of(*policy, read_only_view(*settings), writers@, writable@[j])
                } by {
                    if j < before.len() {
                        assert(users@[j] == users_before[j] && writing@[j] == writing_before[j] && writable@[j] == before[j]);
                    }
                }
                assert forall|i: int, j: int| 0 <= i < j < writable@.len() implies writable@[i] < writable@[j] by {
                    if j == before.len() {
                        let m = choose|m: int| 0 <= m < index && protected@[m] == #[trigger] before[i];
                        assert(protected@[m] < protected@[index as int]);
                    } else {
                        assert(before[i] == writable@[i] && before[j] == writable@[j]);
                    }
                }
                assert forall|k: int| 0 <= k < writable@.len() implies exists|j: int| 0 <= j < index + 1 && protected@[j] == #[trigger] writable@[k] by {
                    if k < before.len() {
                        assert(before[k] == writable@[k]);
                        let m = choose|m: int| 0 <= m < index && protected@[m] == #[trigger] before[k];
                    } else {
                        assert(protected@[index as int] == writable@[k]);
                    }
                }
            }
        }
        proof {
            assert(protected@.take(index + 1) =~= protected@.take(index as int).push(t));
            assert forall|y: usize| #[trigger] writable@.contains(y) <==> (protected@.take(index + 1).contains(y)
                && writers_of(*policy, read_only_view(*settings), writers@, y).len() > 0) by {
                if writable@.contains(y) {
                    let k = choose|k: int| 0 <= k < writable@.len() && writable@[k] == y;
                    if k < before.len() {
                        assert(before[k] == y);
                        assert(before.contains(y));
                        let m = choose|m: int| 0 <= m < index && protected@.take(index as int)[m] == y;
                        assert(protected@.take(index + 1)[m] == y);
                    } else {
                        assert(y == t);
                        assert(protected@.take(index + 1)[index as int] == t);
                    }
                }
                if protected@.take(index + 1).contains(y) && writers_of(*policy, read_only_view(*settings), writers@, y).len() > 0 {
                    if y == t {
                        assert(writable@[before.len() as int] == y);
                    } else {
                        let later = protected@.take(index + 1);
                        let m = choose|m: int| 0 <= m < later.len() && later[m] == y;
                        assert(m < index);
                        assert(protected@.take(index as int)[m] == y);
                        assert(before.contains(y));
                        let k = choose|k: int| 0 <= k < before.len() && before[k] == y;
                        assert(writable@[k] == y);
                    }
                }
            }
        }
        index = index + 1;
    }
    proof {
        assert(protected@.take(protected.len() as int) =~= protected@);
        assert(writable@.to_set() =~= protected@.to_set().filter(
            |t: usize| writers_of(*policy, read_only_view(*settings), writers@, t).len() > 0,
        ));
    }
    (writable, users, writing)
}


/// The position in `writable` of the type with the given name, if any.
fn find_named(policy: &Policy, writable: &Vec<usize>, name: &str) -> (result: Option<usize>)
    requires
        forall|j: int| 0 <= j < writable@.len() ==> #[trigger] writable@[j] < policy.types@.len(),
    ensures
        match result {
            Some(j) => j < writable@.len() && policy.types@[writable@[j as int] as int].name@ == name@,
            None => forall|j: int| 0 <= j < writable@.len() ==> policy.types@[#[trigger] writable@[j] as int].name@ != name@,
        },
{
    let mut index: usize = 0;
    while index < writable.len()
        invariant
            index <= writable.len(),
            forall|j: int| 0 <= j < writable@.len() ==> #[trigger] writable@[j] < policy.types@.len(),
            forall|j: int| 0 <= j < index ==> policy.types@[#[trigger] writable@[j] as int].name@ != name@,
        decreases writable.len() - index,
    {
        if same_text(policy.types[writable[index]].name.as_str(), name) {
            return Some(index);
        }
        index = index + 1;
    }
    None
}

/// A file finding carries `name` and the rules of the writable type that
/// has that name.
pub open spec fn file_found(
    policy: Policy,
    writable: Seq<usize>,
    users: Seq<Vec<usize>>,
    writing: Seq<Vec<usize>>,
    name: Seq<char>,
    file: WritableFile,
) -> bool {
    &&& file.name@ == name
    &&& exists|j: int| 0 <= j < writable.len() && policy.types@[#[trigger] writable[j] as int].name@ == name
        && file.use_rules@ == users[j]@ && file.write_rules@ == writing[j]@
}

/// The writable files, in the order of their names.
fn files_by_name(policy: &Policy, writable: &Vec<usize>, users: &Vec<Vec<usize>>, writing: &Vec<Vec<usize>>)
    -> (result: Vec<WritableFile>)
    requires
        forall|j: int| 0 <= j < writable@.len() ==> #[trigger] writable@[j] < policy.types@.len(),
        users@.len() == writable@.len(),
        writing@.len() == writable@.len(),
    ensures
        result@.len() == type_name_list(*policy, writable@).len(),
        forall|k: int| 0 <= k < result@.len() ==> #[trigger] file_found(
            *policy,
            writable@,
            users@,
            writing@,
            type_name_list(*policy, writable@)[k],
            result@[k],
        ),
{
    let ghost keep = |id: usize| if id < policy.types@.len() { Some(policy.types@[id as int].name@) } else { None };
    let names = type_names(policy, writable);
    let ghost listed = type_name_list(*policy, writable@);
    proof {
        lemma_text_order_total();
        writable@.filter_map(keep).lemma_sort_by_ensures(text_order());
    }
    let mut result: Vec<WritableFile> = Vec::new();
    let mut index: usize = 0;
    while index < names.len()
        invariant
            index <= names.len(),
            forall|j: int| 0 <= j < writable@.len() ==> #[trigger] writable@[j] < policy.types@.len(),
            users@.len() == writable@.len(),
            writing@.len() == writable@.len(),
            keep == (|id: usize| if id < policy.types@.len() { Some(policy.types@[id as int].name@) } else { None }),
            listed == type_name_list(*policy, writable@),
            texts(names@) == listed,
            listed == writable@.filter_map(keep).sort_by(text_order()),
            forall|x: Seq<char>| !writable@.filter_map(keep).contains(x) ==> !(#[trigger] listed.contains(x)),
            result@.len() == index,
            forall|k: int| 0 <= k < index ==> #[trigger] file_found(*policy, writable@, users@, writing@, listed[k], result@[k]),
        decreases names.len() - index,
    {
        let name = &names[index];
        assert(listed[index as int] == name@);
        match find_named(policy, writable, name.as_str()) {
            Some(j) => {
                let file = WritableFile {
                    name: owned(name.as_str()),
                    use_rules: copy_ids(&users[j]),
                    write_rules: copy_ids(&writing[j]),
                };
                let ghost before = result@;
                result.push(file);
                proof {
                    assert(file_found(*policy, writable@, users@, writing@, listed[index as int], result@[index as int]));
                    assert forall|k: int| 0 <= k < index + 1 implies #[trigger] file_found(
                        *policy, writable@, users@, writing@, listed[k], result@[k],
                    ) by {
                        if k < index {
                            assert(result@[k] == before[k]);
                        }
                    }
                }
            },
            None => {
                proof {
                    assert(listed.contains(name@));
                    writable@.lemma_filter_map_contains(keep, name@);
                    let id = choose|id: usize| writable@.contains(id) && keep(id) == Some(name@);
                    let j = choose|j: int| 0 <= j < writable@.len() && writable@[j] == id;
                    assert(policy.types@[writable@[j] as int].name@ != name@);
                }
            },
        }
        index = index + 1;
    }
    result
}

/// Evaluates a read-only check over the use rules and the write rules its
/// two queries selected, each in query order.
pub fn evaluate_read_only(policy: &Policy, settings: &ReadOnly, uses: &Vec<usize>, writers: &Vec<usize>)
    -> (result: ReadOnlyVerdict)
    requires
        well_formed(*policy),
        increasing(settings.exempt_writers@),
        increasing(settings.exempt_users@),
        increasing(settings.exempt_files@),
        forall|i: int| 0 <= i < uses@.len() ==> #[trigger] uses@[i] < policy.te_rules@.len(),
        forall|i: int| 0 <= i < writers@.len() ==> #[trigger] writers@[i] < policy.te_rules@.len(),
    ensures
        read_only_verdict_view(result) == read_only_verdict(*policy, read_only_view(*settings), uses@, writers@),
{
    let (protected, trace) = protected_and_trace(policy, settings, uses);
    let ghost protected_set = protected_types(*policy, read_only_view(*settings), uses@);
    proof {
        assert forall|i: int| 0 <= i < protected@.len() implies #[trigger] protected@[i] < policy.types@.len() by {
            let t = protected@[i];
            assert(protected@.to_set().contains(t));
            let m = choose|m: int| 0 <= m < uses@.len() && #[trigger] protects(*policy, read_only_view(*settings), uses@[m], t);
            let rule = policy.te_rules@[uses@[m] as int];
            lemma_expansion_in_policy(*policy, rule.target as int, t);
        }
    }
    let checked_types = names_in_order(policy, &protected);
    let (writable, users, writing) = writable_files(policy, settings, uses, writers, &protected);
    proof {
        assert forall|j: int| 0 <= j < writable@.len() implies #[trigger] writable@[j] < policy.types@.len() by {
            assert(writable@.to_set().contains(writable@[j]));
            assert(protected@.to_set().contains(writable@[j]));
            let i = choose|i: int| 0 <= i < protected@.len() && protected@[i] == writable@[j];
        }
    }
    let files = files_by_name(policy, &writable, &users, &writing);
    let exempt_users = type_names(policy, &settings.exempt_users);
    let result = ReadOnlyVerdict { checked_types, files, exempt_users, use_rules: trace };
    proof {
        let writable_set = writable_types(*policy, read_only_view(*settings), uses@, writers@);
        lemma_id_listing(protected@);
        lemma_id_listing(settings.exempt_users@);
        assert(writable@.to_set() =~= writable_set);
        lemma_id_listing(writable@);
        let spec_view = read_only_verdict(*policy, read_only_view(*settings), uses@, writers@);
        let listed = type_name_list(*policy, writable@);
        let shown = result.files@.map_values(|f: WritableFile| writable_file_view(f));
        assert forall|k: int| 0 <= k < listed.len() implies #[trigger] shown[k] == spec_view.files[k] by {
            assert(file_found(*policy, writable@, users@, writing@, listed[k], result.files@[k]));
            let j = choose|j: int| 0 <= j < writable@.len() && policy.types@[#[trigger] writable@[j] as int].name@ == listed[k]
                && result.files@[k].use_rules@ == users@[j]@ && result.files@[k].write_rules@ == writing@[j]@;
            let t = writable@[j];
            assert(writable_set.contains(t));
            let chosen = type_of_name(*policy, writable_set, listed[k]);
            assert(writable_set.contains(chosen) && policy.types@[chosen as int].name@ == listed[k]);
            assert(writable@.to_set().contains(chosen));
            let i = choose|i: int| 0 <= i < writable@.len() && writable@[i] == chosen;
            assert(chosen < policy.types@.len());
            assert(chosen == t);
        }
        assert(shown =~= spec_view.files);
        assert(texts(result.checked_types@) =~= spec_view.checked_types);
        assert(texts(result.exempt_users@) == spec_view.exempt_users);
        assert(result.use_rules@.map_values(|u: UseRuleEvaluation| (u.rule, texts(u.targets@))) =~= spec_view.use_rules);
    }
    result
}


/// An empty-attribute check's findings.
#[derive(Debug)]
pub struct AttributeVerdict {
    /// The configured attribute name.
    pub attribute: String,
    /// Whether the attribute is missing from the policy, which passes the check.
    pub missing: bool,
    /// The names of the attribute's member types, sorted.
    pub members: Vec<String>,
}

/// The names of an attribute's member types, sorted; none for a missing
/// attribute.
pub open spec fn attribute_members(policy: Policy, id: Option<int>) -> Seq<Seq<char>> {
    match id {
        Some(i) => type_name_list(policy, expansion(policy, i)),
        None => Seq::empty(),
    }
}

/// The number of an optional symbol, as a plain value.
pub open spec fn id_view(id: Option<usize>) -> Option<int> {
    match id {
        Some(i) => Some(i as int),
        None => None,
    }
}

/// Evaluates an empty-attribute check: the members of the attribute, or
/// a pass when the attribute is missing.
pub fn evaluate_empty_attribute(policy: &Policy, attribute: &str, id: Option<usize>) -> (result: AttributeVerdict)
    ensures
        result.attribute@ == attribute@,
        result.missing == (id is None),
        texts(result.members@) == attribute_members(*policy, id_view(id)),
{
    let members = match id {
        Some(i) => type_names(policy, &expand(policy, i)),
        None => {
            let none: Vec<String> = Vec::new();
            assert(texts(none@) =~= Seq::<Seq<char>>::empty());
            none
        },
    };
    AttributeVerdict { attribute: owned(attribute), missing: id.is_none(), members }
}

/// The rules a check's policy queries selected, each list in query order.
#[derive(Debug)]
pub struct RuleSelection {
    /// What the main query selected: TE allow rules for a TE assertion, and
    /// the use rules of a read-only check; role allow rules for an RBAC
    /// assertion.
    pub rules: Vec<usize>,
    /// The write rules the second query of a read-only check selected.
    pub write_rules: Vec<usize>,
}

/// A rule selection as plain values.
pub struct SelectionView {
    /// What the main query selected.
    pub rules: Seq<usize>,
    /// The write rules of a read-only check.
    pub write_rules: Seq<usize>,
}

/// The plain values of a query answer: the selection, or why the query
/// failed.
pub open spec fn selection_view(answer: Result<RuleSelection, String>) -> Result<SelectionView, Seq<char>> {
    match answer {
        Ok(s) => Ok(SelectionView { rules: s.rules@, write_rules: s.write_rules@ }),
        Err(e) => Err(e@),
    }
}

/// Every selected rule is a rule of the policy, of the kind the check
/// queries.
pub open spec fn selection_fits(policy: Policy, kind: CheckKindView, answer: Result<SelectionView, Seq<char>>) -> bool {
    match answer {
        Ok(s) => {
            let limit = match kind {
                CheckKindView::AssertRbac(_) => policy.role_allows@.len(),
                _ => policy.te_rules@.len(),
            };
            &&& forall|i: int| 0 <= i < s.rules.len() ==> #[trigger] s.rules[i] < limit
            &&& forall|i: int| 0 <= i < s.write_rules.len() ==> #[trigger] s.write_rules[i] < policy.te_rules@.len()
        },
        Err(_) => true,
    }
}

/// What running a check found.
#[derive(Debug)]
pub enum CheckOutcome {
    /// The check is disabled; the configured reason.
    Disabled { reason: String },
    /// The members of a type attribute that must be empty.
    EmptyTypeAttribute(AttributeVerdict),
    /// A TE assertion's findings.
    AssertTe(TeVerdict),
    /// An RBAC assertion's findings.
    AssertRbac(RbacVerdict),
    /// A read-only check's findings.
    ReadOnly { kind: ReadOnlyKind, verdict: ReadOnlyVerdict },
    /// A policy query failed; its message.
    Unexpected { message: String },
}

/// What running a check found, as plain values.
pub enum OutcomeView {
    /// The check is disabled; the configured reason.
    Disabled(Seq<char>),
    /// The members of a type attribute that must be empty.
    EmptyTypeAttribute { attribute: Seq<char>, missing: bool, members: Seq<Seq<char>> },
    /// A TE assertion's findings.
    AssertTe(TeVerdictView),
    /// An RBAC assertion's findings.
    AssertRbac(RbacVerdictView),
    /// A read-only check's findings.
    ReadOnly(ReadOnlyKind, ReadOnlyVerdictView),
    /// A policy query failed; its message.
    Unexpected(Seq<char>),
}

/// The plain values of an outcome.
pub open spec fn outcome_view(outcome: CheckOutcome) -> OutcomeView {
    match outcome {
        CheckOutcome::Disabled { reason } => OutcomeView::Disabled(reason@),
        CheckOutcome::EmptyTypeAttribute(v) => OutcomeView::EmptyTypeAttribute {
            attribute: v.attribute@,
            missing: v.missing,
            members: texts(v.members@),
        },
        CheckOutcome::AssertTe(v) => OutcomeView::AssertTe(te_verdict_view(v)),
        CheckOutcome::AssertRbac(v) => OutcomeView::AssertRbac(rbac_verdict_view(v)),
        CheckOutcome::ReadOnly { kind, verdict } => OutcomeView::ReadOnly(kind, read_only_verdict_view(verdict)),
        CheckOutcome::Unexpected { message } => OutcomeView::Unexpected(message@),
    }
}

/// The check type of a check kind.
pub open spec fn check_type_of(kind: CheckKindView) -> CheckType {
    match kind {
        CheckKindView::EmptyAttribute { .. } => CheckType::EmptyTypeAttribute,
        CheckKindView::AssertTe(_) => CheckType::AssertTe,
        CheckKindView::AssertRbac(_) => CheckType::AssertRbac,
        CheckKindView::ReadOnly { kind, .. } => match kind {
            ReadOnlyKind::Executable => CheckType::ReadOnlyExecutables,
            ReadOnlyKind::KernelModule => CheckType::ReadOnlyKernelModules,
        },
    }
}

/// What a check finds, given what its queries answered. A disabled check
/// finds nothing; an empty-attribute check asks no query.
pub open spec fn outcome_of(policy: Policy, check: CheckView, answer: Result<SelectionView, Seq<char>>) -> OutcomeView {
    match check.disabled {
        Some(reason) => OutcomeView::Disabled(reason),
        None => match check.kind {
            CheckKindView::EmptyAttribute { attribute, id } => OutcomeView::EmptyTypeAttribute {
                attribute,
                missing: id is None,
                members: attribute_members(policy, id),
            },
            CheckKindView::AssertTe(s) => match answer {
                Ok(sel) => OutcomeView::AssertTe(te_verdict(policy, s, sel.rules)),
                Err(message) => OutcomeView::Unexpected(message),
            },
            CheckKindView::AssertRbac(s) => match answer {
                Ok(sel) => OutcomeView::AssertRbac(rbac_verdict(policy, s, sel.rules)),
                Err(message) => OutcomeView::Unexpected(message),
            },
            CheckKindView::ReadOnly { kind, writers, users, files } => match answer {
                Ok(sel) => OutcomeView::ReadOnly(
                    kind,
                    read_only_verdict(policy, ReadOnlyView { kind, writers, users, files }, sel.rules, sel.write_rules),
                ),
                Err(message) => OutcomeView::Unexpected(message),
            },
        },
    }
}

/// The number of findings an outcome holds.
pub open spec fn failures(outcome: OutcomeView) -> int {
    match outcome {
        OutcomeView::Disabled(_) => 0,
        OutcomeView::EmptyTypeAttribute { members, .. } => members.len() as int,
        OutcomeView::AssertTe(v) => (v.rules.len() + v.missing_sources.len() + v.missing_targets.len()) as int,
        OutcomeView::AssertRbac(v) => (v.rules.len() + v.missing_sources.len() + v.missing_targets.len()) as int,
        OutcomeView::ReadOnly(_, v) => v.files.len() as int,
        OutcomeView::Unexpected(_) => 1,
    }
}

/// Every number in the list is a TE rule of the policy.
pub open spec fn rules_fit(policy: Policy, rules: Seq<usize>) -> bool {
    forall|i: int| 0 <= i < rules.len() ==> #[trigger] rules[i] < policy.te_rules@.len()
}

/// The rules an outcome names are rules of the policy.
pub open spec fn outcome_fits(policy: Policy, outcome: OutcomeView) -> bool {
    match outcome {
        OutcomeView::AssertTe(v) => rules_fit(policy, v.rules),
        OutcomeView::AssertRbac(v) => forall|i: int| 0 <= i < v.rules.len() ==> #[trigger] v.rules[i] < policy.role_allows@.len(),
        OutcomeView::ReadOnly(_, v) => forall|k: int| 0 <= k < v.files.len() ==> {
            &&& rules_fit(policy, (#[trigger] v.files[k]).use_rules)
            &&& rules_fit(policy, v.files[k].write_rules)
        },
        _ => true,
    }
}

/// Numbers a filter kept are numbers of the list it filtered.
proof fn lemma_kept_below(items: Seq<usize>, keep: spec_fn(usize) -> Option<usize>, bound: int)
    requires
        forall|i: int| 0 <= i < items.len() ==> #[trigger] items[i] < bound,
        forall|x: usize| #[trigger] keep(x) is None || keep(x) == Some(x),
    ensures
        forall|i: int| 0 <= i < items.filter_map(keep).len() ==> #[trigger] items.filter_map(keep)[i] < bound,
{
    assert forall|i: int| 0 <= i < items.filter_map(keep).len() implies #[trigger] items.filter_map(keep)[i] < bound by {
        let y = items.filter_map(keep)[i];
        assert(items.filter_map(keep).contains(y));
        items.lemma_filter_map_contains(keep, y);
        let x = choose|x: usize| items.contains(x) && keep(x) == Some(y);
        assert(keep(x) is None || keep(x) == Some(x));
        let j = choose|j: int| 0 <= j < items.len() && items[j] == x;
    }
}

/// The rules a check's outcome names come from what its queries selected.
proof fn lemma_outcome_fits(policy: Policy, check: CheckView, answer: Result<SelectionView, Seq<char>>)
    requires
        selection_fits(policy, check.kind, answer),
    ensures
        outcome_fits(policy, outcome_of(policy, check, answer)),
{
    if check.disabled is None {
        match check.kind {
            CheckKindView::AssertTe(s) => {
                if let Ok(sel) = answer {
                    lemma_kept_below(sel.rules, |r: usize| if te_rule_fails(policy, s, r) { Some(r) } else { None },
                        policy.te_rules@.len() as int);
                }
            },
            CheckKindView::AssertRbac(s) => {
                if let Ok(sel) = answer {
                    lemma_kept_below(sel.rules, |r: usize| if rbac_rule_fails(policy, s, r) { Some(r) } else { None },
                        policy.role_allows@.len() as int);
                }
            },
            CheckKindView::ReadOnly { kind, writers, users, files } => {
                if let Ok(sel) = answer {
                    let settings = ReadOnlyView { kind, writers, users, files };
                    let v = read_only_verdict(policy, settings, sel.rules, sel.write_rules);
                    assert forall|k: int| 0 <= k < v.files.len() implies {
                        &&& rules_fit(policy, (#[trigger] v.files[k]).use_rules)
                        &&& rules_fit(policy, v.files[k].write_rules)
                    } by {
                        let writable = writable_types(policy, settings, sel.rules, sel.write_rules);
                        let name = type_name_list(policy, id_listing(writable))[k];
                        let t = type_of_name(policy, writable, name);
                        lemma_kept_below(sel.rules, |r: usize| if protects(policy, settings, r, t) { Some(r) } else { None },
                            policy.te_rules@.len() as int);
                        lemma_kept_below(sel.write_rules, |w: usize| if writes(policy, settings, w, t) { Some(w) } else { None },
                            policy.te_rules@.len() as int);
                    }
                }
            },
            _ => {},
        }
    }
}

/// The result of one configured check.
#[derive(Debug)]
pub struct CheckResult {
    /// The section name.
    pub name: String,
    /// The section description, if any.
    pub description: Option<String>,
    /// The check type.
    pub check_type: CheckType,
    /// What the check found.
    pub outcome: CheckOutcome,
}

impl CheckResult {
    /// Returns the number of findings of the check.
    pub fn failure_count(&self) -> (result: usize)
        requires
            failures(outcome_view(self.outcome)) <= usize::MAX,
        ensures
            result == failures(outcome_view(self.outcome)),
    {
        match &self.outcome {
            CheckOutcome::Disabled { .. } => 0,
            CheckOutcome::EmptyTypeAttribute(v) => v.members.len(),
            CheckOutcome::AssertTe(v) => v.rules.len() + v.missing_sources.len() + v.missing_targets.len(),
            CheckOutcome::AssertRbac(v) => v.rules.len() + v.missing_sources.len() + v.missing_targets.len(),
            CheckOutcome::ReadOnly { verdict, .. } => verdict.files.len(),
            CheckOutcome::Unexpected { .. } => 1,
        }
    }
}


impl Check {
    /// Returns the check type of the check.
    pub fn check_type(&self) -> (result: CheckType)
        ensures
            result == check_type_of(check_view(*self).kind),
    {
        match &self.kind {
            CheckKind::EmptyAttribute { .. } => CheckType::EmptyTypeAttribute,
            CheckKind::AssertTe(_) => CheckType::AssertTe,
            CheckKind::AssertRbac(_) => CheckType::AssertRbac,
            CheckKind::ReadOnly(r) => match r.kind {
                ReadOnlyKind::Executable => CheckType::ReadOnlyExecutables,
                ReadOnlyKind::KernelModule => CheckType::ReadOnlyKernelModules,
            },
        }
    }

    /// Runs the check on the rules its policy queries selected, or records
    /// why a query failed.
    pub fn run(&self, policy: &Policy, answer: &Result<RuleSelection, String>) -> (result: CheckResult)
        requires
            well_formed(*policy),
            roles_well_formed(*policy),
            check_ok(*self),
            selection_fits(*policy, check_view(*self).kind, selection_view(*answer)),
        ensures
            result.name@ == self.name@,
            text_view(result.description) == text_view(self.description),
            result.check_type == check_type_of(check_view(*self).kind),
            outcome_view(result.outcome) == outcome_of(*policy, check_view(*self), selection_view(*answer)),
            outcome_fits(*policy, outcome_view(result.outcome)),
    {
        proof {
            lemma_outcome_fits(*policy, check_view(*self), selection_view(*answer));
        }
        let check_type = self.check_type();
        let outcome = match &self.disabled {
            Some(reason) => CheckOutcome::Disabled { reason: owned(reason.as_str()) },
            None => match &self.kind {
                CheckKind::EmptyAttribute { attribute, id } => CheckOutcome::EmptyTypeAttribute(
                    evaluate_empty_attribute(policy, attribute.as_str(), *id),
                ),
                CheckKind::AssertTe(s) => match answer {
                    Ok(selection) => CheckOutcome::AssertTe(evaluate_assert_te(policy, s, &selection.rules)),
                    Err(message) => CheckOutcome::Unexpected { message: owned(message.as_str()) },
                },
                CheckKind::AssertRbac(s) => match answer {
                    Ok(selection) => CheckOutcome::AssertRbac(evaluate_assert_rbac(policy, s, &selection.rules)),
                    Err(message) => CheckOutcome::Unexpected { message: owned(message.as_str()) },
                },
                CheckKind::ReadOnly(r) => match answer {
                    Ok(selection) => CheckOutcome::ReadOnly {
                        kind: r.kind,
                        verdict: evaluate_read_only(policy, r, &selection.rules, &selection.write_rules),
                    },
                    Err(message) => CheckOutcome::Unexpected { message: owned(message.as_str()) },
                },
            },
        };
        CheckResult {
            name: owned(self.name.as_str()),
            description: copy_text(&self.description),
            check_type,
            outcome,
        }
    }
}

impl<'a> Checker<'a> {
    /// Runs every configured check in section order, each on what its policy
    /// queries answered.
    pub fn run(&self, answers: &Vec<Result<RuleSelection, String>>) -> (result: Vec<CheckResult>)
        requires
            answers@.len() == self.configured().len(),
            forall|i: int| 0 <= i < answers@.len() ==> selection_fits(
                self.examined(),
                self.configured()[i].kind,
                selection_view(#[trigger] answers@[i]),
            ),
        ensures
            result@.len() == self.configured().len(),
            forall|i: int| 0 <= i < result@.len() ==> {
                &&& (#[trigger] result@[i]).name@ == self.configured()[i].name
                &&& text_view(result@[i].description) == self.configured()[i].description
                &&& result@[i].check_type == check_type_of(self.configured()[i].kind)
                &&& outcome_view(result@[i].outcome) == outcome_of(
                    self.examined(),
                    self.configured()[i],
                    selection_view(answers@[i]),
                )
                &&& outcome_fits(self.examined(), outcome_view(result@[i].outcome))
            },
    {
        let checks = self.checks();
        let policy = self.policy();
        let mut result: Vec<CheckResult> = Vec::new();
        let mut index: usize = 0;
        while index < checks.len()
            invariant
                index <= checks.len(),
                check_views(checks@) == self.configured(),
                forall|i: int| 0 <= i < checks@.len() ==> check_ok(#[trigger] checks@[i]),
                *policy == self.examined(),
                well_formed(*policy),
                roles_well_formed(*policy),
                answers@.len() == self.configured().len(),
                forall|i: int| 0 <= i < answers@.len() ==> selection_fits(
                    self.examined(),
                    self.configured()[i].kind,
                    selection_view(#[trigger] answers@[i]),
                ),
                result@.len() == index,
                forall|i: int| 0 <= i < index ==> {
                    &&& (#[trigger] result@[i]).name@ == self.configured()[i].name
                    &&& text_view(result@[i].description) == self.configured()[i].description
                    &&& result@[i].check_type == check_type_of(self.configured()[i].kind)
                    &&& outcome_view(result@[i].outcome) == outcome_of(
                        self.examined(),
                        self.configured()[i],
                        selection_view(answers@[i]),
                    )
                    &&& outcome_fits(self.examined(), outcome_view(result@[i].outcome))
                },
            decreases checks.len() - index,
        {
            let check = &checks[index];
            assert(self.configured()[index as int] == check_view(*check));
            assert(selection_fits(*policy, check_view(*check).kind, selection_view(answers@[index as int])));
            let ran = check.run(policy, &answers[index]);
            let ghost before = result@;
            result.push(ran);
            proof {
                assert forall|i: int| 0 <= i < index + 1 implies {
                    &&& (#[trigger] result@[i]).name@ == self.configured()[i].name
                    &&& text_view(result@[i].description) == self.configured()[i].description
                    &&& result@[i].check_type == check_type_of(self.configured()[i].kind)
                    &&& outcome_view(result@[i].outcome) == outcome_of(
                        self.examined(),
                        self.configured()[i],
                        selection_view(answers@[i]),
                    )
                } by {
                    if i < index {
                        assert(result@[i] == before[i]);
                    }
                }
            }
            index = index + 1;
        }
        result
    }
}


/// Whether every number in a list is below a limit.
fn all_below(values: &Vec<usize>, limit: usize) -> (result: bool)
    ensures
        result == (forall|i: int| 0 <= i < values@.len() ==> #[trigger] values@[i] < limit),
{
    let mut index: usize = 0;
    while index < values.len()
        invariant
            index <= values@.len(),
            forall|i: int| 0 <= i < index ==> #[trigger] values@[i] < limit,
        decreases values.len() - index,
    {
        if values[index] >= limit {
            return false;
        }
        index = index + 1;
    }
    true
}

impl Check {
    /// Whether every rule a query selected for this check is a rule of the
    /// policy of the kind the check queries, as running it requires.
    pub fn selection_fits_policy(&self, policy: &Policy, answer: &Result<RuleSelection, String>) -> (result: bool)
        ensures
            result == selection_fits(*policy, check_view(*self).kind, selection_view(*answer)),
    {
        let rbac = match &self.kind {
            CheckKind::AssertRbac(_) => true,
            _ => false,
        };
        assert(rbac == (check_view(*self).kind is AssertRbac));
        let limit = if rbac { policy.role_allows.len() } else { policy.te_rules.len() };
        match answer {
            Err(e) => {
                assert(selection_view(*answer) == Err::<SelectionView, Seq<char>>(e@));
                true
            },
            Ok(s) => {
                let main = all_below(&s.rules, limit);
                let writes = all_below(&s.write_rules, policy.te_rules.len());
                proof {
                    let sv = selection_view(*answer)->Ok_0;
                    assert(sv.rules == s.rules@);
                    assert(sv.write_rules == s.write_rules@);
                    if main {
                        assert forall|i: int| 0 <= i < sv.rules.len() implies #[trigger] sv.rules[i] < limit by {
                            assert(s.rules@[i] < limit);
                        }
                    }
                    if writes {
                        assert forall|i: int| 0 <= i < sv.write_rules.len() implies
                            #[trigger] sv.write_rules[i] < policy.te_rules@.len() by {
                            assert(s.write_rules@[i] < policy.te_rules.len());
                        }
                    }
                }
                main && writes
            },
        }
    }
}

impl<'a> Checker<'a> {
    /// Whether the answers fit the configured checks as running them
    /// requires: one per check, each selecting rules of the policy only.
    pub fn answers_fit(&self, answers: &Vec<Result<RuleSelection, String>>) -> (result: bool)
        ensures
            result == (answers@.len() == self.configured().len()
                && forall|i: int| 0 <= i < answers@.len() ==> selection_fits(
                    self.examined(),
                    self.configured()[i].kind,
                    selection_view(#[trigger] answers@[i]),
                )),
    {
        let checks = self.checks();
        let policy = self.policy();
        if answers.len() != checks.len() {
            return false;
        }
        let mut index: usize = 0;
        while index < answers.len()
            invariant
                index <= answers@.len(),
                answers@.len() == checks@.len(),
                check_views(checks@) == self.configured(),
                *policy == self.examined(),
                forall|i: int| 0 <= i < index ==> selection_fits(
                    self.examined(),
                    self.configured()[i].kind,
                    selection_view(#[trigger] answers@[i]),
                ),
            decreases answers.len() - index,
        {
            assert(self.configured()[index as int] == check_view(checks@[index as int]));
            if !checks[index].selection_fits_policy(policy, &answers[index]) {
                return false;
            }
            index = index + 1;
        }
        true
    }
}


/// An assertion's failure count counts every finding once: each finding
/// rule, each expected source no selected rule has and each expected
/// target no selected rule has. So an assertion passes exactly when it has
/// none of them, and a missing expectation alone makes it fail.
pub proof fn law_assertion_failures_count_every_finding(te: TeVerdictView, rbac: RbacVerdictView)
    ensures
        failures(OutcomeView::AssertTe(te)) == te.rules.len() + te.missing_sources.len() + te.missing_targets.len(),
        failures(OutcomeView::AssertRbac(rbac)) == rbac.rules.len() + rbac.missing_sources.len() + rbac.missing_targets.len(),
        failures(OutcomeView::AssertTe(te)) == 0 <==> (te.rules.len() == 0 && te.missing_sources.len() == 0
            && te.missing_targets.len() == 0),
        failures(OutcomeView::AssertRbac(rbac)) == 0 <==> (rbac.rules.len() == 0 && rbac.missing_sources.len() == 0
            && rbac.missing_targets.len() == 0),
        failures(OutcomeView::AssertRbac(rbac)) >= rbac.missing_sources.len() + rbac.missing_targets.len(),
        failures(OutcomeView::AssertTe(te)) >= te.missing_sources.len() + te.missing_targets.len(),
{
}

/// Every outcome's failure count is the number of its findings: a disabled
/// check has none, a non-empty attribute one per member, a read-only check
/// one per writable protected file, and a failed query one; a check passes
/// exactly when its outcome has no findings.
pub proof fn law_other_outcomes_count_their_findings(
    reason: Seq<char>,
    attribute: Seq<char>,
    missing: bool,
    members: Seq<Seq<char>>,
    kind: ReadOnlyKind,
    read_only: ReadOnlyVerdictView,
    message: Seq<char>,
)
    ensures
        failures(OutcomeView::Disabled(reason)) == 0,
        failures(OutcomeView::EmptyTypeAttribute { attribute, missing, members }) == members.len(),
        failures(OutcomeView::ReadOnly(kind, read_only)) == read_only.files.len(),
        failures(OutcomeView::Unexpected(message)) == 1,
{
}
} // verus!
