//! Information-flow analysis: which types can pass information to which,
//! through which `allow` rules, weighted by a permission map.
//!
//! An `allow s t:c p` rule whose permission `p` of class `c` is mapped as a
//! write lets information flow from `s` to `t`; one mapped as a read lets it
//! flow from `t` to `s`.  The weight of a flow is the largest weight among
//! its contributions.
use vstd::prelude::*;
use crate::policy::{Policy, TeRuleKind, TeRuleData, ConditionalToken, well_formed, expansion, expand};
use crate::permmap::{PermissionMap, PermissionDirection, MapView, lookup};
use crate::rules::{rule_at};
use crate::pairs::{product, row, extend_new, add_new, lemma_extend_members};
use crate::text::{same_text};

verus! {

/// The larger of two integers.
pub open spec fn larger(a: int, b: int) -> int {
    if a < b { b } else { a }
}

/// The direction and weight the map gives permission `p` of class `class`.
pub open spec fn permission_flow(policy: Policy, map: MapView, class: int, p: usize) -> Option<(PermissionDirection, int)> {
    let c = policy.classes@[class];
    if p < c.permissions@.len() {
        match lookup(map, c.name@, c.permissions@[p as int]@) {
            Some(i) => Some((map.entries[i].2, map.entries[i].3)),
            None => None,
        }
    } else {
        None
    }
}

/// The read and write weights of a list of permissions of a class: the
/// largest weight mapped in each direction, zero for none.
pub open spec fn weights_of(policy: Policy, map: MapView, class: int, permissions: Seq<usize>) -> (int, int)
    decreases permissions.len(),
{
    if permissions.len() == 0 {
        (0, 0)
    } else {
        let (read, write) = weights_of(policy, map, class, permissions.drop_last());
        match permission_flow(policy, map, class, permissions.last()) {
            Some((PermissionDirection::Read, w)) => (larger(read, w), write),
            Some((PermissionDirection::Write, w)) => (read, larger(write, w)),
            Some((PermissionDirection::Both, w)) => (larger(read, w), larger(write, w)),
            _ => (read, write),
        }
    }
}

/// The read and write weights of rule `r`.
pub open spec fn rule_weights(policy: Policy, map: MapView, r: int) -> (int, int) {
    let rule = rule_at(policy, r);
    if rule.target_class < policy.classes@.len() {
        match rule.data {
            TeRuleData::Permissions(permissions) => weights_of(policy, map, rule.target_class as int, permissions@),
            TeRuleData::DefaultType(_) => (0, 0),
        }
    } else {
        (0, 0)
    }
}

/// A contribution to a flow: source, target, rule and weight.
pub type Contribution = (usize, usize, usize, int);

/// The contributions of rule `r` over the given pairs: for each pair a write
/// flow forwards and a read flow backwards, where the weight is positive.
pub open spec fn flows_over(pairs: Seq<(usize, usize)>, r: usize, read: int, write: int) -> Seq<Contribution>
    decreases pairs.len(),
{
    if pairs.len() == 0 {
        Seq::empty()
    } else {
        let (s, t) = pairs.last();
        flows_over(pairs.drop_last(), r, read, write)
            + (if write > 0 { seq![(s, t, r, write)] } else { Seq::empty() })
            + (if read > 0 { seq![(t, s, r, read)] } else { Seq::empty() })
    }
}

/// The contributions of rule `r`; only `allow` rules contribute.
pub open spec fn rule_flows(policy: Policy, map: MapView, r: int) -> Seq<Contribution> {
    let rule = rule_at(policy, r);
    if rule.kind == TeRuleKind::Allow {
        let (read, write) = rule_weights(policy, map, r);
        flows_over(product(expansion(policy, rule.source as int), expansion(policy, rule.target as int)), r as usize, read, write)
    } else {
        Seq::empty()
    }
}

/// The contributions of the first `n` rules, in rule order.
pub open spec fn raw_flows(policy: Policy, map: MapView, n: nat) -> Seq<Contribution>
    decreases n,
{
    if n == 0 {
        Seq::empty()
    } else {
        raw_flows(policy, map, (n - 1) as nat) + rule_flows(policy, map, n - 1)
    }
}

/// The contributions of all rules.
pub open spec fn all_flows(policy: Policy, map: MapView) -> Seq<Contribution> {
    raw_flows(policy, map, policy.te_rules@.len())
}

/// The pairs of a list of contributions.
pub open spec fn contribution_pairs(contributions: Seq<Contribution>) -> Seq<(usize, usize)> {
    contributions.map_values(|c: Contribution| (c.0, c.1))
}

/// The flows, each once, in order of first contribution.
pub open spec fn flow_pairs(contributions: Seq<Contribution>) -> Seq<(usize, usize)> {
    extend_new(Seq::empty(), contribution_pairs(contributions))
}

/// Keeps the rule of a contribution to the given pair.
pub open spec fn rule_for(pair: (usize, usize)) -> spec_fn(Contribution) -> Option<usize> {
    |c: Contribution| if (c.0, c.1) == pair { Some(c.2) } else { None }
}

/// The rules contributing to a flow, in order, once per contribution.
pub open spec fn flow_rules(contributions: Seq<Contribution>, pair: (usize, usize)) -> Seq<usize> {
    contributions.filter_map(rule_for(pair))
}

/// The largest weight contributed to a flow.
pub open spec fn flow_weight(contributions: Seq<Contribution>, pair: (usize, usize)) -> int
    decreases contributions.len(),
{
    if contributions.len() == 0 {
        0
    } else {
        let c = contributions.last();
        larger(flow_weight(contributions.drop_last(), pair), if (c.0, c.1) == pair { c.3 } else { 0 })
    }
}

/// One flow as plain values.
pub struct FlowView {
    /// Where information comes from.
    pub source: usize,
    /// Where information goes.
    pub target: usize,
    /// The contributing rules.
    pub rules: Seq<usize>,
    /// The largest contributed weight.
    pub weight: int,
}

/// One directed information flow and its contributing `allow` rules.
#[derive(Debug)]
pub struct InformationFlowStep {
    source: usize,
    target: usize,
    rules: Vec<usize>,
    weight: u8,
}

impl View for InformationFlowStep {
    type V = FlowView;

    closed spec fn view(&self) -> FlowView {
        FlowView { source: self.source, target: self.target, rules: self.rules@, weight: self.weight as int }
    }
}

impl InformationFlowStep {
    /// Returns where information comes from.
    pub fn source(&self) -> (result: usize)
        ensures
            result == self@.source,
    {
        self.source
    }

    /// Returns where information goes.
    pub fn target(&self) -> (result: usize)
        ensures
            result == self@.target,
    {
        self.target
    }

    /// Returns the contributing `allow` rules.
    pub fn rules(&self) -> (result: &Vec<usize>)
        ensures
            result@ == self@.rules,
    {
        &self.rules
    }

    /// Returns the largest contributed weight.
    pub fn weight(&self) -> (result: u8)
        ensures
            result as int == self@.weight,
    {
        self.weight
    }

    /// Copies the flow.
    pub fn copy(&self) -> (result: InformationFlowStep)
        ensures
            result@ == self@,
    {
        InformationFlowStep {
            source: self.source,
            target: self.target,
            rules: crate::paths::copy_nodes(&self.rules),
            weight: self.weight,
        }
    }
}

/// The pair a flow joins.
pub open spec fn flow_pair(v: FlowView) -> (usize, usize) {
    (v.source, v.target)
}

/// The plain values of a list of flows.
pub open spec fn flow_views(flows: Seq<InformationFlowStep>) -> Seq<FlowView> {
    flows.map_values(|f: InformationFlowStep| f@)
}

/// The pairs joined by a list of flows.
pub open spec fn flow_pair_list(views: Seq<FlowView>) -> Seq<(usize, usize)> {
    views.map_values(|v: FlowView| flow_pair(v))
}

/// The flows summarize the contributions: one per pair in order of first
/// contribution, with its rules and largest weight.
pub open spec fn flow_table(views: Seq<FlowView>, contributions: Seq<Contribution>) -> bool {
    &&& flow_pair_list(views) == flow_pairs(contributions)
    &&& forall|i: int| 0 <= i < views.len() ==> {
        &&& (#[trigger] views[i]).rules == flow_rules(contributions, flow_pair(views[i]))
        &&& views[i].weight == flow_weight(contributions, flow_pair(views[i]))
    }
}

/// Every rule of every flow is below `bound`.
pub open spec fn rules_below(views: Seq<FlowView>, bound: int) -> bool {
    forall|i: int, k: int| 0 <= i < views.len() && 0 <= k < views[i].rules.len() ==> #[trigger] views[i].rules[k] < bound
}

/// Adds one contribution to the flows.
fn add_flow(flows: &mut Vec<InformationFlowStep>, s: usize, t: usize, r: usize, w: u8, Ghost(contributions): Ghost<Seq<Contribution>>, Ghost(bound): Ghost<int>)
    requires
        flow_table(flow_views(old(flows)@), contributions),
        rules_below(flow_views(old(flows)@), bound),
        r < bound,
    ensures
        flow_table(flow_views(final(flows)@), contributions.push((s, t, r, w as int))),
        rules_below(flow_views(final(flows)@), bound),
{
    let ghost next = contributions.push((s, t, r, w as int));
    let ghost before = flow_views(flows@);
    proof {
        assert(contribution_pairs(next) =~= contribution_pairs(contributions).push((s, t)));
        assert(contribution_pairs(next).drop_last() =~= contribution_pairs(contributions));
        assert(flow_pairs(next) == add_new(flow_pairs(contributions), (s, t)));
        assert(next.drop_last() =~= contributions);
    }
    let mut index: usize = 0;
    let mut found = false;
    while !found && index < flows.len()
        invariant
            flow_views(flows@) == before,
            index <= flows.len(),
            found ==> index < flows.len() && flow_pair(before[index as int]) == (s, t),
            !found ==> forall|k: int| 0 <= k < index ==> flow_pair(#[trigger] before[k]) != (s, t),
        decreases flows.len() - index + if found { 0int } else { 1int },
    {
        if flows[index].source == s && flows[index].target == t {
            found = true;
        } else {
            index = index + 1;
        }
    }
    if found {
        let mut edge = flows.remove(index);
        edge.rules.push(r);
        if w > edge.weight {
            edge.weight = w;
        }
        flows.insert(index, edge);
        proof {
            let after = flow_views(flows@);
            assert(after =~= before.update(index as int, edge@));
            assert(flow_pairs(contributions).contains((s, t))) by {
                assert(flow_pair_list(before)[index as int] == (s, t));
            }
            assert(flow_pair_list(after) =~= flow_pair_list(before));
            assert forall|i: int| 0 <= i < after.len() implies {
                &&& (#[trigger] after[i]).rules == flow_rules(next, flow_pair(after[i]))
                &&& after[i].weight == flow_weight(next, flow_pair(after[i]))
            } by {
                assert(next.filter_map(rule_for(flow_pair(after[i]))) == next.drop_last().filter_map(rule_for(flow_pair(after[i])))
                    + (match rule_for(flow_pair(after[i]))(next.last()) { Some(x) => seq![x], None => Seq::empty() }));
                if i == index {
                    assert(after[i].rules =~= before[i].rules.push(r));
                } else {
                    assert(after[i] == before[i]);
                    assert(flow_pair_list(before)[i] != flow_pair_list(before)[index as int]) by {
                        lemma_extend_members(Seq::empty(), contribution_pairs(contributions));
                    }
                    assert(flow_rules(next, flow_pair(after[i])) =~= flow_rules(contributions, flow_pair(after[i])));
                }
            }
            assert forall|i: int, k: int| 0 <= i < after.len() && 0 <= k < after[i].rules.len() implies #[trigger] after[i].rules[k] < bound by {
                if i == index {
                    assert(after[i].rules =~= before[i].rules.push(r));
                    if k < before[i].rules.len() {
                        assert(after[i].rules[k] == before[i].rules[k]);
                    }
                } else {
                    assert(after[i] == before[i]);
                }
            }
        }
    } else {
        let mut rules: Vec<usize> = Vec::new();
        rules.push(r);
        flows.push(InformationFlowStep { source: s, target: t, rules, weight: w });
        proof {
            let after = flow_views(flows@);
            assert(!flow_pairs(contributions).contains((s, t))) by {
                if flow_pairs(contributions).contains((s, t)) {
                    let k = choose|k: int| 0 <= k < flow_pair_list(before).len() && flow_pair_list(before)[k] == (s, t);
                    assert(flow_pair(before[k]) == (s, t));
                }
            }
            assert(flow_pair_list(after) =~= flow_pair_list(before).push((s, t)));
            assert forall|i: int| 0 <= i < after.len() implies {
                &&& (#[trigger] after[i]).rules == flow_rules(next, flow_pair(after[i]))
                &&& after[i].weight == flow_weight(next, flow_pair(after[i]))
            } by {
                assert(next.filter_map(rule_for(flow_pair(after[i]))) == next.drop_last().filter_map(rule_for(flow_pair(after[i])))
                    + (match rule_for(flow_pair(after[i]))(next.last()) { Some(x) => seq![x], None => Seq::empty() }));
                if i == before.len() {
                    lemma_no_flow(contributions, (s, t));
                    assert(after[i].rules =~= seq![r]);
                } else {
                    assert(after[i] == before[i]);
                    assert(flow_rules(next, flow_pair(after[i])) =~= flow_rules(contributions, flow_pair(after[i])));
                }
            }
            assert forall|i: int, k: int| 0 <= i < after.len() && 0 <= k < after[i].rules.len() implies #[trigger] after[i].rules[k] < bound by {
                if i < before.len() {
                    assert(after[i] == before[i]);
                } else {
                    assert(after[i].rules =~= seq![r]);
                }
            }
        }
    }
}

/// A pair nothing contributed to has no rules and no weight.
proof fn lemma_no_flow(contributions: Seq<Contribution>, pair: (usize, usize))
    requires
        !flow_pairs(contributions).contains(pair),
    ensures
        flow_rules(contributions, pair) == Seq::<usize>::empty(),
        flow_weight(contributions, pair) == 0,
    decreases contributions.len(),
{
    if contributions.len() > 0 {
        lemma_extend_members(Seq::empty(), contribution_pairs(contributions));
        lemma_extend_members(Seq::empty(), contribution_pairs(contributions.drop_last()));
        assert(contribution_pairs(contributions.drop_last()) =~= contribution_pairs(contributions).drop_last());
        let last = contributions.last();
        assert(flow_pairs(contributions) == extend_new(Seq::empty(), contribution_pairs(contributions)));
        assert(!contribution_pairs(contributions).contains(pair));
        assert(contribution_pairs(contributions)[contributions.len() - 1] == (last.0, last.1));
        assert(contribution_pairs(contributions).contains((last.0, last.1)));
        assert((last.0, last.1) != pair);
        assert forall|x: (usize, usize)| #[trigger] contribution_pairs(contributions.drop_last()).contains(x)
            implies contribution_pairs(contributions).contains(x) by {
            let k = choose|k: int| 0 <= k < contribution_pairs(contributions.drop_last()).len()
                && contribution_pairs(contributions.drop_last())[k] == x;
            assert(contribution_pairs(contributions)[k] == x);
        }
        assert(!flow_pairs(contributions.drop_last()).contains(pair));
        lemma_no_flow(contributions.drop_last(), pair);
    } else {
        assert(flow_rules(contributions, pair) =~= Seq::<usize>::empty());
    }
}

/// The read and write weights of rule `r`.
fn rule_weights_of(policy: &Policy, map: &PermissionMap, r: usize) -> (result: (u8, u8))
    requires
        r < policy.te_rules@.len(),
        map.well_formed(),
    ensures
        result.0 as int == rule_weights(*policy, map@, r as int).0,
        result.1 as int == rule_weights(*policy, map@, r as int).1,
{
    let rule = &policy.te_rules[r];
    if rule.target_class >= policy.classes.len() {
        return (0, 0);
    }
    let class = &policy.classes[rule.target_class];
    match &rule.data {
        TeRuleData::DefaultType(_) => (0, 0),
        TeRuleData::Permissions(permissions) => {
            let mut read: u8 = 0;
            let mut write: u8 = 0;
            let mut index: usize = 0;
            assert(permissions@.take(0) =~= Seq::<usize>::empty());
            while index < permissions.len()
                invariant
                    map.well_formed(),
                    rule.target_class < policy.classes@.len(),
                    *class == policy.classes@[rule.target_class as int],
                    index <= permissions.len(),
                    (read as int, write as int) == weights_of(*policy, map@, rule.target_class as int, permissions@.take(index as int)),
                decreases permissions.len() - index,
            {
                let p = permissions[index];
                proof {
                    let next = permissions@.take(index + 1);
                    assert(next.drop_last() =~= permissions@.take(index as int));
                    assert(next.last() == p);
                }
                if p < class.permissions.len() {
                    match map.mapping(class.name.as_str(), class.permissions[p].as_str()) {
                        Some(mapping) => {
                            let w = mapping.weight();
                            match mapping.direction() {
                                PermissionDirection::Read => {
                                    if w > read {
                                        read = w;
                                    }
                                },
                                PermissionDirection::Write => {
                                    if w > write {
                                        write = w;
                                    }
                                },
                                PermissionDirection::Both => {
                                    if w > read {
                                        read = w;
                                    }
                                    if w > write {
                                        write = w;
                                    }
                                },
                                _ => {},
                            }
                        },
                        None => {},
                    }
                }
                index = index + 1;
            }
            assert(permissions@.take(permissions.len() as int) =~= permissions@);
            (read, write)
        },
    }
}

/// The pairs from each of `sources` to each of `targets`.
fn product_list(sources: &Vec<usize>, targets: &Vec<usize>) -> (result: Vec<(usize, usize)>)
    ensures
        result@ == product(sources@, targets@),
{
    let mut result: Vec<(usize, usize)> = Vec::new();
    let mut i: usize = 0;
    assert(sources@.take(0) =~= Seq::<usize>::empty());
    while i < sources.len()
        invariant
            i <= sources.len(),
            result@ == product(sources@.take(i as int), targets@),
        decreases sources.len() - i,
    {
        let s = sources[i];
        let ghost start = result@;
        let mut j: usize = 0;
        assert(targets@.take(0) =~= Seq::<usize>::empty());
        assert(start + row(s, targets@.take(0)) =~= start);
        while j < targets.len()
            invariant
                j <= targets.len(),
                result@ == start + row(s, targets@.take(j as int)),
            decreases targets.len() - j,
        {
            let t = targets[j];
            proof {
                let next = targets@.take(j + 1);
                assert(next.drop_last() =~= targets@.take(j as int));
                assert(next.last() == t);
            }
            if s != t {
                result.push((s, t));
                assert(result@ =~= start + row(s, targets@.take(j + 1)));
            } else {
                assert(result@ =~= start + row(s, targets@.take(j + 1)));
            }
            j = j + 1;
        }
        proof {
            let next = sources@.take(i + 1);
            assert(next.drop_last() =~= sources@.take(i as int));
            assert(next.last() == s);
            assert(targets@.take(targets.len() as int) =~= targets@);
        }
        i = i + 1;
    }
    assert(sources@.take(sources.len() as int) =~= sources@);
    result
}

/// Builds the flows of every `allow` rule.
fn build_flows(policy: &Policy, map: &PermissionMap) -> (result: Vec<InformationFlowStep>)
    requires
        map.well_formed(),
    ensures
        flow_table(flow_views(result@), all_flows(*policy, map@)),
        rules_below(flow_views(result@), policy.te_rules@.len() as int),
{
    let count = policy.te_rules.len();
    let mut flows: Vec<InformationFlowStep> = Vec::new();
    let mut r: usize = 0;
    assert(flow_pair_list(flow_views(flows@)) =~= Seq::<(usize, usize)>::empty());
    assert(flow_pairs(raw_flows(*policy, map@, 0)) =~= Seq::<(usize, usize)>::empty());
    while r < count
        invariant
            map.well_formed(),
            count == policy.te_rules@.len(),
            r <= count,
            flow_table(flow_views(flows@), raw_flows(*policy, map@, r as nat)),
            rules_below(flow_views(flows@), count as int),
        decreases count - r,
    {
        let ghost done = raw_flows(*policy, map@, r as nat);
        let rule = &policy.te_rules[r];
        if rule.kind == TeRuleKind::Allow {
            let (read, write) = rule_weights_of(policy, map, r);
            let sources = expand(policy, rule.source);
            let targets = expand(policy, rule.target);
            let pairs = product_list(&sources, &targets);
            let mut k: usize = 0;
            assert(pairs@.take(0) =~= Seq::<(usize, usize)>::empty());
            assert(done + flows_over(pairs@.take(0), r, read as int, write as int) =~= done);
            while k < pairs.len()
                invariant
                    k <= pairs.len(),
                    r < count,
                    flow_table(flow_views(flows@), done + flows_over(pairs@.take(k as int), r, read as int, write as int)),
                    rules_below(flow_views(flows@), count as int),
                decreases pairs.len() - k,
            {
                let (s, t) = pairs[k];
                let ghost before = done + flows_over(pairs@.take(k as int), r, read as int, write as int);
                proof {
                    let next = pairs@.take(k + 1);
                    assert(next.drop_last() =~= pairs@.take(k as int));
                    assert(next.last() == (s, t));
                }
                let ghost middle = if write > 0 { before.push((s, t, r, write as int)) } else { before };
                if write > 0 {
                    add_flow(&mut flows, s, t, r, write, Ghost(before), Ghost(count as int));
                }
                if read > 0 {
                    add_flow(&mut flows, t, s, r, read, Ghost(middle), Ghost(count as int));
                }
                proof {
                    let after = done + flows_over(pairs@.take(k + 1), r, read as int, write as int);
                    if write > 0 && read > 0 {
                        assert(after =~= before.push((s, t, r, write as int)).push((t, s, r, read as int)));
                    } else if write > 0 {
                        assert(after =~= before.push((s, t, r, write as int)));
                    } else if read > 0 {
                        assert(after =~= before.push((t, s, r, read as int)));
                    } else {
                        assert(after =~= before);
                    }
                }
                k = k + 1;
            }
            proof {
                assert(pairs@.take(pairs.len() as int) =~= pairs@);
                assert(raw_flows(*policy, map@, (r + 1) as nat) == done + rule_flows(*policy, map@, r as int));
            }
        } else {
            proof {
                assert(raw_flows(*policy, map@, (r + 1) as nat) =~= done);
            }
        }
        r = r + 1;
    }
    flows
}

/// The value given to a named Boolean by the first override that names it.
pub open spec fn override_of(overrides: Seq<(String, bool)>, name: Seq<char>) -> Option<bool>
    decreases overrides.len(),
{
    if overrides.len() == 0 {
        None
    } else if overrides[0].0@ == name {
        Some(overrides[0].1)
    } else {
        override_of(overrides.drop_first(), name)
    }
}

/// The state of Boolean `id`: its override, else its default.
pub open spec fn boolean_state(policy: Policy, overrides: Seq<(String, bool)>, id: usize) -> bool {
    match override_of(overrides, policy.booleans@[id as int].name@) {
        Some(v) => v,
        None => policy.booleans@[id as int].state,
    }
}

/// The value of a binary operator.
pub open spec fn combine(token: ConditionalToken, left: bool, right: bool) -> bool {
    match token {
        ConditionalToken::Or => left || right,
        ConditionalToken::And => left && right,
        ConditionalToken::Xor => left != right,
        ConditionalToken::Equal => left == right,
        ConditionalToken::NotEqual => left != right,
        _ => false,
    }
}

/// The value stack after one more token, or `None` when the token cannot
/// be applied.
pub open spec fn apply_token(policy: Policy, overrides: Seq<(String, bool)>, stack: Seq<bool>, token: ConditionalToken) -> Option<Seq<bool>> {
    match token {
        ConditionalToken::Boolean(id) => if id < policy.booleans@.len() {
            Some(stack.push(boolean_state(policy, overrides, id)))
        } else {
            None
        },
        ConditionalToken::Not => if stack.len() >= 1 {
            Some(stack.drop_last().push(!stack.last()))
        } else {
            None
        },
        _ => if stack.len() >= 2 {
            Some(stack.drop_last().drop_last().push(combine(token, stack.drop_last().last(), stack.last())))
        } else {
            None
        },
    }
}

/// The value stack after a postfix expression, or `None` when it is
/// malformed.
pub open spec fn evaluate(policy: Policy, overrides: Seq<(String, bool)>, tokens: Seq<ConditionalToken>) -> Option<Seq<bool>>
    decreases tokens.len(),
{
    if tokens.len() == 0 {
        Some(Seq::empty())
    } else {
        match evaluate(policy, overrides, tokens.drop_last()) {
            Some(stack) => apply_token(policy, overrides, stack, tokens.last()),
            None => None,
        }
    }
}

/// Rule `r` applies under the given Boolean states: it is unconditional, or
/// its expression evaluates to exactly one value, the value of its branch.
pub open spec fn rule_enabled(policy: Policy, overrides: Seq<(String, bool)>, r: int) -> bool {
    match rule_at(policy, r).condition {
        None => true,
        Some(c) => if c.conditional < policy.conditionals@.len() {
            match evaluate(policy, overrides, policy.conditionals@[c.conditional as int]@) {
                Some(stack) => stack.len() == 1 && stack[0] == c.block,
                None => false,
            }
        } else {
            false
        },
    }
}

/// The override of a Boolean, if any.
fn find_override(overrides: &Vec<(String, bool)>, name: &str) -> (result: Option<bool>)
    ensures
        result == override_of(overrides@, name@),
{
    let mut index: usize = 0;
    assert(overrides@.skip(0) =~= overrides@);
    while index < overrides.len()
        invariant
            index <= overrides.len(),
            override_of(overrides@, name@) == override_of(overrides@.skip(index as int), name@),
        decreases overrides.len() - index,
    {
        assert(overrides@.skip(index as int)[0] == overrides@[index as int]);
        assert(overrides@.skip(index as int).drop_first() =~= overrides@.skip(index + 1));
        if same_text(overrides[index].0.as_str(), name) {
            return Some(overrides[index].1);
        }
        index = index + 1;
    }
    None
}

/// Whether rule `r` applies under the given Boolean states.
fn rule_applies(policy: &Policy, overrides: &Vec<(String, bool)>, r: usize) -> (result: bool)
    requires
        r < policy.te_rules@.len(),
    ensures
        result == rule_enabled(*policy, overrides@, r as int),
{
    let condition = match policy.te_rules[r].condition {
        None => {
            return true;
        },
        Some(c) => c,
    };
    if condition.conditional >= policy.conditionals.len() {
        return false;
    }
    let tokens = &policy.conditionals[condition.conditional];
    let mut stack: Vec<bool> = Vec::new();
    let mut index: usize = 0;
    assert(tokens@.take(0) =~= Seq::<ConditionalToken>::empty());
    while index < tokens.len()
        invariant
            r < policy.te_rules@.len(),
            policy.te_rules@[r as int].condition == Some(condition),
            condition.conditional < policy.conditionals@.len(),
            *tokens == policy.conditionals@[condition.conditional as int],
            index <= tokens.len(),
            evaluate(*policy, overrides@, tokens@.take(index as int)) == Some(stack@),
        decreases tokens.len() - index,
    {
        let token = tokens[index];
        proof {
            let next = tokens@.take(index + 1);
            assert(next.drop_last() =~= tokens@.take(index as int));
            assert(next.last() == token);
        }
        let ghost before = stack@;
        match token {
            ConditionalToken::Boolean(id) => {
                if id >= policy.booleans.len() {
                    proof {
                        lemma_evaluate_fails(*policy, overrides@, tokens@, index + 1);
                        assert(tokens@.take(tokens.len() as int) =~= tokens@);
                    }
                    return false;
                }
                let value = match find_override(overrides, policy.booleans[id].name.as_str()) {
                    Some(v) => v,
                    None => policy.booleans[id].state,
                };
                stack.push(value);
            },
            ConditionalToken::Not => {
                if stack.len() < 1 {
                    proof {
                        lemma_evaluate_fails(*policy, overrides@, tokens@, index + 1);
                        assert(tokens@.take(tokens.len() as int) =~= tokens@);
                    }
                    return false;
                }
                let value = stack.pop().unwrap();
                stack.push(!value);
                assert(stack@ =~= before.drop_last().push(!before.last()));
            },
            _ => {
                if stack.len() < 2 {
                    proof {
                        lemma_evaluate_fails(*policy, overrides@, tokens@, index + 1);
                        assert(tokens@.take(tokens.len() as int) =~= tokens@);
                    }
                    return false;
                }
                let right = stack.pop().unwrap();
                let left = stack.pop().unwrap();
                let value = match token {
                    ConditionalToken::Or => left || right,
                    ConditionalToken::And => left && right,
                    ConditionalToken::Xor => left != right,
                    ConditionalToken::Equal => left == right,
                    ConditionalToken::NotEqual => left != right,
                    _ => false,
                };
                stack.push(value);
                assert(stack@ =~= before.drop_last().drop_last().push(combine(token, before.drop_last().last(), before.last())));
            },
        }
        index = index + 1;
    }
    assert(tokens@.take(tokens.len() as int) =~= tokens@);
    stack.len() == 1 && stack[0] == condition.block
}

/// Once a token cannot be applied, the whole expression is malformed.
proof fn lemma_evaluate_fails(policy: Policy, overrides: Seq<(String, bool)>, tokens: Seq<ConditionalToken>, k: int)
    requires
        0 <= k <= tokens.len(),
        evaluate(policy, overrides, tokens.take(k)) is None,
    ensures
        evaluate(policy, overrides, tokens) is None,
    decreases tokens.len(),
{
    if tokens.len() > k {
        assert(tokens.drop_last().take(k) =~= tokens.take(k));
        lemma_evaluate_fails(policy, overrides, tokens.drop_last(), k);
    } else {
        assert(tokens.take(k) =~= tokens);
    }
}

/// A failure to answer an information-flow query.
#[derive(Debug, PartialEq, Eq)]
pub enum InformationFlowError {
    /// A name is not the name of a concrete type.
    UnknownType(String),
    /// The minimum flow weight is outside one to ten.
    InvalidWeight,
    /// The path depth limit is zero or negative.
    InvalidDepth,
}

impl InformationFlowError {
    /// Returns the message describing the error.
    pub fn message(&self) -> (result: String)
        ensures
            match self {
                InformationFlowError::UnknownType(name) => result@ == name@ + " is not a valid type"@,
                InformationFlowError::InvalidWeight => result@ == "Min information flow weight must be an integer 1-10."@,
                InformationFlowError::InvalidDepth => result@ == "Information flow max depth must be positive."@,
            },
    {
        match self {
            InformationFlowError::UnknownType(name) => {
                let mut text = crate::text::owned(name.as_str());
                crate::text::push_str(&mut text, " is not a valid type");
                text
            },
            InformationFlowError::InvalidWeight => crate::text::owned("Min information flow weight must be an integer 1-10."),
            InformationFlowError::InvalidDepth => crate::text::owned("Information flow max depth must be positive."),
        }
    }
}

/// A query failure as plain values.
pub enum FlowFailure {
    /// The named type does not exist.
    Unknown(Seq<char>),
    /// The minimum weight is out of range.
    Weight,
    /// The depth limit is out of range.
    Depth,
}

/// The plain value of an error.
pub open spec fn failure_of(error: InformationFlowError) -> FlowFailure {
    match error {
        InformationFlowError::UnknownType(name) => FlowFailure::Unknown(name@),
        InformationFlowError::InvalidWeight => FlowFailure::Weight,
        InformationFlowError::InvalidDepth => FlowFailure::Depth,
    }
}

/// The excluded types of a query, or why it fails: a minimum weight
/// outside one to ten, else the first name that is not a concrete type.
pub open spec fn exclusion(policy: Policy, minimum: i32, names: Seq<Seq<char>>) -> Result<Seq<usize>, FlowFailure> {
    if minimum < 1 || minimum > 10 {
        Err(FlowFailure::Weight)
    } else {
        match crate::graph::resolve_all(policy, names) {
            Ok(found) => Ok(found),
            Err(name) => Err(FlowFailure::Unknown(name)),
        }
    }
}

/// Keeps a rule that applies under the given Boolean states.
pub open spec fn enabled_in(policy: Policy, overrides: Seq<(String, bool)>) -> spec_fn(usize) -> Option<usize> {
    |r: usize| if rule_enabled(policy, overrides, r as int) { Some(r) } else { None }
}

/// The rules that apply, when Boolean states are given; all rules otherwise.
pub open spec fn enabled_rules(policy: Policy, overrides: Option<Seq<(String, bool)>>, rules: Seq<usize>) -> Seq<usize> {
    match overrides {
        Some(o) => rules.filter_map(enabled_in(policy, o)),
        None => rules,
    }
}

/// A flow kept by a query: neither end excluded, heavy enough, and with
/// some rule that applies; only its applying rules are kept.
pub open spec fn kept_flow(policy: Policy, minimum: int, excluded: Set<usize>, overrides: Option<Seq<(String, bool)>>) -> spec_fn(FlowView) -> Option<FlowView> {
    |v: FlowView| if excluded.contains(v.source) || excluded.contains(v.target) || v.weight < minimum {
        None
    } else {
        let rules = enabled_rules(policy, overrides, v.rules);
        if rules.len() == 0 { None } else { Some(FlowView { rules, ..v }) }
    }
}

/// The flows kept by a query.
pub open spec fn kept_flows(policy: Policy, views: Seq<FlowView>, minimum: int, excluded: Set<usize>, overrides: Option<Seq<(String, bool)>>) -> Seq<FlowView> {
    views.filter_map(kept_flow(policy, minimum, excluded, overrides))
}

/// The plain value of optional Boolean states.
pub open spec fn overrides_view(overrides: Option<&Vec<(String, bool)>>) -> Option<Seq<(String, bool)>> {
    match overrides {
        Some(o) => Some(o@),
        None => None,
    }
}

/// Keeps the flows leaving `s`.
pub open spec fn flow_leaving(s: usize) -> spec_fn(FlowView) -> Option<FlowView> {
    |v: FlowView| if v.source == s { Some(v) } else { None }
}

/// Keeps the flows entering `t`.
pub open spec fn flow_entering(t: usize) -> spec_fn(FlowView) -> Option<FlowView> {
    |v: FlowView| if v.target == t { Some(v) } else { None }
}

/// Counts from an information-flow graph.
#[derive(PartialEq, Eq, Structural, Clone, Copy, Debug)]
pub struct InformationFlowStats {
    /// Types at an end of some flow.
    pub nodes: usize,
    /// Directed flows.
    pub edges: usize,
}

/// The information flows of a policy under a permission map.
pub struct InformationFlowGraph<'a> {
    policy: &'a Policy,
    map: Ghost<MapView>,
    edges: Vec<InformationFlowStep>,
    nodes: Vec<usize>,
}

impl<'a> InformationFlowGraph<'a> {
    /// The policy the graph was built from.
    pub closed spec fn source_policy(self) -> Policy {
        *self.policy
    }

    /// The permission map the graph was built with.
    pub closed spec fn permission_map(self) -> MapView {
        self.map@
    }

    /// The flows, in order of first contribution.
    pub closed spec fn flows(self) -> Seq<FlowView> {
        flow_views(self.edges@)
    }

    /// The types at an end of some flow.
    pub closed spec fn node_set(self) -> Set<usize> {
        self.nodes@.to_set()
    }

    #[verifier::type_invariant]
    closed spec fn consistent(self) -> bool {
        &&& well_formed(*self.policy)
        &&& flow_table(flow_views(self.edges@), all_flows(*self.policy, self.map@))
        &&& rules_below(flow_views(self.edges@), self.policy.te_rules@.len() as int)
        &&& flow_pair_list(flow_views(self.edges@)).no_duplicates()
        &&& self.nodes@.no_duplicates()
        &&& self.nodes@.to_set() == crate::pairs::endpoints(flow_pairs(all_flows(*self.policy, self.map@)))
    }

    /// Builds every flow of the policy's `allow` rules.
    pub fn new(policy: &'a Policy, permission_map: &PermissionMap) -> (result: Self)
        requires
            well_formed(*policy),
            permission_map.well_formed(),
        ensures
            result.source_policy() == *policy,
            result.permission_map() == permission_map@,
            flow_table(result.flows(), all_flows(*policy, permission_map@)),
            result.node_set() == crate::pairs::endpoints(flow_pairs(all_flows(*policy, permission_map@))),
    {
        let edges = build_flows(policy, permission_map);
        let pairs = flow_pairs_of(&edges);
        let nodes = crate::pairs::endpoint_list(&pairs);
        proof {
            lemma_extend_members(Seq::empty(), contribution_pairs(all_flows(*policy, permission_map@)));
        }
        InformationFlowGraph { policy, map: Ghost(permission_map@), edges, nodes }
    }

    /// Returns the counts of the whole graph.
    pub fn stats(&self) -> (result: InformationFlowStats)
        ensures
            result.nodes == self.node_set().len(),
            result.edges == self.flows().len(),
    {
        proof {
            use_type_invariant(self);
            self.nodes@.unique_seq_to_set();
        }
        InformationFlowStats { nodes: self.nodes.len(), edges: self.edges.len() }
    }

    /// Checks the minimum weight and finds the excluded types.
    fn exclusions(&self, minimum: i32, exclude: &Vec<String>) -> (result: Result<Vec<usize>, InformationFlowError>)
        ensures
            match result {
                Ok(found) => exclusion(self.source_policy(), minimum, crate::text::texts(exclude@)) == Ok::<Seq<usize>, FlowFailure>(found@),
                Err(error) => exclusion(self.source_policy(), minimum, crate::text::texts(exclude@)) == Err::<Seq<usize>, FlowFailure>(failure_of(error)),
            },
    {
        proof {
            use_type_invariant(self);
        }
        if minimum < 1 || minimum > 10 {
            return Err(InformationFlowError::InvalidWeight);
        }
        match crate::graph::resolve_names(self.policy, exclude) {
            Ok(found) => Ok(found),
            Err(crate::graph::GraphError::UnknownType(name)) => Err(InformationFlowError::UnknownType(name)),
            Err(crate::graph::GraphError::InvalidDepth) => Err(InformationFlowError::InvalidDepth),
        }
    }

    /// Finds a concrete type by name.
    fn resolve(&self, name: &str) -> (result: Result<usize, InformationFlowError>)
        ensures
            match result {
                Ok(t) => crate::policy::concrete_type_named(self.source_policy(), name@) == Some(t),
                Err(error) => crate::policy::concrete_type_named(self.source_policy(), name@) is None
                    && failure_of(error) == FlowFailure::Unknown(name@),
            },
    {
        proof {
            use_type_invariant(self);
        }
        match crate::graph::resolve_type(self.policy, name) {
            Ok(t) => Ok(t),
            Err(crate::graph::GraphError::UnknownType(unknown)) => Err(InformationFlowError::UnknownType(unknown)),
            Err(crate::graph::GraphError::InvalidDepth) => Err(InformationFlowError::InvalidDepth),
        }
    }

    /// The flows kept by a query.
    fn kept(&self, minimum: i32, excluded: &Vec<usize>, overrides: Option<&Vec<(String, bool)>>) -> (result: Vec<InformationFlowStep>)
        ensures
            flow_views(result@) == kept_flows(self.source_policy(), self.flows(), minimum as int, excluded@.to_set(), overrides_view(overrides)),
    {
        proof {
            use_type_invariant(self);
        }
        let ghost all = self.flows();
        let ghost keep = kept_flow(*self.policy, minimum as int, excluded@.to_set(), overrides_view(overrides));
        let mut result: Vec<InformationFlowStep> = Vec::new();
        let mut index: usize = 0;
        assert(all.take(0).filter_map(keep) =~= Seq::<FlowView>::empty());
        assert(flow_views(result@) =~= Seq::<FlowView>::empty());
        while index < self.edges.len()
            invariant
                all == self.flows(),
                all == flow_views(self.edges@),
                rules_below(all, self.policy.te_rules@.len() as int),
                keep == kept_flow(*self.policy, minimum as int, excluded@.to_set(), overrides_view(overrides)),
                index <= self.edges.len(),
                flow_views(result@) == all.take(index as int).filter_map(keep),
            decreases self.edges.len() - index,
        {
            let edge = &self.edges[index];
            proof {
                all.lemma_filter_map_take_succ(keep, index as int);
                assert(all[index as int] == edge@);
            }
            let ghost before = flow_views(result@);
            let skip = crate::pairs::contains_type(excluded, edge.source) || crate::pairs::contains_type(excluded, edge.target)
                || (edge.weight as i32) < minimum;
            if !skip {
                let rules = match overrides {
                    Some(o) => applying_rules(self.policy, o, &edge.rules),
                    None => crate::paths::copy_nodes(&edge.rules),
                };
                if rules.len() > 0 {
                    let kept = InformationFlowStep { source: edge.source, target: edge.target, rules, weight: edge.weight };
                    result.push(kept);
                    assert(flow_views(result@) =~= before + seq![kept@]);
                }
            }
            index = index + 1;
        }
        assert(all.take(all.len() as int) =~= all);
        result
    }
}

/// The pairs of a list of flows.
fn flow_pairs_of(flows: &Vec<InformationFlowStep>) -> (result: Vec<(usize, usize)>)
    ensures
        result@ == flow_pair_list(flow_views(flows@)),
{
    let mut result: Vec<(usize, usize)> = Vec::new();
    let mut index: usize = 0;
    while index < flows.len()
        invariant
            index <= flows.len(),
            result@ == flow_pair_list(flow_views(flows@)).take(index as int),
        decreases flows.len() - index,
    {
        result.push((flows[index].source, flows[index].target));
        index = index + 1;
        assert(result@ =~= flow_pair_list(flow_views(flows@)).take(index as int));
    }
    assert(flow_pair_list(flow_views(flows@)).take(flows.len() as int) =~= flow_pair_list(flow_views(flows@)));
    result
}

/// The rules of a list that apply under the given Boolean states.
fn applying_rules(policy: &Policy, overrides: &Vec<(String, bool)>, rules: &Vec<usize>) -> (result: Vec<usize>)
    requires
        forall|k: int| 0 <= k < rules@.len() ==> #[trigger] rules@[k] < policy.te_rules@.len(),
    ensures
        result@ == rules@.filter_map(enabled_in(*policy, overrides@)),
{
    let ghost keep = enabled_in(*policy, overrides@);
    let mut result: Vec<usize> = Vec::new();
    let mut index: usize = 0;
    assert(rules@.take(0).filter_map(keep) =~= Seq::<usize>::empty());
    while index < rules.len()
        invariant
            forall|k: int| 0 <= k < rules@.len() ==> #[trigger] rules@[k] < policy.te_rules@.len(),
            keep == enabled_in(*policy, overrides@),
            index <= rules.len(),
            result@ == rules@.take(index as int).filter_map(keep),
        decreases rules.len() - index,
    {
        let r = rules[index];
        proof {
            rules@.lemma_filter_map_take_succ(keep, index as int);
        }
        if rule_applies(policy, overrides, r) {
            result.push(r);
            assert(result@ =~= rules@.take(index + 1).filter_map(keep));
        } else {
            assert(result@ =~= rules@.take(index + 1).filter_map(keep));
        }
        index = index + 1;
    }
    assert(rules@.take(rules.len() as int) =~= rules@);
    result
}

/// `steps` are the flows followed along `walk`, each one of `edges`.
pub open spec fn flow_follows(steps: Seq<FlowView>, edges: Seq<FlowView>, walk: Seq<usize>) -> bool {
    &&& steps.len() + 1 == walk.len()
    &&& forall|k: int| 0 <= k < steps.len() ==> edges.contains(#[trigger] steps[k]) && flow_pair(steps[k]) == (walk[k], walk[k + 1])
}

/// `steps` are the flows along some walk that satisfies `walks`.
pub open spec fn flow_walked(steps: Seq<FlowView>, edges: Seq<FlowView>, walks: spec_fn(Seq<usize>) -> bool) -> bool {
    exists|w: Seq<usize>| #[trigger] walks(w) && flow_follows(steps, edges, w)
}

/// One of `paths` is the flows along `w`.
pub open spec fn flow_listed(paths: Seq<Seq<FlowView>>, edges: Seq<FlowView>, w: Seq<usize>) -> bool {
    exists|i: int| 0 <= i < paths.len() && #[trigger] flow_follows(paths[i], edges, w)
}

/// `paths` lists, once each, the flows along exactly the walks that satisfy
/// `walks`.
pub open spec fn flow_answers(paths: Seq<Seq<FlowView>>, edges: Seq<FlowView>, walks: spec_fn(Seq<usize>) -> bool) -> bool {
    &&& paths.no_duplicates()
    &&& forall|i: int| 0 <= i < paths.len() ==> flow_walked(#[trigger] paths[i], edges, walks)
    &&& forall|w: Seq<usize>| #[trigger] walks(w) ==> flow_listed(paths, edges, w)
}

/// The plain values of a list of flow paths.
pub open spec fn flow_path_views(paths: Seq<Vec<InformationFlowStep>>) -> Seq<Seq<FlowView>> {
    paths.map_values(|p: Vec<InformationFlowStep>| flow_views(p@))
}

/// Flows determine the walk from a given start.
proof fn lemma_flow_follows_unique(steps: Seq<FlowView>, edges: Seq<FlowView>, a: Seq<usize>, b: Seq<usize>, n: int)
    requires
        flow_follows(steps, edges, a),
        flow_follows(steps, edges, b),
        a[0] == b[0],
        0 <= n < a.len(),
    ensures
        forall|k: int| 0 <= k <= n ==> a[k] == b[k],
    decreases n,
{
    if n > 0 {
        lemma_flow_follows_unique(steps, edges, a, b, n - 1);
        assert(flow_pair(steps[n - 1]) == (a[n - 1], a[n]));
        assert(flow_pair(steps[n - 1]) == (b[n - 1], b[n]));
    }
}

/// The flows followed along a walk over the flows' pairs.
fn flows_along(edges: &Vec<InformationFlowStep>, walk: &Vec<usize>) -> (result: Vec<InformationFlowStep>)
    requires
        crate::paths::is_walk(flow_pair_list(flow_views(edges@)), false, walk@),
    ensures
        flow_follows(flow_views(result@), flow_views(edges@), walk@),
{
    let ghost views = flow_views(edges@);
    let ghost pairs = flow_pair_list(views);
    let mut result: Vec<InformationFlowStep> = Vec::new();
    let mut k: usize = 0;
    while k + 1 < walk.len()
        invariant
            views == flow_views(edges@),
            pairs == flow_pair_list(views),
            crate::paths::is_walk(pairs, false, walk@),
            k + 1 <= walk.len(),
            result@.len() == k,
            forall|j: int| 0 <= j < k ==> views.contains(#[trigger] flow_views(result@)[j])
                && flow_pair(flow_views(result@)[j]) == (walk@[j], walk@[j + 1]),
        decreases walk.len() - k,
    {
        let wanted = (walk[k], walk[k + 1]);
        proof {
            assert(crate::paths::arc(pairs, false, walk@[k as int], walk@[k + 1]));
        }
        let mut i: usize = 0;
        let mut found = false;
        while !found && i < edges.len()
            invariant
                views == flow_views(edges@),
                pairs == flow_pair_list(views),
                crate::paths::arc(pairs, false, walk@[k as int], walk@[k + 1]),
                wanted == (walk@[k as int], walk@[k + 1]),
                i <= edges.len(),
                found ==> i < edges.len() && flow_pair(views[i as int]) == wanted,
                !found ==> forall|j: int| 0 <= j < i ==> flow_pair(#[trigger] views[j]) != wanted,
            decreases edges.len() - i + if found { 0int } else { 1int },
        {
            if edges[i].source == wanted.0 && edges[i].target == wanted.1 {
                found = true;
            } else {
                i = i + 1;
            }
        }
        proof {
            if !found {
                let j = choose|j: int| 0 <= j < pairs.len() && #[trigger] crate::paths::oriented(pairs[j], false) == (walk@[k as int], walk@[k + 1]);
                assert(pairs[j] == flow_pair(views[j]));
                assert(false);
            }
        }
        let ghost before = flow_views(result@);
        let step = edges[i].copy();
        result.push(step);
        proof {
            assert(flow_views(result@) =~= before.push(views[i as int]));
            assert(views.contains(views[i as int]));
        }
        k = k + 1;
    }
    result
}

/// The flows along each of a list of walks from `source`.
fn flows_for_walks(
    edges: &Vec<InformationFlowStep>,
    walks: &Vec<Vec<usize>>,
    source: usize,
    wanted: Ghost<spec_fn(Seq<usize>) -> bool>,
) -> (result: Vec<Vec<InformationFlowStep>>)
    requires
        crate::paths::path_views(walks@).no_duplicates(),
        forall|w: Seq<usize>| crate::paths::path_views(walks@).contains(w) <==> #[trigger] wanted@(w),
        forall|w: Seq<usize>| #[trigger] wanted@(w) ==> crate::paths::is_walk(flow_pair_list(flow_views(edges@)), false, w) && w[0] == source,
    ensures
        flow_answers(flow_path_views(result@), flow_views(edges@), wanted@),
{
    let ghost views = flow_views(edges@);
    let ghost nodes = crate::paths::path_views(walks@);
    let mut result: Vec<Vec<InformationFlowStep>> = Vec::new();
    let mut index: usize = 0;
    while index < walks.len()
        invariant
            views == flow_views(edges@),
            nodes == crate::paths::path_views(walks@),
            nodes.no_duplicates(),
            forall|w: Seq<usize>| nodes.contains(w) <==> #[trigger] wanted@(w),
            forall|w: Seq<usize>| #[trigger] wanted@(w) ==> crate::paths::is_walk(flow_pair_list(views), false, w) && w[0] == source,
            index <= walks.len(),
            result@.len() == index,
            forall|i: int| 0 <= i < index ==> flow_follows(#[trigger] flow_path_views(result@)[i], views, nodes[i]),
        decreases walks.len() - index,
    {
        proof {
            assert(nodes.contains(nodes[index as int]));
            assert(wanted@(nodes[index as int]));
            assert(nodes[index as int] == walks@[index as int]@);
        }
        let steps = flows_along(edges, &walks[index]);
        let ghost before = flow_path_views(result@);
        result.push(steps);
        proof {
            assert(flow_path_views(result@) =~= before.push(flow_views(steps@)));
        }
        index = index + 1;
    }
    proof {
        let lists = flow_path_views(result@);
        assert forall|i: int| 0 <= i < lists.len() implies flow_walked(#[trigger] lists[i], views, wanted@) by {
            assert(nodes.contains(nodes[i]));
            assert(wanted@(nodes[i]));
            assert(flow_follows(lists[i], views, nodes[i]));
        }
        assert forall|w: Seq<usize>| #[trigger] wanted@(w) implies flow_listed(lists, views, w) by {
            assert(nodes.contains(w));
            let i = choose|i: int| 0 <= i < nodes.len() && nodes[i] == w;
            assert(flow_follows(lists[i], views, nodes[i]));
        }
        assert forall|i: int, j: int| 0 <= i < lists.len() && 0 <= j < lists.len() && i != j implies lists[i] != lists[j] by {
            if lists[i] == lists[j] {
                assert(nodes.contains(nodes[i]));
                assert(nodes.contains(nodes[j]));
                assert(wanted@(nodes[i]));
                assert(wanted@(nodes[j]));
                assert(flow_follows(lists[i], views, nodes[i]));
                assert(flow_follows(lists[i], views, nodes[j]));
                lemma_flow_follows_unique(lists[i], views, nodes[i], nodes[j], nodes[i].len() - 1);
                assert(nodes[i] =~= nodes[j]);
            }
        }
        assert(lists.no_duplicates());
    }
    result
}

/// Keeping flows keeps pairs distinct, and keeps only pairs already present.
proof fn lemma_kept_pairs(policy: Policy, views: Seq<FlowView>, minimum: int, excluded: Set<usize>, overrides: Option<Seq<(String, bool)>>)
    requires
        flow_pair_list(views).no_duplicates(),
    ensures
        flow_pair_list(kept_flows(policy, views, minimum, excluded, overrides)).no_duplicates(),
        forall|k: int| 0 <= k < kept_flows(policy, views, minimum, excluded, overrides).len()
            ==> flow_pair_list(views).contains(#[trigger] flow_pair_list(kept_flows(policy, views, minimum, excluded, overrides))[k]),
    decreases views.len(),
{
    let keep = kept_flow(policy, minimum, excluded, overrides);
    if views.len() > 0 {
        let rest = views.drop_last();
        assert(flow_pair_list(rest) =~= flow_pair_list(views).drop_last());
        lemma_kept_pairs(policy, rest, minimum, excluded, overrides);
        let before = kept_flows(policy, rest, minimum, excluded, overrides);
        let pl = flow_pair_list(views);
        assert forall|k: int| 0 <= k < before.len() implies pl.contains(#[trigger] flow_pair_list(before)[k]) by {
            let x = flow_pair_list(before)[k];
            assert(flow_pair_list(rest).contains(x));
            let i = choose|i: int| 0 <= i < flow_pair_list(rest).len() && flow_pair_list(rest)[i] == x;
            assert(pl[i] == x);
        }
        match keep(views.last()) {
            Some(v) => {
                let after = kept_flows(policy, views, minimum, excluded, overrides);
                assert(after =~= before + seq![v]);
                assert(flow_pair(v) == flow_pair(views.last()));
                assert(pl[views.len() - 1] == flow_pair(v));
                assert(!flow_pair_list(rest).contains(flow_pair(v))) by {
                    if flow_pair_list(rest).contains(flow_pair(v)) {
                        let i = choose|i: int| 0 <= i < flow_pair_list(rest).len() && flow_pair_list(rest)[i] == flow_pair(v);
                        assert(pl[i] == pl[views.len() - 1]);
                    }
                }
                assert forall|a: int, b: int| 0 <= a < b < flow_pair_list(after).len() implies flow_pair_list(after)[a] != flow_pair_list(after)[b] by {
                    if b == flow_pair_list(after).len() - 1 {
                        assert(flow_pair_list(after)[a] == flow_pair_list(before)[a]);
                        assert(flow_pair_list(rest).contains(flow_pair_list(before)[a]));
                    } else {
                        assert(flow_pair_list(after)[a] == flow_pair_list(before)[a]);
                        assert(flow_pair_list(after)[b] == flow_pair_list(before)[b]);
                    }
                }
                assert forall|k: int| 0 <= k < after.len() implies pl.contains(#[trigger] flow_pair_list(after)[k]) by {
                    if k < before.len() {
                        assert(flow_pair_list(after)[k] == flow_pair_list(before)[k]);
                    }
                }
            },
            None => {
                assert(kept_flows(policy, views, minimum, excluded, overrides) == before);
            },
        }
    } else {
        assert(kept_flows(policy, views, minimum, excluded, overrides) =~= Seq::<FlowView>::empty());
    }
}

/// The flows of a list that leave `node` (when `outgoing`) or enter it.
fn select_flows(edges: &Vec<InformationFlowStep>, node: usize, outgoing: bool) -> (result: Vec<InformationFlowStep>)
    ensures
        outgoing ==> flow_views(result@) == flow_views(edges@).filter_map(flow_leaving(node)),
        !outgoing ==> flow_views(result@) == flow_views(edges@).filter_map(flow_entering(node)),
{
    let ghost all = flow_views(edges@);
    let ghost keep = if outgoing { flow_leaving(node) } else { flow_entering(node) };
    let mut result: Vec<InformationFlowStep> = Vec::new();
    let mut index: usize = 0;
    assert(all.take(0).filter_map(keep) =~= Seq::<FlowView>::empty());
    assert(flow_views(result@) =~= Seq::<FlowView>::empty());
    while index < edges.len()
        invariant
            all == flow_views(edges@),
            keep == (if outgoing { flow_leaving(node) } else { flow_entering(node) }),
            index <= edges.len(),
            flow_views(result@) == all.take(index as int).filter_map(keep),
        decreases edges.len() - index,
    {
        let edge = &edges[index];
        proof {
            all.lemma_filter_map_take_succ(keep, index as int);
            assert(all[index as int] == edge@);
        }
        let ghost before = flow_views(result@);
        let end = if outgoing { edge.source } else { edge.target };
        if end == node {
            result.push(edge.copy());
            assert(flow_views(result@) =~= before + seq![edge@]);
        }
        index = index + 1;
    }
    assert(all.take(all.len() as int) =~= all);
    result
}

impl<'a> InformationFlowGraph<'a> {
    /// The flows kept by a query with these settings.
    pub open spec fn kept_by(self, minimum: i32, excluded: Seq<usize>, overrides: Option<&Vec<(String, bool)>>) -> Seq<FlowView> {
        kept_flows(self.source_policy(), self.flows(), minimum as int, excluded.to_set(), overrides_view(overrides))
    }

    /// The listed paths are the flows along the walks of `walks` over the
    /// kept flows; none when an end is excluded.
    pub open spec fn flow_paths_answer(
        self,
        paths: Seq<Seq<FlowView>>,
        s: usize,
        t: usize,
        minimum: i32,
        excluded: Seq<usize>,
        overrides: Option<&Vec<(String, bool)>>,
        walks: spec_fn(Seq<usize>) -> bool,
    ) -> bool {
        if excluded.contains(s) || excluded.contains(t) {
            paths.len() == 0
        } else {
            flow_answers(paths, self.kept_by(minimum, excluded, overrides), walks)
        }
    }

    /// Returns the counts of the graph under a query's settings; types at
    /// an end of no kept flow still count unless excluded.
    pub fn subgraph_stats(&self, minimum_weight: i32, exclude: &Vec<String>, booleans: Option<&Vec<(String, bool)>>) -> (result: Result<InformationFlowStats, InformationFlowError>)
        ensures
            match result {
                Ok(stats) => exclusion(self.source_policy(), minimum_weight, crate::text::texts(exclude@)) matches Ok(excluded)
                    && stats.nodes == self.node_set().difference(excluded.to_set()).len()
                    && stats.edges == self.kept_by(minimum_weight, excluded, booleans).len(),
                Err(error) => exclusion(self.source_policy(), minimum_weight, crate::text::texts(exclude@))
                    == Err::<Seq<usize>, FlowFailure>(failure_of(error)),
            },
    {
        proof {
            use_type_invariant(self);
        }
        let excluded = self.exclusions(minimum_weight, exclude)?;
        let edges = self.kept(minimum_weight, &excluded, booleans);
        let mut count: usize = 0;
        let mut index: usize = 0;
        let ghost dropped = excluded@.to_set();
        assert(self.nodes@.take(0).to_set().difference(dropped) =~= Set::<usize>::empty());
        while index < self.nodes.len()
            invariant
                self.nodes@.no_duplicates(),
                dropped == excluded@.to_set(),
                index <= self.nodes.len(),
                count <= index,
                count == self.nodes@.take(index as int).to_set().difference(dropped).len(),
            decreases self.nodes.len() - index,
        {
            let x = self.nodes[index];
            let ghost prior = self.nodes@.take(index as int);
            proof {
                assert(self.nodes@.take(index + 1) =~= prior.push(x));
                prior.lemma_push_to_set_commute(x);
                vstd::seq_lib::seq_to_set_is_finite(prior);
                assert(!prior.contains(x)) by {
                    if prior.contains(x) {
                        let i = choose|i: int| 0 <= i < prior.len() && prior[i] == x;
                        assert(self.nodes@[i] == self.nodes@[index as int]);
                    }
                }
            }
            if !crate::pairs::contains_type(&excluded, x) {
                proof {
                    let d = prior.to_set().difference(dropped);
                    assert(prior.to_set().insert(x).difference(dropped) =~= d.insert(x));
                    assert(!d.contains(x));
                    vstd::set::axiom_set_difference_finite(prior.to_set(), dropped);
                    vstd::set::axiom_set_insert_len(d, x);
                }
                count = count + 1;
            } else {
                assert(prior.to_set().insert(x).difference(dropped) =~= prior.to_set().difference(dropped));
            }
            index = index + 1;
        }
        assert(self.nodes@.take(self.nodes.len() as int) =~= self.nodes@);
        Ok(InformationFlowStats { nodes: count, edges: edges.len() })
    }

    /// Returns the kept flows out of a type.
    pub fn flows_out(&self, source: &str, minimum_weight: i32, exclude: &Vec<String>, booleans: Option<&Vec<(String, bool)>>) -> (result: Result<Vec<InformationFlowStep>, InformationFlowError>)
        ensures
            match crate::policy::concrete_type_named(self.source_policy(), source@) {
                None => result matches Err(error) && failure_of(error) == FlowFailure::Unknown(source@),
                Some(s) => match result {
                    Ok(list) => exclusion(self.source_policy(), minimum_weight, crate::text::texts(exclude@)) matches Ok(excluded)
                        && flow_views(list@) == self.kept_by(minimum_weight, excluded, booleans).filter_map(flow_leaving(s)),
                    Err(error) => exclusion(self.source_policy(), minimum_weight, crate::text::texts(exclude@))
                        == Err::<Seq<usize>, FlowFailure>(failure_of(error)),
                },
            },
    {
        let s = self.resolve(source)?;
        let excluded = self.exclusions(minimum_weight, exclude)?;
        let edges = self.kept(minimum_weight, &excluded, booleans);
        Ok(select_flows(&edges, s, true))
    }

    /// Returns the kept flows into a type.
    pub fn flows_in(&self, target: &str, minimum_weight: i32, exclude: &Vec<String>, booleans: Option<&Vec<(String, bool)>>) -> (result: Result<Vec<InformationFlowStep>, InformationFlowError>)
        ensures
            match crate::policy::concrete_type_named(self.source_policy(), target@) {
                None => result matches Err(error) && failure_of(error) == FlowFailure::Unknown(target@),
                Some(t) => match result {
                    Ok(list) => exclusion(self.source_policy(), minimum_weight, crate::text::texts(exclude@)) matches Ok(excluded)
                        && flow_views(list@) == self.kept_by(minimum_weight, excluded, booleans).filter_map(flow_entering(t)),
                    Err(error) => exclusion(self.source_policy(), minimum_weight, crate::text::texts(exclude@))
                        == Err::<Seq<usize>, FlowFailure>(failure_of(error)),
                },
            },
    {
        let t = self.resolve(target)?;
        let excluded = self.exclusions(minimum_weight, exclude)?;
        let edges = self.kept(minimum_weight, &excluded, booleans);
        Ok(select_flows(&edges, t, false))
    }

    /// Returns the flows along every shortest path between two types.
    pub fn shortest_paths(&self, source: &str, target: &str, minimum_weight: i32, exclude: &Vec<String>, booleans: Option<&Vec<(String, bool)>>) -> (result: Result<Vec<Vec<InformationFlowStep>>, InformationFlowError>)
        ensures
            match (crate::policy::concrete_type_named(self.source_policy(), source@), crate::policy::concrete_type_named(self.source_policy(), target@)) {
                (None, _) => result matches Err(error) && failure_of(error) == FlowFailure::Unknown(source@),
                (Some(_), None) => result matches Err(error) && failure_of(error) == FlowFailure::Unknown(target@),
                (Some(s), Some(t)) => match result {
                    Ok(paths) => exclusion(self.source_policy(), minimum_weight, crate::text::texts(exclude@)) matches Ok(excluded)
                        && self.flow_paths_answer(flow_path_views(paths@), s, t, minimum_weight, excluded, booleans,
                            crate::graph::shortest_from(flow_pair_list(self.kept_by(minimum_weight, excluded, booleans)), false, s, t)),
                    Err(error) => exclusion(self.source_policy(), minimum_weight, crate::text::texts(exclude@))
                        == Err::<Seq<usize>, FlowFailure>(failure_of(error)),
                },
            },
    {
        proof {
            use_type_invariant(self);
        }
        let s = self.resolve(source)?;
        let t = self.resolve(target)?;
        let excluded = self.exclusions(minimum_weight, exclude)?;
        let edges = self.kept(minimum_weight, &excluded, booleans);
        if crate::pairs::contains_type(&excluded, s) || crate::pairs::contains_type(&excluded, t) {
            return Ok(Vec::new());
        }
        let pairs = flow_pairs_of(&edges);
        proof {
            lemma_kept_pairs(*self.policy, self.flows(), minimum_weight as int, excluded@.to_set(), overrides_view(booleans));
        }
        let walks = crate::paths::shortest_node_paths(&pairs, s, t, false);
        let ghost wanted = crate::graph::shortest_from(pairs@, false, s, t);
        Ok(flows_for_walks(&edges, &walks, s, Ghost(wanted)))
    }

    /// Returns the flows along every path of at most `depth_limit` flows that
    /// repeats no type, between two types.
    pub fn all_paths(&self, source: &str, target: &str, depth_limit: i32, minimum_weight: i32, exclude: &Vec<String>, booleans: Option<&Vec<(String, bool)>>) -> (result: Result<Vec<Vec<InformationFlowStep>>, InformationFlowError>)
        ensures
            depth_limit < 1 ==> (result matches Err(error) && failure_of(error) == FlowFailure::Depth),
            depth_limit >= 1 ==> match (crate::policy::concrete_type_named(self.source_policy(), source@), crate::policy::concrete_type_named(self.source_policy(), target@)) {
                (None, _) => result matches Err(error) && failure_of(error) == FlowFailure::Unknown(source@),
                (Some(_), None) => result matches Err(error) && failure_of(error) == FlowFailure::Unknown(target@),
                (Some(s), Some(t)) => match result {
                    Ok(paths) => exclusion(self.source_policy(), minimum_weight, crate::text::texts(exclude@)) matches Ok(excluded)
                        && self.flow_paths_answer(flow_path_views(paths@), s, t, minimum_weight, excluded, booleans,
                            crate::graph::simple_from(flow_pair_list(self.kept_by(minimum_weight, excluded, booleans)), false, s, t, depth_limit as nat)),
                    Err(error) => exclusion(self.source_policy(), minimum_weight, crate::text::texts(exclude@))
                        == Err::<Seq<usize>, FlowFailure>(failure_of(error)),
                },
            },
    {
        proof {
            use_type_invariant(self);
        }
        if depth_limit < 1 {
            return Err(InformationFlowError::InvalidDepth);
        }
        let s = self.resolve(source)?;
        let t = self.resolve(target)?;
        let excluded = self.exclusions(minimum_weight, exclude)?;
        let edges = self.kept(minimum_weight, &excluded, booleans);
        if crate::pairs::contains_type(&excluded, s) || crate::pairs::contains_type(&excluded, t) {
            return Ok(Vec::new());
        }
        let pairs = flow_pairs_of(&edges);
        proof {
            lemma_kept_pairs(*self.policy, self.flows(), minimum_weight as int, excluded@.to_set(), overrides_view(booleans));
        }
        let depth = depth_limit as usize;
        let walks = crate::paths::all_node_paths(&pairs, s, t, depth, false);
        let ghost wanted = crate::graph::simple_from(pairs@, false, s, t, depth as nat);
        Ok(flows_for_walks(&edges, &walks, s, Ghost(wanted)))
    }
}

/// A kept flow is as heavy as the query asks, touches no excluded type, and
/// keeps only rules that apply under the given Boolean states.
pub proof fn law_kept_flows_meet_the_query(
    policy: Policy,
    views: Seq<FlowView>,
    minimum: int,
    excluded: Set<usize>,
    overrides: Option<Seq<(String, bool)>>,
    kept: FlowView,
)
    requires
        kept_flows(policy, views, minimum, excluded, overrides).contains(kept),
    ensures
        kept.weight >= minimum,
        !excluded.contains(kept.source),
        !excluded.contains(kept.target),
        kept.rules.len() > 0,
        overrides matches Some(o) ==> forall|k: int| 0 <= k < kept.rules.len() ==>
            rule_enabled(policy, o, #[trigger] kept.rules[k] as int),
{
    let keep = kept_flow(policy, minimum, excluded, overrides);
    views.lemma_filter_map_contains(keep, kept);
    let v = choose|v: FlowView| #[trigger] views.contains(v) && keep(v) == Some(kept);
    assert(keep(v) == Some(kept));
    match overrides {
        Some(o) => {
            assert(kept.rules == v.rules.filter_map(enabled_in(policy, o)));
            assert forall|k: int| 0 <= k < kept.rules.len() implies rule_enabled(policy, o, #[trigger] kept.rules[k] as int) by {
                let r = kept.rules[k];
                assert(v.rules.filter_map(enabled_in(policy, o)).contains(r));
                v.rules.lemma_filter_map_contains(enabled_in(policy, o), r);
            }
        },
        None => {},
    }
}


/// The weight a mapped permission carries from object to subject: its
/// weight when mapped as a read or both ways, else zero.
pub open spec fn read_part(f: Option<(PermissionDirection, int)>) -> int {
    match f {
        Some((PermissionDirection::Read, w)) => w,
        Some((PermissionDirection::Both, w)) => w,
        _ => 0,
    }
}

/// The weight a mapped permission carries from subject to object: its
/// weight when mapped as a write or both ways, else zero.
pub open spec fn write_part(f: Option<(PermissionDirection, int)>) -> int {
    match f {
        Some((PermissionDirection::Write, w)) => w,
        Some((PermissionDirection::Both, w)) => w,
        _ => 0,
    }
}

/// The read and write weights of a permission list bound every mapped
/// permission: the read weight is at least what each permission carries
/// from object to subject, the write weight at least what each carries from
/// subject to object. Each weight is never negative and is zero or what one
/// of the permissions carries.
pub proof fn law_weights_cover_each_permission(policy: Policy, map: MapView, class: int, permissions: Seq<usize>)
    ensures
        weights_of(policy, map, class, permissions).0 >= 0,
        weights_of(policy, map, class, permissions).1 >= 0,
        forall|k: int| 0 <= k < permissions.len() ==>
            weights_of(policy, map, class, permissions).0 >= read_part(#[trigger] permission_flow(policy, map, class, permissions[k]))
            && weights_of(policy, map, class, permissions).1 >= write_part(permission_flow(policy, map, class, permissions[k])),
        weights_of(policy, map, class, permissions).0 == 0 || exists|k: int| 0 <= k < permissions.len()
            && read_part(#[trigger] permission_flow(policy, map, class, permissions[k])) == weights_of(policy, map, class, permissions).0,
        weights_of(policy, map, class, permissions).1 == 0 || exists|k: int| 0 <= k < permissions.len()
            && write_part(#[trigger] permission_flow(policy, map, class, permissions[k])) == weights_of(policy, map, class, permissions).1,
    decreases permissions.len(),
{
    if permissions.len() > 0 {
        let shorter = permissions.drop_last();
        law_weights_cover_each_permission(policy, map, class, shorter);
        let last = permissions.len() - 1;
        assert(permissions[last] == permissions.last());
        assert forall|k: int| 0 <= k < shorter.len() implies #[trigger] shorter[k] == permissions[k] by {}
        let (r0, w0) = weights_of(policy, map, class, shorter);
        let (r1, w1) = weights_of(policy, map, class, permissions);
        let f = permission_flow(policy, map, class, permissions[last]);
        if r1 != 0 {
            if r1 == r0 {
                let k = choose|k: int| 0 <= k < shorter.len()
                    && read_part(#[trigger] permission_flow(policy, map, class, shorter[k])) == r0;
                assert(shorter[k] == permissions[k]);
            } else {
                assert(read_part(f) == r1);
            }
        }
        if w1 != 0 {
            if w1 == w0 {
                let k = choose|k: int| 0 <= k < shorter.len()
                    && write_part(#[trigger] permission_flow(policy, map, class, shorter[k])) == w0;
                assert(shorter[k] == permissions[k]);
            } else {
                assert(write_part(f) == w1);
            }
        }
        assert forall|k: int| 0 <= k < permissions.len() implies
            r1 >= read_part(#[trigger] permission_flow(policy, map, class, permissions[k]))
            && w1 >= write_part(permission_flow(policy, map, class, permissions[k])) by {
            if k < last {
                assert(shorter[k] == permissions[k]);
                assert(r0 >= read_part(permission_flow(policy, map, class, shorter[k])));
            }
        }
    }
}

/// A permission mapped both ways makes its rule carry information both ways:
/// for each expanded pair of an `allow` rule, the weight it contributes
/// forwards and the weight it contributes backwards are each at least the
/// permission's weight.
pub proof fn law_both_ways_permission_flows_both_ways(policy: Policy, map: MapView, class: int, permissions: Seq<usize>, k: int, w: int)
    requires
        0 <= k < permissions.len(),
        permission_flow(policy, map, class, permissions[k]) == Some((PermissionDirection::Both, w)),
    ensures
        weights_of(policy, map, class, permissions).0 >= w,
        weights_of(policy, map, class, permissions).1 >= w,
{
    law_weights_cover_each_permission(policy, map, class, permissions);
    assert(read_part(permission_flow(policy, map, class, permissions[k])) == w);
    assert(write_part(permission_flow(policy, map, class, permissions[k])) == w);
}

/// A flow weighs as much as its heaviest contribution: at least the weight
/// of every contribution to its pair, never negative, and, when positive,
/// exactly the weight of one of them.
pub proof fn law_flow_weight_is_the_largest_contribution(contributions: Seq<Contribution>, pair: (usize, usize))
    ensures
        flow_weight(contributions, pair) >= 0,
        forall|i: int| 0 <= i < contributions.len() && ((#[trigger] contributions[i]).0, contributions[i].1) == pair
            ==> flow_weight(contributions, pair) >= contributions[i].3,
        flow_weight(contributions, pair) == 0 || exists|i: int| 0 <= i < contributions.len()
            && ((#[trigger] contributions[i]).0, contributions[i].1) == pair
            && contributions[i].3 == flow_weight(contributions, pair),
    decreases contributions.len(),
{
    if contributions.len() > 0 {
        let shorter = contributions.drop_last();
        law_flow_weight_is_the_largest_contribution(shorter, pair);
        let last = contributions.len() - 1;
        assert(contributions[last] == contributions.last());
        assert forall|i: int| 0 <= i < shorter.len() implies #[trigger] shorter[i] == contributions[i] by {}
        let before = flow_weight(shorter, pair);
        if before != 0 && flow_weight(contributions, pair) == before {
            let i = choose|i: int| 0 <= i < shorter.len() && ((#[trigger] shorter[i]).0, shorter[i].1) == pair
                && shorter[i].3 == before;
            assert(shorter[i] == contributions[i]);
        }
        assert forall|i: int| 0 <= i < contributions.len() && ((#[trigger] contributions[i]).0, contributions[i].1) == pair
            implies flow_weight(contributions, pair) >= contributions[i].3 by {
            if i < last {
                assert(shorter[i] == contributions[i]);
            }
        }
    }
}

/// The contributions over a list of pairs, one pair added at the end.
proof fn lemma_flows_over_last(pairs: Seq<(usize, usize)>, r: usize, read: int, write: int)
    requires
        pairs.len() > 0,
    ensures
        flows_over(pairs, r, read, write) == flows_over(pairs.drop_last(), r, read, write)
            + (if write > 0 { seq![(pairs.last().0, pairs.last().1, r, write)] } else { Seq::<Contribution>::empty() })
            + (if read > 0 { seq![(pairs.last().1, pairs.last().0, r, read)] } else { Seq::<Contribution>::empty() }),
{
}

/// Every pair gets its forward and backward flow.
proof fn lemma_flows_over_has_both(pairs: Seq<(usize, usize)>, r: usize, read: int, write: int, k: int)
    requires
        0 <= k < pairs.len(),
    ensures
        write > 0 ==> flows_over(pairs, r, read, write).contains((pairs[k].0, pairs[k].1, r, write)),
        read > 0 ==> flows_over(pairs, r, read, write).contains((pairs[k].1, pairs[k].0, r, read)),
    decreases pairs.len(),
{
    let shorter = pairs.drop_last();
    let last = pairs.len() - 1;
    lemma_flows_over_last(pairs, r, read, write);
    let before = flows_over(shorter, r, read, write);
    let fw: Seq<Contribution> = if write > 0 { seq![(pairs.last().0, pairs.last().1, r, write)] } else { Seq::empty() };
    let bw: Seq<Contribution> = if read > 0 { seq![(pairs.last().1, pairs.last().0, r, read)] } else { Seq::empty() };
    let all = before + fw + bw;
    if k < last {
        lemma_flows_over_has_both(shorter, r, read, write, k);
        assert(shorter[k] == pairs[k]);
        if write > 0 {
            let c = (pairs[k].0, pairs[k].1, r, write);
            let j = choose|j: int| 0 <= j < before.len() && before[j] == c;
            assert(all[j] == c);
        }
        if read > 0 {
            let c = (pairs[k].1, pairs[k].0, r, read);
            let j = choose|j: int| 0 <= j < before.len() && before[j] == c;
            assert(all[j] == c);
        }
    } else {
        assert(pairs[k] == pairs.last());
        if write > 0 {
            assert(all[before.len() as int] == (pairs[k].0, pairs[k].1, r, write));
        }
        if read > 0 {
            assert(all[(before.len() + fw.len()) as int] == (pairs[k].1, pairs[k].0, r, read));
        }
    }
}

/// Whether a contribution is the forward or backward flow of some pair.
pub open spec fn flow_of_some_pair(pairs: Seq<(usize, usize)>, r: usize, read: int, write: int, c: Contribution) -> bool {
    exists|k: int| 0 <= k < pairs.len() && (
        (c == (pairs[k].0, pairs[k].1, r, write) && write > 0)
        || (c == (pairs[k].1, pairs[k].0, r, read) && read > 0))
}

/// Every contribution is the forward or backward flow of a pair.
proof fn lemma_flows_over_only_pairs(pairs: Seq<(usize, usize)>, r: usize, read: int, write: int, i: int)
    requires
        0 <= i < flows_over(pairs, r, read, write).len(),
    ensures
        flow_of_some_pair(pairs, r, read, write, flows_over(pairs, r, read, write)[i]),
    decreases pairs.len(),
{
    let shorter = pairs.drop_last();
    let last = pairs.len() - 1;
    lemma_flows_over_last(pairs, r, read, write);
    let before = flows_over(shorter, r, read, write);
    let all = flows_over(pairs, r, read, write);
    if i < before.len() {
        lemma_flows_over_only_pairs(shorter, r, read, write, i);
        assert(all[i] == before[i]);
        let k = choose|k: int| 0 <= k < shorter.len() && (
            (before[i] == (shorter[k].0, shorter[k].1, r, write) && write > 0)
            || (before[i] == (shorter[k].1, shorter[k].0, r, read) && read > 0));
        assert(shorter[k] == pairs[k]);
    } else {
        assert(pairs[last] == pairs.last());
    }
}

/// A rule's contributions over its expanded pairs: for every pair, a
/// forward flow with the write weight when that is positive and a backward
/// flow with the read weight when that is positive, and nothing else.
pub proof fn law_rule_flows_go_both_ways(pairs: Seq<(usize, usize)>, r: usize, read: int, write: int)
    ensures
        forall|k: int| 0 <= k < pairs.len() && write > 0 ==>
            flows_over(pairs, r, read, write).contains((#[trigger] pairs[k].0, pairs[k].1, r, write)),
        forall|k: int| 0 <= k < pairs.len() && read > 0 ==>
            flows_over(pairs, r, read, write).contains((#[trigger] pairs[k].1, pairs[k].0, r, read)),
        forall|i: int| 0 <= i < flows_over(pairs, r, read, write).len() ==>
            flow_of_some_pair(pairs, r, read, write, #[trigger] flows_over(pairs, r, read, write)[i]),
{
    assert forall|k: int| 0 <= k < pairs.len() && write > 0 implies
        flows_over(pairs, r, read, write).contains((#[trigger] pairs[k].0, pairs[k].1, r, write)) by {
        lemma_flows_over_has_both(pairs, r, read, write, k);
    }
    assert forall|k: int| 0 <= k < pairs.len() && read > 0 implies
        flows_over(pairs, r, read, write).contains((#[trigger] pairs[k].1, pairs[k].0, r, read)) by {
        lemma_flows_over_has_both(pairs, r, read, write, k);
    }
    assert forall|i: int| 0 <= i < flows_over(pairs, r, read, write).len() implies
        flow_of_some_pair(pairs, r, read, write, #[trigger] flows_over(pairs, r, read, write)[i]) by {
        lemma_flows_over_only_pairs(pairs, r, read, write, i);
    }
}
} // verus!
