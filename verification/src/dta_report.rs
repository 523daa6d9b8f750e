//! The text that the domain-transition tool writes for its results.
use vstd::prelude::*;
use crate::policy::Policy;
use crate::text::{texts, owned, push_str, joined_by, join_texts, text_order, sort_texts};
use crate::report::{te_statements, te_rule_texts, decimal, push_decimal};
use crate::graph::{EntryView, TransitionView, DomainEntrypoint, DomainTransition, DomainTransitionStats,
    entry_views, transition_views, step_lists};

verus! {

/// The message for a transition that names a type the policy lacks.
pub open spec fn missing_type_message() -> Seq<char> {
    "domain transition refers to a missing type"@
}

/// The name of a type, or the missing-type message.
pub open spec fn type_text(policy: Policy, id: usize) -> Result<Seq<char>, Seq<char>> {
    if id < policy.types@.len() && !policy.types@[id as int].attribute {
        Ok(policy.types@[id as int].name@)
    } else {
        Err(missing_type_message())
    }
}

/// Every listed rule is a rule of the policy.
pub open spec fn rules_known(policy: Policy, rules: Seq<usize>) -> bool {
    forall|i: int| 0 <= i < rules.len() ==> #[trigger] rules[i] < policy.te_rules@.len()
}

/// Every rule of an entrypoint is a rule of the policy.
pub open spec fn entry_known(policy: Policy, e: EntryView) -> bool {
    rules_known(policy, e.entrypoint) && rules_known(policy, e.execute) && rules_known(policy, e.type_transition)
}

/// Every rule of a transition is a rule of the policy.
pub open spec fn transition_known(policy: Policy, v: TransitionView) -> bool {
    &&& rules_known(policy, v.transition)
    &&& rules_known(policy, v.setexec)
    &&& rules_known(policy, v.dyntransition)
    &&& rules_known(policy, v.setcurrent)
    &&& forall|i: int| 0 <= i < v.entrypoints.len() ==> entry_known(policy, #[trigger] v.entrypoints[i])
}

/// The statements of some rules in text order.
pub open spec fn sorted_statements(policy: Policy, rules: Seq<usize>) -> Result<Seq<Seq<char>>, Seq<char>> {
    match te_statements(policy, rules) {
        Ok(all) => Ok(all.sort_by(text_order())),
        Err(message) => Err(message),
    }
}

/// Each line indented by a tab.
pub open spec fn tabbed(lines: Seq<Seq<char>>) -> Seq<Seq<char>> {
    lines.map_values(|line: Seq<char>| "\t"@ + line)
}

/// The lines of an entrypoint: its name, then its entrypoint rules, its
/// execute rules and, where there are any, its `type_transition` rules.
pub open spec fn entrypoint_lines(policy: Policy, e: EntryView) -> Result<Seq<Seq<char>>, Seq<char>> {
    match type_text(policy, e.name) {
        Err(message) => Err(message),
        Ok(name) => match sorted_statements(policy, e.entrypoint) {
            Err(message) => Err(message),
            Ok(entry) => match sorted_statements(policy, e.execute) {
                Err(message) => Err(message),
                Ok(execute) => match sorted_statements(policy, e.type_transition) {
                    Err(message) => Err(message),
                    Ok(typed) => Ok(
                        seq!["\nEntrypoint "@ + name + ":"@, "\tDomain entrypoint rule(s):"@] + tabbed(entry)
                            + seq!["\n\tFile execute rule(s):"@] + tabbed(execute)
                            + (if e.type_transition.len() > 0 {
                                seq!["\n\tType transition rule(s):"@] + tabbed(typed)
                            } else {
                                Seq::empty()
                            }),
                    ),
                },
            },
        },
    }
}

/// The text of an entrypoint: its lines joined.
pub open spec fn entrypoint_text(policy: Policy, e: EntryView) -> Result<Seq<char>, Seq<char>> {
    match entrypoint_lines(policy, e) {
        Ok(lines) => Ok(joined_by(lines, "\n"@)),
        Err(message) => Err(message),
    }
}

/// One line per entrypoint, each ending in an empty line.
pub open spec fn entries_lines(policy: Policy, entries: Seq<EntryView>) -> Result<Seq<Seq<char>>, Seq<char>>
    decreases entries.len(),
{
    if entries.len() == 0 {
        Ok(Seq::empty())
    } else {
        match entries_lines(policy, entries.drop_last()) {
            Err(message) => Err(message),
            Ok(done) => match entrypoint_text(policy, entries.last()) {
                Err(message) => Err(message),
                Ok(text) => Ok(done.push(text + "\n"@)),
            },
        }
    }
}

/// The lines of the standard part of a transition, empty where it has no
/// `transition` rules.
pub open spec fn standard_lines(policy: Policy, v: TransitionView) -> Result<Seq<Seq<char>>, Seq<char>> {
    if v.transition.len() == 0 {
        Ok(Seq::empty())
    } else {
        match sorted_statements(policy, v.transition) {
            Err(message) => Err(message),
            Ok(rules) => match sorted_statements(policy, v.setexec) {
                Err(message) => Err(message),
                Ok(setexec) => match entries_lines(policy, v.entrypoints) {
                    Err(message) => Err(message),
                    Ok(entries) => Ok(
                        seq!["Domain transition rule(s):"@] + rules
                            + (if v.setexec.len() > 0 {
                                seq!["\nSet execution context rule(s):"@] + setexec
                            } else {
                                Seq::empty()
                            }) + entries,
                    ),
                },
            },
        }
    }
}

/// The lines of the dynamic part of a transition, empty where it has no
/// `dyntransition` rules.
pub open spec fn dynamic_lines(policy: Policy, v: TransitionView) -> Result<Seq<Seq<char>>, Seq<char>> {
    if v.dyntransition.len() == 0 {
        Ok(Seq::empty())
    } else {
        match sorted_statements(policy, v.dyntransition) {
            Err(message) => Err(message),
            Ok(rules) => match sorted_statements(policy, v.setcurrent) {
                Err(message) => Err(message),
                Ok(setcurrent) => Ok(
                    seq!["Dynamic transition rule(s):"@] + rules + seq!["\nSet current process context rule(s):"@]
                        + setcurrent + seq![Seq::<char>::empty()],
                ),
            },
        }
    }
}

/// The text of a transition: `source -> target` and, in full, the rules
/// that make it.
#[verifier::opaque]
pub open spec fn transition_text(policy: Policy, v: TransitionView, full: bool) -> Result<Seq<char>, Seq<char>> {
    match type_text(policy, v.source) {
        Err(message) => Err(message),
        Ok(source) => match type_text(policy, v.target) {
            Err(message) => Err(message),
            Ok(target) => {
                let head = source + " -> "@ + target + "\n"@;
                if !full {
                    Ok(head)
                } else {
                    match standard_lines(policy, v) {
                        Err(message) => Err(message),
                        Ok(standard) => match dynamic_lines(policy, v) {
                            Err(message) => Err(message),
                            Ok(dynamic) => Ok(joined_by(seq![head] + standard + dynamic, "\n"@)),
                        },
                    }
                }
            },
        },
    }
}

/// Writes the name of a type.
fn type_name_text(policy: &Policy, id: usize) -> (result: Result<String, String>)
    ensures
        match type_text(*policy, id) {
            Ok(name) => result matches Ok(r) && r@ == name,
            Err(message) => result matches Err(e) && e@ == message,
        },
{
    if id < policy.types.len() && !policy.types[id].attribute {
        Ok(policy.types[id].name.clone())
    } else {
        Err(owned("domain transition refers to a missing type"))
    }
}

/// Writes the statements of some rules in text order.
pub(crate) fn sorted_rule_texts(policy: &Policy, rules: &Vec<usize>) -> (result: Result<Vec<String>, String>)
    requires
        rules_known(*policy, rules@),
    ensures
        match sorted_statements(*policy, rules@) {
            Ok(all) => result matches Ok(v) && texts(v@) == all,
            Err(message) => result matches Err(e) && e@ == message,
        },
{
    match te_rule_texts(policy, rules) {
        Ok(all) => Ok(sort_texts(&all)),
        Err(message) => Err(message),
    }
}

/// Appends lines, each after a prefix.
pub(crate) fn push_lines(lines: &mut Vec<String>, more: &Vec<String>, prefix: &str)
    ensures
        texts(final(lines)@) == texts(old(lines)@) + texts(more@).map_values(|line: Seq<char>| prefix@ + line),
{
    let ghost start = texts(lines@);
    let mut index: usize = 0;
    while index < more.len()
        invariant
            index <= more.len(),
            texts(lines@) == start + texts(more@.take(index as int)).map_values(|line: Seq<char>| prefix@ + line),
        decreases more.len() - index,
    {
        let mut line = owned(prefix);
        push_str(&mut line, more[index].as_str());
        let ghost before = texts(lines@);
        lines.push(line);
        proof {
            assert(texts(lines@) =~= before.push(line@));
            assert(texts(more@.take(index + 1)) =~= texts(more@.take(index as int)).push(more@[index as int]@));
            assert(texts(more@.take(index + 1)).map_values(|line: Seq<char>| prefix@ + line)
                =~= texts(more@.take(index as int)).map_values(|line: Seq<char>| prefix@ + line).push(prefix@ + more@[index as int]@));
        }
        index = index + 1;
    }
    assert(more@.take(more.len() as int) =~= more@);
}


/// Writes the lines of an entrypoint.
fn entrypoint_line_texts(policy: &Policy, entry: &DomainEntrypoint) -> (result: Result<Vec<String>, String>)
    requires
        entry_known(*policy, entry@),
    ensures
        match entrypoint_lines(*policy, entry@) {
            Ok(lines) => result matches Ok(v) && texts(v@) == lines,
            Err(message) => result matches Err(e) && e@ == message,
        },
{
    let name = match type_name_text(policy, entry.name()) {
        Ok(name) => name,
        Err(message) => return Err(message),
    };
    let entry_rules = match sorted_rule_texts(policy, entry.entrypoint_rules()) {
        Ok(rules) => rules,
        Err(message) => return Err(message),
    };
    let execute_rules = match sorted_rule_texts(policy, entry.execute_rules()) {
        Ok(rules) => rules,
        Err(message) => return Err(message),
    };
    let typed_rules = match sorted_rule_texts(policy, entry.type_transition_rules()) {
        Ok(rules) => rules,
        Err(message) => return Err(message),
    };
    let mut heading = owned("\nEntrypoint ");
    push_str(&mut heading, name.as_str());
    push_str(&mut heading, ":");
    let mut lines: Vec<String> = Vec::new();
    lines.push(heading);
    let second = owned("\tDomain entrypoint rule(s):");
    lines.push(second);
    let ghost first_two = texts(lines@);
    assert(first_two =~= seq![heading@, second@]);
    push_lines(&mut lines, &entry_rules, "\t");
    let third = owned("\n\tFile execute rule(s):");
    let ghost with_entries = texts(lines@);
    lines.push(third);
    assert(texts(lines@) =~= with_entries.push(third@));
    push_lines(&mut lines, &execute_rules, "\t");
    let ghost before = texts(lines@);
    if entry.type_transition_rules().len() > 0 {
        let fourth = owned("\n\tType transition rule(s):");
        lines.push(fourth);
        assert(texts(lines@) =~= before.push(fourth@));
        push_lines(&mut lines, &typed_rules, "\t");
    }
    proof {
        let e = entry@;
        reveal_strlit("\t");
        assert(tabbed(texts(entry_rules@)) =~= texts(entry_rules@).map_values(|line: Seq<char>| "\t"@ + line));
        assert(tabbed(texts(execute_rules@)) =~= texts(execute_rules@).map_values(|line: Seq<char>| "\t"@ + line));
        assert(tabbed(texts(typed_rules@)) =~= texts(typed_rules@).map_values(|line: Seq<char>| "\t"@ + line));
        let head = seq!["\nEntrypoint "@ + name@ + ":"@, "\tDomain entrypoint rule(s):"@] + tabbed(texts(entry_rules@))
            + seq!["\n\tFile execute rule(s):"@] + tabbed(texts(execute_rules@));
        assert(before =~= head);
        if e.type_transition.len() > 0 {
            assert(texts(lines@) =~= head + (seq!["\n\tType transition rule(s):"@] + tabbed(texts(typed_rules@))));
        } else {
            assert(texts(lines@) =~= head + Seq::<Seq<char>>::empty());
        }
    }
    Ok(lines)
}

/// Writes the text of an entrypoint.
fn entrypoint_text_of(policy: &Policy, entry: &DomainEntrypoint) -> (result: Result<String, String>)
    requires
        entry_known(*policy, entry@),
    ensures
        match entrypoint_text(*policy, entry@) {
            Ok(text) => result matches Ok(r) && r@ == text,
            Err(message) => result matches Err(e) && e@ == message,
        },
{
    match entrypoint_line_texts(policy, entry) {
        Ok(lines) => Ok(join_texts(&lines, "\n")),
        Err(message) => Err(message),
    }
}

/// Once an entrypoint cannot be written, the whole list fails with its error.
proof fn lemma_entries_error_stays(policy: Policy, entries: Seq<EntryView>, k: int)
    requires
        0 <= k <= entries.len(),
        entries_lines(policy, entries.take(k)) is Err,
    ensures
        entries_lines(policy, entries) == entries_lines(policy, entries.take(k)),
    decreases entries.len(),
{
    if entries.len() > k {
        assert(entries.drop_last().take(k) =~= entries.take(k));
        lemma_entries_error_stays(policy, entries.drop_last(), k);
    } else {
        assert(entries.take(k) =~= entries);
    }
}

/// Appends one line per entrypoint.
fn push_entry_lines(policy: &Policy, entries: &Vec<DomainEntrypoint>, lines: &mut Vec<String>) -> (result: Result<(), String>)
    requires
        forall|i: int| 0 <= i < entries@.len() ==> entry_known(*policy, #[trigger] entries@[i]@),
    ensures
        match entries_lines(*policy, entry_views(entries@)) {
            Ok(more) => result is Ok && texts(final(lines)@) == texts(old(lines)@) + more,
            Err(message) => result matches Err(e) && e@ == message,
        },
{
    let ghost views = entry_views(entries@);
    let ghost start = texts(lines@);
    let mut index: usize = 0;
    assert(views.take(0) =~= Seq::<EntryView>::empty());
    assert(texts(lines@) =~= start + Seq::<Seq<char>>::empty());
    while index < entries.len()
        invariant
            index <= entries.len(),
            views == entry_views(entries@),
            forall|i: int| 0 <= i < entries@.len() ==> entry_known(*policy, #[trigger] entries@[i]@),
            entries_lines(*policy, views.take(index as int)) matches Ok(done) && texts(lines@) == start + done,
        decreases entries.len() - index,
    {
        let ghost next = views.take(index + 1);
        assert(next.drop_last() =~= views.take(index as int));
        assert(next.last() == entries@[index as int]@);
        match entrypoint_text_of(policy, &entries[index]) {
            Ok(text) => {
                let mut line = text;
                push_str(&mut line, "\n");
                let ghost before = texts(lines@);
                lines.push(line);
                assert(texts(lines@) =~= before.push(line@));
            },
            Err(message) => {
                proof {
                    lemma_entries_error_stays(*policy, views, index as int + 1);
                }
                return Err(message);
            },
        }
        index = index + 1;
    }
    assert(views.take(entries.len() as int) =~= views);
    Ok(())
}


/// Appends lines unchanged.
fn append_lines(lines: &mut Vec<String>, more: &Vec<String>)
    ensures
        texts(final(lines)@) == texts(old(lines)@) + texts(more@),
{
    push_lines(lines, more, "");
    proof {
        reveal_strlit("");
        assert(texts(more@).map_values(|line: Seq<char>| ""@ + line) =~= texts(more@));
    }
}

/// Appends one line.
fn push_line(lines: &mut Vec<String>, line: &str)
    ensures
        texts(final(lines)@) == texts(old(lines)@).push(line@),
{
    let ghost before = texts(lines@);
    let text = owned(line);
    lines.push(text);
    assert(texts(lines@) =~= before.push(line@));
}

/// Writes the text of a transition: `source -> target` and, in full, the
/// rules that make it.
pub fn render_transition(policy: &Policy, transition: &DomainTransition, full: bool) -> (result: Result<String, String>)
    requires
        transition_known(*policy, transition@),
    ensures
        match transition_text(*policy, transition@, full) {
            Ok(text) => result matches Ok(r) && r@ == text,
            Err(message) => result matches Err(e) && e@ == message,
        },
{
    reveal(transition_text);
    let ghost v = transition@;
    let source = match type_name_text(policy, transition.source()) {
        Ok(name) => name,
        Err(message) => return Err(message),
    };
    let target = match type_name_text(policy, transition.target()) {
        Ok(name) => name,
        Err(message) => return Err(message),
    };
    let mut head = source;
    push_str(&mut head, " -> ");
    push_str(&mut head, target.as_str());
    push_str(&mut head, "\n");
    if !full {
        return Ok(head);
    }
    let mut lines: Vec<String> = Vec::new();
    let ghost head_text = head@;
    lines.push(head);
    assert(texts(lines@) =~= seq![head_text]);
    let ghost standard_start = texts(lines@);
    if transition.transition_rules().len() > 0 {
        let rules = match sorted_rule_texts(policy, transition.transition_rules()) {
            Ok(rules) => rules,
            Err(message) => return Err(message),
        };
        let setexec = match sorted_rule_texts(policy, transition.setexec_rules()) {
            Ok(rules) => rules,
            Err(message) => return Err(message),
        };
        push_line(&mut lines, "Domain transition rule(s):");
        append_lines(&mut lines, &rules);
        let ghost after_rules = texts(lines@);
        if transition.setexec_rules().len() > 0 {
            push_line(&mut lines, "\nSet execution context rule(s):");
            append_lines(&mut lines, &setexec);
        }
        let ghost after_setexec = texts(lines@);
        proof {
            if v.setexec.len() > 0 {
                assert(after_setexec =~= after_rules + (seq!["\nSet execution context rule(s):"@] + texts(setexec@)));
            } else {
                assert(after_setexec =~= after_rules + Seq::<Seq<char>>::empty());
            }
        }
        let entrypoints = transition.entrypoints();
        proof {
            let entries = entrypoints@;
            assert forall|i: int| 0 <= i < entries.len() implies entry_known(*policy, #[trigger] entries[i]@) by {
                assert(entry_views(entries)[i] == entries[i]@);
            }
        }
        match push_entry_lines(policy, entrypoints, &mut lines) {
            Ok(()) => {},
            Err(message) => return Err(message),
        }
        proof {
            let entries = entries_lines(*policy, v.entrypoints)->Ok_0;
            assert(texts(lines@) =~= standard_start + standard_lines(*policy, v)->Ok_0);
        }
    } else {
        assert(texts(lines@) =~= standard_start + standard_lines(*policy, v)->Ok_0);
    }
    let ghost dynamic_start = texts(lines@);
    if transition.dyntransition_rules().len() > 0 {
        let rules = match sorted_rule_texts(policy, transition.dyntransition_rules()) {
            Ok(rules) => rules,
            Err(message) => return Err(message),
        };
        let setcurrent = match sorted_rule_texts(policy, transition.setcurrent_rules()) {
            Ok(rules) => rules,
            Err(message) => return Err(message),
        };
        push_line(&mut lines, "Dynamic transition rule(s):");
        append_lines(&mut lines, &rules);
        let ghost step1 = texts(lines@);
        assert(step1 =~= dynamic_start + (seq!["Dynamic transition rule(s):"@] + texts(rules@)));
        push_line(&mut lines, "\nSet current process context rule(s):");
        append_lines(&mut lines, &setcurrent);
        let ghost step2 = texts(lines@);
        assert(step2 =~= step1 + (seq!["\nSet current process context rule(s):"@] + texts(setcurrent@)));
        push_line(&mut lines, "");
        proof {
            reveal_strlit("");
            assert(""@ =~= Seq::<char>::empty());
            assert(texts(lines@) =~= step2 + seq![Seq::<char>::empty()]);
            assert(texts(lines@) =~= dynamic_start + dynamic_lines(*policy, v)->Ok_0);
        }
    } else {
        assert(texts(lines@) =~= dynamic_start + dynamic_lines(*policy, v)->Ok_0);
    }
    proof {
        assert(texts(lines@) =~= seq![head_text] + standard_lines(*policy, v)->Ok_0 + dynamic_lines(*policy, v)->Ok_0);
    }
    Ok(join_texts(&lines, "\n"))
}


/// The listing stops after item `count` (counted from one) when a nonzero
/// limit is reached; the count is compared as a 32-bit signed number.
pub open spec fn stops(count: nat, limit: i32) -> bool {
    limit != 0 && (count as i32) >= limit
}

/// The number of items listed from item `k + 1` on out of `n`.
pub open spec fn first_stop(k: nat, n: nat, limit: i32) -> nat
    decreases n - k,
{
    if k >= n {
        n
    } else if stops(k + 1, limit) {
        k + 1
    } else {
        first_stop(k + 1, n, limit)
    }
}

/// The number of items listed out of `n`.
pub open spec fn shown_count(n: nat, limit: i32) -> nat {
    first_stop(0, n, limit)
}

/// The line end after a transition: an empty line in full.
pub open spec fn item_end(full: bool) -> Seq<char> {
    if full { "\n\n"@ } else { "\n"@ }
}

/// The numbered transitions.
pub open spec fn numbered_transitions(policy: Policy, views: Seq<TransitionView>, full: bool) -> Result<Seq<char>, Seq<char>>
    decreases views.len(),
{
    if views.len() == 0 {
        Ok(Seq::empty())
    } else {
        match numbered_transitions(policy, views.drop_last(), full) {
            Err(message) => Err(message),
            Ok(done) => match transition_text(policy, views.last(), full) {
                Err(message) => Err(message),
                Ok(text) => Ok(done + "Transition "@ + decimal(views.len()) + ": "@ + text + item_end(full)),
            },
        }
    }
}

/// The numbered steps of a path.
pub open spec fn numbered_steps(policy: Policy, steps: Seq<TransitionView>, full: bool) -> Result<Seq<char>, Seq<char>>
    decreases steps.len(),
{
    if steps.len() == 0 {
        Ok(Seq::empty())
    } else {
        match numbered_steps(policy, steps.drop_last(), full) {
            Err(message) => Err(message),
            Ok(done) => match transition_text(policy, steps.last(), full) {
                Err(message) => Err(message),
                Ok(text) => Ok(done + "Step "@ + decimal(steps.len()) + ": "@ + text + item_end(full)),
            },
        }
    }
}

/// The numbered paths; each but the one the limit stops at ends in an
/// empty line.
pub open spec fn numbered_paths(policy: Policy, paths: Seq<Seq<TransitionView>>, full: bool, limit: i32) -> Result<Seq<char>, Seq<char>>
    decreases paths.len(),
{
    if paths.len() == 0 {
        Ok(Seq::empty())
    } else {
        match numbered_paths(policy, paths.drop_last(), full, limit) {
            Err(message) => Err(message),
            Ok(done) => match numbered_steps(policy, paths.last(), full) {
                Err(message) => Err(message),
                Ok(steps) => Ok(
                    done + "Domain transition path "@ + decimal(paths.len()) + ":\n"@ + steps
                        + (if stops(paths.len(), limit) { Seq::empty() } else { "\n"@ }),
                ),
            },
        }
    }
}

/// The results of an analysis: transitions or paths of transitions.
pub enum Results {
    /// Transitions out of or into a domain.
    Transitions(Vec<DomainTransition>),
    /// Paths between two domains, each a list of steps.
    Paths(Vec<Vec<DomainTransition>>),
}

/// The results as plain values.
pub enum ResultsView {
    /// Transitions.
    Transitions(Seq<TransitionView>),
    /// Paths.
    Paths(Seq<Seq<TransitionView>>),
}

/// The plain values of some results.
pub open spec fn results_view(results: Results) -> ResultsView {
    match results {
        Results::Transitions(t) => ResultsView::Transitions(transition_views(t@)),
        Results::Paths(p) => ResultsView::Paths(step_lists(p@)),
    }
}

/// Every rule named by the results is a rule of the policy.
pub open spec fn results_known(policy: Policy, results: ResultsView) -> bool {
    match results {
        ResultsView::Transitions(t) => forall|i: int| 0 <= i < t.len() ==> transition_known(policy, #[trigger] t[i]),
        ResultsView::Paths(p) => forall|i: int, j: int|
            0 <= i < p.len() && 0 <= j < p[i].len() ==> transition_known(policy, #[trigger] p[i][j]),
    }
}

/// The listing of the results, up to the limit, with its count.
pub open spec fn results_text(policy: Policy, results: ResultsView, full: bool, limit: i32) -> Result<Seq<char>, Seq<char>> {
    match results {
        ResultsView::Transitions(t) => {
            let k = shown_count(t.len(), limit);
            match numbered_transitions(policy, t.take(k as int), full) {
                Err(message) => Err(message),
                Ok(text) => Ok(text + "\n"@ + decimal(k) + " domain transition(s) found.\n"@),
            }
        },
        ResultsView::Paths(p) => {
            let k = shown_count(p.len(), limit);
            match numbered_paths(policy, p.take(k as int), full, limit) {
                Err(message) => Err(message),
                Ok(text) => Ok(text + "\n"@ + decimal(k) + " domain transition path(s) found.\n"@),
            }
        },
    }
}

/// The graph statistics, where asked for.
pub open spec fn stats_text(enabled: bool, stats: DomainTransitionStats) -> Seq<char> {
    if !enabled {
        Seq::empty()
    } else {
        "\nGraph statistics:\nnx.number_of_nodes(self.G)="@ + decimal(stats.nodes as nat) + "\nnx.number_of_edges(self.G)="@
            + decimal(stats.edges as nat) + "\nlen(self.G)="@ + decimal(stats.nodes as nat) + "\n\n"@
    }
}

/// Writes the graph statistics, where asked for.
pub fn render_stats(enabled: bool, stats: DomainTransitionStats) -> (result: String)
    ensures
        result@ == stats_text(enabled, stats),
{
    let mut output = String::new();
    if enabled {
        push_str(&mut output, "\nGraph statistics:\nnx.number_of_nodes(self.G)=");
        push_decimal(&mut output, stats.nodes);
        push_str(&mut output, "\nnx.number_of_edges(self.G)=");
        push_decimal(&mut output, stats.edges);
        push_str(&mut output, "\nlen(self.G)=");
        push_decimal(&mut output, stats.nodes);
        push_str(&mut output, "\n\n");
    }
    assert(output@ =~= stats_text(enabled, stats));
    output
}

/// Once a transition cannot be written, the numbered list fails with its error.
proof fn lemma_transitions_error_stays(policy: Policy, views: Seq<TransitionView>, full: bool, k: int)
    requires
        0 <= k <= views.len(),
        numbered_transitions(policy, views.take(k), full) is Err,
    ensures
        numbered_transitions(policy, views, full) == numbered_transitions(policy, views.take(k), full),
    decreases views.len(),
{
    if views.len() > k {
        assert(views.drop_last().take(k) =~= views.take(k));
        lemma_transitions_error_stays(policy, views.drop_last(), full, k);
    } else {
        assert(views.take(k) =~= views);
    }
}

/// Once a step cannot be written, the numbered steps fail with its error.
proof fn lemma_steps_error_stays(policy: Policy, steps: Seq<TransitionView>, full: bool, k: int)
    requires
        0 <= k <= steps.len(),
        numbered_steps(policy, steps.take(k), full) is Err,
    ensures
        numbered_steps(policy, steps, full) == numbered_steps(policy, steps.take(k), full),
    decreases steps.len(),
{
    if steps.len() > k {
        assert(steps.drop_last().take(k) =~= steps.take(k));
        lemma_steps_error_stays(policy, steps.drop_last(), full, k);
    } else {
        assert(steps.take(k) =~= steps);
    }
}

/// Once a path cannot be written, the numbered paths fail with its error.
proof fn lemma_paths_error_stays(policy: Policy, paths: Seq<Seq<TransitionView>>, full: bool, limit: i32, k: int)
    requires
        0 <= k <= paths.len(),
        numbered_paths(policy, paths.take(k), full, limit) is Err,
    ensures
        numbered_paths(policy, paths, full, limit) == numbered_paths(policy, paths.take(k), full, limit),
    decreases paths.len(),
{
    if paths.len() > k {
        assert(paths.drop_last().take(k) =~= paths.take(k));
        lemma_paths_error_stays(policy, paths.drop_last(), full, limit, k);
    } else {
        assert(paths.take(k) =~= paths);
    }
}

/// Whether the listing stops after item `count`.
pub(crate) fn stops_at(count: usize, limit: i32) -> (result: bool)
    ensures
        result == stops(count as nat, limit),
{
    #[verifier::truncate]
    let counted = count as i32;
    limit != 0 && counted >= limit
}

/// Appends a numbered item: its label, number, text and line end.
pub(crate) fn push_item(output: &mut String, label: &str, number: usize, text: &String, full: bool)
    ensures
        final(output)@ == old(output)@ + label@ + decimal(number as nat) + ": "@ + text@ + item_end(full),
{
    let ghost start = output@;
    push_str(output, label);
    push_decimal(output, number);
    push_str(output, ": ");
    push_str(output, text.as_str());
    if full {
        push_str(output, "\n\n");
    } else {
        push_str(output, "\n");
    }
    assert(output@ =~= start + label@ + decimal(number as nat) + ": "@ + text@ + item_end(full));
}

/// Appends the numbered steps of a path.
fn push_steps(policy: &Policy, steps: &Vec<DomainTransition>, full: bool, output: &mut String) -> (result: Result<(), String>)
    requires
        forall|j: int| 0 <= j < steps@.len() ==> transition_known(*policy, #[trigger] transition_views(steps@)[j]),
    ensures
        match numbered_steps(*policy, transition_views(steps@), full) {
            Ok(text) => result is Ok && final(output)@ == old(output)@ + text,
            Err(message) => result matches Err(e) && e@ == message,
        },
{
    let ghost views = transition_views(steps@);
    let ghost start = output@;
    let mut index: usize = 0;
    assert(views.take(0) =~= Seq::<TransitionView>::empty());
    assert(output@ =~= start + Seq::<char>::empty());
    while index < steps.len()
        invariant
            index <= steps.len(),
            views == transition_views(steps@),
            forall|j: int| 0 <= j < steps@.len() ==> transition_known(*policy, #[trigger] views[j]),
            numbered_steps(*policy, views.take(index as int), full) matches Ok(done) && output@ == start + done,
        decreases steps.len() - index,
    {
        let ghost next = views.take(index + 1);
        assert(next.drop_last() =~= views.take(index as int));
        assert(next.last() == steps@[index as int]@);
        assert(transition_known(*policy, views[index as int]));
        match render_transition(policy, &steps[index], full) {
            Ok(text) => {
                let ghost before = output@;
                push_item(output, "Step ", index + 1, &text, full);
                proof {
                    let done = numbered_steps(*policy, views.take(index as int), full)->Ok_0;
                    assert(before == start + done);
                    assert(output@ =~= start + (done + "Step "@ + decimal(next.len()) + ": "@ + text@ + item_end(full)));
                }
            },
            Err(message) => {
                proof {
                    lemma_steps_error_stays(*policy, views, full, index as int + 1);
                }
                return Err(message);
            },
        }
        index = index + 1;
    }
    assert(views.take(steps.len() as int) =~= views);
    Ok(())
}


/// Appends the numbered transitions up to the limit and returns how many.
fn push_transitions(policy: &Policy, transitions: &Vec<DomainTransition>, full: bool, limit: i32, output: &mut String)
    -> (result: Result<usize, String>)
    requires
        forall|j: int| 0 <= j < transitions@.len() ==> transition_known(*policy, #[trigger] transitions@[j]@),
    ensures
        ({
            let views = transition_views(transitions@);
            let k = shown_count(views.len(), limit);
            match numbered_transitions(*policy, views.take(k as int), full) {
                Ok(text) => result matches Ok(n) && n == k && final(output)@ == old(output)@ + text,
                Err(message) => result matches Err(e) && e@ == message,
            }
        }),
{
    let ghost views = transition_views(transitions@);
    let ghost n = views.len();
    let ghost k = shown_count(n, limit);
    let ghost start = output@;
    let mut count: usize = 0;
    let mut stopped = false;
    assert(views.take(0) =~= Seq::<TransitionView>::empty());
    assert(output@ =~= start + Seq::<char>::empty());
    while !stopped && count < transitions.len()
        invariant
            count <= transitions.len(),
            n == transitions@.len(),
            views == transition_views(transitions@),
            k == shown_count(n, limit),
            forall|j: int| 0 <= j < transitions@.len() ==> transition_known(*policy, #[trigger] transitions@[j]@),
            k == (if stopped { count as nat } else { first_stop(count as nat, n, limit) }),
            numbered_transitions(*policy, views.take(count as int), full) matches Ok(done) && output@ == start + done,
        decreases transitions.len() - count,
    {
        let ghost next = views.take(count + 1);
        assert(next.drop_last() =~= views.take(count as int));
        assert(next.last() == transitions@[count as int]@);
        match render_transition(policy, &transitions[count], full) {
            Ok(text) => {
                let ghost before = output@;
                push_item(output, "Transition ", count + 1, &text, full);
                proof {
                    let done = numbered_transitions(*policy, views.take(count as int), full)->Ok_0;
                    assert(output@ =~= start + (done + "Transition "@ + decimal(next.len()) + ": "@ + text@ + item_end(full)));
                }
            },
            Err(message) => {
                proof {
                    lemma_first_stop_after(count as nat, n, limit);
                    assert(count + 1 <= k <= n);
                    assert(views.take(k as int).take(count as int + 1) =~= views.take(count as int + 1));
                    lemma_transitions_error_stays(*policy, views.take(k as int), full, count as int + 1);
                }
                return Err(message);
            },
        }
        count = count + 1;
        if stops_at(count, limit) {
            stopped = true;
        }
    }
    proof {
        if !stopped {
            assert(count == n);
        }
    }
    Ok(count)
}

/// The number listed from item `k + 1` on is more than `k` where items are left.
pub(crate) proof fn lemma_first_stop_after(k: nat, n: nat, limit: i32)
    requires
        k < n,
    ensures
        k + 1 <= first_stop(k, n, limit) <= n,
    decreases n - k,
{
    if stops(k + 1, limit) {
        assert(first_stop(k, n, limit) == k + 1);
    } else if k + 1 < n {
        lemma_first_stop_after(k + 1, n, limit);
        assert(first_stop(k, n, limit) == first_stop(k + 1, n, limit));
    } else {
        assert(first_stop(k + 1, n, limit) == n);
        assert(first_stop(k, n, limit) == first_stop(k + 1, n, limit));
    }
}


/// Appends one numbered path: its heading, then its numbered steps.
fn push_path_block(policy: &Policy, steps: &Vec<DomainTransition>, number: usize, full: bool, output: &mut String)
    -> (result: Result<(), String>)
    requires
        forall|j: int| 0 <= j < steps@.len() ==> transition_known(*policy, #[trigger] transition_views(steps@)[j]),
    ensures
        match numbered_steps(*policy, transition_views(steps@), full) {
            Ok(text) => result is Ok && final(output)@ == old(output)@ + "Domain transition path "@ + decimal(number as nat) + ":\n"@ + text,
            Err(message) => result matches Err(e) && e@ == message,
        },
{
    let ghost start = output@;
    push_str(output, "Domain transition path ");
    push_decimal(output, number);
    push_str(output, ":\n");
    let ghost headed = output@;
    assert(headed =~= start + "Domain transition path "@ + decimal(number as nat) + ":\n"@);
    push_steps(policy, steps, full, output)
}

/// Appends the numbered paths up to the limit and returns how many.
#[verifier::rlimit(40)]
fn push_paths(policy: &Policy, paths: &Vec<Vec<DomainTransition>>, full: bool, limit: i32, output: &mut String)
    -> (result: Result<usize, String>)
    requires
        forall|i: int, j: int| 0 <= i < paths@.len() && 0 <= j < step_lists(paths@)[i].len()
            ==> transition_known(*policy, #[trigger] step_lists(paths@)[i][j]),
    ensures
        ({
            let views = step_lists(paths@);
            let k = shown_count(views.len(), limit);
            match numbered_paths(*policy, views.take(k as int), full, limit) {
                Ok(text) => result matches Ok(n) && n == k && final(output)@ == old(output)@ + text,
                Err(message) => result matches Err(e) && e@ == message,
            }
        }),
{
    let ghost views = step_lists(paths@);
    let ghost n = views.len();
    let ghost k = shown_count(n, limit);
    let ghost start = output@;
    let mut count: usize = 0;
    let mut stopped = false;
    assert(views.take(0) =~= Seq::<Seq<TransitionView>>::empty());
    assert(output@ =~= start + Seq::<char>::empty());
    while !stopped && count < paths.len()
        invariant
            count <= paths.len(),
            n == paths@.len(),
            views == step_lists(paths@),
            k == shown_count(n, limit),
            forall|i: int, j: int| 0 <= i < n && 0 <= j < views[i].len() ==> transition_known(*policy, #[trigger] views[i][j]),
            k == (if stopped { count as nat } else { first_stop(count as nat, n, limit) }),
            numbered_paths(*policy, views.take(count as int), full, limit) matches Ok(done) && output@ == start + done,
        decreases paths.len() - count,
    {
        let ghost next = views.take(count + 1);
        assert(next.drop_last() =~= views.take(count as int));
        assert(next.last() == transition_views(paths@[count as int]@));
        let ghost before = output@;
        proof {
            let path = views[count as int];
            assert(path == transition_views(paths@[count as int]@));
            assert forall|j: int| 0 <= j < path.len() implies transition_known(*policy, #[trigger] path[j]) by {
                assert(transition_known(*policy, views[count as int][j]));
            }
        }
        match push_path_block(policy, &paths[count], count + 1, full, output) {
            Ok(()) => {},
            Err(message) => {
                proof {
                    lemma_first_stop_after(count as nat, n, limit);
                    assert(views.take(k as int).take(count as int + 1) =~= views.take(count as int + 1));
                    lemma_paths_error_stays(*policy, views.take(k as int), full, limit, count as int + 1);
                }
                return Err(message);
            },
        }
        let ghost stepped = output@;
        count = count + 1;
        if stops_at(count, limit) {
            stopped = true;
        } else {
            push_str(output, "\n");
        }
        proof {
            let done = numbered_paths(*policy, views.take(count - 1), full, limit)->Ok_0;
            let steps = numbered_steps(*policy, next.last(), full)->Ok_0;
            assert(output@ =~= start + (done + "Domain transition path "@ + decimal(next.len()) + ":\n"@ + steps
                + (if stops(next.len(), limit) { Seq::empty() } else { "\n"@ })));
        }
    }
    proof {
        if !stopped {
            assert(count == n);
        }
    }
    Ok(count)
}

/// The listing of the results, up to the limit, with its count, then the
/// statistics where asked for.
pub open spec fn report_text(policy: Policy, results: ResultsView, full: bool, limit: i32, stats_enabled: bool, stats: DomainTransitionStats) -> Result<Seq<char>, Seq<char>> {
    match results_text(policy, results, full, limit) {
        Ok(text) => Ok(text + stats_text(stats_enabled, stats)),
        Err(message) => Err(message),
    }
}

/// Writes the results: each transition or path numbered, up to `limit`
/// of them where it is not zero, then their count and, where asked for,
/// the graph statistics.
pub fn render_results(
    policy: &Policy,
    results: &Results,
    full: bool,
    limit: i32,
    stats_enabled: bool,
    stats: DomainTransitionStats,
) -> (result: Result<String, String>)
    requires
        results_known(*policy, results_view(*results)),
    ensures
        match report_text(*policy, results_view(*results), full, limit, stats_enabled, stats) {
            Ok(text) => result matches Ok(r) && r@ == text,
            Err(message) => result matches Err(e) && e@ == message,
        },
{
    let mut output = String::new();
    match results {
        Results::Transitions(transitions) => {
            proof {
                let views = transition_views(transitions@);
                assert forall|j: int| 0 <= j < transitions@.len() implies transition_known(*policy, #[trigger] transitions@[j]@) by {
                    assert(views[j] == transitions@[j]@);
                }
            }
            let count = match push_transitions(policy, transitions, full, limit, &mut output) {
                Ok(count) => count,
                Err(message) => return Err(message),
            };
            push_str(&mut output, "\n");
            push_decimal(&mut output, count);
            push_str(&mut output, " domain transition(s) found.\n");
        },
        Results::Paths(paths) => {
            let count = match push_paths(policy, paths, full, limit, &mut output) {
                Ok(count) => count,
                Err(message) => return Err(message),
            };
            push_str(&mut output, "\n");
            push_decimal(&mut output, count);
            push_str(&mut output, " domain transition path(s) found.\n");
        },
    }
    let stats_part = render_stats(stats_enabled, stats);
    push_str(&mut output, stats_part.as_str());
    proof {
        let listing = results_text(*policy, results_view(*results), full, limit)->Ok_0;
        assert(output@ =~= listing + stats_text(stats_enabled, stats));
    }
    Ok(output)
}


/// A character as written inside a quoted graph name.
pub open spec fn escape_char(c: char) -> Seq<char> {
    if c == '\\' {
        seq!['\\', '\\']
    } else if c == '"' {
        seq!['\\', '"']
    } else {
        seq![c]
    }
}

/// A name with backslashes and double quotes escaped.
pub open spec fn escaped(text: Seq<char>) -> Seq<char>
    decreases text.len(),
{
    if text.len() == 0 {
        Seq::empty()
    } else {
        escaped(text.drop_last()) + escape_char(text.last())
    }
}

/// The domains a transition joins.
pub open spec fn ends_of(v: TransitionView) -> (usize, usize) {
    (v.source, v.target)
}

/// The ends of every step of every path, in order.
pub open spec fn path_ends(paths: Seq<Seq<TransitionView>>) -> Seq<(usize, usize)>
    decreases paths.len(),
{
    if paths.len() == 0 {
        Seq::empty()
    } else {
        path_ends(paths.drop_last()) + paths.last().map_values(|v: TransitionView| ends_of(v))
    }
}

/// The ends of every transition in the results, in order.
pub open spec fn result_ends(results: ResultsView) -> Seq<(usize, usize)> {
    match results {
        ResultsView::Transitions(t) => t.map_values(|v: TransitionView| ends_of(v)),
        ResultsView::Paths(p) => path_ends(p),
    }
}

/// The named edges, each once, in the order first met.
pub open spec fn edge_names(policy: Policy, ends: Seq<(usize, usize)>) -> Result<Seq<(Seq<char>, Seq<char>)>, Seq<char>>
    decreases ends.len(),
{
    if ends.len() == 0 {
        Ok(Seq::empty())
    } else {
        match edge_names(policy, ends.drop_last()) {
            Err(message) => Err(message),
            Ok(done) => match type_text(policy, ends.last().0) {
                Err(message) => Err(message),
                Ok(source) => match type_text(policy, ends.last().1) {
                    Err(message) => Err(message),
                    Ok(target) => Ok(if done.contains((source, target)) { done } else { done.push((source, target)) }),
                },
            },
        }
    }
}

/// One graph line per edge.
pub open spec fn edge_lines(edges: Seq<(Seq<char>, Seq<char>)>) -> Seq<char>
    decreases edges.len(),
{
    if edges.len() == 0 {
        Seq::empty()
    } else {
        edge_lines(edges.drop_last()) + "    \""@ + escaped(edges.last().0) + "\" -> \""@ + escaped(edges.last().1) + "\";\n"@
    }
}

/// The Graphviz text of the results: one edge per pair of domains joined.
pub open spec fn dot_text(policy: Policy, results: ResultsView) -> Result<Seq<char>, Seq<char>> {
    match edge_names(policy, result_ends(results)) {
        Ok(edges) => Ok("digraph sedta {\n"@ + edge_lines(edges) + "}\n"@),
        Err(message) => Err(message),
    }
}

/// Appends a name with backslashes and double quotes escaped.
pub(crate) fn push_escaped(output: &mut String, name: &str)
    ensures
        final(output)@ == old(output)@ + escaped(name@),
{
    let chars = crate::text::chars_of(name);
    let ghost start = output@;
    let mut index: usize = 0;
    assert(chars@.take(0) =~= Seq::<char>::empty());
    while index < chars.len()
        invariant
            index <= chars.len(),
            chars@ == name@,
            output@ == start + escaped(chars@.take(index as int)),
        decreases chars.len() - index,
    {
        let c = chars[index];
        assert(chars@.take(index + 1).drop_last() =~= chars@.take(index as int));
        if c == '\\' {
            push_str(output, "\\\\");
            proof { reveal_strlit("\\\\"); assert("\\\\"@ =~= seq!['\\', '\\']); }
        } else if c == '"' {
            push_str(output, "\\\"");
            proof { reveal_strlit("\\\""); assert("\\\""@ =~= seq!['\\', '"']); }
        } else {
            crate::text::push_char(output, c);
        }
        index = index + 1;
        assert(output@ =~= start + escaped(chars@.take(index as int)));
    }
    assert(chars@.take(chars.len() as int) =~= chars@);
}

/// The ends of the transitions in the results, in order.
fn collect_ends(results: &Results) -> (result: Vec<(usize, usize)>)
    ensures
        result@ == result_ends(results_view(*results)),
{
    let mut ends: Vec<(usize, usize)> = Vec::new();
    match results {
        Results::Transitions(transitions) => {
            let ghost views = transition_views(transitions@);
            let mut index: usize = 0;
            while index < transitions.len()
                invariant
                    index <= transitions.len(),
                    views == transition_views(transitions@),
                    ends@ == views.take(index as int).map_values(|v: TransitionView| ends_of(v)),
                decreases transitions.len() - index,
            {
                ends.push((transitions[index].source(), transitions[index].target()));
                assert(views.take(index + 1) =~= views.take(index as int).push(views[index as int]));
                index = index + 1;
                assert(ends@ =~= views.take(index as int).map_values(|v: TransitionView| ends_of(v)));
            }
            assert(views.take(transitions.len() as int) =~= views);
        },
        Results::Paths(paths) => {
            let ghost views = step_lists(paths@);
            let mut index: usize = 0;
            assert(views.take(0) =~= Seq::<Seq<TransitionView>>::empty());
            while index < paths.len()
                invariant
                    index <= paths.len(),
                    views == step_lists(paths@),
                    ends@ == path_ends(views.take(index as int)),
                decreases paths.len() - index,
            {
                let steps = &paths[index];
                let ghost path = transition_views(steps@);
                let ghost start = ends@;
                assert(views[index as int] == path);
                let mut step: usize = 0;
                while step < steps.len()
                    invariant
                        step <= steps.len(),
                        path == transition_views(steps@),
                        ends@ == start + path.take(step as int).map_values(|v: TransitionView| ends_of(v)),
                    decreases steps.len() - step,
                {
                    ends.push((steps[step].source(), steps[step].target()));
                    assert(path.take(step + 1) =~= path.take(step as int).push(path[step as int]));
                    step = step + 1;
                    assert(ends@ =~= start + path.take(step as int).map_values(|v: TransitionView| ends_of(v)));
                }
                assert(path.take(steps.len() as int) =~= path);
                assert(views.take(index + 1).drop_last() =~= views.take(index as int));
                index = index + 1;
            }
            assert(views.take(paths.len() as int) =~= views);
        },
    }
    ends
}

/// Whether a pair of names is among the edges.
pub(crate) fn has_edge(edges: &Vec<(String, String)>, source: &String, target: &String) -> (result: bool)
    ensures
        result == edges@.map_values(|e: (String, String)| (e.0@, e.1@)).contains((source@, target@)),
{
    let ghost named = edges@.map_values(|e: (String, String)| (e.0@, e.1@));
    let mut index: usize = 0;
    while index < edges.len()
        invariant
            index <= edges.len(),
            named == edges@.map_values(|e: (String, String)| (e.0@, e.1@)),
            forall|i: int| 0 <= i < index ==> named[i] != (source@, target@),
        decreases edges.len() - index,
    {
        if crate::text::same_text(edges[index].0.as_str(), source.as_str())
            && crate::text::same_text(edges[index].1.as_str(), target.as_str()) {
            assert(named[index as int] == (source@, target@));
            return true;
        }
        index = index + 1;
    }
    false
}

/// Once an edge cannot be named, the whole list fails with its error.
proof fn lemma_edges_error_stays(policy: Policy, ends: Seq<(usize, usize)>, k: int)
    requires
        0 <= k <= ends.len(),
        edge_names(policy, ends.take(k)) is Err,
    ensures
        edge_names(policy, ends) == edge_names(policy, ends.take(k)),
    decreases ends.len(),
{
    if ends.len() > k {
        assert(ends.drop_last().take(k) =~= ends.take(k));
        lemma_edges_error_stays(policy, ends.drop_last(), k);
    } else {
        assert(ends.take(k) =~= ends);
    }
}

/// Writes the Graphviz text of the results: one edge per pair of domains
/// joined by a listed transition, in the order first met.
pub fn render_dot(policy: &Policy, results: &Results) -> (result: Result<String, String>)
    ensures
        match dot_text(*policy, results_view(*results)) {
            Ok(text) => result matches Ok(r) && r@ == text,
            Err(message) => result matches Err(e) && e@ == message,
        },
{
    let ends = collect_ends(results);
    let mut edges: Vec<(String, String)> = Vec::new();
    let mut index: usize = 0;
    assert(ends@.take(0) =~= Seq::<(usize, usize)>::empty());
    assert(edges@.map_values(|e: (String, String)| (e.0@, e.1@)) =~= Seq::<(Seq<char>, Seq<char>)>::empty());
    while index < ends.len()
        invariant
            index <= ends.len(),
            ends@ == result_ends(results_view(*results)),
            edge_names(*policy, ends@.take(index as int)) == Ok::<Seq<(Seq<char>, Seq<char>)>, Seq<char>>(
                edges@.map_values(|e: (String, String)| (e.0@, e.1@))),
        decreases ends.len() - index,
    {
        let ghost next = ends@.take(index + 1);
        assert(next.drop_last() =~= ends@.take(index as int));
        assert(next.last() == ends@[index as int]);
        let (s, t) = ends[index];
        let source = match type_name_text(policy, s) {
            Ok(name) => name,
            Err(message) => {
                proof { lemma_edges_error_stays(*policy, ends@, index as int + 1); }
                return Err(message);
            },
        };
        let target = match type_name_text(policy, t) {
            Ok(name) => name,
            Err(message) => {
                proof { lemma_edges_error_stays(*policy, ends@, index as int + 1); }
                return Err(message);
            },
        };
        if !has_edge(&edges, &source, &target) {
            let ghost before = edges@.map_values(|e: (String, String)| (e.0@, e.1@));
            let ghost pair = (source@, target@);
            edges.push((source, target));
            assert(edges@.map_values(|e: (String, String)| (e.0@, e.1@)) =~= before.push(pair));
        }
        index = index + 1;
    }
    assert(ends@.take(ends.len() as int) =~= ends@);
    let ghost named = edges@.map_values(|e: (String, String)| (e.0@, e.1@));
    let mut dot = owned("digraph sedta {\n");
    let ghost head = dot@;
    let mut index: usize = 0;
    assert(named.take(0) =~= Seq::<(Seq<char>, Seq<char>)>::empty());
    while index < edges.len()
        invariant
            index <= edges.len(),
            named == edges@.map_values(|e: (String, String)| (e.0@, e.1@)),
            dot@ == head + edge_lines(named.take(index as int)),
        decreases edges.len() - index,
    {
        assert(named.take(index + 1).drop_last() =~= named.take(index as int));
        let ghost before = dot@;
        push_str(&mut dot, "    \"");
        push_escaped(&mut dot, edges[index].0.as_str());
        push_str(&mut dot, "\" -> \"");
        push_escaped(&mut dot, edges[index].1.as_str());
        push_str(&mut dot, "\";\n");
        index = index + 1;
        assert(dot@ =~= head + edge_lines(named.take(index as int)));
    }
    push_str(&mut dot, "}\n");
    assert(named.take(edges.len() as int) =~= named);
    assert(dot@ =~= "digraph sedta {\n"@ + edge_lines(named) + "}\n"@);
    Ok(dot)
}


/// From item `k` on, with a positive limit above `k`, the listing stops at
/// the limit or at the end.
proof fn lemma_first_stop_positive(k: nat, n: nat, limit: i32)
    requires
        limit > 0,
        k < limit,
    ensures
        first_stop(k, n, limit) == (if n <= limit as nat { n } else { limit as nat }),
    decreases n - k,
{
    if k < n {
        assert((k + 1) as i32 == k + 1);
        if k + 1 == limit {
            assert(stops(k + 1, limit));
        } else {
            assert(!stops(k + 1, limit));
            lemma_first_stop_positive(k + 1, n, limit);
        }
    }
}

/// A listing shows every item when the limit is zero, no more than the
/// limit when it is positive, and one item when it is negative and there
/// are any.
pub proof fn law_listing_respects_the_limit(n: nat, limit: i32)
    ensures
        limit == 0 ==> shown_count(n, limit) == n,
        limit > 0 ==> shown_count(n, limit) == (if n <= limit as nat { n } else { limit as nat }),
        limit < 0 && n > 0 ==> shown_count(n, limit) == 1,
{
    if limit == 0 {
        lemma_first_stop_no_limit(0, n);
    } else if limit > 0 {
        lemma_first_stop_positive(0, n, limit);
    } else if n > 0 {
        assert(1i32 >= limit);
        assert(stops(1, limit));
    }
}

/// Without a limit the listing runs to the end.
proof fn lemma_first_stop_no_limit(k: nat, n: nat)
    ensures
        first_stop(k, n, 0) == n,
    decreases n - k,
{
    if k < n {
        lemma_first_stop_no_limit(k + 1, n);
    }
}

/// The graph drawing names each pair of domains once.
pub proof fn law_drawing_lists_each_edge_once(policy: Policy, ends: Seq<(usize, usize)>)
    ensures
        edge_names(policy, ends) matches Ok(edges) ==> edges.no_duplicates(),
    decreases ends.len(),
{
    if ends.len() > 0 {
        law_drawing_lists_each_edge_once(policy, ends.drop_last());
        match edge_names(policy, ends.drop_last()) {
            Ok(done) => {
                match (type_text(policy, ends.last().0), type_text(policy, ends.last().1)) {
                    (Ok(source), Ok(target)) => {
                        if !done.contains((source, target)) {
                            assert forall|i: int, j: int| 0 <= i < j < done.len() + 1 implies
                                #[trigger] done.push((source, target))[i] != #[trigger] done.push((source, target))[j] by {
                                if j == done.len() {
                                    assert(done.contains(done[i]));
                                }
                            }
                        }
                    },
                    _ => {},
                }
            },
            Err(_) => {},
        }
    }
}

} // verus!
