//! The text that the information-flow tool writes for its results.
use vstd::prelude::*;
use crate::policy::Policy;
use crate::text::{texts, owned, push_str, joined_by, join_texts};
use crate::report::{decimal, push_decimal};
use crate::dta_report::{rules_known, sorted_statements, sorted_rule_texts, push_lines, first_stop, shown_count,
    item_end, push_item, stops_at, lemma_first_stop_after, edge_lines, push_escaped};
use crate::json::{json_string, json_strings, push_string, push_json_strings, push_json_optional_string, json_boolean};
use crate::scan::{decimal_text, push_wide_signed};
use crate::runtime::{result_limit, limited_result_count};
use crate::flow_args::{Options, mode_name, options_view, query_mode};
use crate::infoflow::{FlowView, InformationFlowStep, InformationFlowStats, flow_views, flow_path_views};

verus! {

/// The name of a type, or the message for a flow naming a missing type.
pub open spec fn flow_type_text(policy: Policy, id: usize) -> Result<Seq<char>, Seq<char>> {
    if id < policy.types@.len() && !policy.types@[id as int].attribute {
        Ok(policy.types@[id as int].name@)
    } else {
        Err("information flow refers to a missing type"@)
    }
}

/// The text of a flow: `source -> target` and, in full, its rules in text
/// order, each on its own indented line.
#[verifier::opaque]
pub open spec fn step_text(policy: Policy, v: FlowView, full: bool) -> Result<Seq<char>, Seq<char>> {
    match flow_type_text(policy, v.source) {
        Err(message) => Err(message),
        Ok(source) => match flow_type_text(policy, v.target) {
            Err(message) => Err(message),
            Ok(target) => if !full {
                Ok(source + " -> "@ + target)
            } else {
                match sorted_statements(policy, v.rules) {
                    Err(message) => Err(message),
                    Ok(rules) => Ok(source + " -> "@ + target + "\n"@
                        + joined_by(rules.map_values(|rule: Seq<char>| "   "@ + rule), "\n"@)),
                }
            },
        },
    }
}

/// Writes the name of a type of a flow.
fn flow_type_name(policy: &Policy, id: usize) -> (result: Result<String, String>)
    ensures
        match flow_type_text(*policy, id) {
            Ok(name) => result matches Ok(r) && r@ == name,
            Err(message) => result matches Err(e) && e@ == message,
        },
{
    if id < policy.types.len() && !policy.types[id].attribute {
        Ok(policy.types[id].name.clone())
    } else {
        Err(owned("information flow refers to a missing type"))
    }
}

/// Writes the text of a flow: `source -> target` and, in full, its rules.
pub fn render_step(policy: &Policy, step: &InformationFlowStep, full: bool) -> (result: Result<String, String>)
    requires
        rules_known(*policy, step@.rules),
    ensures
        match step_text(*policy, step@, full) {
            Ok(text) => result matches Ok(r) && r@ == text,
            Err(message) => result matches Err(e) && e@ == message,
        },
{
    reveal(step_text);
    let source = match flow_type_name(policy, step.source()) {
        Ok(name) => name,
        Err(message) => return Err(message),
    };
    let target = match flow_type_name(policy, step.target()) {
        Ok(name) => name,
        Err(message) => return Err(message),
    };
    let mut text = source;
    push_str(&mut text, " -> ");
    push_str(&mut text, target.as_str());
    if !full {
        return Ok(text);
    }
    let rules = match sorted_rule_texts(policy, step.rules()) {
        Ok(rules) => rules,
        Err(message) => return Err(message),
    };
    let mut lines: Vec<String> = Vec::new();
    push_lines(&mut lines, &rules, "   ");
    assert(texts(lines@) =~= texts(rules@).map_values(|rule: Seq<char>| "   "@ + rule));
    push_str(&mut text, "\n");
    let joined = join_texts(&lines, "\n");
    push_str(&mut text, joined.as_str());
    Ok(text)
}


/// The numbered flows.
pub open spec fn numbered_flows(policy: Policy, views: Seq<FlowView>, full: bool) -> Result<Seq<char>, Seq<char>>
    decreases views.len(),
{
    if views.len() == 0 {
        Ok(Seq::empty())
    } else {
        match numbered_flows(policy, views.drop_last(), full) {
            Err(message) => Err(message),
            Ok(done) => match step_text(policy, views.last(), full) {
                Err(message) => Err(message),
                Ok(text) => Ok(done + "Flow "@ + decimal(views.len()) + ": "@ + text + item_end(full)),
            },
        }
    }
}

/// The numbered steps of a flow path, indented.
pub open spec fn numbered_flow_steps(policy: Policy, steps: Seq<FlowView>, full: bool) -> Result<Seq<char>, Seq<char>>
    decreases steps.len(),
{
    if steps.len() == 0 {
        Ok(Seq::empty())
    } else {
        match numbered_flow_steps(policy, steps.drop_last(), full) {
            Err(message) => Err(message),
            Ok(done) => match step_text(policy, steps.last(), full) {
                Err(message) => Err(message),
                Ok(text) => Ok(done + "  Step "@ + decimal(steps.len()) + ": "@ + text + item_end(full)),
            },
        }
    }
}

/// The numbered flow paths.
pub open spec fn numbered_flow_paths(policy: Policy, paths: Seq<Seq<FlowView>>, full: bool) -> Result<Seq<char>, Seq<char>>
    decreases paths.len(),
{
    if paths.len() == 0 {
        Ok(Seq::empty())
    } else {
        match numbered_flow_paths(policy, paths.drop_last(), full) {
            Err(message) => Err(message),
            Ok(done) => match numbered_flow_steps(policy, paths.last(), full) {
                Err(message) => Err(message),
                Ok(steps) => Ok(done + "Flow "@ + decimal(paths.len()) + ":\n"@ + steps),
            },
        }
    }
}

/// The results of an information-flow analysis.
pub enum FlowResults {
    /// Flows out of or into a type.
    Flows(Vec<InformationFlowStep>),
    /// Paths between two types, each a list of flows.
    Paths(Vec<Vec<InformationFlowStep>>),
}

/// The results as plain values.
pub enum FlowResultsView {
    /// Flows.
    Flows(Seq<FlowView>),
    /// Paths.
    Paths(Seq<Seq<FlowView>>),
}

/// The plain values of some results.
pub open spec fn flow_results_view(results: FlowResults) -> FlowResultsView {
    match results {
        FlowResults::Flows(f) => FlowResultsView::Flows(flow_views(f@)),
        FlowResults::Paths(p) => FlowResultsView::Paths(flow_path_views(p@)),
    }
}

/// Every rule named by the results is a rule of the policy.
pub open spec fn flow_results_known(policy: Policy, results: FlowResultsView) -> bool {
    match results {
        FlowResultsView::Flows(f) => forall|i: int| 0 <= i < f.len() ==> rules_known(policy, #[trigger] f[i].rules),
        FlowResultsView::Paths(p) => forall|i: int, j: int|
            0 <= i < p.len() && 0 <= j < p[i].len() ==> rules_known(policy, #[trigger] p[i][j].rules),
    }
}

/// The listing of the results up to the limit, with its count, then the
/// graph statistics where asked for.
pub open spec fn flow_report_text(policy: Policy, results: FlowResultsView, full: bool, limit: i32, stats_enabled: bool, stats: InformationFlowStats) -> Result<Seq<char>, Seq<char>> {
    let (listing, k) = match results {
        FlowResultsView::Flows(f) => {
            let k = shown_count(f.len(), limit);
            (numbered_flows(policy, f.take(k as int), full), k)
        },
        FlowResultsView::Paths(p) => {
            let k = shown_count(p.len(), limit);
            (numbered_flow_paths(policy, p.take(k as int), full), k)
        },
    };
    match listing {
        Err(message) => Err(message),
        Ok(text) => Ok(text + "\n"@ + decimal(k) + " information flow(s) found.\n"@ + flow_stats_text(stats_enabled, stats)),
    }
}

/// The graph statistics, where asked for.
pub open spec fn flow_stats_text(enabled: bool, stats: InformationFlowStats) -> Seq<char> {
    if !enabled {
        Seq::empty()
    } else {
        "\nGraph statistics:\nnx.number_of_nodes(self.G)="@ + decimal(stats.nodes as nat) + "\nnx.number_of_edges(self.G)="@
            + decimal(stats.edges as nat) + "\nlen(self.G)="@ + decimal(stats.nodes as nat) + "\n\n"@
    }
}

/// Writes the graph statistics, where asked for.
pub fn render_flow_stats(enabled: bool, stats: InformationFlowStats) -> (result: String)
    ensures
        result@ == flow_stats_text(enabled, stats),
{
    let mut output = String::new();
    if enabled {
        push_str(&mut output, "\nGraph statistics:\nnx.number_of_nodes(self.G)=");
        push_decimal(&mut output, stats.nodes);
        push_str(&mut output, "\nnx.number_of_edges(self.G)=");
        push_decimal(&mut output, stats.edges);
        push_str(&mut output, "\nlen(self.G)=");
        push_decimal(&mut output, stats.nodes);
        push_str(&mut output, "\n\n");
    }
    assert(output@ =~= flow_stats_text(enabled, stats));
    output
}

/// Once a flow cannot be written, the numbered flows fail with its error.
proof fn lemma_flows_error_stays(policy: Policy, views: Seq<FlowView>, full: bool, k: int)
    requires
        0 <= k <= views.len(),
        numbered_flows(policy, views.take(k), full) is Err,
    ensures
        numbered_flows(policy, views, full) == numbered_flows(policy, views.take(k), full),
    decreases views.len(),
{
    if views.len() > k {
        assert(views.drop_last().take(k) =~= views.take(k));
        lemma_flows_error_stays(policy, views.drop_last(), full, k);
    } else {
        assert(views.take(k) =~= views);
    }
}

/// Once a step cannot be written, the numbered steps fail with its error.
proof fn lemma_flow_steps_error_stays(policy: Policy, steps: Seq<FlowView>, full: bool, k: int)
    requires
        0 <= k <= steps.len(),
        numbered_flow_steps(policy, steps.take(k), full) is Err,
    ensures
        numbered_flow_steps(policy, steps, full) == numbered_flow_steps(policy, steps.take(k), full),
    decreases steps.len(),
{
    if steps.len() > k {
        assert(steps.drop_last().take(k) =~= steps.take(k));
        lemma_flow_steps_error_stays(policy, steps.drop_last(), full, k);
    } else {
        assert(steps.take(k) =~= steps);
    }
}

/// Once a path cannot be written, the numbered paths fail with its error.
proof fn lemma_flow_paths_error_stays(policy: Policy, paths: Seq<Seq<FlowView>>, full: bool, k: int)
    requires
        0 <= k <= paths.len(),
        numbered_flow_paths(policy, paths.take(k), full) is Err,
    ensures
        numbered_flow_paths(policy, paths, full) == numbered_flow_paths(policy, paths.take(k), full),
    decreases paths.len(),
{
    if paths.len() > k {
        assert(paths.drop_last().take(k) =~= paths.take(k));
        lemma_flow_paths_error_stays(policy, paths.drop_last(), full, k);
    } else {
        assert(paths.take(k) =~= paths);
    }
}

/// Appends the numbered flows up to the limit and returns how many.
fn push_flows(policy: &Policy, flows: &Vec<InformationFlowStep>, full: bool, limit: i32, output: &mut String)
    -> (result: Result<usize, String>)
    requires
        forall|j: int| 0 <= j < flows@.len() ==> rules_known(*policy, #[trigger] flow_views(flows@)[j].rules),
    ensures
        ({
            let views = flow_views(flows@);
            let k = shown_count(views.len(), limit);
            match numbered_flows(*policy, views.take(k as int), full) {
                Ok(text) => result matches Ok(n) && n == k && final(output)@ == old(output)@ + text,
                Err(message) => result matches Err(e) && e@ == message,
            }
        }),
{
    let ghost views = flow_views(flows@);
    let ghost n = views.len();
    let ghost k = shown_count(n, limit);
    let ghost start = output@;
    let mut count: usize = 0;
    let mut stopped = false;
    assert(views.take(0) =~= Seq::<FlowView>::empty());
    assert(output@ =~= start + Seq::<char>::empty());
    while !stopped && count < flows.len()
        invariant
            count <= flows.len(),
            n == flows@.len(),
            views == flow_views(flows@),
            k == shown_count(n, limit),
            forall|j: int| 0 <= j < flows@.len() ==> rules_known(*policy, #[trigger] views[j].rules),
            k == (if stopped { count as nat } else { first_stop(count as nat, n, limit) }),
            numbered_flows(*policy, views.take(count as int), full) matches Ok(done) && output@ == start + done,
        decreases flows.len() - count,
    {
        let ghost next = views.take(count + 1);
        assert(next.drop_last() =~= views.take(count as int));
        assert(next.last() == flows@[count as int]@);
        assert(rules_known(*policy, views[count as int].rules));
        match render_step(policy, &flows[count], full) {
            Ok(text) => {
                push_item(output, "Flow ", count + 1, &text, full);
                proof {
                    let done = numbered_flows(*policy, views.take(count as int), full)->Ok_0;
                    assert(output@ =~= start + (done + "Flow "@ + decimal(next.len()) + ": "@ + text@ + item_end(full)));
                }
            },
            Err(message) => {
                proof {
                    lemma_first_stop_after(count as nat, n, limit);
                    assert(views.take(k as int).take(count as int + 1) =~= views.take(count as int + 1));
                    lemma_flows_error_stays(*policy, views.take(k as int), full, count as int + 1);
                }
                return Err(message);
            },
        }
        count = count + 1;
        if stops_at(count, limit) {
            stopped = true;
        }
    }
    proof {
        if !stopped {
            assert(count == n);
        }
    }
    Ok(count)
}

/// Appends the numbered, indented steps of a flow path.
fn push_flow_steps(policy: &Policy, steps: &Vec<InformationFlowStep>, full: bool, output: &mut String) -> (result: Result<(), String>)
    requires
        forall|j: int| 0 <= j < steps@.len() ==> rules_known(*policy, #[trigger] flow_views(steps@)[j].rules),
    ensures
        match numbered_flow_steps(*policy, flow_views(steps@), full) {
            Ok(text) => result is Ok && final(output)@ == old(output)@ + text,
            Err(message) => result matches Err(e) && e@ == message,
        },
{
    let ghost views = flow_views(steps@);
    let ghost start = output@;
    let mut index: usize = 0;
    assert(views.take(0) =~= Seq::<FlowView>::empty());
    assert(output@ =~= start + Seq::<char>::empty());
    while index < steps.len()
        invariant
            index <= steps.len(),
            views == flow_views(steps@),
            forall|j: int| 0 <= j < steps@.len() ==> rules_known(*policy, #[trigger] views[j].rules),
            numbered_flow_steps(*policy, views.take(index as int), full) matches Ok(done) && output@ == start + done,
        decreases steps.len() - index,
    {
        let ghost next = views.take(index + 1);
        assert(next.drop_last() =~= views.take(index as int));
        assert(next.last() == steps@[index as int]@);
        assert(rules_known(*policy, views[index as int].rules));
        match render_step(policy, &steps[index], full) {
            Ok(text) => {
                push_item(output, "  Step ", index + 1, &text, full);
                proof {
                    let done = numbered_flow_steps(*policy, views.take(index as int), full)->Ok_0;
                    assert(output@ =~= start + (done + "  Step "@ + decimal(next.len()) + ": "@ + text@ + item_end(full)));
                }
            },
            Err(message) => {
                proof {
                    lemma_flow_steps_error_stays(*policy, views, full, index as int + 1);
                }
                return Err(message);
            },
        }
        index = index + 1;
    }
    assert(views.take(steps.len() as int) =~= views);
    Ok(())
}

/// Appends one numbered flow path: its heading, then its steps.
fn push_flow_path(policy: &Policy, steps: &Vec<InformationFlowStep>, number: usize, full: bool, output: &mut String)
    -> (result: Result<(), String>)
    requires
        forall|j: int| 0 <= j < steps@.len() ==> rules_known(*policy, #[trigger] flow_views(steps@)[j].rules),
    ensures
        match numbered_flow_steps(*policy, flow_views(steps@), full) {
            Ok(text) => result is Ok && final(output)@ == old(output)@ + "Flow "@ + decimal(number as nat) + ":\n"@ + text,
            Err(message) => result matches Err(e) && e@ == message,
        },
{
    let ghost start = output@;
    push_str(output, "Flow ");
    push_decimal(output, number);
    push_str(output, ":\n");
    assert(output@ =~= start + "Flow "@ + decimal(number as nat) + ":\n"@);
    push_flow_steps(policy, steps, full, output)
}

/// Appends the numbered flow paths up to the limit and returns how many.
#[verifier::rlimit(40)]
fn push_flow_paths(policy: &Policy, paths: &Vec<Vec<InformationFlowStep>>, full: bool, limit: i32, output: &mut String)
    -> (result: Result<usize, String>)
    requires
        forall|i: int, j: int| 0 <= i < paths@.len() && 0 <= j < flow_path_views(paths@)[i].len()
            ==> rules_known(*policy, #[trigger] flow_path_views(paths@)[i][j].rules),
    ensures
        ({
            let views = flow_path_views(paths@);
            let k = shown_count(views.len(), limit);
            match numbered_flow_paths(*policy, views.take(k as int), full) {
                Ok(text) => result matches Ok(n) && n == k && final(output)@ == old(output)@ + text,
                Err(message) => result matches Err(e) && e@ == message,
            }
        }),
{
    let ghost views = flow_path_views(paths@);
    let ghost n = views.len();
    let ghost k = shown_count(n, limit);
    let ghost start = output@;
    let mut count: usize = 0;
    let mut stopped = false;
    assert(views.take(0) =~= Seq::<Seq<FlowView>>::empty());
    assert(output@ =~= start + Seq::<char>::empty());
    while !stopped && count < paths.len()
        invariant
            count <= paths.len(),
            n == paths@.len(),
            views == flow_path_views(paths@),
            k == shown_count(n, limit),
            forall|i: int, j: int| 0 <= i < n && 0 <= j < views[i].len() ==> rules_known(*policy, #[trigger] views[i][j].rules),
            k == (if stopped { count as nat } else { first_stop(count as nat, n, limit) }),
            numbered_flow_paths(*policy, views.take(count as int), full) matches Ok(done) && output@ == start + done,
        decreases paths.len() - count,
    {
        let ghost next = views.take(count + 1);
        assert(next.drop_last() =~= views.take(count as int));
        assert(next.last() == flow_views(paths@[count as int]@));
        proof {
            let path = views[count as int];
            assert forall|j: int| 0 <= j < path.len() implies rules_known(*policy, #[trigger] path[j].rules) by {
                assert(rules_known(*policy, views[count as int][j].rules));
            }
        }
        match push_flow_path(policy, &paths[count], count + 1, full, output) {
            Ok(()) => {},
            Err(message) => {
                proof {
                    lemma_first_stop_after(count as nat, n, limit);
                    assert(views.take(k as int).take(count as int + 1) =~= views.take(count as int + 1));
                    lemma_flow_paths_error_stays(*policy, views.take(k as int), full, count as int + 1);
                }
                return Err(message);
            },
        }
        count = count + 1;
        if stops_at(count, limit) {
            stopped = true;
        }
        proof {
            let done = numbered_flow_paths(*policy, views.take(count - 1), full)->Ok_0;
            let steps = numbered_flow_steps(*policy, next.last(), full)->Ok_0;
            assert(output@ =~= start + (done + "Flow "@ + decimal(next.len()) + ":\n"@ + steps));
        }
    }
    proof {
        if !stopped {
            assert(count == n);
        }
    }
    Ok(count)
}

/// Writes the results: each flow or path numbered, up to `limit` of them
/// where it is not zero, then their count and, where asked for, the graph
/// statistics.
pub fn render_flow_results(
    policy: &Policy,
    results: &FlowResults,
    full: bool,
    limit: i32,
    stats_enabled: bool,
    stats: InformationFlowStats,
) -> (result: Result<String, String>)
    requires
        flow_results_known(*policy, flow_results_view(*results)),
    ensures
        match flow_report_text(*policy, flow_results_view(*results), full, limit, stats_enabled, stats) {
            Ok(text) => result matches Ok(r) && r@ == text,
            Err(message) => result matches Err(e) && e@ == message,
        },
{
    let mut output = String::new();
    let count = match results {
        FlowResults::Flows(flows) => match push_flows(policy, flows, full, limit, &mut output) {
            Ok(count) => count,
            Err(message) => return Err(message),
        },
        FlowResults::Paths(paths) => match push_flow_paths(policy, paths, full, limit, &mut output) {
            Ok(count) => count,
            Err(message) => return Err(message),
        },
    };
    push_str(&mut output, "\n");
    push_decimal(&mut output, count);
    push_str(&mut output, " information flow(s) found.\n");
    let stats_part = render_flow_stats(stats_enabled, stats);
    push_str(&mut output, stats_part.as_str());
    proof {
        let listing = match flow_results_view(*results) {
            FlowResultsView::Flows(f) => numbered_flows(*policy, f.take(count as int), full)->Ok_0,
            FlowResultsView::Paths(p) => numbered_flow_paths(*policy, p.take(count as int), full)->Ok_0,
        };
        assert(output@ =~= listing + "\n"@ + decimal(count as nat) + " information flow(s) found.\n"@
            + flow_stats_text(stats_enabled, stats));
    }
    Ok(output)
}


/// The types a flow joins.
pub open spec fn flow_ends_of(v: FlowView) -> (usize, usize) {
    (v.source, v.target)
}

/// The ends of every step of every path, in order.
pub open spec fn flow_path_ends(paths: Seq<Seq<FlowView>>) -> Seq<(usize, usize)>
    decreases paths.len(),
{
    if paths.len() == 0 {
        Seq::empty()
    } else {
        flow_path_ends(paths.drop_last()) + paths.last().map_values(|v: FlowView| flow_ends_of(v))
    }
}

/// The ends of every flow in the results, in order.
pub open spec fn flow_result_ends(results: FlowResultsView) -> Seq<(usize, usize)> {
    match results {
        FlowResultsView::Flows(f) => f.map_values(|v: FlowView| flow_ends_of(v)),
        FlowResultsView::Paths(p) => flow_path_ends(p),
    }
}

/// The named edges, each once, in the order first met.
pub open spec fn flow_edge_names(policy: Policy, ends: Seq<(usize, usize)>) -> Result<Seq<(Seq<char>, Seq<char>)>, Seq<char>>
    decreases ends.len(),
{
    if ends.len() == 0 {
        Ok(Seq::empty())
    } else {
        match flow_edge_names(policy, ends.drop_last()) {
            Err(message) => Err(message),
            Ok(done) => match flow_type_text(policy, ends.last().0) {
                Err(message) => Err(message),
                Ok(source) => match flow_type_text(policy, ends.last().1) {
                    Err(message) => Err(message),
                    Ok(target) => Ok(if done.contains((source, target)) { done } else { done.push((source, target)) }),
                },
            },
        }
    }
}

/// The Graphviz text of the results: one edge per pair of types joined.
pub open spec fn flow_dot_text(policy: Policy, results: FlowResultsView) -> Result<Seq<char>, Seq<char>> {
    match flow_edge_names(policy, flow_result_ends(results)) {
        Ok(edges) => Ok("digraph seinfoflow {\n"@ + edge_lines(edges) + "}\n"@),
        Err(message) => Err(message),
    }
}

/// The ends of the flows in the results, in order.
fn collect_flow_ends(results: &FlowResults) -> (result: Vec<(usize, usize)>)
    ensures
        result@ == flow_result_ends(flow_results_view(*results)),
{
    let mut ends: Vec<(usize, usize)> = Vec::new();
    match results {
        FlowResults::Flows(flows) => {
            let ghost views = flow_views(flows@);
            let mut index: usize = 0;
            while index < flows.len()
                invariant
                    index <= flows.len(),
                    views == flow_views(flows@),
                    ends@ == views.take(index as int).map_values(|v: FlowView| flow_ends_of(v)),
                decreases flows.len() - index,
            {
                ends.push((flows[index].source(), flows[index].target()));
                assert(views.take(index + 1) =~= views.take(index as int).push(views[index as int]));
                index = index + 1;
                assert(ends@ =~= views.take(index as int).map_values(|v: FlowView| flow_ends_of(v)));
            }
            assert(views.take(flows.len() as int) =~= views);
        },
        FlowResults::Paths(paths) => {
            let ghost views = flow_path_views(paths@);
            let mut index: usize = 0;
            assert(views.take(0) =~= Seq::<Seq<FlowView>>::empty());
            while index < paths.len()
                invariant
                    index <= paths.len(),
                    views == flow_path_views(paths@),
                    ends@ == flow_path_ends(views.take(index as int)),
                decreases paths.len() - index,
            {
                let steps = &paths[index];
                let ghost path = flow_views(steps@);
                let ghost start = ends@;
                assert(views[index as int] == path);
                let mut step: usize = 0;
                while step < steps.len()
                    invariant
                        step <= steps.len(),
                        path == flow_views(steps@),
                        ends@ == start + path.take(step as int).map_values(|v: FlowView| flow_ends_of(v)),
                    decreases steps.len() - step,
                {
                    ends.push((steps[step].source(), steps[step].target()));
                    assert(path.take(step + 1) =~= path.take(step as int).push(path[step as int]));
                    step = step + 1;
                    assert(ends@ =~= start + path.take(step as int).map_values(|v: FlowView| flow_ends_of(v)));
                }
                assert(path.take(steps.len() as int) =~= path);
                assert(views.take(index + 1).drop_last() =~= views.take(index as int));
                index = index + 1;
            }
            assert(views.take(paths.len() as int) =~= views);
        },
    }
    ends
}

/// Once an edge cannot be named, the whole list fails with its error.
proof fn lemma_flow_edges_error_stays(policy: Policy, ends: Seq<(usize, usize)>, k: int)
    requires
        0 <= k <= ends.len(),
        flow_edge_names(policy, ends.take(k)) is Err,
    ensures
        flow_edge_names(policy, ends) == flow_edge_names(policy, ends.take(k)),
    decreases ends.len(),
{
    if ends.len() > k {
        assert(ends.drop_last().take(k) =~= ends.take(k));
        lemma_flow_edges_error_stays(policy, ends.drop_last(), k);
    } else {
        assert(ends.take(k) =~= ends);
    }
}

/// Writes the Graphviz text of the results: one edge per pair of types
/// joined by a listed flow, in the order first met.
pub fn render_flow_dot(policy: &Policy, results: &FlowResults) -> (result: Result<String, String>)
    ensures
        match flow_dot_text(*policy, flow_results_view(*results)) {
            Ok(text) => result matches Ok(r) && r@ == text,
            Err(message) => result matches Err(e) && e@ == message,
        },
{
    let ends = collect_flow_ends(results);
    let mut edges: Vec<(String, String)> = Vec::new();
    let mut index: usize = 0;
    assert(ends@.take(0) =~= Seq::<(usize, usize)>::empty());
    assert(edges@.map_values(|e: (String, String)| (e.0@, e.1@)) =~= Seq::<(Seq<char>, Seq<char>)>::empty());
    while index < ends.len()
        invariant
            index <= ends.len(),
            ends@ == flow_result_ends(flow_results_view(*results)),
            flow_edge_names(*policy, ends@.take(index as int)) == Ok::<Seq<(Seq<char>, Seq<char>)>, Seq<char>>(
                edges@.map_values(|e: (String, String)| (e.0@, e.1@))),
        decreases ends.len() - index,
    {
        let ghost next = ends@.take(index + 1);
        assert(next.drop_last() =~= ends@.take(index as int));
        assert(next.last() == ends@[index as int]);
        let (s, t) = ends[index];
        let source = match flow_type_name(policy, s) {
            Ok(name) => name,
            Err(message) => {
                proof { lemma_flow_edges_error_stays(*policy, ends@, index as int + 1); }
                return Err(message);
            },
        };
        let target = match flow_type_name(policy, t) {
            Ok(name) => name,
            Err(message) => {
                proof { lemma_flow_edges_error_stays(*policy, ends@, index as int + 1); }
                return Err(message);
            },
        };
        if !crate::dta_report::has_edge(&edges, &source, &target) {
            let ghost before = edges@.map_values(|e: (String, String)| (e.0@, e.1@));
            let ghost pair = (source@, target@);
            edges.push((source, target));
            assert(edges@.map_values(|e: (String, String)| (e.0@, e.1@)) =~= before.push(pair));
        }
        index = index + 1;
    }
    assert(ends@.take(ends.len() as int) =~= ends@);
    let ghost named = edges@.map_values(|e: (String, String)| (e.0@, e.1@));
    let mut dot = owned("digraph seinfoflow {\n");
    let ghost head = dot@;
    let mut index: usize = 0;
    assert(named.take(0) =~= Seq::<(Seq<char>, Seq<char>)>::empty());
    while index < edges.len()
        invariant
            index <= edges.len(),
            named == edges@.map_values(|e: (String, String)| (e.0@, e.1@)),
            dot@ == head + edge_lines(named.take(index as int)),
        decreases edges.len() - index,
    {
        assert(named.take(index + 1).drop_last() =~= named.take(index as int));
        push_str(&mut dot, "    \"");
        push_escaped(&mut dot, edges[index].0.as_str());
        push_str(&mut dot, "\" -> \"");
        push_escaped(&mut dot, edges[index].1.as_str());
        push_str(&mut dot, "\";\n");
        index = index + 1;
        assert(dot@ =~= head + edge_lines(named.take(index as int)));
    }
    push_str(&mut dot, "}\n");
    assert(named.take(edges.len() as int) =~= named);
    assert(dot@ =~= "digraph seinfoflow {\n"@ + edge_lines(named) + "}\n"@);
    Ok(dot)
}


/// A JSON Boolean literal.
pub open spec fn json_literal(value: bool) -> Seq<char> {
    if value { "true"@ } else { "false"@ }
}

/// A JSON number for an optional integer, or `null`.
pub open spec fn json_optional_number(value: Option<i32>) -> Seq<char> {
    match value {
        Some(v) => decimal_text(v as int),
        None => "null"@,
    }
}

/// The Boolean assignments as JSON objects, comma separated.
pub open spec fn json_boolean_items(values: Seq<(Seq<char>, bool)>) -> Seq<char>
    decreases values.len(),
{
    if values.len() == 0 {
        Seq::empty()
    } else {
        let item = "{\"name\":"@ + json_string(values.last().0) + ",\"state\":"@ + json_literal(values.last().1) + "}"@;
        if values.len() == 1 { item } else { json_boolean_items(values.drop_last()) + ","@ + item }
    }
}

/// The Boolean states the query uses: `null` for none, the default states
/// for an empty list, or the listed assignments.
pub open spec fn json_booleans(values: Option<Seq<(Seq<char>, bool)>>) -> Seq<char> {
    match values {
        None => "null"@,
        Some(v) => "{\"mode\":"@ + json_string(if v.len() == 0 { "default"@ } else { "assignments"@ }) + ",\"values\":["@
            + json_boolean_items(v) + "]}"@,
    }
}

/// The permission map the query uses: a file, or the built-in map.
pub open spec fn json_permission_map(path: Option<Seq<char>>) -> Seq<char> {
    match path {
        Some(p) => "{\"kind\":"@ + json_string("file"@) + ",\"path\":"@ + json_string(p) + "}"@,
        None => "{\"kind\":"@ + json_string("built_in"@) + ",\"path\":null}"@,
    }
}

/// The plain values of Boolean assignments.
pub open spec fn assignment_views(values: Option<Vec<(String, bool)>>) -> Option<Seq<(Seq<char>, bool)>> {
    match values {
        None => None,
        Some(v) => Some(v@.map_values(|e: (String, bool)| (e.0@, e.1))),
    }
}

/// An optional text as plain values.
pub open spec fn text_option(value: Option<String>) -> Option<Seq<char>> {
    match value {
        Some(v) => Some(v@),
        None => None,
    }
}

/// The query's mode and endpoints as JSON object members.
pub open spec fn json_query_ends(options: Options) -> Seq<char> {
    "{\"mode\":"@ + json_string(mode_name(options_view(options))) + ",\"source\":"@
        + json_string(text_option(options.source)->Some_0) + ",\"target\":"@
        + (match text_option(options.target) { Some(t) => json_string(t), None => "null"@ })
        + ",\"reverse\":"@ + json_literal(options.reverse) + ",\"max_steps\":"@ + json_optional_number(options.all_paths)
}

/// The query's weight, limit, exclusions and Boolean states as JSON
/// object members.
pub open spec fn json_query_filters(options: Options) -> Seq<char> {
    ",\"minimum_weight\":"@ + decimal_text(options.minimum_weight as int) + ",\"limit\":"@
        + decimal_text(options.limit_flows as int) + ",\"exclude\":["@ + json_strings(texts(options.exclude@))
        + "],\"booleans\":"@ + json_booleans(assignment_views(options.booleans))
}

/// The query's permission map and output settings as JSON object members,
/// closing the object.
pub open spec fn json_query_output(options: Options) -> Seq<char> {
    ",\"permission_map\":"@ + json_permission_map(text_option(options.permission_map)) + ",\"full\":"@
        + json_literal(options.full) + ",\"stats\":"@ + json_literal(options.stats) + "}"@
}

/// The query as JSON: mode, endpoints and every setting.
pub open spec fn json_query(options: Options) -> Seq<char> {
    json_query_ends(options) + json_query_filters(options) + json_query_output(options)
}

/// Appends the Boolean states the query uses.
fn push_json_booleans(output: &mut String, values: &Option<Vec<(String, bool)>>)
    ensures
        final(output)@ == old(output)@ + json_booleans(assignment_views(*values)),
{
    let ghost start = output@;
    match values {
        None => push_str(output, "null"),
        Some(v) => {
            push_str(output, "{\"mode\":");
            if v.len() == 0 {
                push_string(output, "default");
            } else {
                push_string(output, "assignments");
            }
            push_str(output, ",\"values\":[");
            let ghost head = output@;
            let ghost all = v@.map_values(|e: (String, bool)| (e.0@, e.1));
            let mut index: usize = 0;
            assert(all.take(0) =~= Seq::<(Seq<char>, bool)>::empty());
            assert(output@ =~= head + json_boolean_items(all.take(0)));
            while index < v.len()
                invariant
                    index <= v.len(),
                    all == v@.map_values(|e: (String, bool)| (e.0@, e.1)),
                    output@ == head + json_boolean_items(all.take(index as int)),
                decreases v.len() - index,
            {
                let ghost before = output@;
                if index > 0 {
                    push_str(output, ",");
                }
                let ghost separated = output@;
                push_str(output, "{\"name\":");
                push_string(output, v[index].0.as_str());
                push_str(output, ",\"state\":");
                push_str(output, json_boolean(v[index].1));
                push_str(output, "}");
                proof {
                    let next = all.take(index + 1);
                    assert(next.drop_last() =~= all.take(index as int));
                    assert(next.last() == all[index as int]);
                    let item = "{\"name\":"@ + json_string(next.last().0) + ",\"state\":"@ + json_literal(next.last().1) + "}"@;
                    assert(output@ =~= separated + item);
                    if index == 0 {
                        assert(json_boolean_items(all.take(0)) =~= Seq::<char>::empty());
                        assert(output@ =~= head + json_boolean_items(next));
                    } else {
                        assert(output@ =~= head + json_boolean_items(next));
                    }
                }
                index = index + 1;
            }
            assert(all.take(v.len() as int) =~= all);
            push_str(output, "]}");
        },
    }
    assert(output@ =~= start + json_booleans(assignment_views(*values)));
}

/// Appends the query's mode and endpoints.
#[verifier::rlimit(40)]
fn push_json_query_ends(output: &mut String, options: &Options)
    requires
        options.source is Some,
    ensures
        final(output)@ == old(output)@ + json_query_ends(*options),
{
    let ghost start = output@;
    push_str(output, "{\"mode\":");
    push_string(output, query_mode(options));
    push_str(output, ",\"source\":");
    match &options.source {
        Some(source) => push_string(output, source.as_str()),
        None => {},
    }
    push_str(output, ",\"target\":");
    match &options.target {
        Some(target) => push_string(output, target.as_str()),
        None => push_str(output, "null"),
    }
    let ghost ends = output@;
    assert(ends =~= start + "{\"mode\":"@ + json_string(mode_name(options_view(*options))) + ",\"source\":"@
        + json_string(text_option(options.source)->Some_0) + ",\"target\":"@
        + (match text_option(options.target) { Some(t) => json_string(t), None => "null"@ }));
    push_str(output, ",\"reverse\":");
    push_str(output, json_boolean(options.reverse));
    push_str(output, ",\"max_steps\":");
    match options.all_paths {
        Some(depth) => push_wide_signed(output, depth as i128),
        None => push_str(output, "null"),
    }
    assert(output@ =~= start + json_query_ends(*options));
}

/// Appends the query's weight, limit, exclusions and Boolean states.
fn push_json_query_filters(output: &mut String, options: &Options)
    ensures
        final(output)@ == old(output)@ + json_query_filters(*options),
{
    let ghost start = output@;
    push_str(output, ",\"minimum_weight\":");
    push_wide_signed(output, options.minimum_weight as i128);
    push_str(output, ",\"limit\":");
    push_wide_signed(output, options.limit_flows as i128);
    push_str(output, ",\"exclude\":[");
    push_json_strings(output, &options.exclude);
    push_str(output, "],\"booleans\":");
    push_json_booleans(output, &options.booleans);
    assert(output@ =~= start + json_query_filters(*options));
}

/// Appends the query's permission map and output settings.
fn push_json_query_output(output: &mut String, options: &Options)
    ensures
        final(output)@ == old(output)@ + json_query_output(*options),
{
    let ghost start = output@;
    push_str(output, ",\"permission_map\":");
    match &options.permission_map {
        Some(path) => {
            push_str(output, "{\"kind\":");
            push_string(output, "file");
            push_str(output, ",\"path\":");
            push_string(output, path.as_str());
            push_str(output, "}");
        },
        None => {
            push_str(output, "{\"kind\":");
            push_string(output, "built_in");
            push_str(output, ",\"path\":null}");
        },
    }
    push_str(output, ",\"full\":");
    push_str(output, json_boolean(options.full));
    push_str(output, ",\"stats\":");
    push_str(output, json_boolean(options.stats));
    push_str(output, "}");
    assert(output@ =~= start + json_query_output(*options));
}

/// Appends the query as JSON.
fn push_json_query(output: &mut String, options: &Options)
    requires
        options.source is Some,
    ensures
        final(output)@ == old(output)@ + json_query(*options),
{
    let ghost start = output@;
    push_json_query_ends(output, options);
    push_json_query_filters(output, options);
    push_json_query_output(output, options);
    assert(output@ =~= start + json_query(*options));
}


/// The members of a flow's JSON object: its types, weight and, in full,
/// its rules in text order.
#[verifier::opaque]
pub open spec fn json_flow(policy: Policy, v: FlowView, full: bool) -> Result<Seq<char>, Seq<char>> {
    match flow_type_text(policy, v.source) {
        Err(message) => Err(message),
        Ok(source) => match flow_type_text(policy, v.target) {
            Err(message) => Err(message),
            Ok(target) => {
                let head = "\"source\":"@ + json_string(source) + ",\"target\":"@ + json_string(target) + ",\"weight\":"@
                    + decimal_text(v.weight) + ",\"rules\":"@;
                if !full {
                    Ok(head + "null"@)
                } else {
                    match sorted_statements(policy, v.rules) {
                        Err(message) => Err(message),
                        Ok(rules) => Ok(head + "["@ + json_strings(rules) + "]"@),
                    }
                }
            },
        },
    }
}

/// Appends the members of a flow's JSON object.
fn push_json_flow(output: &mut String, policy: &Policy, step: &InformationFlowStep, full: bool) -> (result: Result<(), String>)
    requires
        rules_known(*policy, step@.rules),
    ensures
        match json_flow(*policy, step@, full) {
            Ok(text) => result is Ok && final(output)@ == old(output)@ + text,
            Err(message) => result matches Err(e) && e@ == message,
        },
{
    reveal(json_flow);
    let ghost start = output@;
    let source = match flow_type_name(policy, step.source()) {
        Ok(name) => name,
        Err(message) => return Err(message),
    };
    let target = match flow_type_name(policy, step.target()) {
        Ok(name) => name,
        Err(message) => return Err(message),
    };
    let rules = if full {
        match sorted_rule_texts(policy, step.rules()) {
            Ok(rules) => rules,
            Err(message) => return Err(message),
        }
    } else {
        Vec::new()
    };
    push_str(output, "\"source\":");
    push_string(output, source.as_str());
    push_str(output, ",\"target\":");
    push_string(output, target.as_str());
    push_str(output, ",\"weight\":");
    push_wide_signed(output, step.weight() as i128);
    push_str(output, ",\"rules\":");
    let ghost head = output@;
    if !full {
        push_str(output, "null");
    } else {
        push_str(output, "[");
        push_json_strings(output, &rules);
        push_str(output, "]");
    }
    proof {
        let h = "\"source\":"@ + json_string(source@) + ",\"target\":"@ + json_string(target@) + ",\"weight\":"@
            + decimal_text(step@.weight) + ",\"rules\":"@;
        assert(head =~= start + h);
        if full {
            assert(output@ =~= start + (h + "["@ + json_strings(texts(rules@)) + "]"@));
        } else {
            assert(output@ =~= start + (h + "null"@));
        }
    }
    Ok(())
}

/// Comma-separated flow objects.
pub open spec fn json_flow_items(policy: Policy, views: Seq<FlowView>, full: bool) -> Result<Seq<char>, Seq<char>>
    decreases views.len(),
{
    if views.len() == 0 {
        Ok(Seq::empty())
    } else {
        match json_flow_items(policy, views.drop_last(), full) {
            Err(message) => Err(message),
            Ok(done) => match json_flow(policy, views.last(), full) {
                Err(message) => Err(message),
                Ok(flow) => Ok(done + (if views.len() > 1 { ","@ } else { Seq::empty() }) + "{\"kind\":\"flow\","@ + flow + "}"@),
            },
        }
    }
}

/// Comma-separated step objects of a path.
pub open spec fn json_step_items(policy: Policy, views: Seq<FlowView>, full: bool) -> Result<Seq<char>, Seq<char>>
    decreases views.len(),
{
    if views.len() == 0 {
        Ok(Seq::empty())
    } else {
        match json_step_items(policy, views.drop_last(), full) {
            Err(message) => Err(message),
            Ok(done) => match json_flow(policy, views.last(), full) {
                Err(message) => Err(message),
                Ok(flow) => Ok(done + (if views.len() > 1 { ","@ } else { Seq::empty() }) + "{"@ + flow + "}"@),
            },
        }
    }
}

/// Comma-separated path objects, each with its step count and steps.
pub open spec fn json_path_items(policy: Policy, paths: Seq<Seq<FlowView>>, full: bool) -> Result<Seq<char>, Seq<char>>
    decreases paths.len(),
{
    if paths.len() == 0 {
        Ok(Seq::empty())
    } else {
        match json_path_items(policy, paths.drop_last(), full) {
            Err(message) => Err(message),
            Ok(done) => match json_step_items(policy, paths.last(), full) {
                Err(message) => Err(message),
                Ok(steps) => Ok(done + (if paths.len() > 1 { ","@ } else { Seq::empty() })
                    + "{\"kind\":\"path\",\"step_count\":"@ + decimal_text(paths.last().len() as int) + ",\"steps\":["@
                    + steps + "]}"@),
            },
        }
    }
}

/// Once an item cannot be written, the flow list fails with its error.
proof fn lemma_json_flows_error_stays(policy: Policy, views: Seq<FlowView>, full: bool, k: int)
    requires
        0 <= k <= views.len(),
        json_flow_items(policy, views.take(k), full) is Err,
    ensures
        json_flow_items(policy, views, full) == json_flow_items(policy, views.take(k), full),
    decreases views.len(),
{
    if views.len() > k {
        assert(views.drop_last().take(k) =~= views.take(k));
        lemma_json_flows_error_stays(policy, views.drop_last(), full, k);
    } else {
        assert(views.take(k) =~= views);
    }
}

/// Once a step cannot be written, the step list fails with its error.
proof fn lemma_json_steps_error_stays(policy: Policy, views: Seq<FlowView>, full: bool, k: int)
    requires
        0 <= k <= views.len(),
        json_step_items(policy, views.take(k), full) is Err,
    ensures
        json_step_items(policy, views, full) == json_step_items(policy, views.take(k), full),
    decreases views.len(),
{
    if views.len() > k {
        assert(views.drop_last().take(k) =~= views.take(k));
        lemma_json_steps_error_stays(policy, views.drop_last(), full, k);
    } else {
        assert(views.take(k) =~= views);
    }
}

/// Once a path cannot be written, the path list fails with its error.
proof fn lemma_json_paths_error_stays(policy: Policy, paths: Seq<Seq<FlowView>>, full: bool, k: int)
    requires
        0 <= k <= paths.len(),
        json_path_items(policy, paths.take(k), full) is Err,
    ensures
        json_path_items(policy, paths, full) == json_path_items(policy, paths.take(k), full),
    decreases paths.len(),
{
    if paths.len() > k {
        assert(paths.drop_last().take(k) =~= paths.take(k));
        lemma_json_paths_error_stays(policy, paths.drop_last(), full, k);
    } else {
        assert(paths.take(k) =~= paths);
    }
}

/// Appends the first `count` flows as JSON objects.
fn push_json_flow_items(output: &mut String, policy: &Policy, flows: &Vec<InformationFlowStep>, count: usize, full: bool)
    -> (result: Result<(), String>)
    requires
        count <= flows@.len(),
        forall|j: int| 0 <= j < flows@.len() ==> rules_known(*policy, #[trigger] flow_views(flows@)[j].rules),
    ensures
        match json_flow_items(*policy, flow_views(flows@).take(count as int), full) {
            Ok(text) => result is Ok && final(output)@ == old(output)@ + text,
            Err(message) => result matches Err(e) && e@ == message,
        },
{
    let ghost views = flow_views(flows@);
    let ghost all = views.take(count as int);
    let ghost start = output@;
    let mut index: usize = 0;
    assert(all.take(0) =~= Seq::<FlowView>::empty());
    assert(output@ =~= start + Seq::<char>::empty());
    while index < count
        invariant
            index <= count <= flows@.len(),
            views == flow_views(flows@),
            all == views.take(count as int),
            forall|j: int| 0 <= j < flows@.len() ==> rules_known(*policy, #[trigger] views[j].rules),
            json_flow_items(*policy, all.take(index as int), full) matches Ok(done) && output@ == start + done,
        decreases count - index,
    {
        let ghost next = all.take(index + 1);
        assert(next.drop_last() =~= all.take(index as int));
        assert(next.last() == flows@[index as int]@);
        assert(rules_known(*policy, views[index as int].rules));
        let ghost before = output@;
        if index > 0 {
            push_str(output, ",");
        }
        push_str(output, "{\"kind\":\"flow\",");
        match push_json_flow(output, policy, &flows[index], full) {
            Ok(()) => {},
            Err(message) => {
                proof { lemma_json_flows_error_stays(*policy, all, full, index as int + 1); }
                return Err(message);
            },
        }
        push_str(output, "}");
        proof {
            let done = json_flow_items(*policy, all.take(index as int), full)->Ok_0;
            let flow = json_flow(*policy, next.last(), full)->Ok_0;
            assert(output@ =~= start + (done + (if next.len() > 1 { ","@ } else { Seq::empty() }) + "{\"kind\":\"flow\","@ + flow + "}"@));
        }
        index = index + 1;
    }
    assert(all.take(count as int) =~= all);
    Ok(())
}

/// Appends the steps of a path as JSON objects.
fn push_json_step_items(output: &mut String, policy: &Policy, steps: &Vec<InformationFlowStep>, full: bool)
    -> (result: Result<(), String>)
    requires
        forall|j: int| 0 <= j < steps@.len() ==> rules_known(*policy, #[trigger] flow_views(steps@)[j].rules),
    ensures
        match json_step_items(*policy, flow_views(steps@), full) {
            Ok(text) => result is Ok && final(output)@ == old(output)@ + text,
            Err(message) => result matches Err(e) && e@ == message,
        },
{
    let ghost views = flow_views(steps@);
    let ghost start = output@;
    let mut index: usize = 0;
    assert(views.take(0) =~= Seq::<FlowView>::empty());
    assert(output@ =~= start + Seq::<char>::empty());
    while index < steps.len()
        invariant
            index <= steps.len(),
            views == flow_views(steps@),
            forall|j: int| 0 <= j < steps@.len() ==> rules_known(*policy, #[trigger] views[j].rules),
            json_step_items(*policy, views.take(index as int), full) matches Ok(done) && output@ == start + done,
        decreases steps.len() - index,
    {
        let ghost next = views.take(index + 1);
        assert(next.drop_last() =~= views.take(index as int));
        assert(next.last() == steps@[index as int]@);
        assert(rules_known(*policy, views[index as int].rules));
        if index > 0 {
            push_str(output, ",");
        }
        push_str(output, "{");
        match push_json_flow(output, policy, &steps[index], full) {
            Ok(()) => {},
            Err(message) => {
                proof { lemma_json_steps_error_stays(*policy, views, full, index as int + 1); }
                return Err(message);
            },
        }
        push_str(output, "}");
        proof {
            let done = json_step_items(*policy, views.take(index as int), full)->Ok_0;
            let flow = json_flow(*policy, next.last(), full)->Ok_0;
            assert(output@ =~= start + (done + (if next.len() > 1 { ","@ } else { Seq::empty() }) + "{"@ + flow + "}"@));
        }
        index = index + 1;
    }
    assert(views.take(steps.len() as int) =~= views);
    Ok(())
}


/// Appends the first `count` paths as JSON objects.
#[verifier::rlimit(40)]
fn push_json_path_items(output: &mut String, policy: &Policy, paths: &Vec<Vec<InformationFlowStep>>, count: usize, full: bool)
    -> (result: Result<(), String>)
    requires
        count <= paths@.len(),
        forall|i: int, j: int| 0 <= i < paths@.len() && 0 <= j < flow_path_views(paths@)[i].len()
            ==> rules_known(*policy, #[trigger] flow_path_views(paths@)[i][j].rules),
    ensures
        match json_path_items(*policy, flow_path_views(paths@).take(count as int), full) {
            Ok(text) => result is Ok && final(output)@ == old(output)@ + text,
            Err(message) => result matches Err(e) && e@ == message,
        },
{
    let ghost views = flow_path_views(paths@);
    let ghost all = views.take(count as int);
    let ghost start = output@;
    let mut index: usize = 0;
    assert(all.take(0) =~= Seq::<Seq<FlowView>>::empty());
    assert(output@ =~= start + Seq::<char>::empty());
    while index < count
        invariant
            index <= count <= paths@.len(),
            views == flow_path_views(paths@),
            all == views.take(count as int),
            forall|i: int, j: int| 0 <= i < paths@.len() && 0 <= j < views[i].len() ==> rules_known(*policy, #[trigger] views[i][j].rules),
            json_path_items(*policy, all.take(index as int), full) matches Ok(done) && output@ == start + done,
        decreases count - index,
    {
        let ghost next = all.take(index + 1);
        assert(next.drop_last() =~= all.take(index as int));
        assert(next.last() == flow_views(paths@[index as int]@));
        proof {
            let path = views[index as int];
            assert forall|j: int| 0 <= j < path.len() implies rules_known(*policy, #[trigger] path[j].rules) by {
                assert(rules_known(*policy, views[index as int][j].rules));
            }
        }
        if index > 0 {
            push_str(output, ",");
        }
        push_str(output, "{\"kind\":\"path\",\"step_count\":");
        push_wide_signed(output, paths[index].len() as i128);
        push_str(output, ",\"steps\":[");
        let ghost opened = output@;
        match push_json_step_items(output, policy, &paths[index], full) {
            Ok(()) => {},
            Err(message) => {
                proof { lemma_json_paths_error_stays(*policy, all, full, index as int + 1); }
                return Err(message);
            },
        }
        push_str(output, "]}");
        proof {
            let done = json_path_items(*policy, all.take(index as int), full)->Ok_0;
            let steps = json_step_items(*policy, next.last(), full)->Ok_0;
            assert(opened =~= start + done + (if next.len() > 1 { ","@ } else { Seq::empty() })
                + "{\"kind\":\"path\",\"step_count\":"@ + decimal_text(next.last().len() as int) + ",\"steps\":["@);
            assert(output@ =~= start + (done + (if next.len() > 1 { ","@ } else { Seq::empty() })
                + "{\"kind\":\"path\",\"step_count\":"@ + decimal_text(next.last().len() as int) + ",\"steps\":["@
                + steps + "]}"@));
        }
        index = index + 1;
    }
    assert(all.take(count as int) =~= all);
    Ok(())
}

/// The graph statistics as JSON, or `null` where they are not asked for.
pub open spec fn json_stats(enabled: bool, stats: InformationFlowStats) -> Seq<char> {
    if enabled {
        "{\"nodes\":"@ + decimal_text(stats.nodes as int) + ",\"edges\":"@ + decimal_text(stats.edges as int) + "}"@
    } else {
        "null"@
    }
}

/// The results as one JSON document: the tool, the policy, the query, the
/// statistics where asked for, and the results up to the limit.
pub open spec fn flow_json_text(
    policy: Policy,
    policy_path: Seq<char>,
    version: Seq<char>,
    options: Options,
    results: FlowResultsView,
    stats: InformationFlowStats,
) -> Result<Seq<char>, Seq<char>> {
    let (kind, available) = match results {
        FlowResultsView::Flows(f) => ("flow"@, f.len()),
        FlowResultsView::Paths(p) => ("path"@, p.len()),
    };
    let count = result_limit(available as usize, options.limit_flows);
    let items = match results {
        FlowResultsView::Flows(f) => json_flow_items(policy, f.take(count as int), options.full),
        FlowResultsView::Paths(p) => json_path_items(policy, p.take(count as int), options.full),
    };
    match items {
        Err(message) => Err(message),
        Ok(items) => Ok(
            "{\"schema\":\"setools-rs.seinfoflow\",\"schema_version\":1,\"tool\":{\"name\":\"seinfoflow\",\"version\":"@
                + json_string(version) + "},\"policy\":{\"path\":"@ + json_string(policy_path) + "},\"query\":"@
                + json_query(options) + ",\"result_type\":"@ + json_string(kind) + ",\"statistics\":"@
                + json_stats(options.stats, stats) + ",\"result_count\":"@ + decimal_text(count as int) + ",\"results\":["@
                + items + "]}\n"@,
        ),
    }
}

/// Writes the results as one JSON document.
pub fn render_flow_json(
    policy: &Policy,
    policy_path: &str,
    version: &str,
    options: &Options,
    results: &FlowResults,
    stats: InformationFlowStats,
) -> (result: Result<String, String>)
    requires
        options.source is Some,
        flow_results_known(*policy, flow_results_view(*results)),
    ensures
        match flow_json_text(*policy, policy_path@, version@, *options, flow_results_view(*results), stats) {
            Ok(text) => result matches Ok(r) && r@ == text,
            Err(message) => result matches Err(e) && e@ == message,
        },
{
    let (kind, available) = match results {
        FlowResults::Flows(flows) => ("flow", flows.len()),
        FlowResults::Paths(paths) => ("path", paths.len()),
    };
    let count = limited_result_count(available, options.limit_flows);
    let mut output = owned("{\"schema\":\"setools-rs.seinfoflow\",\"schema_version\":1,\"tool\":{\"name\":\"seinfoflow\",\"version\":");
    push_string(&mut output, version);
    push_str(&mut output, "},\"policy\":{\"path\":");
    push_string(&mut output, policy_path);
    push_str(&mut output, "},\"query\":");
    push_json_query(&mut output, options);
    push_str(&mut output, ",\"result_type\":");
    push_string(&mut output, kind);
    push_str(&mut output, ",\"statistics\":");
    if options.stats {
        push_str(&mut output, "{\"nodes\":");
        push_wide_signed(&mut output, stats.nodes as i128);
        push_str(&mut output, ",\"edges\":");
        push_wide_signed(&mut output, stats.edges as i128);
        push_str(&mut output, "}");
    } else {
        push_str(&mut output, "null");
    }
    push_str(&mut output, ",\"result_count\":");
    push_wide_signed(&mut output, count as i128);
    push_str(&mut output, ",\"results\":[");
    let ghost head = output@;
    let pushed = match results {
        FlowResults::Flows(flows) => {
            proof {
                let views = flow_views(flows@);
                assert forall|j: int| 0 <= j < flows@.len() implies rules_known(*policy, #[trigger] flow_views(flows@)[j].rules) by {
                    assert(rules_known(*policy, views[j].rules));
                }
            }
            push_json_flow_items(&mut output, policy, flows, count, options.full)
        },
        FlowResults::Paths(paths) => push_json_path_items(&mut output, policy, paths, count, options.full),
    };
    match pushed {
        Ok(()) => {},
        Err(message) => return Err(message),
    }
    push_str(&mut output, "]}\n");
    proof {
        let v = flow_results_view(*results);
        let items = match v {
            FlowResultsView::Flows(f) => json_flow_items(*policy, f.take(count as int), options.full)->Ok_0,
            FlowResultsView::Paths(p) => json_path_items(*policy, p.take(count as int), options.full)->Ok_0,
        };
        assert(head =~= "{\"schema\":\"setools-rs.seinfoflow\",\"schema_version\":1,\"tool\":{\"name\":\"seinfoflow\",\"version\":"@
            + json_string(version@) + "},\"policy\":{\"path\":"@ + json_string(policy_path@) + "},\"query\":"@
            + json_query(*options) + ",\"result_type\":"@ + json_string(kind@) + ",\"statistics\":"@
            + json_stats(options.stats, stats) + ",\"result_count\":"@ + decimal_text(count as int) + ",\"results\":["@);
        assert(output@ =~= head + items + "]}\n"@);
    }
    Ok(output)
}

} // verus!
