//! The diagnostic lines the checker logs about each check's evaluation in
//! verbose and debug mode.
use vstd::prelude::*;
use crate::text::{texts, owned, push_str, push_char, chars_of, text_lt, text_less, same_text, lemma_text_lt_total,
    lemma_text_lt_transitive, lemma_text_lt_irreflexive, joined_by, join_texts};
use crate::policy::{Policy, well_formed};
use crate::checks::{symbol_named, class_named, symbol_by_name, class_by_name};
use crate::checker::RuleEvaluation;
use crate::rule_text::{rule_statement, render_rule};
use crate::report::{rbac_statement, render_rbac_rule, decimal, push_decimal, dedup, dedup_texts};
use crate::text::{text_order, sort_texts};
use crate::checker::{ReadOnlyKind, CheckType, check_logger, check_name, check_run_message};
use crate::checks::{Check, CheckKind, CheckKindView, check_view};
use crate::verdicts::{CheckResult, CheckOutcome, OutcomeView, outcome_view, te_verdict_view, rbac_verdict_view, ReadOnlyVerdict, ReadOnlyVerdictView, WritableFile, WritableFileView, UseRuleEvaluation,
    read_only_verdict_view, writable_file_view};

verus! {

/// A rule's rendering paired with whether it became a finding.
pub open spec fn marked(values: Seq<(String, bool)>) -> Seq<(Seq<char>, bool)> {
    values.map_values(|v: (String, bool)| (v.0@, v.1))
}

/// Pairs ordered by their text, and a passing pair before a failing one
/// with the same text.
pub open spec fn mark_order() -> spec_fn((Seq<char>, bool), (Seq<char>, bool)) -> bool {
    |a: (Seq<char>, bool), b: (Seq<char>, bool)| text_lt(a.0, b.0) || (a.0 == b.0 && (!a.1 || b.1))
}

/// The pair order is a total order.
proof fn lemma_mark_order_total()
    ensures
        vstd::relations::total_ordering(mark_order()),
{
    let le = mark_order();
    assert forall|a: (Seq<char>, bool)| #[trigger] le(a, a) by {}
    assert forall|a: (Seq<char>, bool), b: (Seq<char>, bool)| #[trigger] le(a, b) && #[trigger] le(b, a) implies a == b by {
        if a.0 != b.0 {
            lemma_text_lt_transitive(a.0, b.0, a.0);
            lemma_text_lt_irreflexive(a.0);
        } else {
            lemma_text_lt_irreflexive(a.0);
            assert(a.1 == b.1);
        }
    }
    assert forall|a: (Seq<char>, bool), b: (Seq<char>, bool), c: (Seq<char>, bool)|
        #[trigger] le(a, b) && #[trigger] le(b, c) implies le(a, c) by {
        if text_lt(a.0, b.0) && text_lt(b.0, c.0) {
            lemma_text_lt_transitive(a.0, b.0, c.0);
        }
    }
    assert forall|a: (Seq<char>, bool), b: (Seq<char>, bool)| #[trigger] le(a, b) || #[trigger] le(b, a) by {
        lemma_text_lt_total(a.0, b.0);
    }
}

/// Whether pair `a` sorts strictly before pair `b`.
fn mark_less(a: &(String, bool), b: &(String, bool)) -> (result: bool)
    ensures
        result == ((a.0@, a.1) != (b.0@, b.1) && mark_order()((a.0@, a.1), (b.0@, b.1))),
{
    let x = chars_of(a.0.as_str());
    let y = chars_of(b.0.as_str());
    if text_less(&x, &y) {
        proof {
            if x@ == y@ {
                lemma_text_lt_irreflexive(x@);
            }
        }
        true
    } else if same_text(a.0.as_str(), b.0.as_str()) {
        !a.1 && b.1
    } else {
        false
    }
}

/// The pairs sorted by the pair order.
pub fn sort_marked(values: &Vec<(String, bool)>) -> (result: Vec<(String, bool)>)
    ensures
        marked(result@) == marked(values@).sort_by(mark_order()),
{
    let ghost le = mark_order();
    let mut result: Vec<(String, bool)> = Vec::new();
    let mut index: usize = 0;
    proof {
        broadcast use vstd::seq_lib::group_to_multiset_ensures;
        assert(marked(values@).take(0) =~= Seq::<(Seq<char>, bool)>::empty());
        assert(marked(result@) =~= Seq::<(Seq<char>, bool)>::empty());
    }
    while index < values.len()
        invariant
            index <= values.len(),
            le == mark_order(),
            vstd::relations::sorted_by(marked(result@), le),
            marked(result@).to_multiset() == marked(values@).take(index as int).to_multiset(),
        decreases values.len() - index,
    {
        let item = &values[index];
        let ghost key = (item.0@, item.1);
        let mut position: usize = 0;
        let mut searching = true;
        while searching && position < result.len()
            invariant
                key == (item.0@, item.1),
                le == mark_order(),
                position <= result.len(),
                forall|k: int| 0 <= k < position ==> le(marked(result@)[k], key),
                !searching ==> position < result.len() && key != marked(result@)[position as int]
                    && le(key, marked(result@)[position as int]),
            decreases result.len() - position + if searching { 1int } else { 0int },
        {
            assert(marked(result@)[position as int] == (result@[position as int].0@, result@[position as int].1));
            if mark_less(item, &result[position]) {
                searching = false;
            } else {
                proof {
                    lemma_text_lt_total(key.0, result@[position as int].0@);
                }
                position = position + 1;
            }
        }
        let ghost before = marked(result@);
        let copy = (owned(item.0.as_str()), item.1);
        result.insert(position, copy);
        proof {
            broadcast use vstd::seq_lib::group_to_multiset_ensures;
            lemma_mark_order_total();
            let after = marked(result@);
            assert(after =~= before.insert(position as int, key));
            assert(after.remove(position as int) =~= before);
            assert(after[position as int] == key);
            assert(after.to_multiset().remove(key) =~= before.to_multiset());
            assert(after.to_multiset().contains(key));
            assert(after.to_multiset() =~= before.to_multiset().insert(key));
            assert(marked(values@).take(index + 1) =~= marked(values@).take(index as int).push(key));
            assert forall|i: int, j: int| 0 <= i < j < after.len() implies #[trigger] le(after[i], after[j]) by {
                if j < position {
                    assert(after[i] == before[i] && after[j] == before[j]);
                } else if j == position {
                    assert(after[i] == before[i]);
                } else if i == position {
                    assert(after[j] == before[j - 1]);
                    if j - 1 > position {
                        assert(le(before[position as int], before[j - 1]));
                    }
                } else if i < position {
                    assert(after[i] == before[i] && after[j] == before[j - 1]);
                } else {
                    assert(after[i] == before[i - 1] && after[j] == before[j - 1]);
                }
            }
        }
        index = index + 1;
    }
    proof {
        lemma_mark_order_total();
        assert(marked(values@).take(values.len() as int) =~= marked(values@));
        marked(values@).lemma_sort_by_ensures(le);
        vstd::seq_lib::lemma_sorted_unique(marked(result@), marked(values@).sort_by(le), le);
    }
    result
}


/// The severity of a logged line.
#[derive(PartialEq, Eq, Structural, Clone, Copy, Debug)]
pub enum LogLevel {
    /// Shown in verbose and debug mode.
    Info,
    /// Shown in debug mode only.
    Debug,
}

/// One logged line: its severity, its logger and its message.
#[derive(Debug)]
pub struct LogLine {
    /// The severity.
    pub level: LogLevel,
    /// The logger.
    pub module: String,
    /// The message.
    pub message: String,
}

/// A logged line as plain values.
pub open spec fn line_view(line: LogLine) -> (LogLevel, Seq<char>, Seq<char>) {
    (line.level, line.module@, line.message@)
}

/// The plain values of some logged lines.
pub open spec fn line_views(lines: Seq<LogLine>) -> Seq<(LogLevel, Seq<char>, Seq<char>)> {
    lines.map_values(|l: LogLine| line_view(l))
}

/// Appends one logged line.
fn push_line(lines: &mut Vec<LogLine>, level: LogLevel, module: &str, message: String)
    ensures
        line_views(final(lines)@) == line_views(old(lines)@).push((level, module@, message@)),
{
    let ghost before = line_views(lines@);
    let line = LogLine { level, module: owned(module), message };
    lines.push(line);
    assert(line_views(lines@) =~= before.push((level, module@, message@)));
}

/// The policy as Python shows it.
pub open spec fn policy_repr(path: Seq<char>) -> Seq<char> {
    "<SELinuxPolicy(\""@ + path + "\")>"@
}

/// Whether a name is a type or an attribute, as Python names its class.
pub open spec fn type_kind(policy: Policy, name: Seq<char>) -> Seq<char> {
    match symbol_named(policy, name) {
        Some(i) => if policy.types@[i].attribute { "TypeAttribute"@ } else { "Type"@ },
        None => "Type"@,
    }
}

/// A type or attribute as Python shows it.
pub open spec fn type_repr(policy: Policy, path: Seq<char>, name: Seq<char>) -> Seq<char> {
    "<"@ + type_kind(policy, name) + "("@ + policy_repr(path) + ", \""@ + name + "\")>"@
}

/// An optional type criterion as Python shows it: `None`, a known symbol,
/// or the name as given.
pub open spec fn optional_type_repr(policy: Policy, path: Seq<char>, value: Option<Seq<char>>) -> Seq<char> {
    match value {
        None => "None"@,
        Some(name) => if symbol_named(policy, name) is Some { type_repr(policy, path, name) } else { name },
    }
}

/// An optional role criterion as Python shows it.
pub open spec fn role_repr(path: Seq<char>, value: Option<Seq<char>>) -> Seq<char> {
    match value {
        None => "None"@,
        Some(name) => "<Role("@ + policy_repr(path) + ", \""@ + name + "\")>"@,
    }
}

/// The known classes among some names, as Python shows them.
pub open spec fn class_reprs(policy: Policy, path: Seq<char>, classes: Seq<Seq<char>>) -> Seq<Seq<char>>
    decreases classes.len(),
{
    if classes.len() == 0 {
        Seq::empty()
    } else {
        let done = class_reprs(policy, path, classes.drop_last());
        if class_named(policy, classes.last()) is Some {
            done.push("<ObjClass("@ + policy_repr(path) + ", \""@ + classes.last() + "\")>"@)
        } else {
            done
        }
    }
}

/// A set of classes as Python shows it; `None` for no classes.
pub open spec fn class_set_repr(policy: Policy, path: Seq<char>, classes: Seq<Seq<char>>) -> Seq<char> {
    if classes.len() == 0 {
        "None"@
    } else {
        "frozenset({"@ + joined_by(class_reprs(policy, path, classes), ", "@) + "})"@
    }
}

/// A set of strings as Python shows it; `None` for no strings.
pub open spec fn string_set_repr(values: Seq<Seq<char>>) -> Seq<char> {
    if values.len() == 0 {
        "None"@
    } else {
        "frozenset({"@ + joined_by(values.map_values(|v: Seq<char>| "'"@ + v + "'"@), ", "@) + "})"@
    }
}

/// A set of types as Python shows it.
pub open spec fn type_set_repr(policy: Policy, path: Seq<char>, values: Seq<Seq<char>>) -> Seq<char> {
    if values.len() == 0 {
        "frozenset()"@
    } else {
        "frozenset({"@ + joined_by(values.map_values(|v: Seq<char>| type_repr(policy, path, v)), ", "@) + "})"@
    }
}

/// One character inside a single-quoted Python string.
pub open spec fn python_char(c: char) -> Seq<char> {
    if c == '\\' { seq!['\\', '\\'] } else if c == '\'' { seq!['\\', '\''] } else { seq![c] }
}

/// The characters of a single-quoted Python string.
pub open spec fn python_escaped(text: Seq<char>) -> Seq<char>
    decreases text.len(),
{
    if text.len() == 0 { Seq::empty() } else { python_escaped(text.drop_last()) + python_char(text.last()) }
}

/// A string as Python shows it.
pub open spec fn python_repr(text: Seq<char>) -> Seq<char> {
    "'"@ + python_escaped(text) + "'"@
}

/// Writes the policy as Python shows it.
fn push_policy_repr(output: &mut String, path: &str)
    ensures
        final(output)@ == old(output)@ + policy_repr(path@),
{
    let ghost start = output@;
    push_str(output, "<SELinuxPolicy(\"");
    push_str(output, path);
    push_str(output, "\")>");
    assert(output@ =~= start + policy_repr(path@));
}

/// Writes a type or attribute as Python shows it.
fn type_repr_text(policy: &Policy, path: &str, name: &str) -> (result: String)
    requires
        well_formed(*policy),
    ensures
        result@ == type_repr(*policy, path@, name@),
{
    let kind = match symbol_by_name(policy, name) {
        Some(i) => if policy.types[i].attribute { "TypeAttribute" } else { "Type" },
        None => "Type",
    };
    let mut text = owned("<");
    push_str(&mut text, kind);
    push_str(&mut text, "(");
    push_policy_repr(&mut text, path);
    push_str(&mut text, ", \"");
    push_str(&mut text, name);
    push_str(&mut text, "\")>");
    assert(text@ =~= type_repr(*policy, path@, name@));
    text
}

/// Writes an optional type criterion as Python shows it.
fn optional_type_repr_text(policy: &Policy, path: &str, value: &Option<String>) -> (result: String)
    requires
        well_formed(*policy),
    ensures
        result@ == optional_type_repr(*policy, path@, crate::arguments::text_view(*value)),
{
    match value {
        None => owned("None"),
        Some(name) => match symbol_by_name(policy, name.as_str()) {
            Some(_) => type_repr_text(policy, path, name.as_str()),
            None => owned(name.as_str()),
        },
    }
}

/// Writes an optional role criterion as Python shows it.
fn role_repr_text(path: &str, value: &Option<String>) -> (result: String)
    ensures
        result@ == role_repr(path@, crate::arguments::text_view(*value)),
{
    match value {
        None => owned("None"),
        Some(name) => {
            let mut text = owned("<Role(");
            push_policy_repr(&mut text, path);
            push_str(&mut text, ", \"");
            push_str(&mut text, name.as_str());
            push_str(&mut text, "\")>");
            assert(text@ =~= role_repr(path@, crate::arguments::text_view(*value)));
            text
        },
    }
}

/// Writes a set of classes as Python shows it.
fn class_set_repr_text(policy: &Policy, path: &str, classes: &Vec<String>) -> (result: String)
    requires
        well_formed(*policy),
    ensures
        result@ == class_set_repr(*policy, path@, texts(classes@)),
{
    if classes.len() == 0 {
        return owned("None");
    }
    let ghost all = texts(classes@);
    let mut reprs: Vec<String> = Vec::new();
    let mut index: usize = 0;
    assert(all.take(0) =~= Seq::<Seq<char>>::empty());
    assert(texts(reprs@) =~= Seq::<Seq<char>>::empty());
    while index < classes.len()
        invariant
            index <= classes.len(),
            well_formed(*policy),
            all == texts(classes@),
            texts(reprs@) == class_reprs(*policy, path@, all.take(index as int)),
        decreases classes.len() - index,
    {
        let ghost next = all.take(index + 1);
        assert(next.drop_last() =~= all.take(index as int));
        assert(next.last() == classes@[index as int]@);
        if class_by_name(policy, classes[index].as_str()).is_some() {
            let mut text = owned("<ObjClass(");
            push_policy_repr(&mut text, path);
            push_str(&mut text, ", \"");
            push_str(&mut text, classes[index].as_str());
            push_str(&mut text, "\")>");
            let ghost before = texts(reprs@);
            reprs.push(text);
            assert(texts(reprs@) =~= before.push(text@));
        }
        index = index + 1;
    }
    assert(all.take(classes.len() as int) =~= all);
    let mut result = owned("frozenset({");
    let joined = join_texts(&reprs, ", ");
    push_str(&mut result, joined.as_str());
    push_str(&mut result, "})");
    result
}

/// Writes a set of strings as Python shows it.
fn string_set_repr_text(values: &Vec<String>) -> (result: String)
    ensures
        result@ == string_set_repr(texts(values@)),
{
    if values.len() == 0 {
        return owned("None");
    }
    let mut quoted: Vec<String> = Vec::new();
    let mut index: usize = 0;
    while index < values.len()
        invariant
            index <= values.len(),
            texts(quoted@) == texts(values@).take(index as int).map_values(|v: Seq<char>| "'"@ + v + "'"@),
        decreases values.len() - index,
    {
        let mut text = owned("'");
        push_str(&mut text, values[index].as_str());
        push_str(&mut text, "'");
        let ghost before = texts(quoted@);
        quoted.push(text);
        proof {
            assert(texts(quoted@) =~= before.push(text@));
            assert(texts(values@).take(index + 1) =~= texts(values@).take(index as int).push(values@[index as int]@));
            assert(texts(values@).take(index + 1).map_values(|v: Seq<char>| "'"@ + v + "'"@)
                =~= before.push("'"@ + values@[index as int]@ + "'"@));
        }
        index = index + 1;
    }
    assert(texts(values@).take(values.len() as int) =~= texts(values@));
    let mut result = owned("frozenset({");
    let joined = join_texts(&quoted, ", ");
    push_str(&mut result, joined.as_str());
    push_str(&mut result, "})");
    result
}

/// Writes a set of types as Python shows it.
fn type_set_repr_text(policy: &Policy, path: &str, values: &Vec<String>) -> (result: String)
    requires
        well_formed(*policy),
    ensures
        result@ == type_set_repr(*policy, path@, texts(values@)),
{
    if values.len() == 0 {
        return owned("frozenset()");
    }
    let reprs = type_reprs(policy, path, values);
    let mut result = owned("frozenset({");
    let joined = join_texts(&reprs, ", ");
    push_str(&mut result, joined.as_str());
    push_str(&mut result, "})");
    result
}

/// Writes each type as Python shows it.
fn type_reprs(policy: &Policy, path: &str, values: &Vec<String>) -> (result: Vec<String>)
    requires
        well_formed(*policy),
    ensures
        texts(result@) == texts(values@).map_values(|v: Seq<char>| type_repr(*policy, path@, v)),
{
    let mut reprs: Vec<String> = Vec::new();
    let mut index: usize = 0;
    while index < values.len()
        invariant
            index <= values.len(),
            well_formed(*policy),
            texts(reprs@) == texts(values@).take(index as int).map_values(|v: Seq<char>| type_repr(*policy, path@, v)),
        decreases values.len() - index,
    {
        let text = type_repr_text(policy, path, values[index].as_str());
        let ghost before = texts(reprs@);
        reprs.push(text);
        proof {
            assert(texts(reprs@) =~= before.push(text@));
            assert(texts(values@).take(index + 1) =~= texts(values@).take(index as int).push(values@[index as int]@));
            assert(texts(values@).take(index + 1).map_values(|v: Seq<char>| type_repr(*policy, path@, v))
                =~= before.push(type_repr(*policy, path@, values@[index as int]@)));
        }
        index = index + 1;
    }
    assert(texts(values@).take(values.len() as int) =~= texts(values@));
    reprs
}

/// Writes a string as Python shows it.
fn python_repr_text(value: &str) -> (result: String)
    ensures
        result@ == python_repr(value@),
{
    let chars = chars_of(value);
    let mut text = owned("'");
    let ghost start = text@;
    let mut index: usize = 0;
    assert(chars@.take(0) =~= Seq::<char>::empty());
    while index < chars.len()
        invariant
            index <= chars.len(),
            chars@ == value@,
            text@ == start + python_escaped(chars@.take(index as int)),
        decreases chars.len() - index,
    {
        let c = chars[index];
        assert(chars@.take(index + 1).drop_last() =~= chars@.take(index as int));
        if c == '\\' {
            push_char(&mut text, '\\');
            push_char(&mut text, '\\');
        } else if c == '\'' {
            push_char(&mut text, '\\');
            push_char(&mut text, '\'');
        } else {
            push_char(&mut text, c);
        }
        index = index + 1;
        assert(text@ =~= start + python_escaped(chars@.take(index as int)));
    }
    assert(chars@.take(chars.len() as int) =~= chars@);
    push_str(&mut text, "'");
    assert(text@ =~= python_repr(value@));
    text
}


/// The statement of a TE or role allow rule, if it can be written.
pub open spec fn rule_text_of(policy: Policy, r: usize, rbac: bool) -> Option<Seq<char>> {
    if rbac {
        if r < policy.role_allows@.len() {
            match rbac_statement(policy, r) { Ok(t) => Some(t), Err(_) => None }
        } else {
            None
        }
    } else if r < policy.te_rules@.len() {
        match rule_statement(policy, policy.te_rules@[r as int]) { Ok(t) => Some(t), Err(_) => None }
    } else {
        None
    }
}

/// The statements of the rules that can be written, in order.
pub open spec fn rendered(policy: Policy, rules: Seq<usize>, rbac: bool) -> Seq<Seq<char>>
    decreases rules.len(),
{
    if rules.len() == 0 {
        Seq::empty()
    } else {
        let done = rendered(policy, rules.drop_last(), rbac);
        match rule_text_of(policy, rules.last(), rbac) {
            Some(t) => done.push(t),
            None => done,
        }
    }
}

/// The evaluated rules that can be written, each with whether it failed.
pub open spec fn evaluated_marks(policy: Policy, evaluated: Seq<(usize, bool)>, rbac: bool) -> Seq<(Seq<char>, bool)>
    decreases evaluated.len(),
{
    if evaluated.len() == 0 {
        Seq::empty()
    } else {
        let done = evaluated_marks(policy, evaluated.drop_last(), rbac);
        match rule_text_of(policy, evaluated.last().0, rbac) {
            Some(t) => done.push((t, evaluated.last().1)),
            None => done,
        }
    }
}

/// Writes the statement of a rule, if it can be written.
fn rule_text(policy: &Policy, r: usize, rbac: bool) -> (result: Option<String>)
    ensures
        match rule_text_of(*policy, r, rbac) {
            Some(t) => result matches Some(v) && v@ == t,
            None => result is None,
        },
{
    if rbac {
        if r < policy.role_allows.len() {
            match render_rbac_rule(policy, r) { Ok(t) => Some(t), Err(_) => None }
        } else {
            None
        }
    } else if r < policy.te_rules.len() {
        match render_rule(policy, &policy.te_rules[r]) { Ok(t) => Some(t), Err(_) => None }
    } else {
        None
    }
}

/// Writes the statements of the rules that can be written.
fn rendered_texts(policy: &Policy, rules: &Vec<usize>, rbac: bool) -> (result: Vec<String>)
    ensures
        texts(result@) == rendered(*policy, rules@, rbac),
{
    let mut done: Vec<String> = Vec::new();
    let mut index: usize = 0;
    assert(rules@.take(0) =~= Seq::<usize>::empty());
    assert(texts(done@) =~= Seq::<Seq<char>>::empty());
    while index < rules.len()
        invariant
            index <= rules.len(),
            texts(done@) == rendered(*policy, rules@.take(index as int), rbac),
        decreases rules.len() - index,
    {
        let ghost next = rules@.take(index + 1);
        assert(next.drop_last() =~= rules@.take(index as int));
        assert(next.last() == rules@[index as int]);
        match rule_text(policy, rules[index], rbac) {
            Some(t) => {
                let ghost before = texts(done@);
                done.push(t);
                assert(texts(done@) =~= before.push(t@));
            },
            None => {},
        }
        index = index + 1;
    }
    assert(rules@.take(rules.len() as int) =~= rules@);
    done
}

/// The plain values of evaluated rules.
pub open spec fn evaluation_views(evaluated: Seq<RuleEvaluation>) -> Seq<(usize, bool)> {
    evaluated.map_values(|e: RuleEvaluation| (e.rule, e.failed))
}

/// Writes the evaluated rules that can be written, each with whether it
/// failed.
fn evaluated_texts(policy: &Policy, evaluated: &Vec<RuleEvaluation>, rbac: bool) -> (result: Vec<(String, bool)>)
    ensures
        marked(result@) == evaluated_marks(*policy, evaluation_views(evaluated@), rbac),
{
    let ghost all = evaluation_views(evaluated@);
    let mut done: Vec<(String, bool)> = Vec::new();
    let mut index: usize = 0;
    assert(all.take(0) =~= Seq::<(usize, bool)>::empty());
    assert(marked(done@) =~= Seq::<(Seq<char>, bool)>::empty());
    while index < evaluated.len()
        invariant
            index <= evaluated.len(),
            all == evaluation_views(evaluated@),
            marked(done@) == evaluated_marks(*policy, all.take(index as int), rbac),
        decreases evaluated.len() - index,
    {
        let ghost next = all.take(index + 1);
        assert(next.drop_last() =~= all.take(index as int));
        assert(next.last() == (evaluated@[index as int].rule, evaluated@[index as int].failed));
        match rule_text(policy, evaluated[index].rule, rbac) {
            Some(t) => {
                let ghost before = marked(done@);
                let failed = evaluated[index].failed;
                done.push((t, failed));
                assert(marked(done@) =~= before.push((t@, failed)));
            },
            None => {},
        }
        index = index + 1;
    }
    assert(all.take(evaluated.len() as int) =~= all);
    done
}

/// The line for an evaluated rule: `F` for a finding, `P` otherwise.
pub open spec fn mark_line(logger: Seq<char>, mark: (Seq<char>, bool)) -> (LogLevel, Seq<char>, Seq<char>) {
    (LogLevel::Debug, logger, (if mark.1 { "F   * "@ } else { "P   * "@ }) + mark.0)
}

/// The message for an expected rule that was not found.
pub open spec fn expected_message(end: Seq<char>, name: Seq<char>) -> Seq<char> {
    "Expected rule with "@ + end + " \""@ + name + "\" not found."@
}

/// The lines for expected sources and targets that were not found.
pub open spec fn missing_lines(logger: Seq<char>, sources: Seq<Seq<char>>, targets: Seq<Seq<char>>) -> Seq<(LogLevel, Seq<char>, Seq<char>)> {
    sources.map_values(|n: Seq<char>| (LogLevel::Debug, logger, "F   * "@ + expected_message("source"@, n)))
        + targets.map_values(|n: Seq<char>| (LogLevel::Debug, logger, "F   * "@ + expected_message("target"@, n)))
}

/// The findings of an assertion as Python shows them: the rules, then the
/// expected sources and targets that were not found.
pub open spec fn failure_values(path: Seq<char>, wrapper: Seq<char>, rules: Seq<Seq<char>>, sources: Seq<Seq<char>>, targets: Seq<Seq<char>>) -> Seq<Seq<char>> {
    rules.map_values(|r: Seq<char>| "<"@ + wrapper + "("@ + policy_repr(path) + ", \""@ + r + "\")>"@)
        + sources.map_values(|n: Seq<char>| python_repr(expected_message("source"@, n)))
        + targets.map_values(|n: Seq<char>| python_repr(expected_message("target"@, n)))
}

/// Appends one line per evaluated rule.
fn push_mark_lines(lines: &mut Vec<LogLine>, logger: &str, marks: &Vec<(String, bool)>)
    ensures
        line_views(final(lines)@) == line_views(old(lines)@) + marked(marks@).map_values(|m: (Seq<char>, bool)| mark_line(logger@, m)),
{
    let ghost start = line_views(lines@);
    let ghost all = marked(marks@);
    let mut index: usize = 0;
    assert(all.take(0).map_values(|m: (Seq<char>, bool)| mark_line(logger@, m)) =~= Seq::<(LogLevel, Seq<char>, Seq<char>)>::empty());
    while index < marks.len()
        invariant
            index <= marks.len(),
            all == marked(marks@),
            line_views(lines@) == start + all.take(index as int).map_values(|m: (Seq<char>, bool)| mark_line(logger@, m)),
        decreases marks.len() - index,
    {
        let mut message = if marks[index].1 { owned("F   * ") } else { owned("P   * ") };
        push_str(&mut message, marks[index].0.as_str());
        push_line(lines, LogLevel::Debug, logger, message);
        proof {
            assert(all[index as int] == (marks@[index as int].0@, marks@[index as int].1));
            assert(all.take(index + 1) =~= all.take(index as int).push(all[index as int]));
            assert(line_views(lines@) =~= start + all.take(index + 1).map_values(|m: (Seq<char>, bool)| mark_line(logger@, m)));
        }
        index = index + 1;
    }
    assert(all.take(marks.len() as int) =~= all);
}

/// Writes the message for an expected rule that was not found.
fn expected_text(end: &str, name: &str) -> (result: String)
    ensures
        result@ == expected_message(end@, name@),
{
    let mut text = owned("Expected rule with ");
    push_str(&mut text, end);
    push_str(&mut text, " \"");
    push_str(&mut text, name);
    push_str(&mut text, "\" not found.");
    text
}

/// Appends the lines for expected names that were not found.
fn push_missing(lines: &mut Vec<LogLine>, logger: &str, end: &str, names: &Vec<String>)
    ensures
        line_views(final(lines)@) == line_views(old(lines)@)
            + texts(names@).map_values(|n: Seq<char>| (LogLevel::Debug, logger@, "F   * "@ + expected_message(end@, n))),
{
    let ghost start = line_views(lines@);
    let ghost all = texts(names@);
    let mut index: usize = 0;
    assert(all.take(0).map_values(|n: Seq<char>| (LogLevel::Debug, logger@, "F   * "@ + expected_message(end@, n)))
        =~= Seq::<(LogLevel, Seq<char>, Seq<char>)>::empty());
    while index < names.len()
        invariant
            index <= names.len(),
            all == texts(names@),
            line_views(lines@) == start + all.take(index as int).map_values(|n: Seq<char>| (LogLevel::Debug, logger@, "F   * "@ + expected_message(end@, n))),
        decreases names.len() - index,
    {
        let mut message = owned("F   * ");
        let expected = expected_text(end, names[index].as_str());
        push_str(&mut message, expected.as_str());
        push_line(lines, LogLevel::Debug, logger, message);
        proof {
            assert(all.take(index + 1) =~= all.take(index as int).push(names@[index as int]@));
            assert(line_views(lines@) =~= start + all.take(index + 1).map_values(|n: Seq<char>| (LogLevel::Debug, logger@, "F   * "@ + expected_message(end@, n))));
        }
        index = index + 1;
    }
    assert(all.take(names.len() as int) =~= all);
}

/// Writes the findings of an assertion as Python shows them.
fn failure_texts(path: &str, wrapper: &str, rules: &Vec<String>, sources: &Vec<String>, targets: &Vec<String>) -> (result: Vec<String>)
    ensures
        texts(result@) == failure_values(path@, wrapper@, texts(rules@), texts(sources@), texts(targets@)),
{
    let mut values: Vec<String> = Vec::new();
    let mut index: usize = 0;
    while index < rules.len()
        invariant
            index <= rules.len(),
            texts(values@) == texts(rules@).take(index as int).map_values(|r: Seq<char>| "<"@ + wrapper@ + "("@ + policy_repr(path@) + ", \""@ + r + "\")>"@),
        decreases rules.len() - index,
    {
        let mut text = owned("<");
        push_str(&mut text, wrapper);
        push_str(&mut text, "(");
        push_policy_repr(&mut text, path);
        push_str(&mut text, ", \"");
        push_str(&mut text, rules[index].as_str());
        push_str(&mut text, "\")>");
        let ghost before = texts(values@);
        values.push(text);
        proof {
            assert(texts(values@) =~= before.push(text@));
            assert(texts(rules@).take(index + 1) =~= texts(rules@).take(index as int).push(rules@[index as int]@));
            assert(texts(values@) =~= texts(rules@).take(index + 1).map_values(|r: Seq<char>| "<"@ + wrapper@ + "("@ + policy_repr(path@) + ", \""@ + r + "\")>"@));
        }
        index = index + 1;
    }
    assert(texts(rules@).take(rules.len() as int) =~= texts(rules@));
    let ghost first = texts(values@);
    push_python_expected(&mut values, "source", sources);
    let ghost second = texts(values@);
    push_python_expected(&mut values, "target", targets);
    proof {
        reveal_strlit("source");
        reveal_strlit("target");
    }
    values
}

/// Appends, as Python shows them, the messages for expected names that were
/// not found.
fn push_python_expected(values: &mut Vec<String>, end: &str, names: &Vec<String>)
    ensures
        texts(final(values)@) == texts(old(values)@) + texts(names@).map_values(|n: Seq<char>| python_repr(expected_message(end@, n))),
{
    let ghost start = texts(values@);
    let mut index: usize = 0;
    assert(texts(names@).take(0).map_values(|n: Seq<char>| python_repr(expected_message(end@, n))) =~= Seq::<Seq<char>>::empty());
    while index < names.len()
        invariant
            index <= names.len(),
            texts(values@) == start + texts(names@).take(index as int).map_values(|n: Seq<char>| python_repr(expected_message(end@, n))),
        decreases names.len() - index,
    {
        let expected = expected_text(end, names[index].as_str());
        let text = python_repr_text(expected.as_str());
        let ghost before = texts(values@);
        values.push(text);
        proof {
            assert(texts(values@) =~= before.push(text@));
            assert(texts(names@).take(index + 1) =~= texts(names@).take(index as int).push(names@[index as int]@));
            assert(texts(values@) =~= start + texts(names@).take(index + 1).map_values(|n: Seq<char>| python_repr(expected_message(end@, n))));
        }
        index = index + 1;
    }
    assert(texts(names@).take(names.len() as int) =~= texts(names@));
}


/// The lines logged for a TE rule query: the INFO line naming the policy,
/// then its settings as Python shows them.
pub open spec fn te_query_lines(
    policy: Policy,
    path: Seq<char>,
    source: Option<Seq<char>>,
    target: Option<Seq<char>>,
    classes: Seq<Seq<char>>,
    permissions: Seq<Seq<char>>,
) -> Seq<(LogLevel, Seq<char>, Seq<char>)> {
    let m = "setools.terulequery"@;
    seq![
        (LogLevel::Info, m, "Generating TE rule results from "@ + path),
        (LogLevel::Debug, m, "self.ruletype=frozenset({<TERuletype.allow: 1>})"@),
        (LogLevel::Debug, m, "self.source="@ + optional_type_repr(policy, path, source) + ", self.source_indirect=True, self.source_regex=False"@),
        (LogLevel::Debug, m, "self.target="@ + optional_type_repr(policy, path, target) + ", self.target_indirect=True, self.target_regex=False"@),
        (LogLevel::Debug, m, "self.tclass="@ + class_set_repr(policy, path, classes) + ", self.tclass_regex=False"@),
        (LogLevel::Debug, m, "self.perms="@ + string_set_repr(permissions) + ", self.perms_regex=False, self.perms_equal=False, self.perms_subset=False"@),
        (LogLevel::Debug, m, "self.xperms=None, self.xperms_equal=False"@),
        (LogLevel::Debug, m, "self.default=None, self.default_regex=False"@),
        (LogLevel::Debug, m, "self.boolean=None, self.boolean_equal=False, self.boolean_regex=False"@),
    ]
}

/// The lines logged for a role allow rule query.
pub open spec fn rbac_query_lines(path: Seq<char>, source: Option<Seq<char>>, target: Option<Seq<char>>) -> Seq<(LogLevel, Seq<char>, Seq<char>)> {
    let m = "setools.rbacrulequery"@;
    seq![
        (LogLevel::Info, m, "Generating RBAC rule results from "@ + path),
        (LogLevel::Debug, m, "self.ruletype=frozenset({<RBACRuletype.allow: 1>})"@),
        (LogLevel::Debug, m, "self.source="@ + role_repr(path, source) + ", self.source_indirect=True, self.source_regex=False"@),
        (LogLevel::Debug, m, "self.target="@ + role_repr(path, target) + ", self.target_indirect=True, self.target_regex=False"@),
        (LogLevel::Debug, m, "self.tclass=None, self.tclass_regex=False"@),
        (LogLevel::Debug, m, "self.default=None, self.default_regex=False"@),
    ]
}

/// Appends a message after a prefix and before a suffix.
fn framed(prefix: &str, middle: &str, suffix: &str) -> (result: String)
    ensures
        result@ == prefix@ + middle@ + suffix@,
{
    let mut text = owned(prefix);
    push_str(&mut text, middle);
    push_str(&mut text, suffix);
    text
}

/// Appends the lines logged for a TE rule query.
fn push_te_query(
    lines: &mut Vec<LogLine>,
    policy: &Policy,
    path: &str,
    source: &Option<String>,
    target: &Option<String>,
    classes: &Vec<String>,
    permissions: &Vec<String>,
)
    requires
        well_formed(*policy),
    ensures
        line_views(final(lines)@) == line_views(old(lines)@) + te_query_lines(*policy, path@,
            crate::arguments::text_view(*source), crate::arguments::text_view(*target), texts(classes@), texts(permissions@)),
{
    let ghost start = line_views(lines@);
    let m = "setools.terulequery";
    push_line(lines, LogLevel::Info, m, framed("Generating TE rule results from ", path, ""));
    push_line(lines, LogLevel::Debug, m, owned("self.ruletype=frozenset({<TERuletype.allow: 1>})"));
    let s = optional_type_repr_text(policy, path, source);
    push_line(lines, LogLevel::Debug, m, framed("self.source=", s.as_str(), ", self.source_indirect=True, self.source_regex=False"));
    let t = optional_type_repr_text(policy, path, target);
    push_line(lines, LogLevel::Debug, m, framed("self.target=", t.as_str(), ", self.target_indirect=True, self.target_regex=False"));
    let c = class_set_repr_text(policy, path, classes);
    push_line(lines, LogLevel::Debug, m, framed("self.tclass=", c.as_str(), ", self.tclass_regex=False"));
    let p = string_set_repr_text(permissions);
    push_line(lines, LogLevel::Debug, m,
        framed("self.perms=", p.as_str(), ", self.perms_regex=False, self.perms_equal=False, self.perms_subset=False"));
    push_line(lines, LogLevel::Debug, m, owned("self.xperms=None, self.xperms_equal=False"));
    push_line(lines, LogLevel::Debug, m, owned("self.default=None, self.default_regex=False"));
    push_line(lines, LogLevel::Debug, m, owned("self.boolean=None, self.boolean_equal=False, self.boolean_regex=False"));
    proof {
        reveal_strlit("");
        assert("Generating TE rule results from "@ + path@ + ""@ =~= "Generating TE rule results from "@ + path@);
        assert(line_views(lines@) =~= start + te_query_lines(*policy, path@,
            crate::arguments::text_view(*source), crate::arguments::text_view(*target), texts(classes@), texts(permissions@)));
    }
}

/// Appends the lines logged for a role allow rule query.
fn push_rbac_query(lines: &mut Vec<LogLine>, path: &str, source: &Option<String>, target: &Option<String>)
    ensures
        line_views(final(lines)@) == line_views(old(lines)@) + rbac_query_lines(path@,
            crate::arguments::text_view(*source), crate::arguments::text_view(*target)),
{
    let ghost start = line_views(lines@);
    let m = "setools.rbacrulequery";
    push_line(lines, LogLevel::Info, m, framed("Generating RBAC rule results from ", path, ""));
    push_line(lines, LogLevel::Debug, m, owned("self.ruletype=frozenset({<RBACRuletype.allow: 1>})"));
    let s = role_repr_text(path, source);
    push_line(lines, LogLevel::Debug, m, framed("self.source=", s.as_str(), ", self.source_indirect=True, self.source_regex=False"));
    let t = role_repr_text(path, target);
    push_line(lines, LogLevel::Debug, m, framed("self.target=", t.as_str(), ", self.target_indirect=True, self.target_regex=False"));
    push_line(lines, LogLevel::Debug, m, owned("self.tclass=None, self.tclass_regex=False"));
    push_line(lines, LogLevel::Debug, m, owned("self.default=None, self.default_regex=False"));
    proof {
        reveal_strlit("");
        assert("Generating RBAC rule results from "@ + path@ + ""@ =~= "Generating RBAC rule results from "@ + path@);
        assert(line_views(lines@) =~= start + rbac_query_lines(path@,
            crate::arguments::text_view(*source), crate::arguments::text_view(*target)));
    }
}


/// The lines logged after an assertion's query: each evaluated rule, the
/// expected names not found, and the findings as Python shows them.
pub open spec fn assertion_lines(
    policy: Policy,
    path: Seq<char>,
    logger: Seq<char>,
    rules: Seq<usize>,
    sources: Seq<Seq<char>>,
    targets: Seq<Seq<char>>,
    evaluated: Seq<(usize, bool)>,
    rbac: bool,
) -> Seq<(LogLevel, Seq<char>, Seq<char>)> {
    let wrapper = if rbac { "RoleAllow"@ } else { "AVRule"@ };
    evaluated_marks(policy, evaluated, rbac).sort_by(mark_order()).map_values(|m: (Seq<char>, bool)| mark_line(logger, m))
        + missing_lines(logger, sources, targets)
        + seq![(LogLevel::Debug, logger, "["@ + joined_by(failure_values(path, wrapper,
            rendered(policy, rules, rbac).sort_by(text_order()), sources, targets), ", "@) + "] failure(s)"@)]
}

/// Appends the lines logged after an assertion's query.
fn push_assertion(
    lines: &mut Vec<LogLine>,
    policy: &Policy,
    path: &str,
    logger: &str,
    rules: &Vec<usize>,
    sources: &Vec<String>,
    targets: &Vec<String>,
    evaluated: &Vec<RuleEvaluation>,
    rbac: bool,
)
    ensures
        line_views(final(lines)@) == line_views(old(lines)@) + assertion_lines(*policy, path@, logger@, rules@,
            texts(sources@), texts(targets@), evaluation_views(evaluated@), rbac),
{
    let ghost start = line_views(lines@);
    let marks = evaluated_texts(policy, evaluated, rbac);
    let sorted_marks = sort_marked(&marks);
    push_mark_lines(lines, logger, &sorted_marks);
    let ghost after_marks = line_views(lines@);
    push_missing(lines, logger, "source", sources);
    push_missing(lines, logger, "target", targets);
    let ghost after_missing = line_views(lines@);
    let rendered_rules = rendered_texts(policy, rules, rbac);
    let sorted_rules = sort_texts(&rendered_rules);
    let wrapper = if rbac { "RoleAllow" } else { "AVRule" };
    let values = failure_texts(path, wrapper, &sorted_rules, sources, targets);
    let joined = join_texts(&values, ", ");
    push_line(lines, LogLevel::Debug, logger, framed("[", joined.as_str(), "] failure(s)"));
    proof {
        reveal_strlit("source");
        reveal_strlit("target");
        assert(after_missing =~= after_marks + missing_lines(logger@, texts(sources@), texts(targets@)));
        assert(line_views(lines@) =~= start + assertion_lines(*policy, path@, logger@, rules@,
            texts(sources@), texts(targets@), evaluation_views(evaluated@), rbac));
    }
}

/// The lines logged for an empty-attribute check.
pub open spec fn attribute_lines(
    policy: Policy,
    path: Seq<char>,
    logger: Seq<char>,
    attribute: Seq<char>,
    missing: bool,
    members: Seq<Seq<char>>,
) -> Seq<(LogLevel, Seq<char>, Seq<char>)> {
    let first = if missing {
        seq![(LogLevel::Debug, logger, "    "@ + attribute + " does not exist."@)]
    } else if members.len() == 0 {
        seq![(LogLevel::Debug, logger, "P   *     <empty>"@)]
    } else {
        members.map_values(|m: Seq<char>| (LogLevel::Debug, logger, "F   * "@ + m))
    };
    let failures = if members.len() == 0 {
        "[]"@
    } else {
        "["@ + joined_by(members.map_values(|m: Seq<char>| type_repr(policy, path, m)), ", "@) + "]"@
    };
    first.push((LogLevel::Debug, logger, failures + " failure(s)"@))
}

/// Appends the lines logged for an empty-attribute check.
fn push_attribute(
    lines: &mut Vec<LogLine>,
    policy: &Policy,
    path: &str,
    logger: &str,
    attribute: &str,
    missing: bool,
    members: &Vec<String>,
)
    requires
        well_formed(*policy),
    ensures
        line_views(final(lines)@) == line_views(old(lines)@) + attribute_lines(*policy, path@, logger@, attribute@, missing, texts(members@)),
{
    let ghost start = line_views(lines@);
    let ghost all = texts(members@);
    if missing {
        push_line(lines, LogLevel::Debug, logger, framed("    ", attribute, " does not exist."));
    } else if members.len() == 0 {
        push_line(lines, LogLevel::Debug, logger, owned("P   *     <empty>"));
    } else {
        let mut index: usize = 0;
        assert(all.take(0).map_values(|m: Seq<char>| (LogLevel::Debug, logger@, "F   * "@ + m)) =~= Seq::<(LogLevel, Seq<char>, Seq<char>)>::empty());
        while index < members.len()
            invariant
                index <= members.len(),
                all == texts(members@),
                line_views(lines@) == start + all.take(index as int).map_values(|m: Seq<char>| (LogLevel::Debug, logger@, "F   * "@ + m)),
            decreases members.len() - index,
        {
            push_line(lines, LogLevel::Debug, logger, framed("F   * ", members[index].as_str(), ""));
            proof {
                reveal_strlit("");
                assert(all.take(index + 1) =~= all.take(index as int).push(members@[index as int]@));
                assert(line_views(lines@) =~= start + all.take(index + 1).map_values(|m: Seq<char>| (LogLevel::Debug, logger@, "F   * "@ + m)));
            }
            index = index + 1;
        }
        assert(all.take(members.len() as int) =~= all);
    }
    let ghost first = line_views(lines@);
    let failures = if members.len() == 0 {
        owned("[]")
    } else {
        let reprs = type_reprs(policy, path, members);
        let joined = join_texts(&reprs, ", ");
        framed("[", joined.as_str(), "]")
    };
    push_line(lines, LogLevel::Debug, logger, framed("", failures.as_str(), " failure(s)"));
    proof {
        reveal_strlit("");
        assert(line_views(lines@) =~= start + attribute_lines(*policy, path@, logger@, attribute@, missing, all));
    }
}


/// What a read-only check protects, as its log names it.
pub open spec fn protected_noun(kind: ReadOnlyKind) -> Seq<char> {
    match kind {
        ReadOnlyKind::Executable => "executable file types"@,
        ReadOnlyKind::KernelModule => "kernel module types"@,
    }
}

/// The option naming the exempt using domains.
pub open spec fn user_option(kind: ReadOnlyKind) -> Seq<char> {
    match kind {
        ReadOnlyKind::Executable => "exempt_exec_domain"@,
        ReadOnlyKind::KernelModule => "exempt_load_domain"@,
    }
}

/// The class of the use rules.
pub open spec fn use_class(kind: ReadOnlyKind) -> Seq<char> {
    match kind {
        ReadOnlyKind::Executable => "file"@,
        ReadOnlyKind::KernelModule => "system"@,
    }
}

/// The permissions of the use rules.
pub open spec fn use_permissions(kind: ReadOnlyKind) -> Seq<Seq<char>> {
    match kind {
        ReadOnlyKind::Executable => seq!["execute"@, "execute_no_trans"@],
        ReadOnlyKind::KernelModule => seq!["module_load"@],
    }
}

/// The message for a use rule that protects nothing.
pub open spec fn ignored_text(kind: ReadOnlyKind) -> Seq<char> {
    match kind {
        ReadOnlyKind::Executable => "Ignoring execute rule"@,
        ReadOnlyKind::KernelModule => "Ignoring empty module_load rule"@,
    }
}

/// The message for a file type a use rule protects.
pub open spec fn determined_text(kind: ReadOnlyKind, name: Seq<char>) -> Seq<char> {
    match kind {
        ReadOnlyKind::Executable => "Determined "@ + name + " is executable by"@,
        ReadOnlyKind::KernelModule => "Determined "@ + name + " is a kernel module by"@,
    }
}

/// How the log names a protected type.
pub open spec fn type_description(kind: ReadOnlyKind) -> Seq<char> {
    match kind {
        ReadOnlyKind::Executable => "executable type"@,
        ReadOnlyKind::KernelModule => "kernel module type"@,
    }
}

/// The lines for the use rules that can be written.
pub open spec fn use_rule_lines(policy: Policy, logger: Seq<char>, kind: ReadOnlyKind, uses: Seq<(usize, Seq<Seq<char>>)>)
    -> Seq<(LogLevel, Seq<char>, Seq<char>)>
    decreases uses.len(),
{
    if uses.len() == 0 {
        Seq::empty()
    } else {
        let done = use_rule_lines(policy, logger, kind, uses.drop_last());
        match rule_text_of(policy, uses.last().0, false) {
            None => done,
            Some(r) => if uses.last().1.len() == 0 {
                done.push((LogLevel::Debug, logger, ignored_text(kind) + ": "@ + r))
            } else {
                done + uses.last().1.map_values(|t: Seq<char>| (LogLevel::Debug, logger, determined_text(kind, t) + ": "@ + r))
            },
        }
    }
}

/// The lines for checking whether each protected type is writable.
pub open spec fn checked_lines(policy: Policy, path: Seq<char>, logger: Seq<char>, kind: ReadOnlyKind, types: Seq<Seq<char>>)
    -> Seq<(LogLevel, Seq<char>, Seq<char>)>
    decreases types.len(),
{
    if types.len() == 0 {
        Seq::empty()
    } else {
        checked_lines(policy, path, logger, kind, types.drop_last())
            .push((LogLevel::Debug, logger, "Checking if "@ + type_description(kind) + " "@ + types.last() + " is writable."@))
            + te_query_lines(policy, path, None, Some(types.last()), seq!["file"@], seq!["write"@, "append"@])
    }
}

/// The lines for the write rules of each writable protected type.
pub open spec fn file_lines(policy: Policy, logger: Seq<char>, files: Seq<WritableFileView>) -> Seq<(LogLevel, Seq<char>, Seq<char>)>
    decreases files.len(),
{
    if files.len() == 0 {
        Seq::empty()
    } else {
        file_lines(policy, logger, files.drop_last())
            + dedup(rendered(policy, files.last().write_rules, false).sort_by(text_order()))
                .map_values(|r: Seq<char>| (LogLevel::Debug, logger, "F   * "@ + r))
    }
}

/// The lines logged for a read-only check.
pub open spec fn read_only_lines(policy: Policy, path: Seq<char>, logger: Seq<char>, kind: ReadOnlyKind, v: ReadOnlyVerdictView)
    -> Seq<(LogLevel, Seq<char>, Seq<char>)>
{
    seq![
        (LogLevel::Debug, logger, "Collecting list of "@ + protected_noun(kind) + "."@),
        (LogLevel::Debug, logger, "self."@ + user_option(kind) + "="@ + type_set_repr(policy, path, v.exempt_users)),
    ] + te_query_lines(policy, path, None, None, seq![use_class(kind)], use_permissions(kind))
        + use_rule_lines(policy, logger, kind, v.use_rules)
        + checked_lines(policy, path, logger, kind, v.checked_types)
        + file_lines(policy, logger, v.files)
        + seq![(LogLevel::Debug, logger, decimal(v.files.len()) + " failure(s)"@)]
}

/// Appends the lines for the use rules that can be written.
fn push_use_rules(lines: &mut Vec<LogLine>, policy: &Policy, logger: &str, kind: ReadOnlyKind, uses: &Vec<UseRuleEvaluation>)
    ensures
        line_views(final(lines)@) == line_views(old(lines)@) + use_rule_lines(*policy, logger@, kind,
            uses@.map_values(|u: UseRuleEvaluation| (u.rule, texts(u.targets@)))),
{
    let ghost start = line_views(lines@);
    let ghost all = uses@.map_values(|u: UseRuleEvaluation| (u.rule, texts(u.targets@)));
    let mut index: usize = 0;
    assert(all.take(0) =~= Seq::<(usize, Seq<Seq<char>>)>::empty());
    assert(line_views(lines@) =~= start + Seq::<(LogLevel, Seq<char>, Seq<char>)>::empty());
    while index < uses.len()
        invariant
            index <= uses.len(),
            all == uses@.map_values(|u: UseRuleEvaluation| (u.rule, texts(u.targets@))),
            line_views(lines@) == start + use_rule_lines(*policy, logger@, kind, all.take(index as int)),
        decreases uses.len() - index,
    {
        let ghost next = all.take(index + 1);
        assert(next.drop_last() =~= all.take(index as int));
        assert(next.last() == all[index as int]);
        let ghost before = line_views(lines@);
        match rule_text(policy, uses[index].rule, false) {
            None => {},
            Some(r) => {
                let targets = &uses[index].targets;
                if targets.len() == 0 {
                    let head = match kind {
                        ReadOnlyKind::Executable => "Ignoring execute rule",
                        ReadOnlyKind::KernelModule => "Ignoring empty module_load rule",
                    };
                    push_line(lines, LogLevel::Debug, logger, framed(head, ": ", r.as_str()));
                } else {
                    let ghost names = texts(targets@);
                    let mut k: usize = 0;
                    assert(names.take(0).map_values(|t: Seq<char>| (LogLevel::Debug, logger@, determined_text(kind, t) + ": "@ + r@))
                        =~= Seq::<(LogLevel, Seq<char>, Seq<char>)>::empty());
                    assert(line_views(lines@) =~= before + Seq::<(LogLevel, Seq<char>, Seq<char>)>::empty());
                    while k < targets.len()
                        invariant
                            k <= targets.len(),
                            names == texts(targets@),
                            line_views(lines@) == before + names.take(k as int).map_values(|t: Seq<char>|
                                (LogLevel::Debug, logger@, determined_text(kind, t) + ": "@ + r@)),
                        decreases targets.len() - k,
                    {
                        let described = match kind {
                            ReadOnlyKind::Executable => framed("Determined ", targets[k].as_str(), " is executable by"),
                            ReadOnlyKind::KernelModule => framed("Determined ", targets[k].as_str(), " is a kernel module by"),
                        };
                        push_line(lines, LogLevel::Debug, logger, framed(described.as_str(), ": ", r.as_str()));
                        proof {
                            assert(names.take(k + 1) =~= names.take(k as int).push(targets@[k as int]@));
                            assert(line_views(lines@) =~= before + names.take(k + 1).map_values(|t: Seq<char>|
                                (LogLevel::Debug, logger@, determined_text(kind, t) + ": "@ + r@)));
                        }
                        k = k + 1;
                    }
                    assert(names.take(targets.len() as int) =~= names);
                }
            },
        }
        index = index + 1;
    }
    assert(all.take(uses.len() as int) =~= all);
}

/// Appends the lines for checking whether each protected type is writable.
fn push_checked(lines: &mut Vec<LogLine>, policy: &Policy, path: &str, logger: &str, kind: ReadOnlyKind, types: &Vec<String>)
    requires
        well_formed(*policy),
    ensures
        line_views(final(lines)@) == line_views(old(lines)@) + checked_lines(*policy, path@, logger@, kind, texts(types@)),
{
    let ghost start = line_views(lines@);
    let ghost all = texts(types@);
    let mut file_class: Vec<String> = Vec::new();
    file_class.push(owned("file"));
    let mut writes: Vec<String> = Vec::new();
    writes.push(owned("write"));
    writes.push(owned("append"));
    proof {
        reveal_strlit("file");
        assert(texts(file_class@) =~= seq!["file"@]);
        assert(texts(writes@) =~= seq!["write"@, "append"@]);
    }
    let mut index: usize = 0;
    assert(all.take(0) =~= Seq::<Seq<char>>::empty());
    assert(line_views(lines@) =~= start + Seq::<(LogLevel, Seq<char>, Seq<char>)>::empty());
    while index < types.len()
        invariant
            index <= types.len(),
            well_formed(*policy),
            all == texts(types@),
            texts(file_class@) == seq!["file"@],
            texts(writes@) == seq!["write"@, "append"@],
            line_views(lines@) == start + checked_lines(*policy, path@, logger@, kind, all.take(index as int)),
        decreases types.len() - index,
    {
        let ghost next = all.take(index + 1);
        assert(next.drop_last() =~= all.take(index as int));
        assert(next.last() == types@[index as int]@);
        let ghost before = line_views(lines@);
        let description = match kind {
            ReadOnlyKind::Executable => "executable type",
            ReadOnlyKind::KernelModule => "kernel module type",
        };
        let mut message = owned("Checking if ");
        push_str(&mut message, description);
        push_str(&mut message, " ");
        push_str(&mut message, types[index].as_str());
        push_str(&mut message, " is writable.");
        push_line(lines, LogLevel::Debug, logger, message);
        let ghost announced = line_views(lines@);
        let target = Some(owned(types[index].as_str()));
        let none: Option<String> = None;
        push_te_query(lines, policy, path, &none, &target, &file_class, &writes);
        proof {
            assert(line_views(lines@) =~= start + checked_lines(*policy, path@, logger@, kind, next));
        }
        index = index + 1;
    }
    assert(all.take(types.len() as int) =~= all);
}

/// Appends the lines for the write rules of each writable protected type.
fn push_files(lines: &mut Vec<LogLine>, policy: &Policy, logger: &str, files: &Vec<WritableFile>)
    ensures
        line_views(final(lines)@) == line_views(old(lines)@) + file_lines(*policy, logger@,
            files@.map_values(|f: WritableFile| writable_file_view(f))),
{
    let ghost start = line_views(lines@);
    let ghost all = files@.map_values(|f: WritableFile| writable_file_view(f));
    let mut index: usize = 0;
    assert(all.take(0) =~= Seq::<WritableFileView>::empty());
    assert(line_views(lines@) =~= start + Seq::<(LogLevel, Seq<char>, Seq<char>)>::empty());
    while index < files.len()
        invariant
            index <= files.len(),
            all == files@.map_values(|f: WritableFile| writable_file_view(f)),
            line_views(lines@) == start + file_lines(*policy, logger@, all.take(index as int)),
        decreases files.len() - index,
    {
        let ghost next = all.take(index + 1);
        assert(next.drop_last() =~= all.take(index as int));
        assert(next.last() == writable_file_view(files@[index as int]));
        let rendered_rules = rendered_texts(policy, &files[index].write_rules, false);
        let sorted = sort_texts(&rendered_rules);
        let shown = dedup_texts(&sorted);
        let ghost before = line_views(lines@);
        let ghost names = texts(shown@);
        let mut k: usize = 0;
        assert(names.take(0).map_values(|r: Seq<char>| (LogLevel::Debug, logger@, "F   * "@ + r))
            =~= Seq::<(LogLevel, Seq<char>, Seq<char>)>::empty());
        assert(line_views(lines@) =~= before + Seq::<(LogLevel, Seq<char>, Seq<char>)>::empty());
        while k < shown.len()
            invariant
                k <= shown.len(),
                names == texts(shown@),
                line_views(lines@) == before + names.take(k as int).map_values(|r: Seq<char>| (LogLevel::Debug, logger@, "F   * "@ + r)),
            decreases shown.len() - k,
        {
            push_line(lines, LogLevel::Debug, logger, framed("F   * ", shown[k].as_str(), ""));
            proof {
                reveal_strlit("");
                assert(names.take(k + 1) =~= names.take(k as int).push(shown@[k as int]@));
                assert(line_views(lines@) =~= before + names.take(k + 1).map_values(|r: Seq<char>| (LogLevel::Debug, logger@, "F   * "@ + r)));
            }
            k = k + 1;
        }
        assert(names.take(shown.len() as int) =~= names);
        index = index + 1;
    }
    assert(all.take(files.len() as int) =~= all);
}

/// Appends the lines logged for a read-only check.
fn push_read_only(lines: &mut Vec<LogLine>, policy: &Policy, path: &str, logger: &str, kind: ReadOnlyKind, verdict: &ReadOnlyVerdict)
    requires
        well_formed(*policy),
    ensures
        line_views(final(lines)@) == line_views(old(lines)@) + read_only_lines(*policy, path@, logger@, kind, read_only_verdict_view(*verdict)),
{
    let ghost start = line_views(lines@);
    let (noun, option, class, permissions) = match kind {
        ReadOnlyKind::Executable => ("executable file types", "exempt_exec_domain", "file", vec![owned("execute"), owned("execute_no_trans")]),
        ReadOnlyKind::KernelModule => ("kernel module types", "exempt_load_domain", "system", vec![owned("module_load")]),
    };
    push_line(lines, LogLevel::Debug, logger, framed("Collecting list of ", noun, "."));
    let users = type_set_repr_text(policy, path, &verdict.exempt_users);
    let mut message = owned("self.");
    push_str(&mut message, option);
    push_str(&mut message, "=");
    push_str(&mut message, users.as_str());
    push_line(lines, LogLevel::Debug, logger, message);
    let ghost head = line_views(lines@);
    let mut classes: Vec<String> = Vec::new();
    classes.push(owned(class));
    let none: Option<String> = None;
    proof {
        assert(texts(classes@) =~= seq![use_class(kind)]);
        assert(texts(permissions@) =~= use_permissions(kind));
    }
    push_te_query(lines, policy, path, &none, &none, &classes, &permissions);
    let ghost queried = line_views(lines@);
    push_use_rules(lines, policy, logger, kind, &verdict.use_rules);
    let ghost used = line_views(lines@);
    push_checked(lines, policy, path, logger, kind, &verdict.checked_types);
    let ghost checked = line_views(lines@);
    push_files(lines, policy, logger, &verdict.files);
    let ghost filed = line_views(lines@);
    let mut count = String::new();
    push_decimal(&mut count, verdict.files.len());
    push_str(&mut count, " failure(s)");
    push_line(lines, LogLevel::Debug, logger, count);
    proof {
        let v = read_only_verdict_view(*verdict);
        assert(head =~= start + seq![
            (LogLevel::Debug, logger@, "Collecting list of "@ + protected_noun(kind) + "."@),
            (LogLevel::Debug, logger@, "self."@ + user_option(kind) + "="@ + type_set_repr(*policy, path@, v.exempt_users)),
        ]);
        assert(line_views(lines@) =~= start + read_only_lines(*policy, path@, logger@, kind, v));
    }
}


/// Every line the checker may log about a check's evaluation, before
/// verbosity is applied. A disabled check, and one whose query failed, log
/// nothing.
pub open spec fn trace_entries(policy: Policy, path: Seq<char>, kind: CheckKindView, check_type: CheckType, outcome: OutcomeView)
    -> Seq<(LogLevel, Seq<char>, Seq<char>)>
{
    let logger = check_logger(check_type);
    match outcome {
        OutcomeView::EmptyTypeAttribute { attribute, missing, members } =>
            attribute_lines(policy, path, logger, attribute, missing, members),
        OutcomeView::AssertTe(v) => {
            let query = match kind {
                CheckKindView::AssertTe(q) => te_query_lines(policy, path, q.source, q.target, q.classes, q.permissions),
                _ => te_query_lines(policy, path, None, None, Seq::empty(), Seq::empty()),
            };
            query + assertion_lines(policy, path, logger, v.rules, v.missing_sources, v.missing_targets, v.evaluated, false)
        },
        OutcomeView::AssertRbac(v) => {
            let query = match kind {
                CheckKindView::AssertRbac(q) => rbac_query_lines(path, q.source, q.target),
                _ => rbac_query_lines(path, None, None),
            };
            query + assertion_lines(policy, path, logger, v.rules, v.missing_sources, v.missing_targets, v.evaluated, true)
        },
        OutcomeView::ReadOnly(k, v) => read_only_lines(policy, path, logger, k, v),
        _ => Seq::empty(),
    }
}

/// Whether a line of the given severity is logged: every line in debug
/// mode, informational lines in verbose mode, nothing otherwise.
pub open spec fn shown(verbose: bool, debug: bool, level: LogLevel) -> bool {
    debug || (verbose && level == LogLevel::Info)
}

/// The lines that are logged at the given verbosity, in order.
pub open spec fn shown_lines(lines: Seq<(LogLevel, Seq<char>, Seq<char>)>, verbose: bool, debug: bool)
    -> Seq<(LogLevel, Seq<char>, Seq<char>)>
    decreases lines.len(),
{
    if lines.len() == 0 {
        Seq::empty()
    } else {
        let done = shown_lines(lines.drop_last(), verbose, debug);
        if shown(verbose, debug, lines.last().0) { done.push(lines.last()) } else { done }
    }
}

/// Collects every line the checker may log about a check's evaluation.
fn trace_candidates(policy: &Policy, path: &str, check: &Check, result: &CheckResult) -> (lines: Vec<LogLine>)
    requires
        well_formed(*policy),
    ensures
        line_views(lines@) == trace_entries(*policy, path@, check_view(*check).kind, result.check_type, outcome_view(result.outcome)),
{
    let mut lines: Vec<LogLine> = Vec::new();
    let logger = result.check_type.logger();
    assert(line_views(lines@) =~= Seq::<(LogLevel, Seq<char>, Seq<char>)>::empty());
    match &result.outcome {
        CheckOutcome::EmptyTypeAttribute(v) => {
            push_attribute(&mut lines, policy, path, logger, v.attribute.as_str(), v.missing, &v.members);
        },
        CheckOutcome::AssertTe(v) => {
            let empty: Vec<String> = Vec::new();
            let none: Option<String> = None;
            match &check.kind {
                CheckKind::AssertTe(q) => push_te_query(&mut lines, policy, path, &q.source, &q.target, &q.classes, &q.permissions),
                _ => {
                    assert(texts(empty@) =~= Seq::<Seq<char>>::empty());
                    push_te_query(&mut lines, policy, path, &none, &none, &empty, &empty);
                },
            }
            push_assertion(&mut lines, policy, path, logger, &v.rules, &v.missing_sources, &v.missing_targets, &v.evaluated, false);
        },
        CheckOutcome::AssertRbac(v) => {
            let none: Option<String> = None;
            match &check.kind {
                CheckKind::AssertRbac(q) => push_rbac_query(&mut lines, path, &q.source, &q.target),
                _ => push_rbac_query(&mut lines, path, &none, &none),
            }
            push_assertion(&mut lines, policy, path, logger, &v.rules, &v.missing_sources, &v.missing_targets, &v.evaluated, true);
        },
        CheckOutcome::ReadOnly { kind, verdict } => {
            push_read_only(&mut lines, policy, path, logger, *kind, verdict);
        },
        _ => {},
    }
    lines
}

/// Returns the lines the checker logs about a check's evaluation at the
/// given verbosity: in debug mode every line, in verbose mode the
/// informational ones, otherwise none; nothing for a disabled check or one
/// whose query failed.
pub fn check_trace(verbose: bool, debug: bool, policy: &Policy, policy_path: &str, check: &Check, result: &CheckResult)
    -> (lines: Vec<LogLine>)
    requires
        well_formed(*policy),
    ensures
        line_views(lines@) == shown_lines(trace_entries(*policy, policy_path@, check_view(*check).kind, result.check_type,
            outcome_view(result.outcome)), verbose, debug),
{
    let candidates = trace_candidates(policy, policy_path, check, result);
    let ghost all = line_views(candidates@);
    let mut lines: Vec<LogLine> = Vec::new();
    let mut index: usize = 0;
    assert(all.take(0) =~= Seq::<(LogLevel, Seq<char>, Seq<char>)>::empty());
    assert(line_views(lines@) =~= Seq::<(LogLevel, Seq<char>, Seq<char>)>::empty());
    while index < candidates.len()
        invariant
            index <= candidates.len(),
            all == line_views(candidates@),
            line_views(lines@) == shown_lines(all.take(index as int), verbose, debug),
        decreases candidates.len() - index,
    {
        let ghost next = all.take(index + 1);
        assert(next.drop_last() =~= all.take(index as int));
        assert(next.last() == line_view(candidates@[index as int]));
        let level = candidates[index].level;
        let keep = debug || (verbose && match level { LogLevel::Info => true, LogLevel::Debug => false });
        if keep {
            push_line(&mut lines, level, candidates[index].module.as_str(), owned(candidates[index].message.as_str()));
        }
        index = index + 1;
    }
    assert(all.take(candidates.len() as int) =~= all);
    lines
}


/// Without verbose or debug mode nothing is logged.
pub proof fn law_quiet_mode_logs_nothing(lines: Seq<(LogLevel, Seq<char>, Seq<char>)>)
    ensures
        shown_lines(lines, false, false) == Seq::<(LogLevel, Seq<char>, Seq<char>)>::empty(),
    decreases lines.len(),
{
    if lines.len() > 0 {
        law_quiet_mode_logs_nothing(lines.drop_last());
    }
}

/// A disabled check, and one whose query failed, logs nothing at any
/// verbosity.
pub proof fn law_unevaluated_checks_log_nothing(
    policy: Policy,
    path: Seq<char>,
    kind: CheckKindView,
    check_type: CheckType,
    outcome: OutcomeView,
    verbose: bool,
    debug: bool,
)
    requires
        outcome is Disabled || outcome is Unexpected,
    ensures
        shown_lines(trace_entries(policy, path, kind, check_type, outcome), verbose, debug)
            == Seq::<(LogLevel, Seq<char>, Seq<char>)>::empty(),
{
}

/// In debug mode every line is logged.
pub proof fn law_debug_mode_logs_everything(lines: Seq<(LogLevel, Seq<char>, Seq<char>)>, verbose: bool)
    ensures
        shown_lines(lines, verbose, true) == lines,
    decreases lines.len(),
{
    if lines.len() > 0 {
        law_debug_mode_logs_everything(lines.drop_last(), verbose);
        assert(lines.drop_last().push(lines.last()) =~= lines);
    }
}


/// Every line the checker may log as it comes to a check: that it skips a
/// disabled check, or that it runs the check and what it checks.
pub open spec fn run_entries(name: Seq<char>, check_type: CheckType, outcome: OutcomeView) -> Seq<(LogLevel, Seq<char>, Seq<char>)> {
    let m = "setools.checker.checker"@;
    match outcome {
        OutcomeView::Disabled(reason) => seq![(LogLevel::Debug, m, "Skipping disabled check "@ + name + ": "@ + reason)],
        _ => {
            let message = match (check_type, outcome) {
                (CheckType::EmptyTypeAttribute, OutcomeView::EmptyTypeAttribute { attribute, .. }) =>
                    "Checking type attribute "@ + attribute + " is empty."@,
                _ => check_run_message(check_type),
            };
            seq![
                (LogLevel::Debug, m, "Running check "@ + name + ", type "@ + check_name(check_type) + "."@),
                (LogLevel::Info, check_logger(check_type), message),
            ]
        },
    }
}

/// Returns the lines the checker logs as it comes to a check, at the given
/// verbosity.
pub fn check_run_lines(verbose: bool, debug: bool, result: &CheckResult) -> (lines: Vec<LogLine>)
    ensures
        line_views(lines@) == shown_lines(run_entries(result.name@, result.check_type, outcome_view(result.outcome)), verbose, debug),
{
    let mut all: Vec<LogLine> = Vec::new();
    let m = "setools.checker.checker";
    match &result.outcome {
        CheckOutcome::Disabled { reason } => {
            let mut message = framed("Skipping disabled check ", result.name.as_str(), ": ");
            push_str(&mut message, reason.as_str());
            push_line(&mut all, LogLevel::Debug, m, message);
        },
        _ => {
            let mut running = framed("Running check ", result.name.as_str(), ", type ");
            push_str(&mut running, result.check_type.name());
            push_str(&mut running, ".");
            push_line(&mut all, LogLevel::Debug, m, running);
            let message = match (&result.check_type, &result.outcome) {
                (CheckType::EmptyTypeAttribute, CheckOutcome::EmptyTypeAttribute(v)) =>
                    framed("Checking type attribute ", v.attribute.as_str(), " is empty."),
                _ => owned(result.check_type.run_message()),
            };
            push_line(&mut all, LogLevel::Info, result.check_type.logger(), message);
        },
    }
    assert(line_views(all@) =~= run_entries(result.name@, result.check_type, outcome_view(result.outcome)));
    let ghost every = line_views(all@);
    let mut lines: Vec<LogLine> = Vec::new();
    let mut index: usize = 0;
    assert(every.take(0) =~= Seq::<(LogLevel, Seq<char>, Seq<char>)>::empty());
    assert(line_views(lines@) =~= Seq::<(LogLevel, Seq<char>, Seq<char>)>::empty());
    while index < all.len()
        invariant
            index <= all.len(),
            every == line_views(all@),
            line_views(lines@) == shown_lines(every.take(index as int), verbose, debug),
        decreases all.len() - index,
    {
        let ghost next = every.take(index + 1);
        assert(next.drop_last() =~= every.take(index as int));
        assert(next.last() == line_view(all@[index as int]));
        let level = all[index].level;
        let keep = debug || (verbose && match level { LogLevel::Info => true, LogLevel::Debug => false });
        if keep {
            push_line(&mut lines, level, all[index].module.as_str(), owned(all[index].message.as_str()));
        }
        index = index + 1;
    }
    assert(every.take(all.len() as int) =~= every);
    lines
}


/// The object class and permissions of the rules a read-only check
/// protects against writing to: their users, the allow rules that execute
/// (or load) a file of the class with one of the permissions.
pub fn use_criteria(kind: ReadOnlyKind) -> (result: (String, Vec<String>))
    ensures
        result.0@ == use_class(kind),
        texts(result.1@) == use_permissions(kind),
{
    let mut permissions: Vec<String> = Vec::new();
    match kind {
        ReadOnlyKind::Executable => {
            permissions.push(owned("execute"));
            permissions.push(owned("execute_no_trans"));
            assert(texts(permissions@) =~= use_permissions(kind));
            (owned("file"), permissions)
        },
        ReadOnlyKind::KernelModule => {
            permissions.push(owned("module_load"));
            assert(texts(permissions@) =~= use_permissions(kind));
            (owned("system"), permissions)
        },
    }
}

/// The object class and permissions of the rules that write the protected
/// files: `file` with `write` or `append`.
pub fn write_criteria() -> (result: (String, Vec<String>))
    ensures
        result.0@ == "file"@,
        texts(result.1@) == seq!["write"@, "append"@],
{
    let mut permissions: Vec<String> = Vec::new();
    permissions.push(owned("write"));
    permissions.push(owned("append"));
    assert(texts(permissions@) =~= seq!["write"@, "append"@]);
    (owned("file"), permissions)
}

} // verus!
