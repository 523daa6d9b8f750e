//! The checker's report, as text and as JSON.
use vstd::prelude::*;
use crate::text::{texts, owned, push_str, push_radix, radix_digits, zero_padded, text_order, sort_texts};
use crate::policy::Policy;
use crate::rule_text::{render_rule, rule_statement};
use crate::checker::ReadOnlyKind;
use crate::checker::{CheckType, check_name};
use crate::json::{json_string, json_strings, push_string, push_json_strings, push_json_optional_string, json_boolean};
use crate::verdicts::{CheckOutcome, CheckResult, OutcomeView, WritableFile, WritableFileView, outcome_view,
    writable_file_view, failures, rules_fit, outcome_fits};
use crate::arguments::text_view;

verus! {

/// The decimal digits of a number.
pub open spec fn decimal(n: nat) -> Seq<char> {
    radix_digits(n, 10)
}

/// Appends the decimal digits of a number.
pub fn push_decimal(output: &mut String, n: usize)
    ensures
        final(output)@ == old(output)@ + decimal(n as nat),
{
    push_radix(output, n as u128, 10, 0);
    assert(zero_padded(radix_digits(n as nat, 10), 0) == radix_digits(n as nat, 10));
}

/// The decimal text of a number.
pub fn decimal_text(n: usize) -> (result: String)
    ensures
        result@ == decimal(n as nat),
{
    let mut text = String::new();
    push_decimal(&mut text, n);
    assert(text@ =~= decimal(n as nat));
    text
}

/// One bulleted line per item.
pub open spec fn bullets(items: Seq<Seq<char>>) -> Seq<char>
    decreases items.len(),
{
    if items.len() == 0 {
        Seq::empty()
    } else {
        bullets(items.drop_last()) + "    * "@ + items.last() + "\n"@
    }
}

/// Appends one bulleted line per item.
fn push_bullets(output: &mut String, items: &Vec<String>)
    ensures
        final(output)@ == old(output)@ + bullets(texts(items@)),
{
    let ghost start = output@;
    let ghost all = texts(items@);
    let mut index: usize = 0;
    assert(all.take(0) =~= Seq::<Seq<char>>::empty());
    assert(start + bullets(all.take(0)) =~= start);
    while index < items.len()
        invariant
            index <= items.len(),
            all == texts(items@),
            output@ == start + bullets(all.take(index as int)),
        decreases items.len() - index,
    {
        push_str(output, "    * ");
        push_str(output, items[index].as_str());
        push_str(output, "\n");
        proof {
            let ghost next = all.take(index + 1);
            assert(next.drop_last() =~= all.take(index as int));
            assert(next.last() == items@[index as int]@);
            assert(output@ =~= start + bullets(next));
        }
        index = index + 1;
    }
    assert(all.take(items.len() as int) =~= all);
}

/// One line per expected source (or target) that no rule had.
pub open spec fn expected_lines(end: Seq<char>, names: Seq<Seq<char>>) -> Seq<char>
    decreases names.len(),
{
    if names.len() == 0 {
        Seq::empty()
    } else {
        expected_lines(end, names.drop_last()) + "    * Expected rule with "@ + end + " \""@ + names.last()
            + "\" not found.\n"@
    }
}

/// Appends one line per expected source (or target) that no rule had.
fn push_expected(output: &mut String, end: &str, names: &Vec<String>)
    ensures
        final(output)@ == old(output)@ + expected_lines(end@, texts(names@)),
{
    let ghost start = output@;
    let ghost all = texts(names@);
    let mut index: usize = 0;
    assert(all.take(0) =~= Seq::<Seq<char>>::empty());
    assert(start + expected_lines(end@, all.take(0)) =~= start);
    while index < names.len()
        invariant
            index <= names.len(),
            all == texts(names@),
            output@ == start + expected_lines(end@, all.take(index as int)),
        decreases names.len() - index,
    {
        push_str(output, "    * Expected rule with ");
        push_str(output, end);
        push_str(output, " \"");
        push_str(output, names[index].as_str());
        push_str(output, "\" not found.\n");
        proof {
            let ghost next = all.take(index + 1);
            assert(next.drop_last() =~= all.take(index as int));
            assert(next.last() == names@[index as int]@);
            assert(output@ =~= start + expected_lines(end@, next));
        }
        index = index + 1;
    }
    assert(all.take(names.len() as int) =~= all);
}

/// A sequence with each run of equal neighbours kept once.
pub open spec fn dedup(items: Seq<Seq<char>>) -> Seq<Seq<char>>
    decreases items.len(),
{
    if items.len() <= 1 {
        items
    } else if items.last() == items[items.len() - 2] {
        dedup(items.drop_last())
    } else {
        dedup(items.drop_last()).push(items.last())
    }
}

/// The last item survives deduplication as the last item.
proof fn lemma_dedup_last(items: Seq<Seq<char>>)
    requires
        items.len() > 0,
    ensures
        dedup(items).len() > 0,
        dedup(items).last() == items.last(),
    decreases items.len(),
{
    if items.len() > 1 {
        lemma_dedup_last(items.drop_last());
    }
}

/// Keeps each run of equal neighbours once.
pub(crate) fn dedup_texts(items: &Vec<String>) -> (result: Vec<String>)
    ensures
        texts(result@) == dedup(texts(items@)),
{
    let ghost all = texts(items@);
    let mut result: Vec<String> = Vec::new();
    let mut index: usize = 0;
    assert(all.take(0) =~= Seq::<Seq<char>>::empty());
    assert(texts(result@) =~= dedup(all.take(0)));
    while index < items.len()
        invariant
            index <= items.len(),
            all == texts(items@),
            texts(result@) == dedup(all.take(index as int)),
            index > 0 ==> result@.len() > 0 && result@.last()@ == all[index - 1],
        decreases items.len() - index,
    {
        let ghost next = all.take(index + 1);
        proof {
            assert(next.drop_last() =~= all.take(index as int));
            assert(next.last() == items@[index as int]@);
        }
        let keep = if index == 0 {
            true
        } else {
            !crate::text::same_text(items[index].as_str(), items[index - 1].as_str())
        };
        let ghost before = texts(result@);
        if keep {
            result.push(owned(items[index].as_str()));
            proof {
                assert(texts(result@) =~= before.push(items@[index as int]@));
                if index == 0 {
                    assert(next.len() == 1);
                    assert(dedup(next) == next);
                    assert(next =~= seq![items@[index as int]@]);
                } else {
                    assert(next[next.len() - 2] == all[index - 1]);
                }
            }
        } else {
            proof {
                assert(next[next.len() - 2] == all[index - 1]);
            }
        }
        proof {
            lemma_dedup_last(next);
        }
        index = index + 1;
    }
    assert(all.take(items.len() as int) =~= all);
    result
}

/// The statements of the given TE rules in order, or the error of the
/// first rule that cannot be written.
pub open spec fn te_statements(policy: Policy, rules: Seq<usize>) -> Result<Seq<Seq<char>>, Seq<char>>
    decreases rules.len(),
{
    if rules.len() == 0 {
        Ok(Seq::empty())
    } else {
        match te_statements(policy, rules.drop_last()) {
            Err(message) => Err(message),
            Ok(done) => match rule_statement(policy, policy.te_rules@[rules.last() as int]) {
                Ok(text) => Ok(done.push(text)),
                Err(message) => Err(message),
            },
        }
    }
}

/// Writes the statements of the given TE rules in order, stopping at the
/// first rule that cannot be written.
pub(crate) fn te_rule_texts(policy: &Policy, rules: &Vec<usize>) -> (result: Result<Vec<String>, String>)
    requires
        forall|i: int| 0 <= i < rules@.len() ==> #[trigger] rules@[i] < policy.te_rules@.len(),
    ensures
        match te_statements(*policy, rules@) {
            Ok(all) => result matches Ok(v) && texts(v@) == all,
            Err(message) => result matches Err(e) && e@ == message,
        },
{
    let mut done: Vec<String> = Vec::new();
    let mut index: usize = 0;
    assert(rules@.take(0) =~= Seq::<usize>::empty());
    assert(texts(done@) =~= Seq::<Seq<char>>::empty());
    while index < rules.len()
        invariant
            index <= rules.len(),
            forall|i: int| 0 <= i < rules@.len() ==> #[trigger] rules@[i] < policy.te_rules@.len(),
            te_statements(*policy, rules@.take(index as int)) == Ok::<Seq<Seq<char>>, Seq<char>>(texts(done@)),
        decreases rules.len() - index,
    {
        let ghost next = rules@.take(index + 1);
        assert(next.drop_last() =~= rules@.take(index as int));
        assert(next.last() == rules@[index as int]);
        match render_rule(policy, &policy.te_rules[rules[index]]) {
            Ok(text) => {
                let ghost before = texts(done@);
                done.push(text);
                assert(texts(done@) =~= before.push(text@));
            },
            Err(message) => {
                proof {
                    lemma_statements_error_stays(*policy, rules@, index as int + 1);
                }
                return Err(message);
            },
        }
        index = index + 1;
    }
    assert(rules@.take(rules.len() as int) =~= rules@);
    Ok(done)
}

/// Once a rule cannot be written, the whole list fails with its error.
proof fn lemma_statements_error_stays(policy: Policy, rules: Seq<usize>, k: int)
    requires
        0 <= k <= rules.len(),
        te_statements(policy, rules.take(k)) is Err,
    ensures
        te_statements(policy, rules) == te_statements(policy, rules.take(k)),
    decreases rules.len(),
{
    if rules.len() > k {
        assert(rules.drop_last().take(k) =~= rules.take(k));
        lemma_statements_error_stays(policy, rules.drop_last(), k);
    } else {
        assert(rules.take(k) =~= rules);
    }
}

/// The statement of a role allow rule.
pub open spec fn rbac_statement(policy: Policy, r: usize) -> Result<Seq<char>, Seq<char>> {
    let rule = policy.role_allows@[r as int];
    if rule.source >= policy.roles@.len() {
        Err("RBAC rule refers to a missing source role"@)
    } else if rule.target >= policy.roles@.len() {
        Err("RBAC rule refers to a missing target role"@)
    } else {
        Ok("allow "@ + policy.roles@[rule.source as int].name@ + " "@ + policy.roles@[rule.target as int].name@ + ";"@)
    }
}

/// Writes a role allow rule as a policy statement.
pub fn render_rbac_rule(policy: &Policy, r: usize) -> (result: Result<String, String>)
    requires
        r < policy.role_allows@.len(),
    ensures
        match rbac_statement(*policy, r) {
            Ok(text) => result matches Ok(v) && v@ == text,
            Err(message) => result matches Err(e) && e@ == message,
        },
{
    let rule = &policy.role_allows[r];
    if rule.source >= policy.roles.len() {
        return Err(owned("RBAC rule refers to a missing source role"));
    }
    if rule.target >= policy.roles.len() {
        return Err(owned("RBAC rule refers to a missing target role"));
    }
    let mut text = owned("allow ");
    push_str(&mut text, policy.roles[rule.source].name.as_str());
    push_str(&mut text, " ");
    push_str(&mut text, policy.roles[rule.target].name.as_str());
    push_str(&mut text, ";");
    Ok(text)
}

/// The statements of the given role allow rules in order, or the error of
/// the first rule that cannot be written.
pub open spec fn rbac_statements(policy: Policy, rules: Seq<usize>) -> Result<Seq<Seq<char>>, Seq<char>>
    decreases rules.len(),
{
    if rules.len() == 0 {
        Ok(Seq::empty())
    } else {
        match rbac_statements(policy, rules.drop_last()) {
            Err(message) => Err(message),
            Ok(done) => match rbac_statement(policy, rules.last()) {
                Ok(text) => Ok(done.push(text)),
                Err(message) => Err(message),
            },
        }
    }
}

/// Once a role allow rule cannot be written, the whole list fails with its
/// error.
proof fn lemma_rbac_error_stays(policy: Policy, rules: Seq<usize>, k: int)
    requires
        0 <= k <= rules.len(),
        rbac_statements(policy, rules.take(k)) is Err,
    ensures
        rbac_statements(policy, rules) == rbac_statements(policy, rules.take(k)),
    decreases rules.len(),
{
    if rules.len() > k {
        assert(rules.drop_last().take(k) =~= rules.take(k));
        lemma_rbac_error_stays(policy, rules.drop_last(), k);
    } else {
        assert(rules.take(k) =~= rules);
    }
}

/// Writes the statements of the given role allow rules in order, stopping
/// at the first rule that cannot be written.
fn rbac_rule_texts(policy: &Policy, rules: &Vec<usize>) -> (result: Result<Vec<String>, String>)
    requires
        forall|i: int| 0 <= i < rules@.len() ==> #[trigger] rules@[i] < policy.role_allows@.len(),
    ensures
        match rbac_statements(*policy, rules@) {
            Ok(all) => result matches Ok(v) && texts(v@) == all,
            Err(message) => result matches Err(e) && e@ == message,
        },
{
    let mut done: Vec<String> = Vec::new();
    let mut index: usize = 0;
    assert(rules@.take(0) =~= Seq::<usize>::empty());
    assert(texts(done@) =~= Seq::<Seq<char>>::empty());
    while index < rules.len()
        invariant
            index <= rules.len(),
            forall|i: int| 0 <= i < rules@.len() ==> #[trigger] rules@[i] < policy.role_allows@.len(),
            rbac_statements(*policy, rules@.take(index as int)) == Ok::<Seq<Seq<char>>, Seq<char>>(texts(done@)),
        decreases rules.len() - index,
    {
        let ghost next = rules@.take(index + 1);
        assert(next.drop_last() =~= rules@.take(index as int));
        assert(next.last() == rules@[index as int]);
        match render_rbac_rule(policy, rules[index]) {
            Ok(text) => {
                let ghost before = texts(done@);
                done.push(text);
                assert(texts(done@) =~= before.push(text@));
            },
            Err(message) => {
                proof {
                    lemma_rbac_error_stays(*policy, rules@, index as int + 1);
                }
                return Err(message);
            },
        }
        index = index + 1;
    }
    assert(rules@.take(rules.len() as int) =~= rules@);
    Ok(done)
}


/// The heading of a writable file finding.
pub open spec fn file_heading(kind: ReadOnlyKind, name: Seq<char>) -> Seq<char> {
    match kind {
        ReadOnlyKind::Executable => "Executable type "@ + name + " is writable.\n\nExecute rules:\n"@,
        ReadOnlyKind::KernelModule => "Kernel module type "@ + name + " is writable.\n\nModule load rules:\n"@,
    }
}

/// A writable file finding: its heading, then its use rules and its write
/// rules, each sorted and listed once.
pub open spec fn file_text(policy: Policy, kind: ReadOnlyKind, file: WritableFileView) -> Result<Seq<char>, Seq<char>> {
    match te_statements(policy, file.use_rules) {
        Err(message) => Err(message),
        Ok(uses) => match te_statements(policy, file.write_rules) {
            Err(message) => Err(message),
            Ok(writes) => Ok(
                "\n------------\n\n"@ + file_heading(kind, file.name) + bullets(dedup(uses.sort_by(text_order())))
                    + "\nWrite rules:\n"@ + bullets(dedup(writes.sort_by(text_order()))),
            ),
        },
    }
}

/// The writable file findings in order, or the first error.
pub open spec fn files_text(policy: Policy, kind: ReadOnlyKind, files: Seq<WritableFileView>) -> Result<Seq<char>, Seq<char>>
    decreases files.len(),
{
    if files.len() == 0 {
        Ok(Seq::empty())
    } else {
        match files_text(policy, kind, files.drop_last()) {
            Err(message) => Err(message),
            Ok(done) => match file_text(policy, kind, files.last()) {
                Ok(text) => Ok(done + text),
                Err(message) => Err(message),
            },
        }
    }
}

/// Once a file finding cannot be written, all of them fail with its error.
proof fn lemma_files_error_stays(policy: Policy, kind: ReadOnlyKind, files: Seq<WritableFileView>, k: int)
    requires
        0 <= k <= files.len(),
        files_text(policy, kind, files.take(k)) is Err,
    ensures
        files_text(policy, kind, files) == files_text(policy, kind, files.take(k)),
    decreases files.len(),
{
    if files.len() > k {
        assert(files.drop_last().take(k) =~= files.take(k));
        lemma_files_error_stays(policy, kind, files.drop_last(), k);
    } else {
        assert(files.take(k) =~= files);
    }
}

/// The report text of an outcome, or why a rule in it cannot be written.
pub open spec fn outcome_text(policy: Policy, outcome: OutcomeView) -> Result<Seq<char>, Seq<char>> {
    match outcome {
        OutcomeView::Disabled(_) => Ok(Seq::empty()),
        OutcomeView::EmptyTypeAttribute { attribute, missing, members } => Ok(
            if missing {
                "    "@ + attribute + " does not exist.\n"@
            } else {
                "Member types of "@ + attribute + ":\n"@ + bullets(members)
            },
        ),
        OutcomeView::AssertTe(v) => match te_statements(policy, v.rules) {
            Err(message) => Err(message),
            Ok(rules) => Ok(
                bullets(rules.sort_by(text_order())) + expected_lines("source"@, v.missing_sources)
                    + expected_lines("target"@, v.missing_targets),
            ),
        },
        OutcomeView::AssertRbac(v) => match rbac_statements(policy, v.rules) {
            Err(message) => Err(message),
            Ok(rules) => Ok(
                bullets(rules.sort_by(text_order())) + expected_lines("source"@, v.missing_sources)
                    + expected_lines("target"@, v.missing_targets),
            ),
        },
        OutcomeView::ReadOnly(kind, v) => files_text(policy, kind, v.files),
        OutcomeView::Unexpected(message) => Ok("Unexpected error: "@ + message + ".  Failing check.\n\n"@),
    }
}

/// Appends a writable file finding.
fn push_file(policy: &Policy, kind: ReadOnlyKind, file: &WritableFile, output: &mut String) -> (result: Result<(), String>)
    requires
        rules_fit(*policy, file.use_rules@),
        rules_fit(*policy, file.write_rules@),
    ensures
        match file_text(*policy, kind, writable_file_view(*file)) {
            Ok(text) => result is Ok && final(output)@ == old(output)@ + text,
            Err(message) => result matches Err(e) && e@ == message,
        },
{
    let uses = match te_rule_texts(policy, &file.use_rules) {
        Ok(v) => v,
        Err(e) => return Err(e),
    };
    let writes = match te_rule_texts(policy, &file.write_rules) {
        Ok(v) => v,
        Err(e) => return Err(e),
    };
    let ghost start = output@;
    push_str(output, "\n------------\n\n");
    match kind {
        ReadOnlyKind::Executable => {
            push_str(output, "Executable type ");
            push_str(output, file.name.as_str());
            push_str(output, " is writable.\n\nExecute rules:\n");
        },
        ReadOnlyKind::KernelModule => {
            push_str(output, "Kernel module type ");
            push_str(output, file.name.as_str());
            push_str(output, " is writable.\n\nModule load rules:\n");
        },
    }
    assert(output@ =~= start + "\n------------\n\n"@ + file_heading(kind, file.name@));
    let shown_uses = dedup_texts(&sort_texts(&uses));
    push_bullets(output, &shown_uses);
    push_str(output, "\nWrite rules:\n");
    let shown_writes = dedup_texts(&sort_texts(&writes));
    push_bullets(output, &shown_writes);
    proof {
        let uses_view = texts(uses@);
        let writes_view = texts(writes@);
        assert(output@ =~= start + ("\n------------\n\n"@ + file_heading(kind, file.name@)
            + bullets(dedup(uses_view.sort_by(text_order()))) + "\nWrite rules:\n"@
            + bullets(dedup(writes_view.sort_by(text_order())))));
    }
    Ok(())
}

/// Appends the report text of an outcome.
pub fn render_outcome(policy: &Policy, outcome: &CheckOutcome, output: &mut String) -> (result: Result<(), String>)
    requires
        outcome_fits(*policy, outcome_view(*outcome)),
    ensures
        match outcome_text(*policy, outcome_view(*outcome)) {
            Ok(text) => result is Ok && final(output)@ == old(output)@ + text,
            Err(message) => result matches Err(e) && e@ == message,
        },
{
    let ghost start = output@;
    match outcome {
        CheckOutcome::Disabled { .. } => {
            assert(output@ =~= start + Seq::<char>::empty());
        },
        CheckOutcome::EmptyTypeAttribute(v) => {
            if v.missing {
                push_str(output, "    ");
                push_str(output, v.attribute.as_str());
                push_str(output, " does not exist.\n");
                assert(output@ =~= start + ("    "@ + v.attribute@ + " does not exist.\n"@));
            } else {
                push_str(output, "Member types of ");
                push_str(output, v.attribute.as_str());
                push_str(output, ":\n");
                push_bullets(output, &v.members);
                assert(output@ =~= start + ("Member types of "@ + v.attribute@ + ":\n"@ + bullets(texts(v.members@))));
            }
        },
        CheckOutcome::AssertTe(v) => {
            let rules = match te_rule_texts(policy, &v.rules) {
                Ok(r) => r,
                Err(e) => return Err(e),
            };
            let sorted = sort_texts(&rules);
            push_bullets(output, &sorted);
            push_expected(output, "source", &v.missing_sources);
            push_expected(output, "target", &v.missing_targets);
            assert(output@ =~= start + (bullets(texts(rules@).sort_by(text_order()))
                + expected_lines("source"@, texts(v.missing_sources@)) + expected_lines("target"@, texts(v.missing_targets@))));
        },
        CheckOutcome::AssertRbac(v) => {
            let rules = match rbac_rule_texts(policy, &v.rules) {
                Ok(r) => r,
                Err(e) => return Err(e),
            };
            let sorted = sort_texts(&rules);
            push_bullets(output, &sorted);
            push_expected(output, "source", &v.missing_sources);
            push_expected(output, "target", &v.missing_targets);
            assert(output@ =~= start + (bullets(texts(rules@).sort_by(text_order()))
                + expected_lines("source"@, texts(v.missing_sources@)) + expected_lines("target"@, texts(v.missing_targets@))));
        },
        CheckOutcome::ReadOnly { kind, verdict } => {
            let ghost files = verdict.files@.map_values(|f: WritableFile| writable_file_view(f));
            assert(files =~= crate::verdicts::read_only_verdict_view(*verdict).files);
            assert(outcome_text(*policy, outcome_view(*outcome)) == files_text(*policy, *kind, files));
            let mut index: usize = 0;
            assert(files.take(0) =~= Seq::<WritableFileView>::empty());
            assert(output@ =~= start + Seq::<char>::empty());
            while index < verdict.files.len()
                invariant
                    index <= verdict.files.len(),
                    files == verdict.files@.map_values(|f: WritableFile| writable_file_view(f)),
                    forall|k: int| 0 <= k < files.len() ==> {
                        &&& rules_fit(*policy, (#[trigger] files[k]).use_rules)
                        &&& rules_fit(*policy, files[k].write_rules)
                    },
                    outcome_text(*policy, outcome_view(*outcome)) == files_text(*policy, *kind, files),
                    files_text(*policy, *kind, files.take(index as int)) matches Ok(done) && output@ == start + done,
                decreases verdict.files.len() - index,
            {
                let ghost next = files.take(index + 1);
                assert(next.drop_last() =~= files.take(index as int));
                assert(next.last() == writable_file_view(verdict.files@[index as int]));
                let ghost before = output@;
                match push_file(policy, *kind, &verdict.files[index], output) {
                    Ok(()) => {
                        assert(output@ =~= start + (before.subrange(start.len() as int, before.len() as int)
                            + output@.subrange(before.len() as int, output@.len() as int)));
                    },
                    Err(e) => {
                        proof {
                            lemma_files_error_stays(*policy, *kind, files, index as int + 1);
                        }
                        return Err(e);
                    },
                }
                index = index + 1;
            }
            assert(files.take(verdict.files.len() as int) =~= files);
        },
        CheckOutcome::Unexpected { message } => {
            push_str(output, "Unexpected error: ");
            push_str(output, message.as_str());
            push_str(output, ".  Failing check.\n\n");
            assert(output@ =~= start + ("Unexpected error: "@ + message@ + ".  Failing check.\n\n"@));
        },
    }
    Ok(())
}


/// A check result as plain values.
pub struct ResultView {
    /// The section name.
    pub name: Seq<char>,
    /// The section description, if any.
    pub description: Option<Seq<char>>,
    /// The check type.
    pub check_type: CheckType,
    /// What the check found.
    pub outcome: OutcomeView,
}

/// The plain values of a check result.
pub open spec fn result_view(result: CheckResult) -> ResultView {
    ResultView {
        name: result.name@,
        description: text_view(result.description),
        check_type: result.check_type,
        outcome: outcome_view(result.outcome),
    }
}

/// The plain values of a list of check results.
pub open spec fn result_views(results: Seq<CheckResult>) -> Seq<ResultView> {
    results.map_values(|r: CheckResult| result_view(r))
}

/// The findings of all the results together.
pub open spec fn total_failures(results: Seq<ResultView>) -> int
    decreases results.len(),
{
    if results.len() == 0 {
        0
    } else {
        total_failures(results.drop_last()) + failures(results.last().outcome)
    }
}

/// Every outcome counts at least zero findings.
proof fn lemma_failures_nonnegative(outcome: OutcomeView)
    ensures
        failures(outcome) >= 0,
{
}

/// The findings of the first results are no more than those of all.
proof fn lemma_total_failures_prefix(results: Seq<ResultView>, k: int)
    requires
        0 <= k <= results.len(),
    ensures
        0 <= total_failures(results.take(k)) <= total_failures(results),
        k < results.len() ==> total_failures(results.take(k)) + failures(results[k].outcome) <= total_failures(results),
    decreases results.len(),
{
    if results.len() > 0 {
        lemma_failures_nonnegative(results.last().outcome);
        if k == results.len() {
            assert(results.take(k) =~= results);
            lemma_total_failures_prefix(results.drop_last(), k - 1);
        } else {
            assert(results.drop_last().take(k) =~= results.take(k));
            lemma_total_failures_prefix(results.drop_last(), k);
            if k < results.len() - 1 {
                assert(results.drop_last()[k] == results[k]);
            } else {
                assert(results.drop_last().take(k) =~= results.drop_last());
            }
        }
    } else {
        assert(results.take(k) =~= results);
    }
}

/// The status word of a result.
pub open spec fn status_of(outcome: OutcomeView) -> Seq<char> {
    if outcome is Disabled {
        "disabled"@
    } else if failures(outcome) == 0 {
        "passed"@
    } else {
        "failed"@
    }
}

/// Returns `disabled`, `passed` or `failed` for a result.
pub fn result_status(result: &CheckResult) -> (status: &'static str)
    requires
        failures(outcome_view(result.outcome)) <= usize::MAX,
    ensures
        status@ == status_of(outcome_view(result.outcome)),
{
    match &result.outcome {
        CheckOutcome::Disabled { .. } => "disabled",
        _ => if result.failure_count() == 0 {
            "passed"
        } else {
            "failed"
        },
    }
}

/// The line between report sections.
pub open spec fn section_separator() -> Seq<char> {
    "---------------------------------------------------------\n\n"@
}

/// A text left-aligned in a field at least `width` characters wide.
pub open spec fn padded(text: Seq<char>, width: nat) -> Seq<char> {
    if text.len() < width {
        text + Seq::new((width - text.len()) as nat, |i: int| ' ')
    } else {
        text
    }
}

/// Appends a text left-aligned in a field at least `width` characters wide.
fn push_padded(output: &mut String, text: &str, width: usize)
    ensures
        final(output)@ == old(output)@ + padded(text@, width as nat),
{
    push_str(output, text);
    let count = crate::text::chars_of(text).len();
    if count < width {
        let ghost start = output@;
        let mut pad: usize = width - count;
        while pad > 0
            invariant
                pad <= width - count,
                output@ == start + Seq::new((width - count - pad) as nat, |i: int| ' '),
            decreases pad,
        {
            crate::text::push_char(output, ' ');
            pad = pad - 1;
            assert(output@ =~= start + Seq::new((width - count - pad) as nat, |i: int| ' '));
        }
    }
    assert(output@ =~= old(output)@ + padded(text@, width as nat));
}

/// The heading of a result's section.
pub open spec fn section_heading(r: ResultView) -> Seq<char> {
    section_separator() + "Check name: "@ + r.name + "\n\n"@ + match r.description {
        Some(d) => "Description: "@ + d + "\n\n"@,
        None => Seq::empty(),
    }
}

/// A result's report section, its summary status and its findings; or why
/// a rule in it cannot be written.
pub open spec fn result_section(policy: Policy, r: ResultView) -> Result<(Seq<char>, Seq<char>, int), Seq<char>> {
    match r.outcome {
        OutcomeView::Disabled(reason) => Ok((
            section_heading(r) + "Check DISABLED.  Reason: "@ + reason + "\n\n"@,
            "DISABLED ("@ + reason + ")"@,
            0,
        )),
        _ => match outcome_text(policy, r.outcome) {
            Err(message) => Err(message),
            Ok(text) => if failures(r.outcome) == 0 {
                Ok((section_heading(r) + text + "\n"@ + "Check PASSED\n\n"@, "PASSED"@, 0))
            } else {
                Ok((
                    section_heading(r) + text + "\n"@ + "Check FAILED\n\n"@,
                    "FAILED ("@ + decimal(failures(r.outcome) as nat) + " failures)"@,
                    failures(r.outcome),
                ))
            },
        },
    }
}

/// The sections of the results in order, their summary lines and their
/// findings together; or the first error.
pub open spec fn report_sections(policy: Policy, results: Seq<ResultView>) -> Result<(Seq<char>, Seq<char>, int), Seq<char>>
    decreases results.len(),
{
    if results.len() == 0 {
        Ok((Seq::empty(), Seq::empty(), 0))
    } else {
        match report_sections(policy, results.drop_last()) {
            Err(message) => Err(message),
            Ok(done) => match result_section(policy, results.last()) {
                Err(message) => Err(message),
                Ok(section) => Ok((
                    done.0 + section.0,
                    done.1 + padded(results.last().name, 39) + " "@ + section.1 + "\n"@,
                    done.2 + section.2,
                )),
            },
        }
    }
}

/// The checker's text report, or why a rule in it cannot be written.
pub open spec fn report_text(
    policy: Policy,
    config: Seq<char>,
    path: Seq<char>,
    start: Seq<char>,
    end: Seq<char>,
    results: Seq<ResultView>,
) -> Result<Seq<char>, Seq<char>> {
    match report_sections(policy, results) {
        Err(message) => Err(message),
        Ok(done) => Ok(
            section_separator() + "Policy check configuration: "@ + config + "\nPolicy being checked: "@ + path
                + "\nStart time: "@ + start + "\n\n"@ + done.0 + section_separator() + "Result Summary:\n\n"@
                + done.1 + "\n"@ + decimal(done.2 as nat) + " failure(s) found.\n\nPolicy check configuration: "@
                + config + "\nPolicy being checked: "@ + path + "\nEnd time: "@ + end + "\n"@,
        ),
    }
}

/// Once a result cannot be written, the report fails with its error.
proof fn lemma_sections_error_stays(policy: Policy, results: Seq<ResultView>, k: int)
    requires
        0 <= k <= results.len(),
        report_sections(policy, results.take(k)) is Err,
    ensures
        report_sections(policy, results) == report_sections(policy, results.take(k)),
    decreases results.len(),
{
    if results.len() > k {
        assert(results.drop_last().take(k) =~= results.take(k));
        lemma_sections_error_stays(policy, results.drop_last(), k);
    } else {
        assert(results.take(k) =~= results);
    }
}

/// The findings a report counts are those of its results.
proof fn lemma_sections_count(policy: Policy, results: Seq<ResultView>)
    requires
        report_sections(policy, results) is Ok,
    ensures
        report_sections(policy, results)->Ok_0.2 == total_failures(results),
    decreases results.len(),
{
    if results.len() > 0 {
        lemma_sections_count(policy, results.drop_last());
    }
}

/// Appends a result's section and its summary line; returns its findings.
fn push_result_section(policy: &Policy, result: &CheckResult, output: &mut String, summary: &mut String)
    -> (count: Result<usize, String>)
    requires
        outcome_fits(*policy, outcome_view(result.outcome)),
        failures(outcome_view(result.outcome)) <= usize::MAX,
    ensures
        match result_section(*policy, result_view(*result)) {
            Ok(section) => count matches Ok(n) && n == section.2 && final(output)@ == old(output)@ + section.0
                && final(summary)@ == old(summary)@ + padded(result.name@, 39) + " "@ + section.1 + "\n"@,
            Err(message) => count matches Err(e) && e@ == message,
        },
{
    let ghost view = result_view(*result);
    let ghost start = output@;
    let ghost summary_start = summary@;
    let mut section = String::new();
    push_str(&mut section, "---------------------------------------------------------\n\n");
    push_str(&mut section, "Check name: ");
    push_str(&mut section, result.name.as_str());
    push_str(&mut section, "\n\n");
    match &result.description {
        Some(d) => {
            push_str(&mut section, "Description: ");
            push_str(&mut section, d.as_str());
            push_str(&mut section, "\n\n");
        },
        None => {},
    }
    assert(section@ =~= section_heading(view));
    let status = match &result.outcome {
        CheckOutcome::Disabled { reason } => {
            push_str(&mut section, "Check DISABLED.  Reason: ");
            push_str(&mut section, reason.as_str());
            push_str(&mut section, "\n\n");
            let mut status = owned("DISABLED (");
            push_str(&mut status, reason.as_str());
            push_str(&mut status, ")");
            push_str(output, section.as_str());
            push_padded(summary, result.name.as_str(), 39);
            push_str(summary, " ");
            push_str(summary, status.as_str());
            push_str(summary, "\n");
            assert(output@ =~= start + result_section(*policy, view)->Ok_0.0);
            assert(summary@ =~= summary_start + padded(result.name@, 39) + " "@ + result_section(*policy, view)->Ok_0.1 + "\n"@);
            return Ok(0);
        },
        _ => {
            match render_outcome(policy, &result.outcome, &mut section) {
                Ok(()) => {},
                Err(e) => return Err(e),
            }
            push_str(&mut section, "\n");
            let count = result.failure_count();
            if count == 0 {
                push_str(&mut section, "Check PASSED\n\n");
                push_str(output, section.as_str());
                push_padded(summary, result.name.as_str(), 39);
                push_str(summary, " ");
                push_str(summary, "PASSED");
                push_str(summary, "\n");
            } else {
                push_str(&mut section, "Check FAILED\n\n");
                let mut status = owned("FAILED (");
                push_decimal(&mut status, count);
                push_str(&mut status, " failures)");
                push_str(output, section.as_str());
                push_padded(summary, result.name.as_str(), 39);
                push_str(summary, " ");
                push_str(summary, status.as_str());
                push_str(summary, "\n");
            }
            assert(output@ =~= start + result_section(*policy, view)->Ok_0.0);
            assert(summary@ =~= summary_start + padded(result.name@, 39) + " "@ + result_section(*policy, view)->Ok_0.1 + "\n"@);
            count
        },
    };
    Ok(status)
}

/// Writes the checker's text report.
pub fn render_report(
    policy: &Policy,
    config_path: &str,
    policy_path: &str,
    start_time: &str,
    end_time: &str,
    results: &Vec<CheckResult>,
) -> (report: Result<String, String>)
    requires
        forall|i: int| 0 <= i < results@.len() ==> outcome_fits(*policy, outcome_view(#[trigger] results@[i].outcome)),
        total_failures(result_views(results@)) <= usize::MAX,
    ensures
        match report_text(*policy, config_path@, policy_path@, start_time@, end_time@, result_views(results@)) {
            Ok(text) => report matches Ok(r) && r@ == text,
            Err(message) => report matches Err(e) && e@ == message,
        },
{
    let ghost views = result_views(results@);
    let mut body = String::new();
    let mut summary = String::new();
    let mut failures_found: usize = 0;
    let mut index: usize = 0;
    assert(views.take(0) =~= Seq::<ResultView>::empty());
    assert(body@ =~= Seq::<char>::empty());
    assert(summary@ =~= Seq::<char>::empty());
    while index < results.len()
        invariant
            index <= results.len(),
            views == result_views(results@),
            forall|i: int| 0 <= i < results@.len() ==> outcome_fits(*policy, outcome_view(#[trigger] results@[i].outcome)),
            total_failures(views) <= usize::MAX,
            report_sections(*policy, views.take(index as int)) == Ok::<(Seq<char>, Seq<char>, int), Seq<char>>(
                (body@, summary@, failures_found as int),
            ),
        decreases results.len() - index,
    {
        let ghost next = views.take(index + 1);
        proof {
            assert(next.drop_last() =~= views.take(index as int));
            assert(next.last() == result_view(results@[index as int]));
            lemma_total_failures_prefix(views, index as int);
            lemma_sections_count(*policy, views.take(index as int));
            assert(views[index as int] == result_view(results@[index as int]));
        }
        match push_result_section(policy, &results[index], &mut body, &mut summary) {
            Ok(count) => {
                failures_found = failures_found + count;
            },
            Err(e) => {
                proof {
                    lemma_sections_error_stays(*policy, views, index as int + 1);
                }
                return Err(e);
            },
        }
        index = index + 1;
    }
    assert(views.take(results.len() as int) =~= views);
    let mut report = String::new();
    push_str(&mut report, "---------------------------------------------------------\n\n");
    push_str(&mut report, "Policy check configuration: ");
    push_str(&mut report, config_path);
    push_str(&mut report, "\nPolicy being checked: ");
    push_str(&mut report, policy_path);
    push_str(&mut report, "\nStart time: ");
    push_str(&mut report, start_time);
    push_str(&mut report, "\n\n");
    push_str(&mut report, body.as_str());
    push_str(&mut report, "---------------------------------------------------------\n\n");
    push_str(&mut report, "Result Summary:\n\n");
    push_str(&mut report, summary.as_str());
    push_str(&mut report, "\n");
    push_decimal(&mut report, failures_found);
    push_str(&mut report, " failure(s) found.\n\nPolicy check configuration: ");
    push_str(&mut report, config_path);
    push_str(&mut report, "\nPolicy being checked: ");
    push_str(&mut report, policy_path);
    push_str(&mut report, "\nEnd time: ");
    push_str(&mut report, end_time);
    push_str(&mut report, "\n");
    assert(report@ =~= report_text(*policy, config_path@, policy_path@, start_time@, end_time@, views)->Ok_0);
    Ok(report)
}


/// The JSON text of a Boolean.
pub open spec fn json_bool(value: bool) -> Seq<char> {
    if value { "true"@ } else { "false"@ }
}

/// The JSON text of an optional string.
pub open spec fn json_optional(value: Option<Seq<char>>) -> Seq<char> {
    match value {
        Some(v) => json_string(v),
        None => "null"@,
    }
}

/// The category word of a read-only check.
pub open spec fn category(kind: ReadOnlyKind) -> Seq<char> {
    match kind {
        ReadOnlyKind::Executable => "executable"@,
        ReadOnlyKind::KernelModule => "kernel_module"@,
    }
}

/// A writable file finding as a JSON object, or why a rule in it cannot be
/// written.
pub open spec fn json_file(policy: Policy, file: WritableFileView) -> Result<Seq<char>, Seq<char>> {
    match te_statements(policy, file.use_rules) {
        Err(message) => Err(message),
        Ok(uses) => match te_statements(policy, file.write_rules) {
            Err(message) => Err(message),
            Ok(writes) => Ok(
                "{\"type_name\":"@ + json_string(file.name) + ",\"use_rules\":["@
                    + json_strings(dedup(uses.sort_by(text_order()))) + "],\"write_rules\":["@
                    + json_strings(dedup(writes.sort_by(text_order()))) + "]}"@,
            ),
        },
    }
}

/// Writable file findings as JSON objects separated by commas, or the
/// first error.
pub open spec fn json_files(policy: Policy, files: Seq<WritableFileView>) -> Result<Seq<char>, Seq<char>>
    decreases files.len(),
{
    if files.len() == 0 {
        Ok(Seq::empty())
    } else {
        match json_files(policy, files.drop_last()) {
            Err(message) => Err(message),
            Ok(done) => match json_file(policy, files.last()) {
                Err(message) => Err(message),
                Ok(text) => Ok(if files.len() == 1 { text } else { done + ","@ + text }),
            },
        }
    }
}

/// Once a file finding cannot be written, the list fails with its error.
proof fn lemma_json_files_error_stays(policy: Policy, files: Seq<WritableFileView>, k: int)
    requires
        0 <= k <= files.len(),
        json_files(policy, files.take(k)) is Err,
    ensures
        json_files(policy, files) == json_files(policy, files.take(k)),
    decreases files.len(),
{
    if files.len() > k {
        assert(files.drop_last().take(k) =~= files.take(k));
        lemma_json_files_error_stays(policy, files.drop_last(), k);
    } else {
        assert(files.take(k) =~= files);
    }
}

/// An assertion's findings as a JSON object, its rules sorted.
pub open spec fn json_assertion(
    kind: Seq<char>,
    rules: Seq<Seq<char>>,
    missing_sources: Seq<Seq<char>>,
    missing_targets: Seq<Seq<char>>,
) -> Seq<char> {
    "{\"kind\":\""@ + kind + "\",\"rules\":["@ + json_strings(rules.sort_by(text_order())) + "],\"missing_sources\":["@
        + json_strings(missing_sources) + "],\"missing_targets\":["@ + json_strings(missing_targets) + "]}"@
}

/// A read-only check's findings as a JSON object, given its files' JSON.
pub open spec fn json_read_only(kind: ReadOnlyKind, checked_types: Seq<Seq<char>>, files: Seq<char>) -> Seq<char> {
    "{\"kind\":\"read_only\",\"category\":"@ + json_string(category(kind)) + ",\"checked_types\":["@
        + json_strings(checked_types) + "],\"files\":["@ + files + "]}"@
}

/// Appends an assertion's findings as a JSON object.
fn push_json_assertion(
    output: &mut String,
    kind: &str,
    rules: &Vec<String>,
    missing_sources: &Vec<String>,
    missing_targets: &Vec<String>,
)
    ensures
        final(output)@ == old(output)@ + json_assertion(kind@, texts(rules@), texts(missing_sources@), texts(missing_targets@)),
{
    let sorted = sort_texts(rules);
    push_str(output, "{\"kind\":\"");
    push_str(output, kind);
    push_str(output, "\",\"rules\":[");
    push_json_strings(output, &sorted);
    push_str(output, "],\"missing_sources\":[");
    push_json_strings(output, missing_sources);
    push_str(output, "],\"missing_targets\":[");
    push_json_strings(output, missing_targets);
    push_str(output, "]}");
    assert(output@ =~= old(output)@ + json_assertion(kind@, texts(rules@), texts(missing_sources@), texts(missing_targets@)));
}

/// Appends a read-only check's findings as a JSON object.
fn push_json_read_only(output: &mut String, policy: &Policy, kind: ReadOnlyKind, verdict: &crate::verdicts::ReadOnlyVerdict)
    -> (result: Result<(), String>)
    requires
        forall|k: int| 0 <= k < verdict.files@.len() ==> {
            &&& rules_fit(*policy, (#[trigger] verdict.files@[k]).use_rules@)
            &&& rules_fit(*policy, verdict.files@[k].write_rules@)
        },
    ensures
        match json_files(*policy, verdict.files@.map_values(|f: WritableFile| writable_file_view(f))) {
            Ok(files) => result is Ok && final(output)@ == old(output)@ + json_read_only(kind, texts(verdict.checked_types@), files),
            Err(message) => result matches Err(e) && e@ == message,
        },
{
    let ghost start = output@;
    push_str(output, "{\"kind\":\"read_only\",\"category\":");
    match kind {
        ReadOnlyKind::Executable => push_string(output, "executable"),
        ReadOnlyKind::KernelModule => push_string(output, "kernel_module"),
    }
    push_str(output, ",\"checked_types\":[");
    push_json_strings(output, &verdict.checked_types);
    push_str(output, "],\"files\":[");
    let ghost head = output@;
    match push_json_files(policy, &verdict.files, output) {
        Ok(()) => {},
        Err(e) => return Err(e),
    }
    let ghost middle = output@;
    push_str(output, "]}");
    proof {
        let files = json_files(*policy, verdict.files@.map_values(|f: WritableFile| writable_file_view(f)))->Ok_0;
        assert(head =~= start + "{\"kind\":\"read_only\",\"category\":"@ + json_string(category(kind))
            + ",\"checked_types\":["@ + json_strings(texts(verdict.checked_types@)) + "],\"files\":["@);
        assert(middle == head + files);
        assert(output@ =~= start + json_read_only(kind, texts(verdict.checked_types@), files));
    }
    Ok(())
}

/// An outcome as a JSON object, or why a rule in it cannot be written.
#[verifier::opaque]
pub open spec fn json_outcome(policy: Policy, outcome: OutcomeView) -> Result<Seq<char>, Seq<char>> {
    match outcome {
        OutcomeView::Disabled(reason) => Ok("{\"kind\":\"disabled\",\"reason\":"@ + json_string(reason) + "}"@),
        OutcomeView::EmptyTypeAttribute { attribute, missing, members } => Ok(
            "{\"kind\":\"empty_typeattr\",\"attribute\":"@ + json_string(attribute) + ",\"missing\":"@
                + json_bool(missing) + ",\"members\":["@ + json_strings(members) + "]}"@,
        ),
        OutcomeView::AssertTe(v) => match te_statements(policy, v.rules) {
            Err(message) => Err(message),
            Ok(rules) => Ok(json_assertion("assert_te"@, rules, v.missing_sources, v.missing_targets)),
        },
        OutcomeView::AssertRbac(v) => match rbac_statements(policy, v.rules) {
            Err(message) => Err(message),
            Ok(rules) => Ok(json_assertion("assert_rbac"@, rules, v.missing_sources, v.missing_targets)),
        },
        OutcomeView::ReadOnly(kind, v) => match json_files(policy, v.files) {
            Err(message) => Err(message),
            Ok(files) => Ok(json_read_only(kind, v.checked_types, files)),
        },
        OutcomeView::Unexpected(message) => Ok("{\"kind\":\"unexpected\",\"message\":"@ + json_string(message) + "}"@),
    }
}

/// Appends a writable file finding as a JSON object.
fn push_json_file(policy: &Policy, file: &WritableFile, output: &mut String) -> (result: Result<(), String>)
    requires
        rules_fit(*policy, file.use_rules@),
        rules_fit(*policy, file.write_rules@),
    ensures
        match json_file(*policy, writable_file_view(*file)) {
            Ok(text) => result is Ok && final(output)@ == old(output)@ + text,
            Err(message) => result matches Err(e) && e@ == message,
        },
{
    let uses = match te_rule_texts(policy, &file.use_rules) {
        Ok(v) => v,
        Err(e) => return Err(e),
    };
    let writes = match te_rule_texts(policy, &file.write_rules) {
        Ok(v) => v,
        Err(e) => return Err(e),
    };
    let shown_uses = dedup_texts(&sort_texts(&uses));
    let shown_writes = dedup_texts(&sort_texts(&writes));
    let ghost start = output@;
    push_str(output, "{\"type_name\":");
    push_string(output, file.name.as_str());
    push_str(output, ",\"use_rules\":[");
    push_json_strings(output, &shown_uses);
    push_str(output, "],\"write_rules\":[");
    push_json_strings(output, &shown_writes);
    push_str(output, "]}");
    assert(output@ =~= start + json_file(*policy, writable_file_view(*file))->Ok_0);
    Ok(())
}

/// Appends writable file findings as JSON objects separated by commas.
fn push_json_files(policy: &Policy, files: &Vec<WritableFile>, output: &mut String) -> (result: Result<(), String>)
    requires
        forall|k: int| 0 <= k < files@.len() ==> {
            &&& rules_fit(*policy, (#[trigger] files@[k]).use_rules@)
            &&& rules_fit(*policy, files@[k].write_rules@)
        },
    ensures
        match json_files(*policy, files@.map_values(|f: WritableFile| writable_file_view(f))) {
            Ok(text) => result is Ok && final(output)@ == old(output)@ + text,
            Err(message) => result matches Err(e) && e@ == message,
        },
{
    let ghost views = files@.map_values(|f: WritableFile| writable_file_view(f));
    let ghost start = output@;
    let mut index: usize = 0;
    assert(views.take(0) =~= Seq::<WritableFileView>::empty());
    assert(output@ =~= start + Seq::<char>::empty());
    while index < files.len()
        invariant
            index <= files.len(),
            views == files@.map_values(|f: WritableFile| writable_file_view(f)),
            forall|k: int| 0 <= k < files@.len() ==> {
                &&& rules_fit(*policy, (#[trigger] files@[k]).use_rules@)
                &&& rules_fit(*policy, files@[k].write_rules@)
            },
            json_files(*policy, views.take(index as int)) matches Ok(done) && output@ == start + done,
        decreases files.len() - index,
    {
        let ghost next = views.take(index + 1);
        assert(next.drop_last() =~= views.take(index as int));
        assert(next.last() == writable_file_view(files@[index as int]));
        if index > 0 {
            push_str(output, ",");
        }
        match push_json_file(policy, &files[index], output) {
            Ok(()) => {
                assert(output@ =~= start + json_files(*policy, next)->Ok_0);
            },
            Err(e) => {
                proof {
                    lemma_json_files_error_stays(*policy, views, index as int + 1);
                }
                return Err(e);
            },
        }
        index = index + 1;
    }
    assert(views.take(files.len() as int) =~= views);
    Ok(())
}

/// Appends an outcome as a JSON object.
pub fn push_json_outcome(output: &mut String, policy: &Policy, outcome: &CheckOutcome) -> (result: Result<(), String>)
    requires
        outcome_fits(*policy, outcome_view(*outcome)),
    ensures
        match json_outcome(*policy, outcome_view(*outcome)) {
            Ok(text) => result is Ok && final(output)@ == old(output)@ + text,
            Err(message) => result matches Err(e) && e@ == message,
        },
{
    reveal(json_outcome);
    let ghost start = output@;
    match outcome {
        CheckOutcome::Disabled { reason } => {
            push_str(output, "{\"kind\":\"disabled\",\"reason\":");
            push_string(output, reason.as_str());
            push_str(output, "}");
            assert(output@ =~= start + json_outcome(*policy, outcome_view(*outcome))->Ok_0);
        },
        CheckOutcome::EmptyTypeAttribute(v) => {
            push_str(output, "{\"kind\":\"empty_typeattr\",\"attribute\":");
            push_string(output, v.attribute.as_str());
            push_str(output, ",\"missing\":");
            push_str(output, json_boolean(v.missing));
            push_str(output, ",\"members\":[");
            push_json_strings(output, &v.members);
            push_str(output, "]}");
            assert(output@ =~= start + json_outcome(*policy, outcome_view(*outcome))->Ok_0);
        },
        CheckOutcome::AssertTe(v) => {
            let rules = match te_rule_texts(policy, &v.rules) {
                Ok(r) => r,
                Err(e) => return Err(e),
            };
            push_json_assertion(output, "assert_te", &rules, &v.missing_sources, &v.missing_targets);
        },
        CheckOutcome::AssertRbac(v) => {
            let rules = match rbac_rule_texts(policy, &v.rules) {
                Ok(r) => r,
                Err(e) => return Err(e),
            };
            push_json_assertion(output, "assert_rbac", &rules, &v.missing_sources, &v.missing_targets);
        },
        CheckOutcome::ReadOnly { kind, verdict } => {
            let ghost files = verdict.files@.map_values(|f: WritableFile| writable_file_view(f));
            assert(files =~= crate::verdicts::read_only_verdict_view(*verdict).files);
            assert forall|k: int| 0 <= k < verdict.files@.len() implies {
                &&& rules_fit(*policy, (#[trigger] verdict.files@[k]).use_rules@)
                &&& rules_fit(*policy, verdict.files@[k].write_rules@)
            } by {
                assert(files[k] == writable_file_view(verdict.files@[k]));
            }
            match push_json_read_only(output, policy, *kind, verdict) {
                Ok(()) => {},
                Err(e) => return Err(e),
            }
        },
        CheckOutcome::Unexpected { message } => {
            push_str(output, "{\"kind\":\"unexpected\",\"message\":");
            push_string(output, message.as_str());
            push_str(output, "}");
            assert(output@ =~= start + json_outcome(*policy, outcome_view(*outcome))->Ok_0);
        },
    }
    Ok(())
}


/// A check result as a JSON object, or why a rule in it cannot be written.
#[verifier::opaque]
pub open spec fn json_result(policy: Policy, r: ResultView) -> Result<Seq<char>, Seq<char>> {
    match json_outcome(policy, r.outcome) {
        Err(message) => Err(message),
        Ok(details) => Ok(
            "{\"name\":"@ + json_string(r.name) + ",\"description\":"@ + json_optional(r.description)
                + ",\"check_type\":"@ + json_string(check_name(r.check_type)) + ",\"status\":"@
                + json_string(status_of(r.outcome)) + ",\"failure_count\":"@ + decimal(failures(r.outcome) as nat)
                + ",\"details\":"@ + details + "}"@,
        ),
    }
}

/// Check results as JSON objects separated by commas, or the first error.
pub open spec fn json_results(policy: Policy, results: Seq<ResultView>) -> Result<Seq<char>, Seq<char>>
    decreases results.len(),
{
    if results.len() == 0 {
        Ok(Seq::empty())
    } else {
        match json_results(policy, results.drop_last()) {
            Err(message) => Err(message),
            Ok(done) => match json_result(policy, results.last()) {
                Err(message) => Err(message),
                Ok(text) => Ok(if results.len() == 1 { text } else { done + ","@ + text }),
            },
        }
    }
}

/// Once a result cannot be written, the list fails with its error.
proof fn lemma_json_results_error_stays(policy: Policy, results: Seq<ResultView>, k: int)
    requires
        0 <= k <= results.len(),
        json_results(policy, results.take(k)) is Err,
    ensures
        json_results(policy, results) == json_results(policy, results.take(k)),
    decreases results.len(),
{
    if results.len() > k {
        assert(results.drop_last().take(k) =~= results.take(k));
        lemma_json_results_error_stays(policy, results.drop_last(), k);
    } else {
        assert(results.take(k) =~= results);
    }
}

/// How many results have the given status word.
pub open spec fn status_count(results: Seq<ResultView>, word: Seq<char>) -> int
    decreases results.len(),
{
    if results.len() == 0 {
        0
    } else {
        status_count(results.drop_last(), word) + if status_of(results.last().outcome) == word { 1int } else { 0int }
    }
}

/// No more results have a status than there are results.
proof fn lemma_status_count_bound(results: Seq<ResultView>, word: Seq<char>)
    ensures
        0 <= status_count(results, word) <= results.len(),
    decreases results.len(),
{
    if results.len() > 0 {
        lemma_status_count_bound(results.drop_last(), word);
    }
}

/// The checker's JSON report, or why a rule in it cannot be written.
pub open spec fn json_report(
    policy: Policy,
    config: Seq<char>,
    path: Seq<char>,
    version: Seq<char>,
    results: Seq<ResultView>,
) -> Result<Seq<char>, Seq<char>> {
    match json_results(policy, results) {
        Err(message) => Err(message),
        Ok(items) => Ok(
            "{\"schema\":\"setools-rs.sechecker\",\"schema_version\":1,\"tool\":{\"name\":\"sechecker\",\"version\":"@
                + json_string(version) + "},\"policy\":{\"path\":"@ + json_string(path)
                + "},\"query\":{\"configuration_path\":"@ + json_string(config) + "},\"summary\":{\"check_count\":"@
                + decimal(results.len()) + ",\"passed_check_count\":"@ + decimal(status_count(results, "passed"@) as nat)
                + ",\"failed_check_count\":"@ + decimal(status_count(results, "failed"@) as nat)
                + ",\"disabled_check_count\":"@ + decimal(status_count(results, "disabled"@) as nat)
                + ",\"failure_count\":"@ + decimal(total_failures(results) as nat) + "},\"result_count\":"@
                + decimal(results.len()) + ",\"results\":["@ + items + "]}\n"@,
        ),
    }
}

/// Appends a check result as a JSON object.
pub fn push_json_result(output: &mut String, policy: &Policy, result: &CheckResult) -> (pushed: Result<(), String>)
    requires
        outcome_fits(*policy, outcome_view(result.outcome)),
        failures(outcome_view(result.outcome)) <= usize::MAX,
    ensures
        match json_result(*policy, result_view(*result)) {
            Ok(text) => pushed is Ok && final(output)@ == old(output)@ + text,
            Err(message) => pushed matches Err(e) && e@ == message,
        },
{
    reveal(json_result);
    let ghost start = output@;
    push_str(output, "{\"name\":");
    push_string(output, result.name.as_str());
    push_str(output, ",\"description\":");
    match &result.description {
        Some(d) => push_json_optional_string(output, Some(d.as_str())),
        None => push_json_optional_string(output, None),
    }
    push_str(output, ",\"check_type\":");
    push_string(output, result.check_type.name());
    push_str(output, ",\"status\":");
    push_string(output, result_status(result));
    push_str(output, ",\"failure_count\":");
    push_decimal(output, result.failure_count());
    push_str(output, ",\"details\":");
    let ghost head = output@;
    match push_json_outcome(output, policy, &result.outcome) {
        Ok(()) => {},
        Err(e) => return Err(e),
    }
    let ghost middle = output@;
    push_str(output, "}");
    proof {
        let view = result_view(*result);
        assert(head =~= start + "{\"name\":"@ + json_string(view.name) + ",\"description\":"@
            + json_optional(view.description) + ",\"check_type\":"@ + json_string(check_name(view.check_type))
            + ",\"status\":"@ + json_string(status_of(view.outcome)) + ",\"failure_count\":"@
            + decimal(failures(view.outcome) as nat) + ",\"details\":"@);
        assert(output@ =~= start + json_result(*policy, view)->Ok_0);
    }
    Ok(())
}

/// The summary counts of a JSON report: findings, then passed, failed and
/// disabled checks.
fn result_counts(results: &Vec<CheckResult>) -> (counts: (usize, usize, usize, usize))
    requires
        total_failures(result_views(results@)) <= usize::MAX,
    ensures
        counts.0 == total_failures(result_views(results@)),
        counts.1 == status_count(result_views(results@), "passed"@),
        counts.2 == status_count(result_views(results@), "failed"@),
        counts.3 == status_count(result_views(results@), "disabled"@),
{
    let ghost views = result_views(results@);
    let mut failure_count: usize = 0;
    let mut passed: usize = 0;
    let mut failed: usize = 0;
    let mut disabled: usize = 0;
    let mut index: usize = 0;
    proof {
        reveal_strlit("passed");
        reveal_strlit("failed");
        reveal_strlit("disabled");
        assert("passed"@[0] != "failed"@[0]);
        assert("passed"@.len() != "disabled"@.len());
        assert("failed"@.len() != "disabled"@.len());
    }
    assert(views.take(0) =~= Seq::<ResultView>::empty());
    while index < results.len()
        invariant
            index <= results.len(),
            views == result_views(results@),
            total_failures(views) <= usize::MAX,
            "passed"@ != "failed"@ && "passed"@ != "disabled"@ && "failed"@ != "disabled"@,
            failure_count == total_failures(views.take(index as int)),
            passed == status_count(views.take(index as int), "passed"@),
            failed == status_count(views.take(index as int), "failed"@),
            disabled == status_count(views.take(index as int), "disabled"@),
        decreases results.len() - index,
    {
        let ghost next = views.take(index + 1);
        proof {
            assert(next.drop_last() =~= views.take(index as int));
            assert(next.last() == result_view(results@[index as int]));
            assert(views[index as int] == result_view(results@[index as int]));
            lemma_total_failures_prefix(views, index as int);
            lemma_status_count_bound(views.take(index as int), "passed"@);
            lemma_status_count_bound(views.take(index as int), "failed"@);
            lemma_status_count_bound(views.take(index as int), "disabled"@);
        }
        let result = &results[index];
        let count = result.failure_count();
        failure_count = failure_count + count;
        match &result.outcome {
            CheckOutcome::Disabled { .. } => {
                disabled = disabled + 1;
            },
            _ => {
                if count == 0 {
                    passed = passed + 1;
                } else {
                    failed = failed + 1;
                }
            },
        }
        index = index + 1;
    }
    assert(views.take(results.len() as int) =~= views);
    (failure_count, passed, failed, disabled)
}

/// Appends check results as JSON objects separated by commas.
fn push_json_results(output: &mut String, policy: &Policy, results: &Vec<CheckResult>) -> (pushed: Result<(), String>)
    requires
        forall|i: int| 0 <= i < results@.len() ==> outcome_fits(*policy, outcome_view(#[trigger] results@[i].outcome)),
        total_failures(result_views(results@)) <= usize::MAX,
    ensures
        match json_results(*policy, result_views(results@)) {
            Ok(text) => pushed is Ok && final(output)@ == old(output)@ + text,
            Err(message) => pushed matches Err(e) && e@ == message,
        },
{
    let ghost views = result_views(results@);
    let ghost head = output@;
    let mut index: usize = 0;
    assert(views.take(0) =~= Seq::<ResultView>::empty());
    assert(output@ =~= head + Seq::<char>::empty());
    while index < results.len()
        invariant
            index <= results.len(),
            views == result_views(results@),
            forall|i: int| 0 <= i < results@.len() ==> outcome_fits(*policy, outcome_view(#[trigger] results@[i].outcome)),
            total_failures(views) <= usize::MAX,
            json_results(*policy, views.take(index as int)) matches Ok(done) && output@ == head + done,
        decreases results.len() - index,
    {
        let ghost next = views.take(index + 1);
        proof {
            assert(next.drop_last() =~= views.take(index as int));
            assert(next.last() == result_view(results@[index as int]));
            assert(views[index as int] == result_view(results@[index as int]));
            lemma_total_failures_prefix(views, index as int);
        }
        if index > 0 {
            push_str(output, ",");
        }
        match push_json_result(output, policy, &results[index]) {
            Ok(()) => {
                assert(output@ =~= head + json_results(*policy, next)->Ok_0);
            },
            Err(e) => {
                proof {
                    lemma_json_results_error_stays(*policy, views, index as int + 1);
                }
                return Err(e);
            },
        }
        index = index + 1;
    }
    assert(views.take(results.len() as int) =~= views);
    Ok(())
}

/// Writes the checker's JSON report; `version` is the tool's version.
pub fn render_json(policy: &Policy, config_path: &str, policy_path: &str, version: &str, results: &Vec<CheckResult>)
    -> (report: Result<String, String>)
    requires
        forall|i: int| 0 <= i < results@.len() ==> outcome_fits(*policy, outcome_view(#[trigger] results@[i].outcome)),
        total_failures(result_views(results@)) <= usize::MAX,
    ensures
        match json_report(*policy, config_path@, policy_path@, version@, result_views(results@)) {
            Ok(text) => report matches Ok(r) && r@ == text,
            Err(message) => report matches Err(e) && e@ == message,
        },
{
    let ghost views = result_views(results@);
    let counts = result_counts(results);
    let mut output = String::new();
    push_str(&mut output, "{\"schema\":\"setools-rs.sechecker\",\"schema_version\":1,\"tool\":{\"name\":\"sechecker\",\"version\":");
    push_string(&mut output, version);
    push_str(&mut output, "},\"policy\":{\"path\":");
    push_string(&mut output, policy_path);
    push_str(&mut output, "},\"query\":{\"configuration_path\":");
    push_string(&mut output, config_path);
    push_str(&mut output, "},\"summary\":{\"check_count\":");
    push_decimal(&mut output, results.len());
    push_str(&mut output, ",\"passed_check_count\":");
    push_decimal(&mut output, counts.1);
    push_str(&mut output, ",\"failed_check_count\":");
    push_decimal(&mut output, counts.2);
    push_str(&mut output, ",\"disabled_check_count\":");
    push_decimal(&mut output, counts.3);
    push_str(&mut output, ",\"failure_count\":");
    push_decimal(&mut output, counts.0);
    push_str(&mut output, "},\"result_count\":");
    push_decimal(&mut output, results.len());
    push_str(&mut output, ",\"results\":[");
    let ghost head = output@;
    match push_json_results(&mut output, policy, results) {
        Ok(()) => {},
        Err(e) => return Err(e),
    }
    let ghost middle = output@;
    push_str(&mut output, "]}\n");
    proof {
        let items = json_results(*policy, views)->Ok_0;
        assert(middle == head + items);
        assert(views.len() == results@.len());
        assert(output@ =~= json_report(*policy, config_path@, policy_path@, version@, views)->Ok_0);
    }
    Ok(output)
}

} // verus!
