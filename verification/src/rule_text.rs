//! Policy-language text of type-enforcement rules and of the conditional
//! expressions that guard them.
use vstd::prelude::*;
use crate::text::{texts, owned, push_str, joined_by, join_texts, text_order, sort_texts};
use crate::policy::{Policy, TeRule, TeRuleKind, TeRuleData, ConditionalToken};

verus! {

/// One operand of the expression renderer: its words and whether it was
/// built by an operator.
pub struct Operand {
    /// The words, joined by spaces when printed.
    pub words: Seq<Seq<char>>,
    /// Whether an operator built the operand.
    pub compound: bool,
}

/// The expression renderer's state between tokens.
pub struct RenderState {
    /// The operands, the most recent last.
    pub stack: Seq<Operand>,
    /// The precedence of the last operator; five after a negation.
    pub precedence: int,
}

/// The text and precedence of a binary operator token.
pub open spec fn operator_of(token: ConditionalToken) -> (Seq<char>, int) {
    match token {
        ConditionalToken::Or => ("||"@, 1),
        ConditionalToken::Xor => ("^"@, 2),
        ConditionalToken::And => ("&&"@, 3),
        ConditionalToken::Equal => ("=="@, 4),
        _ => ("!="@, 4),
    }
}

/// The message for an operator without enough operands.
pub open spec fn missing_operand() -> Seq<char> {
    "conditional expression has a missing operand"@
}

/// The renderer's state after one more token. A binary operator takes the
/// most recent operand first and wraps the result in parentheses unless the
/// previous operator binds less tightly.
pub open spec fn render_step(policy: Policy, state: RenderState, token: ConditionalToken) -> Result<RenderState, Seq<char>> {
    match token {
        ConditionalToken::Boolean(id) => if id < policy.booleans@.len() {
            Ok(RenderState {
                stack: state.stack.push(Operand { words: seq![policy.booleans@[id as int].name@], compound: false }),
                ..state
            })
        } else {
            Err("conditional refers to a missing Boolean"@)
        },
        ConditionalToken::Not => if state.stack.len() == 0 {
            Err(missing_operand())
        } else {
            let operand = state.stack.last();
            let words = if operand.compound {
                seq!["!"@, "("@] + operand.words + seq![")"@]
            } else {
                seq!["!"@] + operand.words
            };
            Ok(RenderState { stack: state.stack.drop_last().push(Operand { words, compound: true }), precedence: 5 })
        },
        _ => if state.stack.len() < 2 {
            Err(missing_operand())
        } else {
            let (operator, precedence) = operator_of(token);
            let first = state.stack.last();
            let second = state.stack.drop_last().last();
            let inner = first.words + seq![operator] + second.words;
            let words = if state.precedence <= precedence { seq!["("@] + inner + seq![")"@] } else { inner };
            Ok(RenderState {
                stack: state.stack.drop_last().drop_last().push(Operand { words, compound: true }),
                precedence,
            })
        },
    }
}

/// The renderer's state after the given tokens, or the first error.
pub open spec fn render_tokens(policy: Policy, tokens: Seq<ConditionalToken>) -> Result<RenderState, Seq<char>>
    decreases tokens.len(),
{
    if tokens.len() == 0 {
        Ok(RenderState { stack: Seq::empty(), precedence: 5 })
    } else {
        match render_tokens(policy, tokens.drop_last()) {
            Ok(state) => render_step(policy, state, tokens.last()),
            Err(message) => Err(message),
        }
    }
}

/// The infix text of a postfix conditional expression.
pub open spec fn conditional_text(policy: Policy, tokens: Seq<ConditionalToken>) -> Result<Seq<char>, Seq<char>> {
    match render_tokens(policy, tokens) {
        Ok(state) => if state.stack.len() != 1 {
            Err("conditional expression has extra operands"@)
        } else {
            Ok(joined_by(state.stack[0].words, " "@))
        },
        Err(message) => Err(message),
    }
}

/// The plain values of the exec operand stack.
pub open spec fn operands(stack: Seq<(Vec<String>, bool)>) -> Seq<Operand> {
    stack.map_values(|entry: (Vec<String>, bool)| Operand { words: texts(entry.0@), compound: entry.1 })
}

/// Once a token fails, the expression fails with it.
proof fn lemma_render_error_stays(policy: Policy, tokens: Seq<ConditionalToken>, k: int)
    requires
        0 <= k <= tokens.len(),
        render_tokens(policy, tokens.take(k)) is Err,
    ensures
        render_tokens(policy, tokens) == render_tokens(policy, tokens.take(k)),
    decreases tokens.len(),
{
    if tokens.len() > k {
        assert(tokens.drop_last().take(k) =~= tokens.take(k));
        lemma_render_error_stays(policy, tokens.drop_last(), k);
    } else {
        assert(tokens.take(k) =~= tokens);
    }
}

/// Appends copies of strings.
fn push_all(output: &mut Vec<String>, values: &Vec<String>)
    ensures
        texts(final(output)@) == texts(old(output)@) + texts(values@),
{
    let ghost before = texts(output@);
    let mut index: usize = 0;
    while index < values.len()
        invariant
            index <= values.len(),
            texts(output@) == before + texts(values@).take(index as int),
        decreases values.len() - index,
    {
        let ghost middle = texts(output@);
        output.push(owned(values[index].as_str()));
        proof {
            assert(texts(output@) =~= middle.push(values@[index as int]@));
            assert(texts(values@).take(index + 1) =~= texts(values@).take(index as int).push(values@[index as int]@));
        }
        index = index + 1;
    }
    assert(texts(values@).take(values.len() as int) =~= texts(values@));
}

/// Writes a postfix conditional expression in infix form, Boolean names
/// and operators separated by spaces.
pub fn render_conditional(policy: &Policy, tokens: &Vec<ConditionalToken>) -> (result: Result<String, String>)
    ensures
        match conditional_text(*policy, tokens@) {
            Ok(text) => result matches Ok(r) && r@ == text,
            Err(message) => result matches Err(m) && m@ == message,
        },
{
    let mut stack: Vec<(Vec<String>, bool)> = Vec::new();
    let mut previous: u8 = 5;
    let mut index: usize = 0;
    proof {
        assert(tokens@.take(0) =~= Seq::<ConditionalToken>::empty());
        assert(operands(stack@) =~= Seq::<Operand>::empty());
    }
    while index < tokens.len()
        invariant
            index <= tokens.len(),
            render_tokens(*policy, tokens@.take(index as int))
                == Ok::<RenderState, Seq<char>>(RenderState { stack: operands(stack@), precedence: previous as int }),
        decreases tokens.len() - index,
    {
        let token = tokens[index];
        let ghost state = RenderState { stack: operands(stack@), precedence: previous as int };
        proof {
            assert(tokens@.take(index + 1).drop_last() =~= tokens@.take(index as int));
            assert(tokens@.take(index + 1).last() == token);
        }
        match token {
            ConditionalToken::Boolean(id) => {
                if id >= policy.booleans.len() {
                    proof {
                        lemma_render_error_stays(*policy, tokens@, index + 1);
                    }
                    return Err(owned("conditional refers to a missing Boolean"));
                }
                let mut words: Vec<String> = Vec::new();
                words.push(owned(policy.booleans[id].name.as_str()));
                let ghost before = stack@;
                stack.push((words, false));
                proof {
                    assert(texts(words@) =~= seq![policy.booleans@[id as int].name@]);
                    assert(operands(stack@) =~= operands(before).push(Operand {
                        words: seq![policy.booleans@[id as int].name@], compound: false }));
                }
            },
            ConditionalToken::Not => {
                let ghost before = stack@;
                let popped = stack.pop();
                let (operand, compound) = match popped {
                    Some(entry) => entry,
                    None => {
                        proof {
                            lemma_render_error_stays(*policy, tokens@, index + 1);
                        }
                        return Err(owned("conditional expression has a missing operand"));
                    },
                };
                proof {
                    assert(before =~= stack@.push((operand, compound)));
                    assert(operands(stack@) =~= operands(before).drop_last());
                    assert(operands(before).last() == Operand { words: texts(operand@), compound });
                }
                let mut words: Vec<String> = Vec::new();
                words.push(owned("!"));
                assert(texts(words@) =~= seq!["!"@]);
                if compound {
                    words.push(owned("("));
                    assert(texts(words@) =~= seq!["!"@, "("@]);
                    push_all(&mut words, &operand);
                    let ghost opened = texts(words@);
                    words.push(owned(")"));
                    assert(texts(words@) =~= opened.push(")"@));
                    assert(texts(words@) =~= seq!["!"@, "("@] + texts(operand@) + seq![")"@]);
                } else {
                    push_all(&mut words, &operand);
                }
                let ghost middle = stack@;
                stack.push((words, true));
                previous = 5;
                proof {
                    let expected = if compound {
                        seq!["!"@, "("@] + texts(operand@) + seq![")"@]
                    } else {
                        seq!["!"@] + texts(operand@)
                    };
                    assert(texts(words@) =~= expected);
                    assert(operands(stack@) =~= operands(middle).push(Operand { words: expected, compound: true }));
                }
            },
            _ => {
                let (operator, precedence): (&str, u8) = match token {
                    ConditionalToken::Or => ("||", 1),
                    ConditionalToken::Xor => ("^", 2),
                    ConditionalToken::And => ("&&", 3),
                    ConditionalToken::Equal => ("==", 4),
                    _ => ("!=", 4),
                };
                assert(operator@ == operator_of(token).0 && precedence as int == operator_of(token).1);
                let ghost before = stack@;
                let first = stack.pop();
                let second = stack.pop();
                let ((first_words, _), (second_words, _)) = match (first, second) {
                    (Some(a), Some(b)) => (a, b),
                    _ => {
                        proof {
                            assert(before.len() < 2);
                            lemma_render_error_stays(*policy, tokens@, index + 1);
                        }
                        return Err(owned("conditional expression has a missing operand"));
                    },
                };
                proof {
                    assert(before.len() >= 2);
                    assert(operands(before).last().words == texts(first_words@));
                    assert(operands(before).drop_last().last().words == texts(second_words@));
                    assert(operands(stack@) =~= operands(before).drop_last().drop_last());
                }
                let parenthesized = previous <= precedence;
                let mut words: Vec<String> = Vec::new();
                let ghost start: Seq<Seq<char>> = if parenthesized { seq!["("@] } else { Seq::empty() };
                if parenthesized {
                    words.push(owned("("));
                }
                assert(texts(words@) =~= start);
                push_all(&mut words, &first_words);
                let ghost with_first = texts(words@);
                words.push(owned(operator));
                assert(texts(words@) =~= with_first.push(operator@));
                push_all(&mut words, &second_words);
                let ghost body = texts(words@);
                assert(body =~= start + (texts(first_words@) + seq![operator@] + texts(second_words@)));
                if parenthesized {
                    words.push(owned(")"));
                    assert(texts(words@) =~= body.push(")"@));
                }
                let ghost middle = stack@;
                stack.push((words, true));
                proof {
                    let inner = texts(first_words@) + seq![operator@] + texts(second_words@);
                    let expected = if parenthesized { seq!["("@] + inner + seq![")"@] } else { inner };
                    assert(texts(words@) =~= expected);
                    assert(operands(stack@) =~= operands(middle).push(Operand { words: expected, compound: true }));
                }
                previous = precedence;
            },
        }
        index = index + 1;
    }
    proof {
        assert(tokens@.take(tokens.len() as int) =~= tokens@);
    }
    if stack.len() != 1 {
        return Err(owned("conditional expression has extra operands"));
    }
    assert(operands(stack@)[0].words == texts(stack@[0].0@));
    Ok(join_texts(&stack[0].0, " "))
}

/// The policy-language keyword of a rule kind.
pub open spec fn kind_keyword(kind: TeRuleKind) -> Seq<char> {
    match kind {
        TeRuleKind::Allow => "allow"@,
        TeRuleKind::AuditAllow => "auditallow"@,
        TeRuleKind::DontAudit => "dontaudit"@,
        TeRuleKind::NeverAllow => "neverallow"@,
        TeRuleKind::TypeTransition => "type_transition"@,
        TeRuleKind::TypeChange => "type_change"@,
        TeRuleKind::TypeMember => "type_member"@,
    }
}

/// Returns the policy-language keyword of a rule kind.
pub fn keyword(kind: TeRuleKind) -> (result: &'static str)
    ensures
        result@ == kind_keyword(kind),
{
    match kind {
        TeRuleKind::Allow => "allow",
        TeRuleKind::AuditAllow => "auditallow",
        TeRuleKind::DontAudit => "dontaudit",
        TeRuleKind::NeverAllow => "neverallow",
        TeRuleKind::TypeTransition => "type_transition",
        TeRuleKind::TypeChange => "type_change",
        TeRuleKind::TypeMember => "type_member",
    }
}

/// The message for a rule naming a type that is not in the policy.
pub open spec fn missing_type() -> Seq<char> {
    "rule refers to a missing type symbol"@
}

/// The permission names of a rule's numbered permissions, in order.
pub open spec fn permission_names(policy: Policy, class: int, ids: Seq<usize>) -> Seq<Seq<char>> {
    ids.map_values(|id: usize| policy.classes@[class].permissions@[id as int]@)
}

/// What a rule grants: its sorted permission names, braced when there is
/// not exactly one, or its default type; then a semicolon.
pub open spec fn rule_body(policy: Policy, rule: TeRule) -> Result<Seq<char>, Seq<char>> {
    match rule.data {
        TeRuleData::Permissions(ids) => {
            let class = policy.classes@[rule.target_class as int];
            if exists|k: int| 0 <= k < ids@.len() && ids@[k] >= class.permissions@.len() {
                Err("rule refers to a missing permission"@)
            } else {
                let names = permission_names(policy, rule.target_class as int, ids@).sort_by(text_order());
                Ok(if names.len() == 1 { names[0] } else { "{ "@ + joined_by(names, " "@) + " }"@ } + ";"@)
            }
        },
        TeRuleData::DefaultType(default) => if default < policy.types@.len() {
            Ok(policy.types@[default as int].name@ + ";"@)
        } else {
            Err(missing_type())
        },
    }
}

/// The policy-language statement of a rule, with the guarding expression and
/// branch of a conditional rule.
pub open spec fn rule_statement(policy: Policy, rule: TeRule) -> Result<Seq<char>, Seq<char>> {
    if rule.source >= policy.types@.len() || rule.target >= policy.types@.len() {
        Err(missing_type())
    } else if rule.target_class >= policy.classes@.len() {
        Err("rule refers to a missing object class"@)
    } else {
        let prefix = kind_keyword(rule.kind) + " "@ + policy.types@[rule.source as int].name@ + " "@
            + policy.types@[rule.target as int].name@ + ":"@ + policy.classes@[rule.target_class as int].name@ + " "@;
        match rule_body(policy, rule) {
            Err(message) => Err(message),
            Ok(body) => match rule.condition {
                None => Ok(prefix + body),
                Some(condition) => if condition.conditional >= policy.conditionals@.len() {
                    Err("rule refers to a missing conditional expression"@)
                } else {
                    match conditional_text(policy, policy.conditionals@[condition.conditional as int]@) {
                        Err(message) => Err(message),
                        Ok(expression) => Ok(prefix + body + " [ "@ + expression + " ]:"@
                            + if condition.block { "True"@ } else { "False"@ }),
                    }
                },
            },
        }
    }
}

/// Writes what a rule grants.
fn render_body(policy: &Policy, rule: &TeRule) -> (result: Result<String, String>)
    requires
        rule.target_class < policy.classes@.len(),
    ensures
        match rule_body(*policy, *rule) {
            Ok(text) => result matches Ok(r) && r@ == text,
            Err(message) => result matches Err(m) && m@ == message,
        },
{
    match &rule.data {
        TeRuleData::Permissions(ids) => {
            let class = &policy.classes[rule.target_class];
            let ghost all = permission_names(*policy, rule.target_class as int, ids@);
            let mut names: Vec<String> = Vec::new();
            let mut index: usize = 0;
            while index < ids.len()
                invariant
                    index <= ids@.len(),
                    rule.data matches TeRuleData::Permissions(v) && v@ == ids@,
                    rule.target_class < policy.classes@.len(),
                    *class == policy.classes@[rule.target_class as int],
                    all == permission_names(*policy, rule.target_class as int, ids@),
                    forall|k: int| 0 <= k < index ==> ids@[k] < class.permissions@.len(),
                    texts(names@) == all.take(index as int),
                decreases ids@.len() - index,
            {
                let id = ids[index];
                if id >= class.permissions.len() {
                    assert(0 <= index < ids@.len() && ids@[index as int] >= class.permissions@.len());
                    return Err(owned("rule refers to a missing permission"));
                }
                let ghost before = texts(names@);
                names.push(owned(class.permissions[id].as_str()));
                proof {
                    assert(texts(names@) =~= before.push(class.permissions@[id as int]@));
                    assert(all.take(index + 1) =~= all.take(index as int).push(all[index as int]));
                }
                index = index + 1;
            }
            proof {
                assert(all.take(ids@.len() as int) =~= all);
            }
            let sorted = sort_texts(&names);
            let mut text = String::new();
            if sorted.len() == 1 {
                push_str(&mut text, sorted[0].as_str());
                assert(text@ =~= texts(sorted@)[0]);
            } else {
                push_str(&mut text, "{ ");
                let joined = join_texts(&sorted, " ");
                push_str(&mut text, joined.as_str());
                push_str(&mut text, " }");
            }
            push_str(&mut text, ";");
            Ok(text)
        },
        TeRuleData::DefaultType(default) => {
            if *default >= policy.types.len() {
                return Err(owned("rule refers to a missing type symbol"));
            }
            let mut text = owned(policy.types[*default].name.as_str());
            push_str(&mut text, ";");
            Ok(text)
        },
    }
}

/// Writes a rule as a policy-language statement; a conditional rule gets
/// its expression and branch appended.
pub fn render_rule(policy: &Policy, rule: &TeRule) -> (result: Result<String, String>)
    ensures
        match rule_statement(*policy, *rule) {
            Ok(text) => result matches Ok(r) && r@ == text,
            Err(message) => result matches Err(m) && m@ == message,
        },
{
    if rule.source >= policy.types.len() || rule.target >= policy.types.len() {
        return Err(owned("rule refers to a missing type symbol"));
    }
    if rule.target_class >= policy.classes.len() {
        return Err(owned("rule refers to a missing object class"));
    }
    let mut statement = owned(keyword(rule.kind));
    push_str(&mut statement, " ");
    push_str(&mut statement, policy.types[rule.source].name.as_str());
    push_str(&mut statement, " ");
    push_str(&mut statement, policy.types[rule.target].name.as_str());
    push_str(&mut statement, ":");
    push_str(&mut statement, policy.classes[rule.target_class].name.as_str());
    push_str(&mut statement, " ");
    let body = match render_body(policy, rule) {
        Ok(body) => body,
        Err(message) => {
            return Err(message);
        },
    };
    push_str(&mut statement, body.as_str());
    match rule.condition {
        None => Ok(statement),
        Some(condition) => {
            if condition.conditional >= policy.conditionals.len() {
                return Err(owned("rule refers to a missing conditional expression"));
            }
            let expression = match render_conditional(policy, &policy.conditionals[condition.conditional]) {
                Ok(expression) => expression,
                Err(message) => {
                    return Err(message);
                },
            };
            push_str(&mut statement, " [ ");
            push_str(&mut statement, expression.as_str());
            push_str(&mut statement, " ]:");
            push_str(&mut statement, if condition.block { "True" } else { "False" });
            Ok(statement)
        },
    }
}

} // verus!
