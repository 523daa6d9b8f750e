//! The object-class listings of the policy information tool: classes with
//! their common and own permissions, `default_*` rules, and constraints
//! with their expressions written back from postfix order.
use vstd::prelude::*;
use crate::text::{texts, owned, push_str, joined_by, join_texts, text_order, sort_texts, same_text};
use crate::policy::Policy;
use crate::seinfo::{name_ok, by_name, named, sort_named, renderings};
use crate::arguments::text_view;
use crate::numbers::{BuildError, error_view};

verus! {

/// What a class inherits and declares itself.
#[derive(Debug)]
pub struct ClassDetail {
    /// The common it inherits, if any.
    pub common: Option<String>,
    /// The permissions it declares itself.
    pub local_permissions: Vec<String>,
}

/// A `default_*` rule: its keyword, the number of its class, the keyword
/// of the value it takes, and the keyword of the range part it takes.
#[derive(Debug)]
pub struct DefaultRule {
    /// `default_user`, `default_role`, `default_type` or `default_range`.
    pub keyword: String,
    /// The number of the object class.
    pub class: usize,
    /// The value's keyword.
    pub value: String,
    /// The range part's keyword, for a range default.
    pub range_part: Option<String>,
}

/// One token of a constraint expression in postfix order.
#[derive(Debug)]
pub enum ExprToken {
    /// An operand written as it is.
    Operand(String),
    /// A list of names, written sorted and, when there are several, in
    /// braces.
    Names(Vec<String>),
    /// An operator with its keyword and binding strength; a unary one
    /// (`not`) takes one operand.
    Operator { keyword: String, precedence: u8, unary: bool },
}

/// A constraint or validate-transition rule.
#[derive(Debug)]
pub struct Constraint {
    /// The statement keyword.
    pub keyword: String,
    /// Whether it is a validate-transition rule.
    pub validate_transition: bool,
    /// The number of the object class.
    pub class: usize,
    /// The names of the permissions it constrains.
    pub permissions: Vec<String>,
    /// The expression in postfix order.
    pub expression: Vec<ExprToken>,
}

/// A list of names written sorted: several in braces, else as they are.
pub open spec fn names_text(names: Seq<Seq<char>>) -> Seq<char> {
    let sorted = names.sort_by(text_order());
    if sorted.len() > 1 { "{ "@ + joined_by(sorted, " "@) + " }"@ } else { joined_by(sorted, " "@) }
}

/// An operand in parentheses when it binds less strongly than required.
pub open spec fn parenthesized(entry: (int, Seq<char>), required: int) -> Seq<char> {
    if entry.0 < required { "( "@ + entry.1 + " )"@ } else { entry.1 }
}

/// The stack of written operands after one more token, or `None` when an
/// operator lacks operands.
pub open spec fn expression_step(stack: Seq<(int, Seq<char>)>, token: ExprToken) -> Option<Seq<(int, Seq<char>)>> {
    match token {
        ExprToken::Operand(value) => Some(stack.push((4, value@))),
        ExprToken::Names(values) => Some(stack.push((4, names_text(texts(values@))))),
        ExprToken::Operator { keyword, precedence, unary } => if unary {
            if stack.len() < 1 {
                None
            } else {
                Some(stack.drop_last().push((precedence as int, "not "@ + parenthesized(stack.last(), precedence as int))))
            }
        } else {
            if stack.len() < 2 {
                None
            } else {
                let right = stack.last();
                let left = stack[stack.len() - 2];
                Some(stack.drop_last().drop_last().push((precedence as int,
                    parenthesized(left, precedence as int) + " "@ + keyword@ + " "@ + parenthesized(right, precedence as int))))
            }
        },
    }
}

/// The stack after all tokens, or `None` when an operator lacks operands.
pub open spec fn expression_stack(tokens: Seq<ExprToken>) -> Option<Seq<(int, Seq<char>)>>
    decreases tokens.len(),
{
    if tokens.len() == 0 {
        Some(Seq::empty())
    } else {
        match expression_stack(tokens.drop_last()) {
            None => None,
            Some(stack) => expression_step(stack, tokens.last()),
        }
    }
}

/// A postfix expression written in infix order: what is left on the stack,
/// joined by spaces, or a marker when it is malformed.
pub open spec fn expression_text(tokens: Seq<ExprToken>) -> Seq<char> {
    match expression_stack(tokens) {
        None => "<invalid expression>"@,
        Some(stack) => joined_by(stack.map_values(|e: (int, Seq<char>)| e.1), " "@),
    }
}

/// A constraint written as a statement.
pub open spec fn constraint_text(policy: Policy, c: Constraint) -> Seq<char> {
    let class = policy.classes@[c.class as int].name@;
    let expression = expression_text(c.expression@);
    if c.validate_transition {
        c.keyword@ + " "@ + class + " ("@ + expression + ");"@
    } else {
        let permissions = texts(c.permissions@).sort_by(text_order());
        let listed = if permissions.len() == 1 { permissions[0] } else { "{ "@ + joined_by(permissions, " "@) + " }"@ };
        c.keyword@ + " "@ + class + " "@ + listed + " ("@ + expression + ");"@
    }
}

/// A `default_*` rule written as a statement.
pub open spec fn default_text(policy: Policy, rule: DefaultRule) -> Seq<char> {
    let base = rule.keyword@ + " "@ + policy.classes@[rule.class as int].name@ + " "@ + rule.value@;
    match rule.range_part {
        Some(part) => base + " "@ + part@ + ";"@,
        None => base + ";"@,
    }
}

/// A class by name, or as its statement.
pub open spec fn class_text(policy: Policy, details: Seq<ClassDetail>, i: int, expand: bool) -> Seq<char> {
    let name = policy.classes@[i].name@;
    let detail = details[i];
    let inherits = match detail.common {
        Some(common) => "inherits "@ + common@ + "\n"@,
        None => Seq::empty(),
    };
    let own = if detail.local_permissions@.len() == 0 {
        Seq::empty()
    } else {
        "{\n\t"@ + joined_by(texts(detail.local_permissions@), "\n\t"@) + "\n}"@
    };
    if expand { "class "@ + name + "\n"@ + inherits + own } else { name }
}

/// The classes at the answered positions, written.
pub open spec fn answered_classes(policy: Policy, details: Seq<ClassDetail>, ids: Seq<usize>, expand: bool) -> Seq<(Seq<char>, Seq<char>)> {
    ids.map_values(|i: usize| (policy.classes@[i as int].name@, class_text(policy, details, i as int, expand)))
}

/// The constraints of the kind whose class the criterion selects, written,
/// in rule order.
pub open spec fn constraint_items(policy: Policy, rules: Seq<Constraint>, crit: Option<Seq<char>>, validate: bool) -> Seq<Seq<char>>
    decreases rules.len(),
{
    if rules.len() == 0 {
        Seq::empty()
    } else {
        let before = constraint_items(policy, rules.drop_last(), crit, validate);
        let r = rules.last();
        if r.validate_transition == validate && name_ok(policy.classes@[r.class as int].name@, crit) {
            before.push(constraint_text(policy, r))
        } else {
            before
        }
    }
}

/// The `default_*` rules whose class the criterion selects, written, in
/// rule order.
pub open spec fn default_items(policy: Policy, rules: Seq<DefaultRule>, crit: Option<Seq<char>>) -> Seq<Seq<char>>
    decreases rules.len(),
{
    if rules.len() == 0 {
        Seq::empty()
    } else {
        let before = default_items(policy, rules.drop_last(), crit);
        if name_ok(policy.classes@[rules.last().class as int].name@, crit) {
            before.push(default_text(policy, rules.last()))
        } else {
            before
        }
    }
}

/// The error a class criterion gives when it names no class of the policy.
pub open spec fn class_error(policy: Policy, crit: Option<Seq<char>>) -> Option<(bool, Seq<char>)> {
    match crit {
        Some(name) => if exists|i: int| 0 <= i < policy.classes@.len() && policy.classes@[i].name@ == name {
            None
        } else {
            Some((false, name + " is not a valid class"@))
        },
        None => None,
    }
}


/// The plain values of a stack of written operands.
spec fn stack_view(stack: Seq<(u8, String)>) -> Seq<(int, Seq<char>)> {
    stack.map_values(|e: (u8, String)| (e.0 as int, e.1@))
}

/// Once an operator lacks operands, later tokens change nothing.
proof fn lemma_invalid_stays(tokens: Seq<ExprToken>, k: int)
    requires
        0 <= k <= tokens.len(),
        expression_stack(tokens.take(k)) is None,
    ensures
        expression_stack(tokens) is None,
    decreases tokens.len(),
{
    if tokens.len() > k {
        assert(tokens.drop_last().take(k) =~= tokens.take(k));
        lemma_invalid_stays(tokens.drop_last(), k);
    } else {
        assert(tokens.take(k) =~= tokens);
    }
}

/// Writes a list of names sorted: several in braces.
fn write_names(values: &Vec<String>) -> (result: String)
    ensures
        result@ == names_text(texts(values@)),
{
    let sorted = sort_texts(values);
    let joined = join_texts(&sorted, " ");
    if sorted.len() > 1 {
        let mut text = owned("{ ");
        push_str(&mut text, joined.as_str());
        push_str(&mut text, " }");
        assert(text@ =~= names_text(texts(values@)));
        text
    } else {
        joined
    }
}

/// Writes an operand in parentheses when it binds less strongly than
/// required.
fn write_parenthesized(entry: (u8, String), required: u8) -> (result: String)
    ensures
        result@ == parenthesized((entry.0 as int, entry.1@), required as int),
{
    if entry.0 < required {
        let mut text = owned("( ");
        push_str(&mut text, entry.1.as_str());
        push_str(&mut text, " )");
        assert(text@ =~= parenthesized((entry.0 as int, entry.1@), required as int));
        text
    } else {
        entry.1
    }
}

/// Writes a postfix constraint expression in infix order.
pub fn write_expression(tokens: &Vec<ExprToken>) -> (result: String)
    ensures
        result@ == expression_text(tokens@),
{
    let mut stack: Vec<(u8, String)> = Vec::new();
    let mut index: usize = 0;
    assert(tokens@.take(0) =~= Seq::<ExprToken>::empty());
    assert(stack_view(stack@) =~= Seq::<(int, Seq<char>)>::empty());
    while index < tokens.len()
        invariant
            index <= tokens@.len(),
            expression_stack(tokens@.take(index as int)) == Some(stack_view(stack@)),
        decreases tokens.len() - index,
    {
        let ghost taken = tokens@.take(index as int + 1);
        assert(taken.drop_last() =~= tokens@.take(index as int));
        assert(taken.last() == tokens@[index as int]);
        let ghost before = stack_view(stack@);
        match &tokens[index] {
            ExprToken::Operand(value) => {
                stack.push((4u8, owned(value.as_str())));
                assert(stack_view(stack@) =~= before.push((4, value@)));
            },
            ExprToken::Names(values) => {
                let text = write_names(values);
                stack.push((4u8, text));
                assert(stack_view(stack@) =~= before.push((4, names_text(texts(values@)))));
            },
            ExprToken::Operator { keyword, precedence, unary } => {
                if *unary {
                    match stack.pop() {
                        None => {
                            proof {
                                lemma_invalid_stays(tokens@, index as int + 1);
                            }
                            return owned("<invalid expression>");
                        },
                        Some(operand) => {
                            assert(stack_view(stack@) =~= before.drop_last());
                            let ghost written = (operand.0 as int, operand.1@);
                            assert(written == before.last());
                            let inner = write_parenthesized(operand, *precedence);
                            let mut text = owned("not ");
                            push_str(&mut text, inner.as_str());
                            let ghost view = text@;
                            stack.push((*precedence, text));
                            assert(stack_view(stack@) =~= before.drop_last().push((*precedence as int, view)));
                        },
                    }
                } else {
                    if stack.len() < 2 {
                        proof {
                            lemma_invalid_stays(tokens@, index as int + 1);
                        }
                        return owned("<invalid expression>");
                    }
                    let right = stack.pop().unwrap();
                    let left = stack.pop().unwrap();
                    assert(stack_view(stack@) =~= before.drop_last().drop_last());
                    assert((right.0 as int, right.1@) == before.last());
                    assert((left.0 as int, left.1@) == before[before.len() - 2]);
                    let mut text = write_parenthesized(left, *precedence);
                    push_str(&mut text, " ");
                    push_str(&mut text, keyword.as_str());
                    push_str(&mut text, " ");
                    let second = write_parenthesized(right, *precedence);
                    push_str(&mut text, second.as_str());
                    let ghost view = text@;
                    stack.push((*precedence, text));
                    assert(stack_view(stack@) =~= before.drop_last().drop_last().push((*precedence as int, view)));
                }
            },
        }
        index = index + 1;
    }
    assert(tokens@.take(tokens.len() as int) =~= tokens@);
    let mut parts: Vec<String> = Vec::new();
    let mut k: usize = 0;
    let ghost finished = stack_view(stack@).map_values(|e: (int, Seq<char>)| e.1);
    while k < stack.len()
        invariant
            k <= stack@.len(),
            finished == stack_view(stack@).map_values(|e: (int, Seq<char>)| e.1),
            texts(parts@) == finished.take(k as int),
        decreases stack.len() - k,
    {
        let ghost before = texts(parts@);
        parts.push(owned(stack[k].1.as_str()));
        assert(texts(parts@) =~= before.push(finished[k as int]));
        assert(finished.take(k as int + 1) =~= finished.take(k as int).push(finished[k as int]));
        k = k + 1;
    }
    assert(finished.take(stack@.len() as int) =~= finished);
    join_texts(&parts, " ")
}

/// Writes a constraint.
fn write_constraint(policy: &Policy, c: &Constraint) -> (result: String)
    requires
        c.class < policy.classes@.len(),
    ensures
        result@ == constraint_text(*policy, *c),
{
    let expression = write_expression(&c.expression);
    let mut text = owned(c.keyword.as_str());
    push_str(&mut text, " ");
    push_str(&mut text, policy.classes[c.class].name.as_str());
    if !c.validate_transition {
        push_str(&mut text, " ");
        let permissions = sort_texts(&c.permissions);
        if permissions.len() == 1 {
            push_str(&mut text, permissions[0].as_str());
        } else {
            push_str(&mut text, "{ ");
            let joined = join_texts(&permissions, " ");
            push_str(&mut text, joined.as_str());
            push_str(&mut text, " }");
        }
    }
    push_str(&mut text, " (");
    push_str(&mut text, expression.as_str());
    push_str(&mut text, ");");
    assert(text@ =~= constraint_text(*policy, *c));
    text
}

/// Writes a `default_*` rule.
fn write_default(policy: &Policy, rule: &DefaultRule) -> (result: String)
    requires
        rule.class < policy.classes@.len(),
    ensures
        result@ == default_text(*policy, *rule),
{
    let mut text = owned(rule.keyword.as_str());
    push_str(&mut text, " ");
    push_str(&mut text, policy.classes[rule.class].name.as_str());
    push_str(&mut text, " ");
    push_str(&mut text, rule.value.as_str());
    match &rule.range_part {
        Some(part) => {
            push_str(&mut text, " ");
            push_str(&mut text, part.as_str());
        },
        None => {},
    }
    push_str(&mut text, ";");
    assert(text@ =~= default_text(*policy, *rule));
    text
}

/// Writes a class.
fn write_class(policy: &Policy, details: &Vec<ClassDetail>, i: usize, expand: bool) -> (result: String)
    requires
        i < policy.classes@.len(),
        i < details@.len(),
    ensures
        result@ == class_text(*policy, details@, i as int, expand),
{
    let name = policy.classes[i].name.as_str();
    if !expand {
        return owned(name);
    }
    let detail = &details[i];
    let mut text = owned("class ");
    push_str(&mut text, name);
    push_str(&mut text, "\n");
    match &detail.common {
        Some(common) => {
            push_str(&mut text, "inherits ");
            push_str(&mut text, common.as_str());
            push_str(&mut text, "\n");
        },
        None => {},
    }
    if detail.local_permissions.len() > 0 {
        push_str(&mut text, "{\n\t");
        let joined = join_texts(&detail.local_permissions, "\n\t");
        push_str(&mut text, joined.as_str());
        push_str(&mut text, "\n}");
    }
    assert(text@ =~= class_text(*policy, details@, i as int, expand));
    text
}

/// Whether a name satisfies a criterion.
fn fits(name: &str, crit: &Option<String>) -> (result: bool)
    ensures
        result == name_ok(name@, text_view(*crit)),
{
    match crit {
        None => true,
        Some(c) => same_text(c.as_str(), name),
    }
}

/// The classes at the answered positions, written and sorted by name.
pub fn class_texts(policy: &Policy, details: &Vec<ClassDetail>, ids: &Vec<usize>, expand: bool) -> (result: Vec<String>)
    requires
        details@.len() == policy.classes@.len(),
        forall|k: int| 0 <= k < ids@.len() ==> #[trigger] ids@[k] < policy.classes@.len(),
    ensures
        texts(result@) == by_name(answered_classes(*policy, details@, ids@, expand)),
{
    let mut pairs: Vec<(String, String)> = Vec::new();
    let mut k: usize = 0;
    while k < ids.len()
        invariant
            k <= ids@.len(),
            details@.len() == policy.classes@.len(),
            forall|j: int| 0 <= j < ids@.len() ==> #[trigger] ids@[j] < policy.classes@.len(),
            named(pairs@) == answered_classes(*policy, details@, ids@, expand).take(k as int),
        decreases ids.len() - k,
    {
        let i = ids[k];
        let text = write_class(policy, details, i, expand);
        let ghost before = named(pairs@);
        let ghost pair = (policy.classes@[i as int].name@, class_text(*policy, details@, i as int, expand));
        pairs.push((owned(policy.classes[i].name.as_str()), text));
        assert(named(pairs@) =~= before.push(pair));
        assert(answered_classes(*policy, details@, ids@, expand).take(k as int + 1)
            =~= answered_classes(*policy, details@, ids@, expand).take(k as int).push(pair));
        k = k + 1;
    }
    assert(answered_classes(*policy, details@, ids@, expand).take(ids@.len() as int)
        =~= answered_classes(*policy, details@, ids@, expand));
    let sorted = sort_named(&pairs);
    renderings(&sorted)
}

/// The constraints of a kind whose class the criterion selects, written
/// and sorted.
pub fn constraint_texts(policy: &Policy, rules: &Vec<Constraint>, crit: &Option<String>, validate: bool) -> (result: Vec<String>)
    requires
        forall|k: int| 0 <= k < rules@.len() ==> #[trigger] rules@[k].class < policy.classes@.len(),
    ensures
        texts(result@) == constraint_items(*policy, rules@, text_view(*crit), validate).sort_by(text_order()),
{
    let mut items: Vec<String> = Vec::new();
    let mut index: usize = 0;
    assert(rules@.take(0) =~= Seq::<Constraint>::empty());
    assert(texts(items@) =~= Seq::<Seq<char>>::empty());
    while index < rules.len()
        invariant
            index <= rules@.len(),
            forall|k: int| 0 <= k < rules@.len() ==> #[trigger] rules@[k].class < policy.classes@.len(),
            texts(items@) == constraint_items(*policy, rules@.take(index as int), text_view(*crit), validate),
        decreases rules.len() - index,
    {
        let rule = &rules[index];
        let ghost taken = rules@.take(index as int + 1);
        assert(taken.drop_last() =~= rules@.take(index as int));
        assert(taken.last() == rules@[index as int]);
        assert(rule.class < policy.classes@.len());
        if rule.validate_transition == validate && fits(policy.classes[rule.class].name.as_str(), crit) {
            let text = write_constraint(policy, rule);
            let ghost before = texts(items@);
            items.push(text);
            assert(texts(items@) =~= before.push(constraint_text(*policy, *rule)));
        }
        index = index + 1;
    }
    assert(rules@.take(rules.len() as int) =~= rules@);
    sort_texts(&items)
}

/// The `default_*` rules whose class the criterion selects, written and
/// sorted.
pub fn default_texts(policy: &Policy, rules: &Vec<DefaultRule>, crit: &Option<String>) -> (result: Vec<String>)
    requires
        forall|k: int| 0 <= k < rules@.len() ==> #[trigger] rules@[k].class < policy.classes@.len(),
    ensures
        texts(result@) == default_items(*policy, rules@, text_view(*crit)).sort_by(text_order()),
{
    let mut items: Vec<String> = Vec::new();
    let mut index: usize = 0;
    assert(rules@.take(0) =~= Seq::<DefaultRule>::empty());
    assert(texts(items@) =~= Seq::<Seq<char>>::empty());
    while index < rules.len()
        invariant
            index <= rules@.len(),
            forall|k: int| 0 <= k < rules@.len() ==> #[trigger] rules@[k].class < policy.classes@.len(),
            texts(items@) == default_items(*policy, rules@.take(index as int), text_view(*crit)),
        decreases rules.len() - index,
    {
        let rule = &rules[index];
        let ghost taken = rules@.take(index as int + 1);
        assert(taken.drop_last() =~= rules@.take(index as int));
        assert(taken.last() == rules@[index as int]);
        assert(rule.class < policy.classes@.len());
        if fits(policy.classes[rule.class].name.as_str(), crit) {
            let text = write_default(policy, rule);
            let ghost before = texts(items@);
            items.push(text);
            assert(texts(items@) =~= before.push(default_text(*policy, *rule)));
        }
        index = index + 1;
    }
    assert(rules@.take(rules.len() as int) =~= rules@);
    sort_texts(&items)
}

/// Checks that a class criterion names a class of the policy.
pub fn check_class(policy: &Policy, crit: &Option<String>) -> (result: Option<BuildError>)
    ensures
        match result {
            Some(e) => class_error(*policy, text_view(*crit)) == Some(error_view(e)),
            None => class_error(*policy, text_view(*crit)) is None,
        },
{
    match crit {
        None => None,
        Some(name) => {
            let mut i: usize = 0;
            while i < policy.classes.len()
                invariant
                    i <= policy.classes@.len(),
                    text_view(*crit) == Some(name@),
                    forall|j: int| 0 <= j < i ==> policy.classes@[j].name@ != name@,
                decreases policy.classes.len() - i,
            {
                if same_text(policy.classes[i].name.as_str(), name.as_str()) {
                    assert(0 <= i < policy.classes@.len() && policy.classes@[i as int].name@ == name@);
                    return None;
                }
                i = i + 1;
            }
            let mut message = owned(name.as_str());
            push_str(&mut message, " is not a valid class");
            Some(BuildError::Analysis(message))
        },
    }
}

} // verus!
