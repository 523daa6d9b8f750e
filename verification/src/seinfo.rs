//! The component listings of the policy information tool: which symbols a
//! query selects, in what order, and how each is written.
use vstd::prelude::*;
use crate::text::{texts, owned, push_str, chars_of, text_lt, text_less, same_text, lemma_text_lt_total,
    lemma_text_lt_transitive, lemma_text_lt_irreflexive, joined_by, join_texts, text_order, sort_texts};
use crate::policy::{Policy, AliasedSymbol};

verus! {

/// A symbol's name paired with its rendering.
pub open spec fn named(values: Seq<(String, String)>) -> Seq<(Seq<char>, Seq<char>)> {
    values.map_values(|v: (String, String)| (v.0@, v.1@))
}

/// Pairs ordered by name, then by rendering.
pub open spec fn name_pair_order() -> spec_fn((Seq<char>, Seq<char>), (Seq<char>, Seq<char>)) -> bool {
    |a: (Seq<char>, Seq<char>), b: (Seq<char>, Seq<char>)| text_lt(a.0, b.0) || (a.0 == b.0 && (text_lt(a.1, b.1) || a.1 == b.1))
}

/// The pair order is a total order.
proof fn lemma_name_pair_order_total()
    ensures
        vstd::relations::total_ordering(name_pair_order()),
{
    let le = name_pair_order();
    assert forall|a: (Seq<char>, Seq<char>)| #[trigger] le(a, a) by {}
    assert forall|a: (Seq<char>, Seq<char>), b: (Seq<char>, Seq<char>)| #[trigger] le(a, b) && #[trigger] le(b, a) implies a == b by {
        if a.0 != b.0 {
            lemma_text_lt_transitive(a.0, b.0, a.0);
            lemma_text_lt_irreflexive(a.0);
        } else {
            lemma_text_lt_irreflexive(a.0);
            if a.1 != b.1 {
                lemma_text_lt_transitive(a.1, b.1, a.1);
                lemma_text_lt_irreflexive(a.1);
            }
        }
    }
    assert forall|a: (Seq<char>, Seq<char>), b: (Seq<char>, Seq<char>), c: (Seq<char>, Seq<char>)|
        #[trigger] le(a, b) && #[trigger] le(b, c) implies le(a, c) by {
        if text_lt(a.0, b.0) && text_lt(b.0, c.0) {
            lemma_text_lt_transitive(a.0, b.0, c.0);
        }
        if text_lt(a.1, b.1) && text_lt(b.1, c.1) {
            lemma_text_lt_transitive(a.1, b.1, c.1);
        }
    }
    assert forall|a: (Seq<char>, Seq<char>), b: (Seq<char>, Seq<char>)| #[trigger] le(a, b) || #[trigger] le(b, a) by {
        lemma_text_lt_total(a.0, b.0);
        lemma_text_lt_total(a.1, b.1);
    }
}

/// Whether pair `a` sorts strictly before pair `b`.
fn name_pair_less(a: &(String, String), b: &(String, String)) -> (result: bool)
    ensures
        result == ((a.0@, a.1@) != (b.0@, b.1@) && name_pair_order()((a.0@, a.1@), (b.0@, b.1@))),
{
    let x = chars_of(a.0.as_str());
    let y = chars_of(b.0.as_str());
    if text_less(&x, &y) {
        proof {
            if x@ == y@ {
                lemma_text_lt_irreflexive(x@);
            }
        }
        true
    } else if same_text(a.0.as_str(), b.0.as_str()) {
        let u = chars_of(a.1.as_str());
        let v = chars_of(b.1.as_str());
        let less = text_less(&u, &v);
        proof {
            if u@ == v@ {
                lemma_text_lt_irreflexive(u@);
            }
        }
        less
    } else {
        false
    }
}

/// The pairs sorted by the pair order.
pub fn sort_named(values: &Vec<(String, String)>) -> (result: Vec<(String, String)>)
    ensures
        named(result@) == named(values@).sort_by(name_pair_order()),
{
    let ghost le = name_pair_order();
    let mut result: Vec<(String, String)> = Vec::new();
    let mut index: usize = 0;
    proof {
        broadcast use vstd::seq_lib::group_to_multiset_ensures;
        assert(named(values@).take(0) =~= Seq::<(Seq<char>, Seq<char>)>::empty());
        assert(named(result@) =~= Seq::<(Seq<char>, Seq<char>)>::empty());
    }
    while index < values.len()
        invariant
            index <= values.len(),
            le == name_pair_order(),
            vstd::relations::sorted_by(named(result@), le),
            named(result@).to_multiset() == named(values@).take(index as int).to_multiset(),
        decreases values.len() - index,
    {
        let item = &values[index];
        let ghost key = (item.0@, item.1@);
        let mut position: usize = 0;
        let mut searching = true;
        while searching && position < result.len()
            invariant
                key == (item.0@, item.1@),
                le == name_pair_order(),
                position <= result.len(),
                forall|k: int| 0 <= k < position ==> le(named(result@)[k], key),
                !searching ==> position < result.len() && key != named(result@)[position as int]
                    && le(key, named(result@)[position as int]),
            decreases result.len() - position + if searching { 1int } else { 0int },
        {
            assert(named(result@)[position as int] == (result@[position as int].0@, result@[position as int].1@));
            if name_pair_less(item, &result[position]) {
                searching = false;
            } else {
                proof {
                    lemma_text_lt_total(key.0, result@[position as int].0@);
                    lemma_text_lt_total(key.1, result@[position as int].1@);
                }
                position = position + 1;
            }
        }
        let ghost before = named(result@);
        let copy = (owned(item.0.as_str()), owned(item.1.as_str()));
        result.insert(position, copy);
        proof {
            broadcast use vstd::seq_lib::group_to_multiset_ensures;
            lemma_name_pair_order_total();
            let after = named(result@);
            assert(after =~= before.insert(position as int, key));
            assert(after.remove(position as int) =~= before);
            assert(after[position as int] == key);
            assert(after.to_multiset().remove(key) =~= before.to_multiset());
            assert(after.to_multiset().contains(key));
            assert(after.to_multiset() =~= before.to_multiset().insert(key));
            assert(named(values@).take(index + 1) =~= named(values@).take(index as int).push(key));
            assert forall|i: int, j: int| 0 <= i < j < after.len() implies #[trigger] le(after[i], after[j]) by {
                if j < position {
                    assert(after[i] == before[i] && after[j] == before[j]);
                } else if j == position {
                    assert(after[i] == before[i]);
                } else if i == position {
                    assert(after[j] == before[j - 1]);
                    if j - 1 > position {
                        assert(le(before[position as int], before[j - 1]));
                    }
                } else if i < position {
                    assert(after[i] == before[i] && after[j] == before[j - 1]);
                } else {
                    assert(after[i] == before[i - 1] && after[j] == before[j - 1]);
                }
            }
        }
        index = index + 1;
    }
    proof {
        lemma_name_pair_order_total();
        assert(named(values@).take(values.len() as int) =~= named(values@));
        named(values@).lemma_sort_by_ensures(le);
        vstd::seq_lib::lemma_sorted_unique(named(result@), named(values@).sort_by(le), le);
    }
    result
}




/// What a component query asks for: every symbol, or the one named.
#[derive(Debug)]
pub enum Selection {
    /// Every symbol of the component.
    All,
    /// The symbol with this name.
    Named(String),
}

/// The name a selection asks for; `None` for every symbol.
pub open spec fn criterion(selection: Selection) -> Option<Seq<char>> {
    match selection {
        Selection::All => None,
        Selection::Named(name) => Some(name@),
    }
}

/// The component queries the tool runs, and how it writes symbols.
#[derive(Debug)]
pub struct SeinfoOptions {
    /// The Boolean query.
    pub boolean: Option<Selection>,
    /// The category query.
    pub category: Option<Selection>,
    /// The permissive type query.
    pub permissive: Option<Selection>,
    /// The policy capability query.
    pub polcap: Option<Selection>,
    /// The sensitivity query.
    pub sensitivity: Option<Selection>,
    /// The type query.
    pub target_type: Option<Selection>,
    /// The type attribute query.
    pub attribute: Option<Selection>,
    /// Whether every component is listed.
    pub all: bool,
    /// Whether each symbol is written as its full statement.
    pub expand: bool,
}

/// The criterion of a query that runs: the query's own, or every symbol
/// when all components are listed; `None` when the query does not run.
pub open spec fn chosen(selection: Option<Selection>, all: bool) -> Option<Option<Seq<char>>> {
    match selection {
        Some(s) => Some(criterion(s)),
        None => if all { Some(None) } else { None },
    }
}

/// What the outside symbol queries selected, by position: Booleans, types
/// and type attributes.
pub struct QueryAnswers {
    /// The selected Booleans.
    pub booleans: Vec<usize>,
    /// The selected types.
    pub types: Vec<usize>,
    /// The selected type attributes.
    pub attributes: Vec<usize>,
}

/// A listed component: its heading and its items.
#[derive(Debug)]
pub struct Section {
    /// The heading.
    pub description: String,
    /// The items, in listing order.
    pub items: Vec<String>,
}

/// A section as plain values.
pub open spec fn section_view(section: Section) -> (Seq<char>, Seq<Seq<char>>) {
    (section.description@, texts(section.items@))
}

/// The plain values of some sections.
pub open spec fn section_views(sections: Seq<Section>) -> Seq<(Seq<char>, Seq<Seq<char>>)> {
    sections.map_values(|s: Section| section_view(s))
}

/// A name matches a criterion: there is none, or it is the name.
pub open spec fn name_ok(name: Seq<char>, crit: Option<Seq<char>>) -> bool {
    match crit {
        None => true,
        Some(c) => c == name,
    }
}

/// A symbol matches a criterion: there is none, or it is its name or one
/// of its aliases.
pub open spec fn alias_ok(name: Seq<char>, aliases: Seq<Seq<char>>, crit: Option<Seq<char>>) -> bool {
    match crit {
        None => true,
        Some(c) => c == name || aliases.contains(c),
    }
}

/// The alias clause of a statement.
pub open spec fn alias_part(aliases: Seq<Seq<char>>) -> Seq<char> {
    if aliases.len() == 0 {
        Seq::empty()
    } else if aliases.len() == 1 {
        " alias "@ + aliases[0]
    } else {
        " alias { "@ + joined_by(aliases, " "@) + " }"@
    }
}

/// A category or sensitivity statement.
pub open spec fn aliased_statement(keyword: Seq<char>, name: Seq<char>, aliases: Seq<Seq<char>>) -> Seq<char> {
    keyword + " "@ + name + alias_part(aliases) + ";"@
}

/// The matching categories or sensitivities, in policy order.
pub open spec fn aliased_items(symbols: Seq<AliasedSymbol>, keyword: Seq<char>, crit: Option<Seq<char>>, expand: bool) -> Seq<Seq<char>>
    decreases symbols.len(),
{
    if symbols.len() == 0 {
        Seq::empty()
    } else {
        let done = aliased_items(symbols.drop_last(), keyword, crit, expand);
        let s = symbols.last();
        if alias_ok(s.name@, texts(s.aliases@), crit) {
            done.push(if expand { aliased_statement(keyword, s.name@, texts(s.aliases@)) } else { s.name@ })
        } else {
            done
        }
    }
}

/// How a Boolean is written.
pub open spec fn boolean_item(policy: Policy, i: usize, expand: bool) -> Seq<char> {
    let b = policy.booleans@[i as int];
    if expand { "bool "@ + b.name@ + " "@ + (if b.state { "true"@ } else { "false"@ }) + ";"@ } else { b.name@ }
}

/// The matching policy capabilities, in policy order.
pub open spec fn polcap_items(capabilities: Seq<Seq<char>>, crit: Option<Seq<char>>, expand: bool) -> Seq<Seq<char>>
    decreases capabilities.len(),
{
    if capabilities.len() == 0 {
        Seq::empty()
    } else {
        let done = polcap_items(capabilities.drop_last(), crit, expand);
        let c = capabilities.last();
        if name_ok(c, crit) { done.push(if expand { "policycap "@ + c + ";"@ } else { c }) } else { done }
    }
}

/// The names of the attributes among the first `n` symbols that contain
/// type `t`.
pub open spec fn attributes_of(policy: Policy, n: nat, t: usize) -> Seq<Seq<char>>
    decreases n,
{
    if n == 0 || n > policy.types@.len() {
        Seq::empty()
    } else {
        let done = attributes_of(policy, (n - 1) as nat, t);
        let s = policy.types@[n - 1];
        if s.attribute && s.members@.contains(t) { done.push(s.name@) } else { done }
    }
}

/// How a type is written: its name, or its statement with aliases and the
/// attributes that contain it, in name order.
pub open spec fn type_item(policy: Policy, i: usize, expand: bool) -> Seq<char> {
    let s = policy.types@[i as int];
    if !expand || s.attribute {
        s.name@
    } else {
        let attributes = attributes_of(policy, policy.types@.len(), i).sort_by(text_order());
        "type "@ + s.name@ + alias_part(texts(s.aliases@))
            + (if attributes.len() == 0 { Seq::empty() } else { ", "@ + joined_by(attributes, ", "@) }) + ";"@
    }
}

/// The names of the member types that exist.
pub open spec fn member_names(policy: Policy, members: Seq<usize>) -> Seq<Seq<char>>
    decreases members.len(),
{
    if members.len() == 0 {
        Seq::empty()
    } else {
        let done = member_names(policy, members.drop_last());
        let m = members.last();
        if m < policy.types@.len() { done.push(policy.types@[m as int].name@) } else { done }
    }
}

/// How a type attribute is written: its name, or its statement with its
/// member types in name order.
pub open spec fn attribute_item(policy: Policy, i: usize, expand: bool) -> Seq<char> {
    let s = policy.types@[i as int];
    if !expand {
        s.name@
    } else {
        let members = member_names(policy, s.members@).sort_by(text_order());
        "attribute "@ + s.name@ + ";\n\t"@ + (if members.len() == 0 { "<empty attribute>"@ } else { joined_by(members, "\n\t"@) })
    }
}

/// The permissive types among the first `n` symbols that match.
pub open spec fn permissive_pairs(policy: Policy, n: nat, crit: Option<Seq<char>>, expand: bool) -> Seq<(Seq<char>, Seq<char>)>
    decreases n,
{
    if n == 0 || n > policy.types@.len() {
        Seq::empty()
    } else {
        let done = permissive_pairs(policy, (n - 1) as nat, crit, expand);
        let s = policy.types@[n - 1];
        if !s.attribute && s.permissive && alias_ok(s.name@, texts(s.aliases@), crit) {
            done.push((s.name@, type_item(policy, (n - 1) as usize, expand)))
        } else {
            done
        }
    }
}

/// The renderings of named items in name order.
pub open spec fn by_name(pairs: Seq<(Seq<char>, Seq<char>)>) -> Seq<Seq<char>> {
    pairs.sort_by(name_pair_order()).map_values(|p: (Seq<char>, Seq<char>)| p.1)
}

/// What kind of symbol an answered position stands for.
pub enum Kind {
    /// A Boolean.
    Boolean,
    /// A type.
    Type,
    /// A type attribute.
    Attribute,
}

/// An answered symbol's name and rendering.
pub open spec fn answer_pair(policy: Policy, kind: Kind, i: usize, expand: bool) -> (Seq<char>, Seq<char>) {
    match kind {
        Kind::Boolean => (policy.booleans@[i as int].name@, boolean_item(policy, i, expand)),
        Kind::Type => (policy.types@[i as int].name@, type_item(policy, i, expand)),
        Kind::Attribute => (policy.types@[i as int].name@, attribute_item(policy, i, expand)),
    }
}

/// The answered symbols' names and renderings.
pub open spec fn answer_pairs(policy: Policy, kind: Kind, ids: Seq<usize>, expand: bool) -> Seq<(Seq<char>, Seq<char>)> {
    ids.map_values(|i: usize| answer_pair(policy, kind, i, expand))
}

/// One section where its query runs, none otherwise.
pub open spec fn optional_section(runs: bool, description: Seq<char>, items: Seq<Seq<char>>) -> Seq<(Seq<char>, Seq<Seq<char>>)> {
    if runs { seq![(description, items)] } else { Seq::empty() }
}

/// The criterion of a query that runs.
pub open spec fn crit_of(c: Option<Option<Seq<char>>>) -> Option<Seq<char>> {
    match c {
        Some(x) => x,
        None => None,
    }
}

/// The sections the tool lists, in its order: Booleans, categories,
/// permissive types, policy capabilities, sensitivities, types and type
/// attributes, each where its query runs.
pub open spec fn sections_spec(policy: Policy, o: SeinfoOptions, answers: QueryAnswers) -> Seq<(Seq<char>, Seq<Seq<char>>)> {
    let e = o.expand;
    let category = chosen(o.category, o.all);
    let permissive = chosen(o.permissive, o.all);
    let polcap = chosen(o.polcap, o.all);
    let sensitivity = chosen(o.sensitivity, o.all);
    optional_section(chosen(o.boolean, o.all) is Some, "Booleans"@, by_name(answer_pairs(policy, Kind::Boolean, answers.booleans@, e)))
        + optional_section(category is Some, "Categories"@, aliased_items(policy.categories@, "category"@, crit_of(category), e))
        + optional_section(permissive is Some, "Permissive Types"@,
            by_name(permissive_pairs(policy, policy.types@.len(), crit_of(permissive), e)))
        + optional_section(polcap is Some, "Polcap"@,
            polcap_items(texts(policy.capabilities@), crit_of(polcap), e).sort_by(text_order()))
        + optional_section(sensitivity is Some, "Sensitivities"@,
            aliased_items(policy.sensitivities@, "sensitivity"@, crit_of(sensitivity), e))
        + optional_section(chosen(o.target_type, o.all) is Some, "Types"@, by_name(answer_pairs(policy, Kind::Type, answers.types@, e)))
        + optional_section(chosen(o.attribute, o.all) is Some, "Type Attributes"@,
            by_name(answer_pairs(policy, Kind::Attribute, answers.attributes@, e)))
}


/// Writes the alias clause of a statement.
fn alias_part_text(aliases: &Vec<String>) -> (result: String)
    ensures
        result@ == alias_part(texts(aliases@)),
{
    if aliases.len() == 0 {
        String::new()
    } else if aliases.len() == 1 {
        let mut text = owned(" alias ");
        push_str(&mut text, aliases[0].as_str());
        text
    } else {
        let mut text = owned(" alias { ");
        let joined = join_texts(aliases, " ");
        push_str(&mut text, joined.as_str());
        push_str(&mut text, " }");
        text
    }
}

/// Whether a symbol matches a criterion by name or alias.
fn alias_matches(name: &str, aliases: &Vec<String>, crit: &Option<String>) -> (result: bool)
    ensures
        result == alias_ok(name@, texts(aliases@), crate::arguments::text_view(*crit)),
{
    match crit {
        None => true,
        Some(c) => {
            if same_text(c.as_str(), name) {
                return true;
            }
            let found = crate::text::contains_text(aliases, c.as_str());
            found
        },
    }
}

/// Writes the matching categories or sensitivities, in policy order.
fn aliased_texts(symbols: &Vec<AliasedSymbol>, keyword: &str, crit: &Option<String>, expand: bool) -> (result: Vec<String>)
    ensures
        texts(result@) == aliased_items(symbols@, keyword@, crate::arguments::text_view(*crit), expand),
{
    let mut items: Vec<String> = Vec::new();
    let mut index: usize = 0;
    assert(symbols@.take(0) =~= Seq::<AliasedSymbol>::empty());
    assert(texts(items@) =~= Seq::<Seq<char>>::empty());
    while index < symbols.len()
        invariant
            index <= symbols.len(),
            texts(items@) == aliased_items(symbols@.take(index as int), keyword@, crate::arguments::text_view(*crit), expand),
        decreases symbols.len() - index,
    {
        let ghost next = symbols@.take(index + 1);
        assert(next.drop_last() =~= symbols@.take(index as int));
        assert(next.last() == symbols@[index as int]);
        let symbol = &symbols[index];
        if alias_matches(symbol.name.as_str(), &symbol.aliases, crit) {
            let item = if expand {
                let mut text = owned(keyword);
                push_str(&mut text, " ");
                push_str(&mut text, symbol.name.as_str());
                let alias = alias_part_text(&symbol.aliases);
                push_str(&mut text, alias.as_str());
                push_str(&mut text, ";");
                text
            } else {
                owned(symbol.name.as_str())
            };
            let ghost before = texts(items@);
            items.push(item);
            assert(texts(items@) =~= before.push(item@));
        }
        index = index + 1;
    }
    assert(symbols@.take(symbols.len() as int) =~= symbols@);
    items
}

/// Writes the matching policy capabilities, in name order.
fn polcap_texts(capabilities: &Vec<String>, crit: &Option<String>, expand: bool) -> (result: Vec<String>)
    ensures
        texts(result@) == polcap_items(texts(capabilities@), crate::arguments::text_view(*crit), expand).sort_by(text_order()),
{
    let ghost all = texts(capabilities@);
    let mut items: Vec<String> = Vec::new();
    let mut index: usize = 0;
    assert(all.take(0) =~= Seq::<Seq<char>>::empty());
    assert(texts(items@) =~= Seq::<Seq<char>>::empty());
    while index < capabilities.len()
        invariant
            index <= capabilities.len(),
            all == texts(capabilities@),
            texts(items@) == polcap_items(all.take(index as int), crate::arguments::text_view(*crit), expand),
        decreases capabilities.len() - index,
    {
        let ghost next = all.take(index + 1);
        assert(next.drop_last() =~= all.take(index as int));
        assert(next.last() == capabilities@[index as int]@);
        let name = capabilities[index].as_str();
        let matches = match crit {
            None => true,
            Some(c) => same_text(c.as_str(), name),
        };
        if matches {
            let item = if expand {
                let mut text = owned("policycap ");
                push_str(&mut text, name);
                push_str(&mut text, ";");
                text
            } else {
                owned(name)
            };
            let ghost before = texts(items@);
            items.push(item);
            assert(texts(items@) =~= before.push(item@));
        }
        index = index + 1;
    }
    assert(all.take(capabilities.len() as int) =~= all);
    sort_texts(&items)
}

/// Whether a list of numbers contains one.
fn has_number(values: &Vec<usize>, wanted: usize) -> (result: bool)
    ensures
        result == values@.contains(wanted),
{
    let mut index: usize = 0;
    while index < values.len()
        invariant
            index <= values.len(),
            forall|k: int| 0 <= k < index ==> values@[k] != wanted,
        decreases values.len() - index,
    {
        if values[index] == wanted {
            assert(values@[index as int] == wanted);
            return true;
        }
        index = index + 1;
    }
    false
}

/// Writes the names of the attributes that contain a type, in name order.
fn attribute_names(policy: &Policy, t: usize) -> (result: Vec<String>)
    ensures
        texts(result@) == attributes_of(*policy, policy.types@.len(), t).sort_by(text_order()),
{
    let mut names: Vec<String> = Vec::new();
    let mut index: usize = 0;
    assert(texts(names@) =~= Seq::<Seq<char>>::empty());
    while index < policy.types.len()
        invariant
            index <= policy.types@.len(),
            texts(names@) == attributes_of(*policy, index as nat, t),
        decreases policy.types@.len() - index,
    {
        let symbol = &policy.types[index];
        if symbol.attribute && has_number(&symbol.members, t) {
            let ghost before = texts(names@);
            let name = owned(symbol.name.as_str());
            names.push(name);
            assert(texts(names@) =~= before.push(name@));
        }
        index = index + 1;
    }
    sort_texts(&names)
}

/// Writes how a type is written.
fn type_text(policy: &Policy, i: usize, expand: bool) -> (result: String)
    requires
        i < policy.types@.len(),
    ensures
        result@ == type_item(*policy, i, expand),
{
    let symbol = &policy.types[i];
    if !expand || symbol.attribute {
        return owned(symbol.name.as_str());
    }
    let attributes = attribute_names(policy, i);
    let mut text = owned("type ");
    push_str(&mut text, symbol.name.as_str());
    let alias = alias_part_text(&symbol.aliases);
    push_str(&mut text, alias.as_str());
    if attributes.len() > 0 {
        push_str(&mut text, ", ");
        let joined = join_texts(&attributes, ", ");
        push_str(&mut text, joined.as_str());
    }
    push_str(&mut text, ";");
    text
}

/// Writes the names of the member types that exist.
fn member_texts(policy: &Policy, members: &Vec<usize>) -> (result: Vec<String>)
    ensures
        texts(result@) == member_names(*policy, members@),
{
    let mut names: Vec<String> = Vec::new();
    let mut index: usize = 0;
    assert(members@.take(0) =~= Seq::<usize>::empty());
    assert(texts(names@) =~= Seq::<Seq<char>>::empty());
    while index < members.len()
        invariant
            index <= members.len(),
            texts(names@) == member_names(*policy, members@.take(index as int)),
        decreases members.len() - index,
    {
        let ghost next = members@.take(index + 1);
        assert(next.drop_last() =~= members@.take(index as int));
        assert(next.last() == members@[index as int]);
        let m = members[index];
        if m < policy.types.len() {
            let ghost before = texts(names@);
            let name = owned(policy.types[m].name.as_str());
            names.push(name);
            assert(texts(names@) =~= before.push(name@));
        }
        index = index + 1;
    }
    assert(members@.take(members.len() as int) =~= members@);
    names
}

/// Writes how a type attribute is written.
fn attribute_text(policy: &Policy, i: usize, expand: bool) -> (result: String)
    requires
        i < policy.types@.len(),
    ensures
        result@ == attribute_item(*policy, i, expand),
{
    let symbol = &policy.types[i];
    if !expand {
        return owned(symbol.name.as_str());
    }
    let names = member_texts(policy, &symbol.members);
    let members = sort_texts(&names);
    let mut text = owned("attribute ");
    push_str(&mut text, symbol.name.as_str());
    push_str(&mut text, ";\n\t");
    if members.len() == 0 {
        push_str(&mut text, "<empty attribute>");
    } else {
        let joined = join_texts(&members, "\n\t");
        push_str(&mut text, joined.as_str());
    }
    text
}

/// Writes how a Boolean is written.
fn boolean_text(policy: &Policy, i: usize, expand: bool) -> (result: String)
    requires
        i < policy.booleans@.len(),
    ensures
        result@ == boolean_item(*policy, i, expand),
{
    let b = &policy.booleans[i];
    if !expand {
        return owned(b.name.as_str());
    }
    let mut text = owned("bool ");
    push_str(&mut text, b.name.as_str());
    push_str(&mut text, " ");
    push_str(&mut text, if b.state { "true" } else { "false" });
    push_str(&mut text, ";");
    assert(text@ =~= boolean_item(*policy, i, expand));
    text
}

/// Every answered position is a symbol of its table.
pub open spec fn answers_fit(policy: Policy, answers: QueryAnswers) -> bool {
    &&& forall|k: int| 0 <= k < answers.booleans@.len() ==> #[trigger] answers.booleans@[k] < policy.booleans@.len()
    &&& forall|k: int| 0 <= k < answers.types@.len() ==> #[trigger] answers.types@[k] < policy.types@.len()
    &&& forall|k: int| 0 <= k < answers.attributes@.len() ==> #[trigger] answers.attributes@[k] < policy.types@.len()
}

/// Writes the answered symbols in name order.
fn answered_texts(policy: &Policy, kind: Kind, ids: &Vec<usize>, expand: bool) -> (result: Vec<String>)
    requires
        forall|k: int| 0 <= k < ids@.len() ==> #[trigger] ids@[k] < (match kind {
            Kind::Boolean => policy.booleans@.len(),
            _ => policy.types@.len(),
        }),
    ensures
        texts(result@) == by_name(answer_pairs(*policy, kind, ids@, expand)),
{
    let ghost all = answer_pairs(*policy, kind, ids@, expand);
    let mut pairs: Vec<(String, String)> = Vec::new();
    let mut index: usize = 0;
    while index < ids.len()
        invariant
            index <= ids.len(),
            all == answer_pairs(*policy, kind, ids@, expand),
            forall|k: int| 0 <= k < ids@.len() ==> #[trigger] ids@[k] < (match kind {
                Kind::Boolean => policy.booleans@.len(),
                _ => policy.types@.len(),
            }),
            named(pairs@) == all.take(index as int),
        decreases ids.len() - index,
    {
        let i = ids[index];
        assert(ids@[index as int] == i);
        let pair = match kind {
            Kind::Boolean => (owned(policy.booleans[i].name.as_str()), boolean_text(policy, i, expand)),
            Kind::Type => (owned(policy.types[i].name.as_str()), type_text(policy, i, expand)),
            Kind::Attribute => (owned(policy.types[i].name.as_str()), attribute_text(policy, i, expand)),
        };
        let ghost before = named(pairs@);
        let ghost view = (pair.0@, pair.1@);
        pairs.push(pair);
        proof {
            assert(named(pairs@) =~= before.push(view));
            assert(all.take(index + 1) =~= all.take(index as int).push(all[index as int]));
        }
        index = index + 1;
    }
    assert(all.take(ids.len() as int) =~= all);
    let sorted = sort_named(&pairs);
    renderings(&sorted)
}

/// The renderings of some named items, in order.
pub fn renderings(pairs: &Vec<(String, String)>) -> (result: Vec<String>)
    ensures
        texts(result@) == named(pairs@).map_values(|p: (Seq<char>, Seq<char>)| p.1),
{
    let mut items: Vec<String> = Vec::new();
    let mut index: usize = 0;
    while index < pairs.len()
        invariant
            index <= pairs.len(),
            texts(items@) == named(pairs@).take(index as int).map_values(|p: (Seq<char>, Seq<char>)| p.1),
        decreases pairs.len() - index,
    {
        let item = owned(pairs[index].1.as_str());
        let ghost before = texts(items@);
        items.push(item);
        proof {
            assert(texts(items@) =~= before.push(item@));
            assert(named(pairs@).take(index + 1) =~= named(pairs@).take(index as int).push(named(pairs@)[index as int]));
            assert(named(pairs@).take(index + 1).map_values(|p: (Seq<char>, Seq<char>)| p.1) =~= before.push(item@));
        }
        index = index + 1;
    }
    assert(named(pairs@).take(pairs.len() as int) =~= named(pairs@));
    items
}

/// Writes the matching permissive types in name order.
fn permissive_texts(policy: &Policy, crit: &Option<String>, expand: bool) -> (result: Vec<String>)
    ensures
        texts(result@) == by_name(permissive_pairs(*policy, policy.types@.len(), crate::arguments::text_view(*crit), expand)),
{
    let mut pairs: Vec<(String, String)> = Vec::new();
    let mut index: usize = 0;
    assert(named(pairs@) =~= Seq::<(Seq<char>, Seq<char>)>::empty());
    while index < policy.types.len()
        invariant
            index <= policy.types@.len(),
            named(pairs@) == permissive_pairs(*policy, index as nat, crate::arguments::text_view(*crit), expand),
        decreases policy.types@.len() - index,
    {
        let symbol = &policy.types[index];
        if !symbol.attribute && symbol.permissive && alias_matches(symbol.name.as_str(), &symbol.aliases, crit) {
            let pair = (owned(symbol.name.as_str()), type_text(policy, index, expand));
            let ghost before = named(pairs@);
            let ghost view = (pair.0@, pair.1@);
            pairs.push(pair);
            assert(named(pairs@) =~= before.push(view));
        }
        index = index + 1;
    }
    let sorted = sort_named(&pairs);
    renderings(&sorted)
}

/// The criterion of a query that runs, and whether it runs.
pub fn chosen_exec(selection: &Option<Selection>, all: bool) -> (result: (bool, Option<String>))
    ensures
        result.0 == (chosen(*selection, all) is Some),
        crate::arguments::text_view(result.1) == crit_of(chosen(*selection, all)),
{
    match selection {
        Some(Selection::All) => (true, None),
        Some(Selection::Named(name)) => (true, Some(owned(name.as_str()))),
        None => (all, None),
    }
}

/// Appends a section where its query runs.
pub fn push_section(sections: &mut Vec<Section>, runs: bool, description: &str, items: Vec<String>)
    ensures
        section_views(final(sections)@) == section_views(old(sections)@) + optional_section(runs, description@, texts(items@)),
{
    let ghost before = section_views(sections@);
    if runs {
        let ghost view = (description@, texts(items@));
        sections.push(Section { description: owned(description), items });
        assert(section_views(sections@) =~= before.push(view));
    } else {
        assert(section_views(sections@) =~= before + Seq::<(Seq<char>, Seq<Seq<char>>)>::empty());
    }
}

/// Lists the components the options ask for, in the tool's order: each
/// query's symbols, sorted by name where the tool sorts them, written by
/// name or, when expanded, as statements.
pub fn seinfo_sections(policy: &Policy, options: &SeinfoOptions, answers: &QueryAnswers) -> (result: Vec<Section>)
    requires
        answers_fit(*policy, *answers),
    ensures
        section_views(result@) == sections_spec(*policy, *options, *answers),
{
    let e = options.expand;
    let mut sections: Vec<Section> = Vec::new();
    assert(section_views(sections@) =~= Seq::<(Seq<char>, Seq<Seq<char>>)>::empty());
    let ghost start = section_views(sections@);
    let (runs, _) = chosen_exec(&options.boolean, options.all);
    let items = if runs { answered_texts(policy, Kind::Boolean, &answers.booleans, e) } else { Vec::new() };
    let ghost s1 = section_views(sections@);
    push_section(&mut sections, runs, "Booleans", items);
    let (runs, crit) = chosen_exec(&options.category, options.all);
    let items = if runs { aliased_texts(&policy.categories, "category", &crit, e) } else { Vec::new() };
    push_section(&mut sections, runs, "Categories", items);
    let (runs, crit) = chosen_exec(&options.permissive, options.all);
    let items = if runs { permissive_texts(policy, &crit, e) } else { Vec::new() };
    push_section(&mut sections, runs, "Permissive Types", items);
    let (runs, crit) = chosen_exec(&options.polcap, options.all);
    let items = if runs { polcap_texts(&policy.capabilities, &crit, e) } else { Vec::new() };
    push_section(&mut sections, runs, "Polcap", items);
    let (runs, crit) = chosen_exec(&options.sensitivity, options.all);
    let items = if runs { aliased_texts(&policy.sensitivities, "sensitivity", &crit, e) } else { Vec::new() };
    push_section(&mut sections, runs, "Sensitivities", items);
    let (runs, _) = chosen_exec(&options.target_type, options.all);
    let items = if runs { answered_texts(policy, Kind::Type, &answers.types, e) } else { Vec::new() };
    push_section(&mut sections, runs, "Types", items);
    let (runs, _) = chosen_exec(&options.attribute, options.all);
    let items = if runs { answered_texts(policy, Kind::Attribute, &answers.attributes, e) } else { Vec::new() };
    push_section(&mut sections, runs, "Type Attributes", items);
    assert(section_views(sections@) =~= sections_spec(*policy, *options, *answers));
    sections
}

} // verus!
