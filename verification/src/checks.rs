//! The settings of each configured check, read from its configuration
//! section against the policy, and the names the checks report.
use vstd::prelude::*;
use crate::text::{texts, owned, push_str, join_texts, joined_by, text_order, sort_texts, same_text};
use crate::policy::{Policy, expansion, well_formed, type_symbol_by_name, expand};
use crate::checker::{CheckerConfigError, Notice, NoticeLevel, split_value, nonempty};
use crate::scan::trimmed;
use crate::keyed::{key_set, value_of, unique_keys, find_key, lemma_value_at};
use crate::checker::{text_map, CheckType, ReadOnlyKind, invalid_key, validate_keys, yes_value, config_bool,
    IniSection, SectionView, section_view, section_views, ini_sections, parse_ini};
use crate::text::text_lt;
use crate::scan::words_of;

verus! {

/// The number of the type or attribute with the given name.
pub open spec fn symbol_named(policy: Policy, name: Seq<char>) -> Option<int> {
    if exists|i: int| 0 <= i < policy.types@.len() && policy.types@[i].name@ == name {
        Some(choose|i: int| 0 <= i < policy.types@.len() && policy.types@[i].name@ == name)
    } else {
        None
    }
}

/// The number of the role or role attribute with the given name.
pub open spec fn role_named(policy: Policy, name: Seq<char>) -> Option<int> {
    if exists|i: int| 0 <= i < policy.roles@.len() && policy.roles@[i].name@ == name {
        Some(choose|i: int| 0 <= i < policy.roles@.len() && policy.roles@[i].name@ == name)
    } else {
        None
    }
}

/// The roles a role or role attribute stands for.
pub open spec fn role_expansion(policy: Policy, role: int) -> Seq<usize> {
    if 0 <= role < policy.roles@.len() {
        if policy.roles@[role].attribute {
            policy.roles@[role].members@
        } else {
            seq![role as usize]
        }
    } else {
        Seq::empty()
    }
}

/// Role names are unique.
pub open spec fn roles_well_formed(policy: Policy) -> bool {
    forall|i: int, j: int| 0 <= i < policy.roles@.len() && 0 <= j < policy.roles@.len() && i != j
        ==> policy.roles@[i].name@ != policy.roles@[j].name@
}

/// A notice as plain values.
pub struct NoticeView {
    /// Message severity.
    pub level: NoticeLevel,
    /// The logger.
    pub module: Seq<char>,
    /// The message.
    pub message: Seq<char>,
}

/// The plain values of a list of notices.
pub open spec fn notice_views(notices: Seq<Notice>) -> Seq<NoticeView> {
    notices.map_values(|n: Notice| NoticeView { level: n.level, module: n.module@, message: n.message@ })
}

/// The message for an item of a list option that names nothing.
pub open spec fn invalid_item(check: Seq<char>, option: Seq<char>, message: Seq<char>) -> Seq<char> {
    check + ": Invalid _internal_"@ + option + " item: "@ + message
}

/// The message for a name that is not a type or attribute.
pub open spec fn not_type(name: Seq<char>) -> Seq<char> {
    name + " is not a valid type attribute"@
}

/// The message for a name that is not a role.
pub open spec fn not_role(name: Seq<char>) -> Seq<char> {
    name + " is not a valid role"@
}

/// The words of an optional value.
pub open spec fn value_words(value: Option<&String>) -> Seq<Seq<char>> {
    text_words(opt_text(value))
}

/// The text of an optional string.
pub open spec fn opt_text(value: Option<&String>) -> Option<Seq<char>> {
    match value {
        Some(v) => Some(v@),
        None => None,
    }
}

/// The words of an optional text.
pub open spec fn text_words(value: Option<Seq<char>>) -> Seq<Seq<char>> {
    match value {
        Some(v) => words_of(v),
        None => Seq::empty(),
    }
}

/// Whether `word` names a type or attribute standing for type `t`.
pub open spec fn names_type(policy: Policy, word: Seq<char>, t: usize) -> bool {
    match symbol_named(policy, word) {
        Some(s) => expansion(policy, s).contains(t),
        None => false,
    }
}

/// The concrete types the named types and attributes stand for.
pub open spec fn named_types(policy: Policy, words: Seq<Seq<char>>) -> Set<usize> {
    Set::new(|t: usize| exists|i: int| 0 <= i < words.len() && #[trigger] names_type(policy, words[i], t))
}

/// The words that name no type or attribute, in order.
pub open spec fn unknown_types(policy: Policy, words: Seq<Seq<char>>) -> Seq<Seq<char>>
    decreases words.len(),
{
    if words.len() == 0 {
        Seq::empty()
    } else if symbol_named(policy, words.last()) is None {
        unknown_types(policy, words.drop_last()).push(words.last())
    } else {
        unknown_types(policy, words.drop_last())
    }
}

/// Whether `word` names a role or role attribute standing for role `r`.
pub open spec fn names_role(policy: Policy, word: Seq<char>, r: usize) -> bool {
    match role_named(policy, word) {
        Some(s) => role_expansion(policy, s).contains(r),
        None => false,
    }
}

/// The roles the named roles and role attributes stand for.
pub open spec fn named_roles(policy: Policy, words: Seq<Seq<char>>) -> Set<usize> {
    Set::new(|r: usize| exists|i: int| 0 <= i < words.len() && #[trigger] names_role(policy, words[i], r))
}

/// The words that name no role, in order.
pub open spec fn unknown_roles(policy: Policy, words: Seq<Seq<char>>) -> Seq<Seq<char>>
    decreases words.len(),
{
    if words.len() == 0 {
        Seq::empty()
    } else if role_named(policy, words.last()) is None {
        unknown_roles(policy, words.drop_last()).push(words.last())
    } else {
        unknown_roles(policy, words.drop_last())
    }
}

/// The informational notices for items that name nothing.
pub open spec fn item_notices(check: Seq<char>, option: Seq<char>, logger: Seq<char>, messages: Seq<Seq<char>>) -> Seq<NoticeView> {
    messages.map_values(|m: Seq<char>| NoticeView { level: NoticeLevel::Info, module: logger, message: invalid_item(check, option, m) })
}

/// Finds a role or role attribute by name.
pub fn role_by_name(policy: &Policy, name: &str) -> (result: Option<usize>)
    requires
        roles_well_formed(*policy),
    ensures
        match result {
            Some(i) => role_named(*policy, name@) == Some(i as int),
            None => role_named(*policy, name@) is None,
        },
{
    let mut index: usize = 0;
    while index < policy.roles.len()
        invariant
            index <= policy.roles@.len(),
            roles_well_formed(*policy),
            forall|i: int| 0 <= i < index ==> policy.roles@[i].name@ != name@,
        decreases policy.roles@.len() - index,
    {
        if same_text(policy.roles[index].name.as_str(), name) {
            proof {
                let k = choose|k: int| 0 <= k < policy.roles@.len() && policy.roles@[k].name@ == name@;
                assert(k == index);
            }
            return Some(index);
        }
        index = index + 1;
    }
    None
}

/// Finds a type or attribute by name.
pub fn symbol_by_name(policy: &Policy, name: &str) -> (result: Option<usize>)
    requires
        well_formed(*policy),
    ensures
        match result {
            Some(i) => symbol_named(*policy, name@) == Some(i as int) && i < policy.types@.len(),
            None => symbol_named(*policy, name@) is None,
        },
{
    match type_symbol_by_name(policy, name) {
        Some(i) => {
            proof {
                let k = choose|k: int| 0 <= k < policy.types@.len() && policy.types@[k].name@ == name@;
                assert(k == i);
            }
            Some(i)
        },
        None => None,
    }
}

/// The roles a role or role attribute stands for.
pub fn expand_role(policy: &Policy, role: usize) -> (result: Vec<usize>)
    ensures
        result@ == role_expansion(*policy, role as int),
{
    let mut result: Vec<usize> = Vec::new();
    if role < policy.roles.len() {
        let entry = &policy.roles[role];
        if entry.attribute {
            let mut index: usize = 0;
            while index < entry.members.len()
                invariant
                    index <= entry.members@.len(),
                    result@ == entry.members@.take(index as int),
                decreases entry.members@.len() - index,
            {
                result.push(entry.members[index]);
                index = index + 1;
                assert(result@ =~= entry.members@.take(index as int));
            }
            assert(entry.members@.take(entry.members@.len() as int) =~= entry.members@);
        } else {
            result.push(role);
            assert(result@ =~= seq![role]);
        }
    } else {
        assert(result@ =~= Seq::<usize>::empty());
    }
    result
}

/// The numbers are strictly increasing, so they list a set once, in order.
pub open spec fn increasing(ids: Seq<usize>) -> bool {
    forall|i: int, j: int| 0 <= i < j < ids.len() ==> ids[i] < ids[j]
}

/// The increasing listing of a finite set of numbers.
pub open spec fn id_listing(set: Set<usize>) -> Seq<usize> {
    choose|ids: Seq<usize>| increasing(ids) && ids.to_set() == set
}

/// Two increasing listings of one set are the same sequence.
pub proof fn lemma_increasing_unique(a: Seq<usize>, b: Seq<usize>)
    requires
        increasing(a),
        increasing(b),
        a.to_set() == b.to_set(),
    ensures
        a == b,
    decreases a.len(),
{
    if a.len() == 0 {
        if b.len() > 0 {
            assert(b.to_set().contains(b[0]));
        }
        assert(a =~= b);
    } else {
        assert(a.to_set().contains(a[0]));
        assert(b.len() > 0);
        assert(b.to_set().contains(b[0]));
        let i = choose|i: int| 0 <= i < b.len() && b[i] == a[0];
        let j = choose|j: int| 0 <= j < a.len() && a[j] == b[0];
        assert(a[0] <= a[j]);
        assert(b[0] <= b[i]);
        assert(a[0] == b[0]);
        let rest = a.to_set().remove(a[0]);
        assert forall|x: usize| a.drop_first().to_set().contains(x) <==> rest.contains(x) by {
            if a.drop_first().to_set().contains(x) {
                let k = choose|k: int| 0 <= k < a.drop_first().len() && a.drop_first()[k] == x;
                assert(a[k + 1] == x);
                assert(a.to_set().contains(x));
            }
            if rest.contains(x) {
                let k = choose|k: int| 0 <= k < a.len() && a[k] == x;
                assert(a.drop_first()[k - 1] == x);
            }
        }
        assert forall|x: usize| b.drop_first().to_set().contains(x) <==> rest.contains(x) by {
            if b.drop_first().to_set().contains(x) {
                let k = choose|k: int| 0 <= k < b.drop_first().len() && b.drop_first()[k] == x;
                assert(b[k + 1] == x);
                assert(b.to_set().contains(x));
            }
            if rest.contains(x) {
                assert(b.to_set().contains(x));
                let k = choose|k: int| 0 <= k < b.len() && b[k] == x;
                assert(k != 0);
                assert(b.drop_first()[k - 1] == x);
            }
        }
        assert(a.drop_first().to_set() =~= rest);
        assert(b.drop_first().to_set() =~= rest);
        lemma_increasing_unique(a.drop_first(), b.drop_first());
        assert(a =~= seq![a[0]] + a.drop_first());
        assert(b =~= seq![b[0]] + b.drop_first());
    }
}

/// An increasing sequence is the listing of its set.
pub proof fn lemma_id_listing(ids: Seq<usize>)
    requires
        increasing(ids),
    ensures
        id_listing(ids.to_set()) == ids,
{
    let chosen = id_listing(ids.to_set());
    assert(increasing(chosen) && chosen.to_set() == ids.to_set());
    lemma_increasing_unique(chosen, ids);
}

/// Adds a number to an increasing list unless it is there.
fn insert_id(set: &mut Vec<usize>, x: usize)
    requires
        increasing(old(set)@),
    ensures
        increasing(final(set)@),
        final(set)@.to_set() == old(set)@.to_set().insert(x),
{
    let ghost before = set@;
    let mut position: usize = 0;
    while position < set.len() && set[position] < x
        invariant
            set@ == before,
            position <= set.len(),
            forall|k: int| 0 <= k < position ==> set@[k] < x,
        decreases set.len() - position,
    {
        position = position + 1;
    }
    if position < set.len() && set[position] == x {
        assert(before.to_set().insert(x) =~= before.to_set());
        return;
    }
    set.insert(position, x);
    proof {
        let after = set@;
        assert(after =~= before.insert(position as int, x));
        assert forall|i: int, j: int| 0 <= i < j < after.len() implies after[i] < after[j] by {
            if j < position {
                assert(after[i] == before[i] && after[j] == before[j]);
            } else if j == position {
                assert(after[i] == before[i]);
            } else if i == position {
                assert(after[j] == before[j - 1]);
                assert(before[position as int] > x);
            } else if i < position {
                assert(after[i] == before[i] && after[j] == before[j - 1]);
            } else {
                assert(after[i] == before[i - 1] && after[j] == before[j - 1]);
            }
        }
        assert forall|y: usize| after.to_set().contains(y) <==> before.to_set().insert(x).contains(y) by {
            if after.contains(y) {
                let k = choose|k: int| 0 <= k < after.len() && after[k] == y;
                if k < position {
                    assert(before[k] == y);
                } else if k > position {
                    assert(before[k - 1] == y);
                }
            }
            if before.contains(y) {
                let k = choose|k: int| 0 <= k < before.len() && before[k] == y;
                if k < position {
                    assert(after[k] == y);
                } else {
                    assert(after[k + 1] == y);
                }
            }
            if y == x {
                assert(after[position as int] == x);
            }
        }
        assert(after.to_set() =~= before.to_set().insert(x));
    }
}

/// Adds the members of `items` to an increasing list.
pub(crate) fn add_all(set: &mut Vec<usize>, items: &Vec<usize>)
    requires
        increasing(old(set)@),
    ensures
        increasing(final(set)@),
        final(set)@.to_set() == old(set)@.to_set().union(items@.to_set()),
{
    let ghost start = set@.to_set();
    let mut index: usize = 0;
    assert(items@.take(0).to_set() =~= Set::<usize>::empty());
    assert(start.union(Set::empty()) =~= start);
    while index < items.len()
        invariant
            index <= items.len(),
            increasing(set@),
            set@.to_set() == start.union(items@.take(index as int).to_set()),
        decreases items.len() - index,
    {
        let x = items[index];
        insert_id(set, x);
        proof {
            assert(items@.take(index + 1) =~= items@.take(index as int).push(x));
            items@.take(index as int).lemma_push_to_set_commute(x);
            assert(set@.to_set() =~= start.union(items@.take(index + 1).to_set()));
        }
        index = index + 1;
    }
    assert(items@.take(items.len() as int) =~= items@);
}

/// Appends a notice.
fn push_notice(notices: &mut Vec<Notice>, level: NoticeLevel, module: &str, message: String)
    ensures
        notice_views(final(notices)@) == notice_views(old(notices)@).push(NoticeView { level, module: module@, message: message@ }),
{
    let ghost before = notice_views(notices@);
    let ghost text = message@;
    notices.push(Notice { level, module: owned(module), message });
    assert(notice_views(notices@) =~= before.push(NoticeView { level, module: module@, message: text }));
}

/// Builds an item message.
fn item_message(check: &str, option: &str, message: &str) -> (result: String)
    ensures
        result@ == invalid_item(check@, option@, message@),
{
    let mut text = owned(check);
    push_str(&mut text, ": Invalid _internal_");
    push_str(&mut text, option);
    push_str(&mut text, " item: ");
    push_str(&mut text, message);
    text
}

/// Reads a list of types and attributes as the concrete types they stand
/// for. A name that is no type is refused when `strict`, and reported with
/// a notice otherwise.
pub fn parse_type_set(
    policy: &Policy,
    check: &str,
    option: &str,
    value: Option<&String>,
    strict: bool,
    logger: &str,
    notices: &mut Vec<Notice>,
) -> (result: Result<Vec<usize>, CheckerConfigError>)
    requires
        well_formed(*policy),
    ensures
        ({
            let unknown = unknown_types(*policy, value_words(value));
            if strict && unknown.len() > 0 {
                &&& result matches Err(e) && e@ == invalid_item(check@, option@, not_type(unknown[0]))
                &&& notice_views(final(notices)@) == notice_views(old(notices)@)
            } else {
                &&& result matches Ok(set) && increasing(set@) && set@.to_set() == named_types(*policy, value_words(value))
                &&& notice_views(final(notices)@) == notice_views(old(notices)@) + if strict {
                    Seq::empty()
                } else {
                    item_notices(check@, option@, logger@, unknown.map_values(|w: Seq<char>| not_type(w)))
                }
            }
        }),
{
    let words = split_value(value);
    let ghost all = value_words(value);
    let ghost start = notice_views(notices@);
    let mut result: Vec<usize> = Vec::new();
    let mut index: usize = 0;
    proof {
        assert(all.take(0) =~= Seq::<Seq<char>>::empty());
        assert(result@.to_set() =~= named_types(*policy, all.take(0)));
        assert(item_notices(check@, option@, logger@, Seq::<Seq<char>>::empty()) =~= Seq::<NoticeView>::empty());
        assert(start + Seq::<NoticeView>::empty() =~= start);
    }
    while index < words.len()
        invariant
            index <= words.len(),
            well_formed(*policy),
            all == value_words(value),
            start == notice_views(old(notices)@),
            texts(words@) == all,
            increasing(result@),
            result@.to_set() == named_types(*policy, all.take(index as int)),
            strict ==> unknown_types(*policy, all.take(index as int)).len() == 0,
            notice_views(notices@) == start + if strict {
                Seq::empty()
            } else {
                item_notices(check@, option@, logger@,
                    unknown_types(*policy, all.take(index as int)).map_values(|w: Seq<char>| not_type(w)))
            },
        decreases words.len() - index,
    {
        let word = &words[index];
        let ghost prefix = all.take(index + 1);
        proof {
            assert(texts(words@)[index as int] == word@);
            assert(prefix.drop_last() =~= all.take(index as int));
            assert(prefix.last() == word@);
        }
        match symbol_by_name(policy, word.as_str()) {
            None => {
                let mut message = owned(word.as_str());
                push_str(&mut message, " is not a valid type attribute");
                let text = item_message(check, option, message.as_str());
                if strict {
                    proof {
                        assert(all[index as int] == word@);
                        lemma_unknown_types_prefix(*policy, all, index as int + 1);
                        lemma_unknown_types_extend(*policy, all, index as int + 1);
                        assert(unknown_types(*policy, all.take(index as int + 1)) == seq![word@]);
                        assert(unknown_types(*policy, all).take(1) == seq![word@]);
                        assert(unknown_types(*policy, all).take(1)[0] == unknown_types(*policy, all)[0]);
                        assert(unknown_types(*policy, all)[0] == word@);
                        assert(notice_views(notices@) =~= start);
                    }
                    return Err(CheckerConfigError::new(text.as_str()));
                }
                let ghost before = notice_views(notices@);
                push_notice(notices, NoticeLevel::Info, logger, text);
                proof {
                    let u = unknown_types(*policy, all.take(index as int));
                    assert(unknown_types(*policy, prefix) == u.push(word@));
                    assert(u.push(word@).map_values(|w: Seq<char>| not_type(w))
                        =~= u.map_values(|w: Seq<char>| not_type(w)).push(not_type(word@)));
                    assert(item_notices(check@, option@, logger@, u.push(word@).map_values(|w: Seq<char>| not_type(w)))
                        =~= item_notices(check@, option@, logger@, u.map_values(|w: Seq<char>| not_type(w))).push(
                            NoticeView { level: NoticeLevel::Info, module: logger@, message: invalid_item(check@, option@, not_type(word@)) }));
                    assert(result@.to_set() =~= named_types(*policy, prefix)) by {
                        assert forall|t: usize| named_types(*policy, prefix).contains(t) implies result@.to_set().contains(t) by {
                            let i = choose|i: int| 0 <= i < prefix.len() && #[trigger] names_type(*policy, prefix[i], t);
                            assert(i < index);
                            assert(all.take(index as int)[i] == prefix[i]);
                            assert(named_types(*policy, all.take(index as int)).contains(t));
                        }
                        assert forall|t: usize| result@.to_set().contains(t) implies named_types(*policy, prefix).contains(t) by {
                            assert(named_types(*policy, all.take(index as int)).contains(t));
                            let i = choose|i: int| 0 <= i < index && #[trigger] names_type(*policy, all.take(index as int)[i], t);
                            assert(prefix[i] == all.take(index as int)[i]);
                        }
                    }
                    assert(notice_views(notices@) =~= start + item_notices(check@, option@, logger@,
                        unknown_types(*policy, prefix).map_values(|w: Seq<char>| not_type(w))));
                }
            },
            Some(symbol) => {
                let members = expand(policy, symbol);
                let ghost before = result@;
                add_all(&mut result, &members);
                proof {
                    assert(unknown_types(*policy, prefix) == unknown_types(*policy, all.take(index as int)));
                    assert forall|t: usize| named_types(*policy, prefix).contains(t) <==> result@.to_set().contains(t) by {
                        if named_types(*policy, prefix).contains(t) {
                            let i = choose|i: int| 0 <= i < prefix.len() && #[trigger] names_type(*policy, prefix[i], t);
                            if i < index {
                                assert(all.take(index as int)[i] == prefix[i]);
                                assert(named_types(*policy, all.take(index as int)).contains(t));
                            } else {
                                assert(i == index);
                                assert(symbol_named(*policy, word@) == Some(symbol as int));
                                assert(members@.contains(t));
                                assert(members@.to_set().contains(t));
                            }
                        }
                        if result@.to_set().contains(t) {
                            if before.to_set().contains(t) {
                                assert(named_types(*policy, all.take(index as int)).contains(t));
                                let i = choose|i: int| 0 <= i < index && #[trigger] names_type(*policy, all.take(index as int)[i], t);
                                assert(prefix[i] == all.take(index as int)[i]);
                            } else {
                                assert(members@.to_set().contains(t));
                                assert(symbol_named(*policy, prefix[index as int]) == Some(symbol as int));
                                assert(names_type(*policy, prefix[index as int], t));
                            }
                        }
                    }
                    assert(result@.to_set() =~= named_types(*policy, prefix));
                }
            },
        }
        index = index + 1;
    }
    proof {
        assert(all.take(words.len() as int) =~= all);
    }
    Ok(result)
}

/// Every unknown name of a prefix stays unknown; an unknown last word is
/// the first unknown when the words before it were all known.
proof fn lemma_unknown_types_prefix(policy: Policy, words: Seq<Seq<char>>, k: int)
    requires
        0 < k <= words.len(),
        unknown_types(policy, words.take(k - 1)).len() == 0,
        symbol_named(policy, words[k - 1]) is None,
    ensures
        unknown_types(policy, words.take(k)) == seq![words[k - 1]],
{
    assert(words.take(k).drop_last() =~= words.take(k - 1));
    assert(unknown_types(policy, words.take(k - 1)) =~= Seq::<Seq<char>>::empty());
    assert(Seq::<Seq<char>>::empty().push(words[k - 1]) =~= seq![words[k - 1]]);
}

/// The unknown names of a prefix begin the unknown names of the whole.
proof fn lemma_unknown_types_extend(policy: Policy, words: Seq<Seq<char>>, k: int)
    requires
        0 <= k <= words.len(),
    ensures
        unknown_types(policy, words.take(k)).len() <= unknown_types(policy, words).len(),
        unknown_types(policy, words).take(unknown_types(policy, words.take(k)).len() as int)
            == unknown_types(policy, words.take(k)),
    decreases words.len(),
{
    if words.len() > k {
        assert(words.drop_last().take(k) =~= words.take(k));
        lemma_unknown_types_extend(policy, words.drop_last(), k);
        let shorter = unknown_types(policy, words.drop_last());
        let n = unknown_types(policy, words.take(k)).len() as int;
        if symbol_named(policy, words.last()) is None {
            assert(shorter.push(words.last()).take(n) =~= shorter.take(n));
        }
    } else {
        assert(words.take(k) =~= words);
        assert(unknown_types(policy, words).take(unknown_types(policy, words).len() as int) =~= unknown_types(policy, words));
    }
}

/// Reads a list of roles and role attributes as the roles they stand for.
/// A name that is no role is refused when `strict`, and reported with a
/// notice otherwise.
pub fn parse_role_set(
    policy: &Policy,
    check: &str,
    option: &str,
    value: Option<&String>,
    strict: bool,
    notices: &mut Vec<Notice>,
) -> (result: Result<Vec<usize>, CheckerConfigError>)
    requires
        roles_well_formed(*policy),
    ensures
        ({
            let unknown = unknown_roles(*policy, value_words(value));
            if strict && unknown.len() > 0 {
                &&& result matches Err(e) && e@ == invalid_item(check@, option@, not_role(unknown[0]))
                &&& notice_views(final(notices)@) == notice_views(old(notices)@)
            } else {
                &&& result matches Ok(set) && increasing(set@) && set@.to_set() == named_roles(*policy, value_words(value))
                &&& notice_views(final(notices)@) == notice_views(old(notices)@) + if strict {
                    Seq::empty()
                } else {
                    item_notices(check@, option@, "setools.checker.assertrbac"@, unknown.map_values(|w: Seq<char>| not_role(w)))
                }
            }
        }),
{
    let words = split_value(value);
    let ghost all = value_words(value);
    let ghost start = notice_views(notices@);
    let mut result: Vec<usize> = Vec::new();
    let mut index: usize = 0;
    proof {
        assert(all.take(0) =~= Seq::<Seq<char>>::empty());
        assert(result@.to_set() =~= named_roles(*policy, all.take(0)));
        assert(item_notices(check@, option@, "setools.checker.assertrbac"@, Seq::<Seq<char>>::empty()) =~= Seq::<NoticeView>::empty());
        assert(start + Seq::<NoticeView>::empty() =~= start);
    }
    while index < words.len()
        invariant
            index <= words.len(),
            roles_well_formed(*policy),
            all == value_words(value),
            start == notice_views(old(notices)@),
            texts(words@) == all,
            increasing(result@),
            result@.to_set() == named_roles(*policy, all.take(index as int)),
            strict ==> unknown_roles(*policy, all.take(index as int)).len() == 0,
            notice_views(notices@) == start + if strict {
                Seq::empty()
            } else {
                item_notices(check@, option@, "setools.checker.assertrbac"@,
                    unknown_roles(*policy, all.take(index as int)).map_values(|w: Seq<char>| not_role(w)))
            },
        decreases words.len() - index,
    {
        let word = &words[index];
        let ghost prefix = all.take(index + 1);
        proof {
            assert(texts(words@)[index as int] == word@);
            assert(prefix.drop_last() =~= all.take(index as int));
            assert(prefix.last() == word@);
        }
        match role_by_name(policy, word.as_str()) {
            None => {
                let mut message = owned(word.as_str());
                push_str(&mut message, " is not a valid role");
                let text = item_message(check, option, message.as_str());
                if strict {
                    proof {
                        assert(all[index as int] == word@);
                        lemma_unknown_roles_prefix(*policy, all, index as int + 1);
                        lemma_unknown_roles_extend(*policy, all, index as int + 1);
                        assert(unknown_roles(*policy, all.take(index as int + 1)) == seq![word@]);
                        assert(unknown_roles(*policy, all).take(1) == seq![word@]);
                        assert(unknown_roles(*policy, all).take(1)[0] == unknown_roles(*policy, all)[0]);
                        assert(unknown_roles(*policy, all)[0] == word@);
                        assert(notice_views(notices@) =~= start);
                    }
                    return Err(CheckerConfigError::new(text.as_str()));
                }
                let ghost before = notice_views(notices@);
                push_notice(notices, NoticeLevel::Info, "setools.checker.assertrbac", text);
                proof {
                    let u = unknown_roles(*policy, all.take(index as int));
                    assert(unknown_roles(*policy, prefix) == u.push(word@));
                    assert(u.push(word@).map_values(|w: Seq<char>| not_role(w))
                        =~= u.map_values(|w: Seq<char>| not_role(w)).push(not_role(word@)));
                    assert(item_notices(check@, option@, "setools.checker.assertrbac"@, u.push(word@).map_values(|w: Seq<char>| not_role(w)))
                        =~= item_notices(check@, option@, "setools.checker.assertrbac"@, u.map_values(|w: Seq<char>| not_role(w))).push(
                            NoticeView { level: NoticeLevel::Info, module: "setools.checker.assertrbac"@, message: invalid_item(check@, option@, not_role(word@)) }));
                    assert(result@.to_set() =~= named_roles(*policy, prefix)) by {
                        assert forall|t: usize| named_roles(*policy, prefix).contains(t) implies result@.to_set().contains(t) by {
                            let i = choose|i: int| 0 <= i < prefix.len() && #[trigger] names_role(*policy, prefix[i], t);
                            assert(i < index);
                            assert(all.take(index as int)[i] == prefix[i]);
                            assert(named_roles(*policy, all.take(index as int)).contains(t));
                        }
                        assert forall|t: usize| result@.to_set().contains(t) implies named_roles(*policy, prefix).contains(t) by {
                            assert(named_roles(*policy, all.take(index as int)).contains(t));
                            let i = choose|i: int| 0 <= i < index && #[trigger] names_role(*policy, all.take(index as int)[i], t);
                            assert(prefix[i] == all.take(index as int)[i]);
                        }
                    }
                    assert(notice_views(notices@) =~= start + item_notices(check@, option@, "setools.checker.assertrbac"@,
                        unknown_roles(*policy, prefix).map_values(|w: Seq<char>| not_role(w))));
                }
            },
            Some(symbol) => {
                let members = expand_role(policy, symbol);
                let ghost before = result@;
                add_all(&mut result, &members);
                proof {
                    assert(unknown_roles(*policy, prefix) == unknown_roles(*policy, all.take(index as int)));
                    assert forall|t: usize| named_roles(*policy, prefix).contains(t) <==> result@.to_set().contains(t) by {
                        if named_roles(*policy, prefix).contains(t) {
                            let i = choose|i: int| 0 <= i < prefix.len() && #[trigger] names_role(*policy, prefix[i], t);
                            if i < index {
                                assert(all.take(index as int)[i] == prefix[i]);
                                assert(named_roles(*policy, all.take(index as int)).contains(t));
                            } else {
                                assert(i == index);
                                assert(role_named(*policy, word@) == Some(symbol as int));
                                assert(members@.contains(t));
                                assert(members@.to_set().contains(t));
                            }
                        }
                        if result@.to_set().contains(t) {
                            if before.to_set().contains(t) {
                                assert(named_roles(*policy, all.take(index as int)).contains(t));
                                let i = choose|i: int| 0 <= i < index && #[trigger] names_role(*policy, all.take(index as int)[i], t);
                                assert(prefix[i] == all.take(index as int)[i]);
                            } else {
                                assert(members@.to_set().contains(t));
                                assert(role_named(*policy, prefix[index as int]) == Some(symbol as int));
                                assert(names_role(*policy, prefix[index as int], t));
                            }
                        }
                    }
                    assert(result@.to_set() =~= named_roles(*policy, prefix));
                }
            },
        }
        index = index + 1;
    }
    proof {
        assert(all.take(words.len() as int) =~= all);
    }
    Ok(result)
}

/// An unknown last role name is the first unknown one when the names
/// before it were all known.
proof fn lemma_unknown_roles_prefix(policy: Policy, words: Seq<Seq<char>>, k: int)
    requires
        0 < k <= words.len(),
        unknown_roles(policy, words.take(k - 1)).len() == 0,
        role_named(policy, words[k - 1]) is None,
    ensures
        unknown_roles(policy, words.take(k)) == seq![words[k - 1]],
{
    assert(words.take(k).drop_last() =~= words.take(k - 1));
    assert(unknown_roles(policy, words.take(k - 1)) =~= Seq::<Seq<char>>::empty());
    assert(Seq::<Seq<char>>::empty().push(words[k - 1]) =~= seq![words[k - 1]]);
}

/// The unknown role names of a prefix begin those of the whole.
proof fn lemma_unknown_roles_extend(policy: Policy, words: Seq<Seq<char>>, k: int)
    requires
        0 <= k <= words.len(),
    ensures
        unknown_roles(policy, words.take(k)).len() <= unknown_roles(policy, words).len(),
        unknown_roles(policy, words).take(unknown_roles(policy, words.take(k)).len() as int)
            == unknown_roles(policy, words.take(k)),
    decreases words.len(),
{
    if words.len() > k {
        assert(words.drop_last().take(k) =~= words.take(k));
        lemma_unknown_roles_extend(policy, words.drop_last(), k);
        let shorter = unknown_roles(policy, words.drop_last());
        let n = unknown_roles(policy, words.take(k)).len() as int;
        if role_named(policy, words.last()) is None {
            assert(shorter.push(words.last()).take(n) =~= shorter.take(n));
        }
    } else {
        assert(words.take(k) =~= words);
        assert(unknown_roles(policy, words).take(unknown_roles(policy, words).len() as int) =~= unknown_roles(policy, words));
    }
}

/// The names of the types among `ids`, sorted.
pub open spec fn type_name_list(policy: Policy, ids: Seq<usize>) -> Seq<Seq<char>> {
    ids.filter_map(|id: usize| if id < policy.types@.len() { Some(policy.types@[id as int].name@) } else { None })
        .sort_by(text_order())
}

/// The names of the roles among `ids`, sorted.
pub open spec fn role_name_list(policy: Policy, ids: Seq<usize>) -> Seq<Seq<char>> {
    ids.filter_map(|id: usize| if id < policy.roles@.len() { Some(policy.roles@[id as int].name@) } else { None })
        .sort_by(text_order())
}

/// The members of `expected` that are also in `exempt`, in order.
pub open spec fn overlap(expected: Seq<usize>, exempt: Seq<usize>) -> Seq<usize> {
    expected.filter_map(|t: usize| if exempt.contains(t) { Some(t) } else { None })
}

/// The notice for names both expected and exempt; none without any.
pub open spec fn overlap_notice(names: Seq<Seq<char>>, expected_name: Seq<char>, exempt_name: Seq<char>, logger: Seq<char>) -> Seq<NoticeView> {
    if names.len() > 0 {
        seq![NoticeView {
            level: NoticeLevel::Info,
            module: logger,
            message: "Overlap in "@ + expected_name + " and "@ + exempt_name + ": "@ + joined_by(names, ", "@),
        }]
    } else {
        Seq::empty()
    }
}

/// Returns the sorted names of the types among `ids`.
pub fn type_names(policy: &Policy, ids: &Vec<usize>) -> (result: Vec<String>)
    ensures
        texts(result@) == type_name_list(*policy, ids@),
{
    let ghost keep = |id: usize| if id < policy.types@.len() { Some(policy.types@[id as int].name@) } else { None };
    let mut names: Vec<String> = Vec::new();
    let mut index: usize = 0;
    assert(ids@.take(0).filter_map(keep) =~= Seq::<Seq<char>>::empty());
    assert(texts(names@) =~= Seq::<Seq<char>>::empty());
    while index < ids.len()
        invariant
            index <= ids.len(),
            keep == (|id: usize| if id < policy.types@.len() { Some(policy.types@[id as int].name@) } else { None }),
            texts(names@) == ids@.take(index as int).filter_map(keep),
        decreases ids.len() - index,
    {
        let id = ids[index];
        proof {
            ids@.lemma_filter_map_take_succ(keep, index as int);
        }
        if id < policy.types.len() {
            let ghost before = texts(names@);
            names.push(owned(policy.types[id].name.as_str()));
            assert(texts(names@) =~= before + seq![policy.types@[id as int].name@]);
        }
        index = index + 1;
    }
    assert(ids@.take(ids.len() as int) =~= ids@);
    sort_texts(&names)
}

/// Returns the sorted names of the roles among `ids`.
pub fn role_names(policy: &Policy, ids: &Vec<usize>) -> (result: Vec<String>)
    ensures
        texts(result@) == role_name_list(*policy, ids@),
{
    let ghost keep = |id: usize| if id < policy.roles@.len() { Some(policy.roles@[id as int].name@) } else { None };
    let mut names: Vec<String> = Vec::new();
    let mut index: usize = 0;
    assert(ids@.take(0).filter_map(keep) =~= Seq::<Seq<char>>::empty());
    assert(texts(names@) =~= Seq::<Seq<char>>::empty());
    while index < ids.len()
        invariant
            index <= ids.len(),
            keep == (|id: usize| if id < policy.roles@.len() { Some(policy.roles@[id as int].name@) } else { None }),
            texts(names@) == ids@.take(index as int).filter_map(keep),
        decreases ids.len() - index,
    {
        let id = ids[index];
        proof {
            ids@.lemma_filter_map_take_succ(keep, index as int);
        }
        if id < policy.roles.len() {
            let ghost before = texts(names@);
            names.push(owned(policy.roles[id].name.as_str()));
            assert(texts(names@) =~= before + seq![policy.roles@[id as int].name@]);
        }
        index = index + 1;
    }
    assert(ids@.take(ids.len() as int) =~= ids@);
    sort_texts(&names)
}

/// The members of `expected` that are also in `exempt`, in order.
fn overlap_of(expected: &Vec<usize>, exempt: &Vec<usize>) -> (result: Vec<usize>)
    ensures
        result@ == overlap(expected@, exempt@),
{
    let ghost keep = |t: usize| if exempt@.contains(t) { Some(t) } else { None };
    let mut result: Vec<usize> = Vec::new();
    let mut index: usize = 0;
    assert(expected@.take(0).filter_map(keep) =~= Seq::<usize>::empty());
    while index < expected.len()
        invariant
            index <= expected.len(),
            keep == (|t: usize| if exempt@.contains(t) { Some(t) } else { None }),
            result@ == expected@.take(index as int).filter_map(keep),
        decreases expected.len() - index,
    {
        let t = expected[index];
        proof {
            expected@.lemma_filter_map_take_succ(keep, index as int);
        }
        if crate::pairs::contains_type(exempt, t) {
            result.push(t);
        }
        index = index + 1;
    }
    assert(expected@.take(expected.len() as int) =~= expected@);
    result
}

/// Appends the overlap notice for names that are both expected and exempt.
fn push_overlap_notice(notices: &mut Vec<Notice>, names: &Vec<String>, expected_name: &str, exempt_name: &str, logger: &str)
    ensures
        notice_views(final(notices)@) == notice_views(old(notices)@)
            + overlap_notice(texts(names@), expected_name@, exempt_name@, logger@),
{
    if names.len() == 0 {
        assert(notice_views(notices@) =~= notice_views(notices@) + Seq::<NoticeView>::empty());
        return;
    }
    let mut message = owned("Overlap in ");
    push_str(&mut message, expected_name);
    push_str(&mut message, " and ");
    push_str(&mut message, exempt_name);
    push_str(&mut message, ": ");
    let listed = join_texts(names, ", ");
    push_str(&mut message, listed.as_str());
    let ghost before = notice_views(notices@);
    push_notice(notices, NoticeLevel::Info, logger, message);
    assert(notice_views(notices@) =~= before + overlap_notice(texts(names@), expected_name@, exempt_name@, logger@));
}

/// Reports the types that are both expected and exempt.
pub fn add_overlap_notice(
    policy: &Policy,
    expected_name: &str,
    exempt_name: &str,
    expected: &Vec<usize>,
    exempt: &Vec<usize>,
    logger: &str,
    notices: &mut Vec<Notice>,
)
    ensures
        notice_views(final(notices)@) == notice_views(old(notices)@)
            + overlap_notice(type_name_list(*policy, overlap(expected@, exempt@)), expected_name@, exempt_name@, logger@),
{
    let common = overlap_of(expected, exempt);
    let names = type_names(policy, &common);
    push_overlap_notice(notices, &names, expected_name, exempt_name, logger);
}

/// Reports the roles that are both expected and exempt.
pub fn add_role_overlap_notice(
    policy: &Policy,
    expected_name: &str,
    exempt_name: &str,
    expected: &Vec<usize>,
    exempt: &Vec<usize>,
    notices: &mut Vec<Notice>,
)
    ensures
        notice_views(final(notices)@) == notice_views(old(notices)@)
            + overlap_notice(role_name_list(*policy, overlap(expected@, exempt@)), expected_name@, exempt_name@,
                "setools.checker.assertrbac"@),
{
    let common = overlap_of(expected, exempt);
    let names = role_names(policy, &common);
    push_overlap_notice(notices, &names, expected_name, exempt_name, "setools.checker.assertrbac");
}

/// A value with surrounding white space removed, unless nothing is left.
pub open spec fn trimmed_value(value: Option<&String>) -> Option<Seq<char>> {
    trimmed_text(opt_text(value))
}

/// An optional text without surrounding white space, unless nothing is left.
pub open spec fn trimmed_text(value: Option<Seq<char>>) -> Option<Seq<char>> {
    match value {
        Some(v) => if trimmed(v).len() > 0 { Some(trimmed(v)) } else { None },
        None => None,
    }
}

/// The message for a single-name setting that names nothing.
pub open spec fn invalid_setting(check: Seq<char>, option: Seq<char>, message: Seq<char>) -> Seq<char> {
    check + ": Invalid _internal_"@ + option + " setting: "@ + message
}

/// Builds a setting message.
fn setting_message(check: &str, option: &str, name: &str, suffix: &str) -> (result: String)
    ensures
        result@ == invalid_setting(check@, option@, name@ + suffix@),
{
    let mut text = owned(check);
    push_str(&mut text, ": Invalid _internal_");
    push_str(&mut text, option);
    push_str(&mut text, " setting: ");
    push_str(&mut text, name);
    push_str(&mut text, suffix);
    assert(text@ =~= invalid_setting(check@, option@, name@ + suffix@));
    text
}

/// Reads an optional type or attribute setting.
pub fn parse_type_criterion(policy: &Policy, check: &str, option: &str, value: Option<&String>)
    -> (result: Result<Option<String>, CheckerConfigError>)
    requires
        well_formed(*policy),
    ensures
        match trimmed_value(value) {
            None => result matches Ok(None),
            Some(name) => if symbol_named(*policy, name) is None {
                result matches Err(e) && e@ == invalid_setting(check@, option@, not_type(name))
            } else {
                result matches Ok(Some(v)) && v@ == name
            },
        },
{
    let name = match nonempty(value) {
        None => {
            return Ok(None);
        },
        Some(name) => name,
    };
    match symbol_by_name(policy, name.as_str()) {
        None => {
            let text = setting_message(check, option, name.as_str(), " is not a valid type attribute");
            Err(CheckerConfigError::new(text.as_str()))
        },
        Some(_) => Ok(Some(name)),
    }
}

/// Reads an optional role setting.
pub fn parse_role_criterion(policy: &Policy, check: &str, option: &str, value: Option<&String>)
    -> (result: Result<Option<String>, CheckerConfigError>)
    requires
        roles_well_formed(*policy),
    ensures
        match trimmed_value(value) {
            None => result matches Ok(None),
            Some(name) => if role_named(*policy, name) is None {
                result matches Err(e) && e@ == invalid_setting(check@, option@, not_role(name))
            } else {
                result matches Ok(Some(v)) && v@ == name
            },
        },
{
    let name = match nonempty(value) {
        None => {
            return Ok(None);
        },
        Some(name) => name,
    };
    match role_by_name(policy, name.as_str()) {
        None => {
            let text = setting_message(check, option, name.as_str(), " is not a valid role");
            Err(CheckerConfigError::new(text.as_str()))
        },
        Some(_) => Ok(Some(name)),
    }
}

/// The value of an option, if the section has it.
pub open spec fn lookup(options: Map<Seq<char>, Seq<char>>, key: Seq<char>) -> Option<Seq<char>> {
    if options.dom().contains(key) { Some(options[key]) } else { None }
}

/// Returns the value stored under `key`.
pub fn get_option<'a>(options: &'a Vec<(String, String)>, key: &str) -> (result: Option<&'a String>)
    requires
        unique_keys(options@),
    ensures
        opt_text(result) == lookup(text_map(options@), key@),
{
    match find_key(options, key) {
        Some(k) => {
            proof {
                lemma_value_at(options@, k as int);
            }
            Some(&options[k].1)
        },
        None => None,
    }
}

/// The number of the object class with the given name.
pub open spec fn class_named(policy: Policy, name: Seq<char>) -> Option<int> {
    if exists|i: int| 0 <= i < policy.classes@.len() && policy.classes@[i].name@ == name {
        Some(choose|i: int| 0 <= i < policy.classes@.len() && policy.classes@[i].name@ == name)
    } else {
        None
    }
}

/// Finds an object class by name.
pub fn class_by_name(policy: &Policy, name: &str) -> (result: Option<usize>)
    requires
        well_formed(*policy),
    ensures
        match result {
            Some(i) => class_named(*policy, name@) == Some(i as int) && i < policy.classes@.len(),
            None => class_named(*policy, name@) is None,
        },
{
    let mut index: usize = 0;
    while index < policy.classes.len()
        invariant
            index <= policy.classes@.len(),
            well_formed(*policy),
            forall|i: int| 0 <= i < index ==> policy.classes@[i].name@ != name@,
        decreases policy.classes@.len() - index,
    {
        if same_text(policy.classes[index].name.as_str(), name) {
            proof {
                let k = choose|k: int| 0 <= k < policy.classes@.len() && policy.classes@[k].name@ == name@;
                assert(k == index);
            }
            return Some(index);
        }
        index = index + 1;
    }
    None
}

/// The words that name no object class, in order.
pub open spec fn unknown_classes(policy: Policy, words: Seq<Seq<char>>) -> Seq<Seq<char>>
    decreases words.len(),
{
    if words.len() == 0 {
        Seq::empty()
    } else if class_named(policy, words.last()) is None {
        unknown_classes(policy, words.drop_last()).push(words.last())
    } else {
        unknown_classes(policy, words.drop_last())
    }
}

/// Whether class `c` is among the selected classes: every class when none
/// is named, the named classes otherwise.
pub open spec fn selected_class(policy: Policy, classes: Seq<Seq<char>>, c: int) -> bool {
    if classes.len() == 0 {
        0 <= c < policy.classes@.len()
    } else {
        exists|i: int| 0 <= i < classes.len() && class_named(policy, classes[i]) == Some(c)
    }
}

/// Whether some selected class has the permission.
pub open spec fn permission_known(policy: Policy, classes: Seq<Seq<char>>, permission: Seq<char>) -> bool {
    exists|c: int| #[trigger] selected_class(policy, classes, c)
        && texts(policy.classes@[c].permissions@).contains(permission)
}

/// The permissions no selected class has, in order.
pub open spec fn invalid_permissions(policy: Policy, classes: Seq<Seq<char>>, permissions: Seq<Seq<char>>) -> Seq<Seq<char>>
    decreases permissions.len(),
{
    if permissions.len() == 0 {
        Seq::empty()
    } else if !permission_known(policy, classes, permissions.last()) {
        invalid_permissions(policy, classes, permissions.drop_last()).push(permissions.last())
    } else {
        invalid_permissions(policy, classes, permissions.drop_last())
    }
}

/// Reading a type list: the types it names, or the first unknown name when
/// `strict`; and the notices it adds.
pub open spec fn type_set_outcome(policy: Policy, check: Seq<char>, option: Seq<char>, value: Option<Seq<char>>, strict: bool, logger: Seq<char>)
    -> (Result<Set<usize>, Seq<char>>, Seq<NoticeView>)
{
    let unknown = unknown_types(policy, text_words(value));
    if strict && unknown.len() > 0 {
        (Err(invalid_item(check, option, not_type(unknown[0]))), Seq::empty())
    } else {
        (Ok(named_types(policy, text_words(value))),
            if strict { Seq::empty() } else { item_notices(check, option, logger, unknown.map_values(|w: Seq<char>| not_type(w))) })
    }
}

/// The settings of a TE assertion.
#[derive(Debug)]
pub struct AssertTe {
    /// The source type or attribute, if any.
    pub source: Option<String>,
    /// The target type or attribute, if any.
    pub target: Option<String>,
    /// The selected object classes.
    pub classes: Vec<String>,
    /// The selected permissions.
    pub permissions: Vec<String>,
    /// Source types whose rules are accepted, in increasing order.
    pub exempt_sources: Vec<usize>,
    /// Target types whose rules are accepted, in increasing order.
    pub exempt_targets: Vec<usize>,
    /// Source types expected to have rules, in increasing order.
    pub expect_sources: Vec<usize>,
    /// Target types expected to have rules, in increasing order.
    pub expect_targets: Vec<usize>,
}

/// The settings of a TE assertion as plain values.
pub struct AssertTeView {
    /// The source type or attribute.
    pub source: Option<Seq<char>>,
    /// The target type or attribute.
    pub target: Option<Seq<char>>,
    /// The selected object classes.
    pub classes: Seq<Seq<char>>,
    /// The selected permissions.
    pub permissions: Seq<Seq<char>>,
    /// Exempt source types.
    pub exempt_sources: Set<usize>,
    /// Exempt target types.
    pub exempt_targets: Set<usize>,
    /// Expected source types.
    pub expect_sources: Set<usize>,
    /// Expected target types.
    pub expect_targets: Set<usize>,
}

/// The type lists of the settings are increasing.
pub open spec fn assert_te_ok(settings: AssertTe) -> bool {
    &&& increasing(settings.exempt_sources@)
    &&& increasing(settings.exempt_targets@)
    &&& increasing(settings.expect_sources@)
    &&& increasing(settings.expect_targets@)
}

/// The plain values of TE assertion settings.
pub open spec fn assert_te_view(settings: AssertTe) -> AssertTeView {
    AssertTeView {
        source: crate::arguments::text_view(settings.source),
        target: crate::arguments::text_view(settings.target),
        classes: texts(settings.classes@),
        permissions: texts(settings.permissions@),
        exempt_sources: settings.exempt_sources@.to_set(),
        exempt_targets: settings.exempt_targets@.to_set(),
        expect_sources: settings.expect_sources@.to_set(),
        expect_targets: settings.expect_targets@.to_set(),
    }
}

/// An optional type or attribute setting, refused when it names nothing.
pub open spec fn type_criterion(policy: Policy, check: Seq<char>, option: Seq<char>, value: Option<Seq<char>>) -> Result<Option<Seq<char>>, Seq<char>> {
    match trimmed_text(value) {
        None => Ok(None),
        Some(name) => if symbol_named(policy, name) is None {
            Err(invalid_setting(check, option, not_type(name)))
        } else {
            Ok(Some(name))
        },
    }
}

/// The message for permissions that no selected class has.
pub open spec fn permission_problem(classes_named: bool, invalid: Seq<Seq<char>>) -> Seq<char> {
    (if classes_named {
        "Permission(s) do not exist in the specified classes: "@
    } else {
        "Permission(s) do not exist any class: "@
    }) + joined_by(invalid, ", "@)
}

/// The logger of TE assertions.
pub open spec fn te_logger() -> Seq<char> {
    "setools.checker.assertte"@
}

/// The overlap notice of two type sets.
pub open spec fn type_overlap_notice(policy: Policy, expected_name: Seq<char>, exempt_name: Seq<char>,
    expected: Set<usize>, exempt: Set<usize>, logger: Seq<char>) -> Seq<NoticeView>
{
    overlap_notice(type_name_list(policy, overlap(id_listing(expected), id_listing(exempt))), expected_name, exempt_name, logger)
}

/// The settings a TE assertion section asks for, or the first error; and
/// the notices reading it adds.
pub open spec fn assert_te_settings(policy: Policy, check: Seq<char>, options: Map<Seq<char>, Seq<char>>)
    -> (Result<AssertTeView, Seq<char>>, Seq<NoticeView>)
{
    match type_criterion(policy, check, "source"@, lookup(options, "source"@)) {
        Err(e) => (Err(e), Seq::empty()),
        Ok(source) => match type_criterion(policy, check, "target"@, lookup(options, "target"@)) {
            Err(e) => (Err(e), Seq::empty()),
            Ok(target) => {
                let classes = text_words(lookup(options, "tclass"@));
                let unknown = unknown_classes(policy, classes);
                let permissions = text_words(lookup(options, "perms"@));
                let invalid = invalid_permissions(policy, classes, permissions);
                if unknown.len() > 0 {
                    (Err(check + ": Invalid _internal_tclass item: "@ + unknown[0] + " is not a valid class"@), Seq::empty())
                } else if permissions.len() > 0 && invalid.len() > 0 {
                    (Err(check + ": Invalid _internal_perms setting: "@ + permission_problem(classes.len() > 0, invalid)), Seq::empty())
                } else if source is None && target is None && classes.len() == 0 && permissions.len() == 0 {
                    (Err("At least one of source, target, tclass, or perms options must be set."@), Seq::empty())
                } else {
                    let (es, n1) = type_set_outcome(policy, check, "exempt_source"@, lookup(options, "exempt_source"@), false, te_logger());
                    let (et, n2) = type_set_outcome(policy, check, "exempt_target"@, lookup(options, "exempt_target"@), false, te_logger());
                    let (xs, n3) = type_set_outcome(policy, check, "expect_source"@, lookup(options, "expect_source"@), true, te_logger());
                    let (xt, n4) = type_set_outcome(policy, check, "expect_target"@, lookup(options, "expect_target"@), true, te_logger());
                    match (es, et, xs, xt) {
                        (Ok(es), Ok(et), Ok(xs), Ok(xt)) => (
                            Ok(AssertTeView {
                                source,
                                target,
                                classes,
                                permissions,
                                exempt_sources: es,
                                exempt_targets: et,
                                expect_sources: xs,
                                expect_targets: xt,
                            }),
                            n1 + n2 + type_overlap_notice(policy, "expect_source"@, "exempt_source"@, xs, es, te_logger())
                                + type_overlap_notice(policy, "expect_target"@, "exempt_target"@, xt, et, te_logger()),
                        ),
                        (_, _, Err(e), _) => (Err(e), n1 + n2),
                        (_, _, Ok(_), Err(e)) => (Err(e), n1 + n2),
                        _ => (Err(Seq::empty()), n1 + n2),
                    }
                }
            },
        },
    }
}

/// Whether some selected class has the permission.
fn permission_exists(policy: &Policy, classes: &Vec<String>, permission: &str) -> (result: bool)
    requires
        well_formed(*policy),
    ensures
        result == permission_known(*policy, texts(classes@), permission@),
{
    let ghost named = texts(classes@);
    if classes.len() == 0 {
        let mut c: usize = 0;
        while c < policy.classes.len()
            invariant
                c <= policy.classes@.len(),
                named == texts(classes@),
                named.len() == 0,
                forall|k: int| 0 <= k < c ==> !texts(policy.classes@[k].permissions@).contains(permission@),
            decreases policy.classes@.len() - c,
        {
            if crate::text::contains_text(&policy.classes[c].permissions, permission) {
                assert(selected_class(*policy, named, c as int));
                return true;
            }
            c = c + 1;
        }
        assert forall|k: int| #[trigger] selected_class(*policy, named, k)
            implies !texts(policy.classes@[k].permissions@).contains(permission@) by {}
        return false;
    }
    let mut index: usize = 0;
    while index < classes.len()
        invariant
            index <= classes.len(),
            well_formed(*policy),
            named == texts(classes@),
            named.len() > 0,
            forall|k: int| 0 <= k < index ==> match class_named(*policy, #[trigger] named[k]) {
                Some(c) => !texts(policy.classes@[c].permissions@).contains(permission@),
                None => true,
            },
        decreases classes.len() - index,
    {
        assert(named[index as int] == classes@[index as int]@);
        match class_by_name(policy, classes[index].as_str()) {
            Some(c) => {
                if crate::text::contains_text(&policy.classes[c].permissions, permission) {
                    assert(selected_class(*policy, named, c as int));
                    return true;
                }
            },
            None => {},
        }
        index = index + 1;
    }
    assert forall|c: int| #[trigger] selected_class(*policy, named, c)
        implies !texts(policy.classes@[c].permissions@).contains(permission@) by {
        let k = choose|k: int| 0 <= k < named.len() && class_named(*policy, named[k]) == Some(c);
        assert(match class_named(*policy, named[k]) {
            Some(c) => !texts(policy.classes@[c].permissions@).contains(permission@),
            None => true,
        });
    }
    false
}

/// Reads the settings of a TE assertion section; notices report list items
/// that name nothing and types both expected and exempt.
pub fn parse_assert_te(policy: &Policy, name: &str, options: &Vec<(String, String)>, notices: &mut Vec<Notice>)
    -> (result: Result<AssertTe, CheckerConfigError>)
    requires
        well_formed(*policy),
        unique_keys(options@),
    ensures
        ({
            let (settings, added) = assert_te_settings(*policy, name@, text_map(options@));
            &&& notice_views(final(notices)@) == notice_views(old(notices)@) + added
            &&& match settings {
                Ok(v) => result matches Ok(s) && assert_te_ok(s) && assert_te_view(s) == v,
                Err(e) => result matches Err(x) && x@ == e,
            }
        }),
{
    let ghost start = notice_views(notices@);
    let source = match parse_type_criterion(policy, name, "source", get_option(options, "source")) {
        Ok(v) => v,
        Err(e) => {
            assert(notice_views(notices@) =~= start + Seq::<NoticeView>::empty());
            return Err(e);
        },
    };
    let target = match parse_type_criterion(policy, name, "target", get_option(options, "target")) {
        Ok(v) => v,
        Err(e) => {
            assert(notice_views(notices@) =~= start + Seq::<NoticeView>::empty());
            return Err(e);
        },
    };
    let classes = split_value(get_option(options, "tclass"));
    match first_unknown_class(policy, &classes) {
        Some(unknown) => {
            let mut message = owned(name);
            push_str(&mut message, ": Invalid _internal_tclass item: ");
            push_str(&mut message, unknown.as_str());
            push_str(&mut message, " is not a valid class");
            assert(notice_views(notices@) =~= start + Seq::<NoticeView>::empty());
            return Err(CheckerConfigError::new(message.as_str()));
        },
        None => {},
    }
    let permissions = split_value(get_option(options, "perms"));
    if permissions.len() > 0 {
        let invalid = invalid_permission_list(policy, &classes, &permissions);
        if invalid.len() > 0 {
            let mut message = owned(name);
            push_str(&mut message, ": Invalid _internal_perms setting: ");
            if classes.len() == 0 {
                push_str(&mut message, "Permission(s) do not exist any class: ");
            } else {
                push_str(&mut message, "Permission(s) do not exist in the specified classes: ");
            }
            let listed = join_texts(&invalid, ", ");
            push_str(&mut message, listed.as_str());
            assert(notice_views(notices@) =~= start + Seq::<NoticeView>::empty());
            return Err(CheckerConfigError::new(message.as_str()));
        }
    }
    if source.is_none() && target.is_none() && classes.len() == 0 && permissions.len() == 0 {
        assert(notice_views(notices@) =~= start + Seq::<NoticeView>::empty());
        return Err(CheckerConfigError::new("At least one of source, target, tclass, or perms options must be set."));
    }
    let logger = "setools.checker.assertte";
    let exempt_sources = match parse_type_set(policy, name, "exempt_source", get_option(options, "exempt_source"), false, logger, notices) {
        Ok(v) => v,
        Err(e) => {
            return Err(e);
        },
    };
    let ghost n1 = notice_views(notices@);
    let exempt_targets = match parse_type_set(policy, name, "exempt_target", get_option(options, "exempt_target"), false, logger, notices) {
        Ok(v) => v,
        Err(e) => {
            return Err(e);
        },
    };
    let ghost n2 = notice_views(notices@);
    let expect_sources = match parse_type_set(policy, name, "expect_source", get_option(options, "expect_source"), true, logger, notices) {
        Ok(v) => v,
        Err(e) => {
            return Err(e);
        },
    };
    let expect_targets = match parse_type_set(policy, name, "expect_target", get_option(options, "expect_target"), true, logger, notices) {
        Ok(v) => v,
        Err(e) => {
            return Err(e);
        },
    };
    let ghost n4 = notice_views(notices@);
    add_overlap_notice(policy, "expect_source", "exempt_source", &expect_sources, &exempt_sources, logger, notices);
    add_overlap_notice(policy, "expect_target", "exempt_target", &expect_targets, &exempt_targets, logger, notices);
    proof {
        lemma_id_listing(expect_sources@);
        lemma_id_listing(exempt_sources@);
        lemma_id_listing(expect_targets@);
        lemma_id_listing(exempt_targets@);
    }
    Ok(AssertTe {
        source,
        target,
        classes,
        permissions,
        exempt_sources,
        exempt_targets,
        expect_sources,
        expect_targets,
    })
}

/// The unknown class names of a prefix begin those of the whole.
proof fn lemma_unknown_classes_extend(policy: Policy, words: Seq<Seq<char>>, k: int)
    requires
        0 <= k <= words.len(),
    ensures
        unknown_classes(policy, words.take(k)).len() <= unknown_classes(policy, words).len(),
        unknown_classes(policy, words).take(unknown_classes(policy, words.take(k)).len() as int)
            == unknown_classes(policy, words.take(k)),
    decreases words.len(),
{
    if words.len() > k {
        assert(words.drop_last().take(k) =~= words.take(k));
        lemma_unknown_classes_extend(policy, words.drop_last(), k);
        let shorter = unknown_classes(policy, words.drop_last());
        let n = unknown_classes(policy, words.take(k)).len() as int;
        if class_named(policy, words.last()) is None {
            assert(shorter.push(words.last()).take(n) =~= shorter.take(n));
        }
    } else {
        assert(words.take(k) =~= words);
        assert(unknown_classes(policy, words).take(unknown_classes(policy, words).len() as int) =~= unknown_classes(policy, words));
    }
}

/// The first name that is no object class, if any.
fn first_unknown_class(policy: &Policy, classes: &Vec<String>) -> (result: Option<String>)
    requires
        well_formed(*policy),
    ensures
        match result {
            Some(name) => unknown_classes(*policy, texts(classes@)).len() > 0
                && name@ == unknown_classes(*policy, texts(classes@))[0],
            None => unknown_classes(*policy, texts(classes@)).len() == 0,
        },
{
    let ghost words = texts(classes@);
    let mut index: usize = 0;
    assert(words.take(0) =~= Seq::<Seq<char>>::empty());
    while index < classes.len()
        invariant
            index <= classes.len(),
            well_formed(*policy),
            words == texts(classes@),
            unknown_classes(*policy, words.take(index as int)).len() == 0,
        decreases classes.len() - index,
    {
        proof {
            assert(words.take(index + 1).drop_last() =~= words.take(index as int));
            assert(words.take(index + 1).last() == classes@[index as int]@);
        }
        if class_by_name(policy, classes[index].as_str()).is_none() {
            proof {
                lemma_unknown_classes_extend(*policy, words, index as int + 1);
                assert(unknown_classes(*policy, words.take(index + 1)) =~= seq![classes@[index as int]@]);
                assert(unknown_classes(*policy, words).take(1)[0] == unknown_classes(*policy, words)[0]);
            }
            return Some(owned(classes[index].as_str()));
        }
        index = index + 1;
    }
    assert(words.take(classes.len() as int) =~= words);
    None
}

/// The permissions no selected class has, in order.
fn invalid_permission_list(policy: &Policy, classes: &Vec<String>, permissions: &Vec<String>) -> (result: Vec<String>)
    requires
        well_formed(*policy),
    ensures
        texts(result@) == invalid_permissions(*policy, texts(classes@), texts(permissions@)),
{
    let ghost words = texts(permissions@);
    let mut invalid: Vec<String> = Vec::new();
    let mut k: usize = 0;
    assert(words.take(0) =~= Seq::<Seq<char>>::empty());
    assert(texts(invalid@) =~= Seq::<Seq<char>>::empty());
    while k < permissions.len()
        invariant
            k <= permissions.len(),
            well_formed(*policy),
            words == texts(permissions@),
            texts(invalid@) == invalid_permissions(*policy, texts(classes@), words.take(k as int)),
        decreases permissions.len() - k,
    {
        proof {
            assert(words.take(k + 1).drop_last() =~= words.take(k as int));
            assert(words.take(k + 1).last() == permissions@[k as int]@);
        }
        if !permission_exists(policy, classes, permissions[k].as_str()) {
            let ghost before = texts(invalid@);
            invalid.push(owned(permissions[k].as_str()));
            assert(texts(invalid@) =~= before.push(permissions@[k as int]@));
        }
        k = k + 1;
    }
    assert(words.take(permissions.len() as int) =~= words);
    invalid
}

/// Reading a role list: the roles it names, or the first unknown name when
/// `strict`; and the notices it adds.
pub open spec fn role_set_outcome(policy: Policy, check: Seq<char>, option: Seq<char>, value: Option<Seq<char>>, strict: bool)
    -> (Result<Set<usize>, Seq<char>>, Seq<NoticeView>)
{
    let unknown = unknown_roles(policy, text_words(value));
    if strict && unknown.len() > 0 {
        (Err(invalid_item(check, option, not_role(unknown[0]))), Seq::empty())
    } else {
        (Ok(named_roles(policy, text_words(value))),
            if strict {
                Seq::empty()
            } else {
                item_notices(check, option, rbac_logger(), unknown.map_values(|w: Seq<char>| not_role(w)))
            })
    }
}

/// The logger of RBAC assertions.
pub open spec fn rbac_logger() -> Seq<char> {
    "setools.checker.assertrbac"@
}

/// An optional role setting, refused when it names nothing.
pub open spec fn role_criterion(policy: Policy, check: Seq<char>, option: Seq<char>, value: Option<Seq<char>>) -> Result<Option<Seq<char>>, Seq<char>> {
    match trimmed_text(value) {
        None => Ok(None),
        Some(name) => if role_named(policy, name) is None {
            Err(invalid_setting(check, option, not_role(name)))
        } else {
            Ok(Some(name))
        },
    }
}

/// The settings of an RBAC assertion.
#[derive(Debug)]
pub struct AssertRbac {
    /// The source role, if any.
    pub source: Option<String>,
    /// The target role, if any.
    pub target: Option<String>,
    /// Source roles whose rules are accepted, in increasing order.
    pub exempt_sources: Vec<usize>,
    /// Target roles whose rules are accepted, in increasing order.
    pub exempt_targets: Vec<usize>,
    /// Source roles expected to have rules, in increasing order.
    pub expect_sources: Vec<usize>,
    /// Target roles expected to have rules, in increasing order.
    pub expect_targets: Vec<usize>,
}

/// The settings of an RBAC assertion as plain values.
pub struct AssertRbacView {
    /// The source role.
    pub source: Option<Seq<char>>,
    /// The target role.
    pub target: Option<Seq<char>>,
    /// Exempt source roles.
    pub exempt_sources: Set<usize>,
    /// Exempt target roles.
    pub exempt_targets: Set<usize>,
    /// Expected source roles.
    pub expect_sources: Set<usize>,
    /// Expected target roles.
    pub expect_targets: Set<usize>,
}

/// The role lists of the settings are increasing.
pub open spec fn assert_rbac_ok(settings: AssertRbac) -> bool {
    &&& increasing(settings.exempt_sources@)
    &&& increasing(settings.exempt_targets@)
    &&& increasing(settings.expect_sources@)
    &&& increasing(settings.expect_targets@)
}

/// The plain values of RBAC assertion settings.
pub open spec fn assert_rbac_view(settings: AssertRbac) -> AssertRbacView {
    AssertRbacView {
        source: crate::arguments::text_view(settings.source),
        target: crate::arguments::text_view(settings.target),
        exempt_sources: settings.exempt_sources@.to_set(),
        exempt_targets: settings.exempt_targets@.to_set(),
        expect_sources: settings.expect_sources@.to_set(),
        expect_targets: settings.expect_targets@.to_set(),
    }
}

/// The overlap notice of two role sets.
pub open spec fn role_overlap_notice(policy: Policy, expected_name: Seq<char>, exempt_name: Seq<char>,
    expected: Set<usize>, exempt: Set<usize>) -> Seq<NoticeView>
{
    overlap_notice(role_name_list(policy, overlap(id_listing(expected), id_listing(exempt))), expected_name, exempt_name, rbac_logger())
}

/// The settings an RBAC assertion section asks for, or the first error; and
/// the notices reading it adds.
pub open spec fn assert_rbac_settings(policy: Policy, check: Seq<char>, options: Map<Seq<char>, Seq<char>>)
    -> (Result<AssertRbacView, Seq<char>>, Seq<NoticeView>)
{
    match role_criterion(policy, check, "source"@, lookup(options, "source"@)) {
        Err(e) => (Err(e), Seq::empty()),
        Ok(source) => match role_criterion(policy, check, "target"@, lookup(options, "target"@)) {
            Err(e) => (Err(e), Seq::empty()),
            Ok(target) => if source is None && target is None {
                (Err("At least one of source or target options must be set."@), Seq::empty())
            } else {
                let (es, n1) = role_set_outcome(policy, check, "exempt_source"@, lookup(options, "exempt_source"@), false);
                let (et, n2) = role_set_outcome(policy, check, "exempt_target"@, lookup(options, "exempt_target"@), false);
                let (xs, n3) = role_set_outcome(policy, check, "expect_source"@, lookup(options, "expect_source"@), true);
                let (xt, n4) = role_set_outcome(policy, check, "expect_target"@, lookup(options, "expect_target"@), true);
                match (es, et, xs, xt) {
                    (Ok(es), Ok(et), Ok(xs), Ok(xt)) => (
                        Ok(AssertRbacView {
                            source,
                            target,
                            exempt_sources: es,
                            exempt_targets: et,
                            expect_sources: xs,
                            expect_targets: xt,
                        }),
                        n1 + n2 + role_overlap_notice(policy, "expect_source"@, "exempt_source"@, xs, es)
                            + role_overlap_notice(policy, "expect_target"@, "exempt_target"@, xt, et),
                    ),
                    (_, _, Err(e), _) => (Err(e), n1 + n2),
                    (_, _, Ok(_), Err(e)) => (Err(e), n1 + n2),
                    _ => (Err(Seq::empty()), n1 + n2),
                }
            },
        },
    }
}

/// Reads the settings of an RBAC assertion section; notices report list
/// items that name nothing and roles both expected and exempt.
pub fn parse_assert_rbac(policy: &Policy, name: &str, options: &Vec<(String, String)>, notices: &mut Vec<Notice>)
    -> (result: Result<AssertRbac, CheckerConfigError>)
    requires
        roles_well_formed(*policy),
        unique_keys(options@),
    ensures
        ({
            let (settings, added) = assert_rbac_settings(*policy, name@, text_map(options@));
            &&& notice_views(final(notices)@) == notice_views(old(notices)@) + added
            &&& match settings {
                Ok(v) => result matches Ok(s) && assert_rbac_ok(s) && assert_rbac_view(s) == v,
                Err(e) => result matches Err(x) && x@ == e,
            }
        }),
{
    let ghost start = notice_views(notices@);
    assert(start + Seq::<NoticeView>::empty() =~= start);
    let source = match parse_role_criterion(policy, name, "source", get_option(options, "source")) {
        Ok(v) => v,
        Err(e) => {
            return Err(e);
        },
    };
    let target = match parse_role_criterion(policy, name, "target", get_option(options, "target")) {
        Ok(v) => v,
        Err(e) => {
            return Err(e);
        },
    };
    if source.is_none() && target.is_none() {
        return Err(CheckerConfigError::new("At least one of source or target options must be set."));
    }
    let exempt_sources = match parse_role_set(policy, name, "exempt_source", get_option(options, "exempt_source"), false, notices) {
        Ok(v) => v,
        Err(e) => {
            return Err(e);
        },
    };
    let exempt_targets = match parse_role_set(policy, name, "exempt_target", get_option(options, "exempt_target"), false, notices) {
        Ok(v) => v,
        Err(e) => {
            return Err(e);
        },
    };
    let expect_sources = match parse_role_set(policy, name, "expect_source", get_option(options, "expect_source"), true, notices) {
        Ok(v) => v,
        Err(e) => {
            return Err(e);
        },
    };
    let expect_targets = match parse_role_set(policy, name, "expect_target", get_option(options, "expect_target"), true, notices) {
        Ok(v) => v,
        Err(e) => {
            return Err(e);
        },
    };
    add_role_overlap_notice(policy, "expect_source", "exempt_source", &expect_sources, &exempt_sources, notices);
    add_role_overlap_notice(policy, "expect_target", "exempt_target", &expect_targets, &exempt_targets, notices);
    proof {
        lemma_id_listing(expect_sources@);
        lemma_id_listing(exempt_sources@);
        lemma_id_listing(expect_targets@);
        lemma_id_listing(exempt_targets@);
    }
    Ok(AssertRbac { source, target, exempt_sources, exempt_targets, expect_sources, expect_targets })
}

/// The settings of a read-only check.
#[derive(Debug)]
pub struct ReadOnly {
    /// The kind of file protected.
    pub kind: ReadOnlyKind,
    /// Domains allowed to write the files, in increasing order.
    pub exempt_writers: Vec<usize>,
    /// Domains whose execute or load rules are ignored, in increasing order.
    pub exempt_users: Vec<usize>,
    /// File types left unchecked, in increasing order.
    pub exempt_files: Vec<usize>,
}

/// The logger of a read-only check.
pub open spec fn read_only_logger(kind: ReadOnlyKind) -> Seq<char> {
    match kind {
        ReadOnlyKind::Executable => "setools.checker.roexec"@,
        ReadOnlyKind::KernelModule => "setools.checker.rokmod"@,
    }
}

/// The option naming the domains whose use of the files is ignored.
pub open spec fn user_option(kind: ReadOnlyKind) -> Seq<char> {
    match kind {
        ReadOnlyKind::Executable => "exempt_exec_domain"@,
        ReadOnlyKind::KernelModule => "exempt_load_domain"@,
    }
}

/// The sets a read-only section asks for, and the notices reading it adds.
pub open spec fn read_only_settings(policy: Policy, check: Seq<char>, options: Map<Seq<char>, Seq<char>>, kind: ReadOnlyKind)
    -> ((Set<usize>, Set<usize>, Set<usize>), Seq<NoticeView>)
{
    let logger = read_only_logger(kind);
    let writers = lookup(options, "exempt_write_domain"@);
    let users = lookup(options, user_option(kind));
    let files = lookup(options, "exempt_file"@);
    (
        (named_types(policy, text_words(writers)), named_types(policy, text_words(users)), named_types(policy, text_words(files))),
        type_set_outcome(policy, check, "exempt_write_domain"@, writers, false, logger).1
            + type_set_outcome(policy, check, user_option(kind), users, false, logger).1
            + type_set_outcome(policy, check, "exempt_file"@, files, false, logger).1,
    )
}

/// Reads the settings of a read-only section; notices report list items
/// that name nothing.
pub fn parse_read_only(policy: &Policy, name: &str, options: &Vec<(String, String)>, kind: ReadOnlyKind, notices: &mut Vec<Notice>)
    -> (result: ReadOnly)
    requires
        well_formed(*policy),
        unique_keys(options@),
    ensures
        ({
            let (sets, added) = read_only_settings(*policy, name@, text_map(options@), kind);
            &&& notice_views(final(notices)@) == notice_views(old(notices)@) + added
            &&& result.kind == kind
            &&& increasing(result.exempt_writers@) && increasing(result.exempt_users@) && increasing(result.exempt_files@)
            &&& result.exempt_writers@.to_set() == sets.0
            &&& result.exempt_users@.to_set() == sets.1
            &&& result.exempt_files@.to_set() == sets.2
        }),
{
    let logger = match kind {
        ReadOnlyKind::Executable => "setools.checker.roexec",
        ReadOnlyKind::KernelModule => "setools.checker.rokmod",
    };
    let users = match kind {
        ReadOnlyKind::Executable => "exempt_exec_domain",
        ReadOnlyKind::KernelModule => "exempt_load_domain",
    };
    let ghost start = notice_views(notices@);
    let writers = parse_type_set(policy, name, "exempt_write_domain", get_option(options, "exempt_write_domain"), false, logger, notices);
    let ghost n1 = notice_views(notices@);
    let exempt_users = parse_type_set(policy, name, users, get_option(options, users), false, logger, notices);
    let ghost n2 = notice_views(notices@);
    let files = parse_type_set(policy, name, "exempt_file", get_option(options, "exempt_file"), false, logger, notices);
    proof {
        assert(notice_views(notices@) =~= start + (n1.skip(start.len() as int) + n2.skip(n1.len() as int)
            + notice_views(notices@).skip(n2.len() as int)));
    }
    match (writers, exempt_users, files) {
        (Ok(w), Ok(u), Ok(f)) => ReadOnly { kind, exempt_writers: w, exempt_users: u, exempt_files: f },
        _ => {
            proof {
                assert(false);
            }
            ReadOnly { kind, exempt_writers: Vec::new(), exempt_users: Vec::new(), exempt_files: Vec::new() }
        },
    }
}

/// The first key in name order that the check does not accept, if any.
pub open spec fn refused_key(options: Map<Seq<char>, Seq<char>>, local: Seq<Seq<char>>) -> Option<Seq<char>> {
    if exists|key: Seq<char>| options.dom().contains(key) && invalid_key(key, local) {
        Some(choose|key: Seq<char>| options.dom().contains(key) && invalid_key(key, local)
            && forall|other: Seq<char>| #[trigger] options.dom().contains(other) && invalid_key(other, local)
                ==> other == key || text_lt(key, other))
    } else {
        None
    }
}

/// The smallest refused key is the one `refused_key` names.
proof fn lemma_refused_key(options: Map<Seq<char>, Seq<char>>, local: Seq<Seq<char>>, key: Seq<char>)
    requires
        options.dom().contains(key),
        invalid_key(key, local),
        forall|other: Seq<char>| #[trigger] options.dom().contains(other) && invalid_key(other, local)
            ==> other == key || text_lt(key, other),
    ensures
        refused_key(options, local) == Some(key),
{
    let chosen = choose|k: Seq<char>| options.dom().contains(k) && invalid_key(k, local)
        && forall|other: Seq<char>| #[trigger] options.dom().contains(other) && invalid_key(other, local)
            ==> other == k || text_lt(k, other);
    assert(options.dom().contains(chosen) && invalid_key(chosen, local));
    if chosen != key {
        assert(text_lt(key, chosen));
        assert(text_lt(chosen, key));
        crate::text::lemma_text_lt_transitive(key, chosen, key);
        crate::text::lemma_text_lt_irreflexive(key);
    }
}

/// Checks the keys of a section and names the first refused one.
fn check_keys(check: &str, options: &Vec<(String, String)>, local: &Vec<String>) -> (result: Result<(), CheckerConfigError>)
    ensures
        match refused_key(text_map(options@), texts(local@)) {
            Some(key) => result matches Err(e) && e@ == check@ + ": Invalid option: "@ + key,
            None => result is Ok,
        },
{
    let outcome = validate_keys(check, options, local);
    proof {
        let m = text_map(options@);
        assert(m.dom() == key_set(options@));
        match &outcome {
            Ok(()) => {
                assert forall|key: Seq<char>| !(m.dom().contains(key) && invalid_key(key, texts(local@))) by {
                    if m.dom().contains(key) {
                        assert(key_set(options@).contains(key));
                    }
                }
            },
            Err(error) => {
                let key = choose|key: Seq<char>| {
                    &&& #[trigger] key_set(options@).contains(key)
                    &&& invalid_key(key, texts(local@))
                    &&& (forall|other: Seq<char>| #[trigger] key_set(options@).contains(other) && invalid_key(other, texts(local@))
                        ==> other == key || text_lt(key, other))
                    &&& error@ == check@ + ": Invalid option: "@ + key
                };
                lemma_refused_key(m, texts(local@), key);
            },
        }
    }
    outcome
}

/// What a check looks at, by kind, as plain values.
pub enum CheckKindView {
    /// A type attribute that must be empty; its number when it exists.
    EmptyAttribute { attribute: Seq<char>, id: Option<int> },
    /// A TE assertion.
    AssertTe(AssertTeView),
    /// An RBAC assertion.
    AssertRbac(AssertRbacView),
    /// A read-only check of executables or kernel modules.
    ReadOnly { kind: ReadOnlyKind, writers: Set<usize>, users: Set<usize>, files: Set<usize> },
}

/// A configured check as plain values.
pub struct CheckView {
    /// The section name.
    pub name: Seq<char>,
    /// The description, if any.
    pub description: Option<Seq<char>>,
    /// Why the check is disabled, if it is.
    pub disabled: Option<Seq<char>>,
    /// What the check looks at.
    pub kind: CheckKindView,
}

/// What a check looks at, by kind.
#[derive(Debug)]
pub enum CheckKind {
    /// A type attribute that must be empty; its number when it exists.
    EmptyAttribute { attribute: String, id: Option<usize> },
    /// A TE assertion.
    AssertTe(AssertTe),
    /// An RBAC assertion.
    AssertRbac(AssertRbac),
    /// A read-only check of executables or kernel modules.
    ReadOnly(ReadOnly),
}

/// A configured check.
#[derive(Debug)]
pub struct Check {
    /// The section name.
    pub name: String,
    /// The description, if any.
    pub description: Option<String>,
    /// Why the check is disabled, if it is.
    pub disabled: Option<String>,
    /// What the check looks at.
    pub kind: CheckKind,
}

/// The type and role lists of a check are increasing.
pub open spec fn check_ok(check: Check) -> bool {
    match check.kind {
        CheckKind::AssertTe(s) => assert_te_ok(s),
        CheckKind::AssertRbac(s) => assert_rbac_ok(s),
        CheckKind::ReadOnly(r) => increasing(r.exempt_writers@) && increasing(r.exempt_users@) && increasing(r.exempt_files@),
        _ => true,
    }
}

/// The plain values of a check.
pub open spec fn check_view(check: Check) -> CheckView {
    CheckView {
        name: check.name@,
        description: crate::arguments::text_view(check.description),
        disabled: crate::arguments::text_view(check.disabled),
        kind: match check.kind {
            CheckKind::EmptyAttribute { attribute, id } => CheckKindView::EmptyAttribute {
                attribute: attribute@,
                id: match id { Some(i) => Some(i as int), None => None },
            },
            CheckKind::AssertTe(s) => CheckKindView::AssertTe(assert_te_view(s)),
            CheckKind::AssertRbac(s) => CheckKindView::AssertRbac(assert_rbac_view(s)),
            CheckKind::ReadOnly(r) => CheckKindView::ReadOnly {
                kind: r.kind,
                writers: r.exempt_writers@.to_set(),
                users: r.exempt_users@.to_set(),
                files: r.exempt_files@.to_set(),
            },
        },
    }
}

/// The number of the attribute with the given name, if it is one.
pub open spec fn attribute_named(policy: Policy, name: Seq<char>) -> Option<int> {
    match symbol_named(policy, name) {
        Some(i) => if policy.types@[i].attribute { Some(i) } else { None },
        None => None,
    }
}

/// The settings an empty-attribute section asks for, or its error.
pub open spec fn empty_attribute_settings(policy: Policy, check: Seq<char>, options: Map<Seq<char>, Seq<char>>) -> Result<CheckKindView, Seq<char>> {
    match lookup(options, "attr"@) {
        Some(attribute) if attribute.len() > 0 => {
            let missing_ok = match lookup(options, "missing_ok"@) {
                Some(v) => yes_value(v),
                None => false,
            };
            let id = attribute_named(policy, attribute);
            if id is None && !missing_ok {
                Err(check + ": attr setting error: "@ + attribute + " is not a valid type attribute"@)
            } else {
                Ok(CheckKindView::EmptyAttribute { attribute, id })
            }
        },
        _ => Err(check + ": \"attr\" setting is missing."@),
    }
}

/// The keys each kind of check accepts besides the common ones.
pub open spec fn local_keys(check_type: Seq<char>) -> Seq<Seq<char>> {
    if check_type == "empty_typeattr"@ {
        seq!["attr"@, "missing_ok"@]
    } else if check_type == "assert_te"@ {
        seq!["source"@, "target"@, "tclass"@, "perms"@, "exempt_source"@, "exempt_target"@, "expect_source"@, "expect_target"@]
    } else if check_type == "assert_rbac"@ {
        seq!["source"@, "target"@, "exempt_source"@, "exempt_target"@, "expect_source"@, "expect_target"@]
    } else if check_type == "ro_execs"@ {
        seq!["exempt_write_domain"@, "exempt_exec_domain"@, "exempt_file"@]
    } else {
        seq!["exempt_write_domain"@, "exempt_load_domain"@, "exempt_file"@]
    }
}

/// Whether the check type is one of the registered ones.
pub open spec fn known_check_type(check_type: Seq<char>) -> bool {
    check_type == "empty_typeattr"@ || check_type == "assert_te"@ || check_type == "assert_rbac"@
        || check_type == "ro_execs"@ || check_type == "ro_kmods"@
}

/// The check a section configures, or its error; and the notices reading
/// it adds.
#[verifier::opaque]
pub open spec fn section_settings(policy: Policy, section: SectionView, check_type: Seq<char>) -> (Result<CheckView, Seq<char>>, Seq<NoticeView>) {
    let name = section.name;
    let options = section.options;
    let make = |kind: CheckKindView| CheckView {
        name,
        description: trimmed_text(lookup(options, "desc"@)),
        disabled: trimmed_text(lookup(options, "disable"@)),
        kind,
    };
    if !known_check_type(check_type) {
        (Err(name + ": Unknown policy check type: "@ + check_type), Seq::empty())
    } else {
        match refused_key(options, local_keys(check_type)) {
            Some(key) => (Err(name + ": Invalid option: "@ + key), Seq::empty()),
            None => if check_type == "empty_typeattr"@ {
                match empty_attribute_settings(policy, name, options) {
                    Ok(kind) => (Ok(make(kind)), Seq::empty()),
                    Err(e) => (Err(e), Seq::empty()),
                }
            } else if check_type == "assert_te"@ {
                let (r, n) = assert_te_settings(policy, name, options);
                match r {
                    Ok(v) => (Ok(make(CheckKindView::AssertTe(v))), n),
                    Err(e) => (Err(e), n),
                }
            } else if check_type == "assert_rbac"@ {
                let (r, n) = assert_rbac_settings(policy, name, options);
                match r {
                    Ok(v) => (Ok(make(CheckKindView::AssertRbac(v))), n),
                    Err(e) => (Err(e), n),
                }
            } else {
                let kind = if check_type == "ro_execs"@ { ReadOnlyKind::Executable } else { ReadOnlyKind::KernelModule };
                let (sets, n) = read_only_settings(policy, name, options, kind);
                (Ok(make(CheckKindView::ReadOnly { kind, writers: sets.0, users: sets.1, files: sets.2 })), n)
            },
        }
    }
}

/// The keys a kind of check accepts besides the common ones.
fn local_key_list(check_type: &str) -> (result: Vec<String>)
    ensures
        texts(result@) == local_keys(check_type@),
{
    let names: Vec<&str> = if same_text(check_type, "empty_typeattr") {
        vec!["attr", "missing_ok"]
    } else if same_text(check_type, "assert_te") {
        vec!["source", "target", "tclass", "perms", "exempt_source", "exempt_target", "expect_source", "expect_target"]
    } else if same_text(check_type, "assert_rbac") {
        vec!["source", "target", "exempt_source", "exempt_target", "expect_source", "expect_target"]
    } else if same_text(check_type, "ro_execs") {
        vec!["exempt_write_domain", "exempt_exec_domain", "exempt_file"]
    } else {
        vec!["exempt_write_domain", "exempt_load_domain", "exempt_file"]
    };
    let mut result: Vec<String> = Vec::new();
    let mut index: usize = 0;
    while index < names.len()
        invariant
            index <= names.len(),
            texts(result@) == names@.take(index as int).map_values(|n: &str| n@),
        decreases names.len() - index,
    {
        let ghost before = texts(result@);
        result.push(owned(names[index]));
        proof {
            assert(texts(result@) =~= before.push(names@[index as int]@));
            assert(names@.take(index + 1).map_values(|n: &str| n@) =~= names@.take(index as int).map_values(|n: &str| n@).push(names@[index as int]@));
        }
        index = index + 1;
    }
    assert(names@.take(names.len() as int) =~= names@);
    assert(texts(result@) =~= local_keys(check_type@));
    result
}

impl Check {
    /// Reads the check a configuration section sets up.
    pub fn from_section(policy: &Policy, section: &IniSection, check_type: &str, notices: &mut Vec<Notice>)
        -> (result: Result<Check, CheckerConfigError>)
        requires
            well_formed(*policy),
            roles_well_formed(*policy),
            unique_keys(section.options@),
        ensures
            ({
                let (settings, added) = section_settings(*policy, section_view(*section), check_type@);
                &&& notice_views(final(notices)@) == notice_views(old(notices)@) + added
                &&& match settings {
                    Ok(v) => result matches Ok(c) && check_ok(c) && check_view(c) == v,
                    Err(e) => result matches Err(x) && x@ == e,
                }
            }),
    {
        reveal(section_settings);
        let ghost start = notice_views(notices@);
        assert(start + Seq::<NoticeView>::empty() =~= start);
        let known = same_text(check_type, "empty_typeattr") || same_text(check_type, "assert_te")
            || same_text(check_type, "assert_rbac") || same_text(check_type, "ro_execs") || same_text(check_type, "ro_kmods");
        if !known {
            let mut message = owned(section.name.as_str());
            push_str(&mut message, ": Unknown policy check type: ");
            push_str(&mut message, check_type);
            return Err(CheckerConfigError::new(message.as_str()));
        }
        let local = local_key_list(check_type);
        match check_keys(section.name.as_str(), &section.options, &local) {
            Ok(()) => {},
            Err(e) => {
                return Err(e);
            },
        }
        let description = nonempty(get_option(&section.options, "desc"));
        let disabled = nonempty(get_option(&section.options, "disable"));
        let name = owned(section.name.as_str());
        let options = &section.options;
        let kind = if same_text(check_type, "empty_typeattr") {
            let attribute = match get_option(options, "attr") {
                Some(value) => {
                    if value.unicode_len() == 0 {
                        let mut message = owned(name.as_str());
                        push_str(&mut message, ": \"attr\" setting is missing.");
                        return Err(CheckerConfigError::new(message.as_str()));
                    }
                    owned(value.as_str())
                },
                None => {
                    let mut message = owned(name.as_str());
                    push_str(&mut message, ": \"attr\" setting is missing.");
                    return Err(CheckerConfigError::new(message.as_str()));
                },
            };
            let missing_ok = config_bool(get_option(options, "missing_ok"));
            let id = match symbol_by_name(policy, attribute.as_str()) {
                Some(i) => if policy.types[i].attribute { Some(i) } else { None },
                None => None,
            };
            if id.is_none() && !missing_ok {
                let mut message = owned(name.as_str());
                push_str(&mut message, ": attr setting error: ");
                push_str(&mut message, attribute.as_str());
                push_str(&mut message, " is not a valid type attribute");
                return Err(CheckerConfigError::new(message.as_str()));
            }
            CheckKind::EmptyAttribute { attribute, id }
        } else if same_text(check_type, "assert_te") {
            match parse_assert_te(policy, name.as_str(), options, notices) {
                Ok(settings) => CheckKind::AssertTe(settings),
                Err(e) => {
                    return Err(e);
                },
            }
        } else if same_text(check_type, "assert_rbac") {
            match parse_assert_rbac(policy, name.as_str(), options, notices) {
                Ok(settings) => CheckKind::AssertRbac(settings),
                Err(e) => {
                    return Err(e);
                },
            }
        } else {
            let kind = if same_text(check_type, "ro_execs") { ReadOnlyKind::Executable } else { ReadOnlyKind::KernelModule };
            CheckKind::ReadOnly(parse_read_only(policy, name.as_str(), options, kind, notices))
        };
        Ok(Check { name, description, disabled, kind })
    }
}

/// The checks the sections configure, in order, or the first error; and the
/// notices reading them adds.
pub open spec fn config_checks(policy: Policy, sections: Seq<SectionView>) -> (Result<Seq<CheckView>, Seq<char>>, Seq<NoticeView>)
    decreases sections.len(),
{
    if sections.len() == 0 {
        (Ok(Seq::empty()), Seq::empty())
    } else {
        let (before, notices) = config_checks(policy, sections.drop_last());
        match before {
            Err(e) => (Err(e), notices),
            Ok(checks) => {
                let section = sections.last();
                match lookup(section.options, "check_type"@) {
                    None => (Err(section.name + ": Missing check_type option."@), notices),
                    Some(check_type) => {
                        let (check, more) = section_settings(policy, section, check_type);
                        match check {
                            Ok(c) => (Ok(checks.push(c)), notices + more),
                            Err(e) => (Err(e), notices + more),
                        }
                    },
                }
            },
        }
    }
}

/// The notice that closes a successful validation.
pub open spec fn validated_notice() -> NoticeView {
    NoticeView { level: NoticeLevel::Debug, module: "setools.checker.checker"@, message: "Validated 0 checks."@ }
}

/// The checks a configuration document sets up, or its error; and the
/// notices reading it gives.
pub open spec fn config_outcome(policy: Policy, source: Seq<char>, contents: Seq<char>) -> (Result<Seq<CheckView>, Seq<char>>, Seq<NoticeView>) {
    match ini_sections(contents) {
        Err(e) => (Err("Unable to parse checker config "@ + source + ": "@ + e), Seq::empty()),
        Ok(sections) => {
            let (checks, notices) = config_checks(policy, sections);
            match checks {
                Err(e) => (Err(e), notices),
                Ok(list) => if list.len() == 0 {
                    (Err("No checks found in "@ + source + "."@), notices)
                } else {
                    (Ok(list), notices.push(validated_notice()))
                },
            }
        },
    }
}

/// The plain values of a list of checks.
pub open spec fn check_views(checks: Seq<Check>) -> Seq<CheckView> {
    checks.map_values(|c: Check| check_view(c))
}

/// The checks a configuration sets up over a policy.
pub struct Checker<'a> {
    policy: &'a Policy,
    checks: Vec<Check>,
    notices: Vec<Notice>,
}

impl<'a> Checker<'a> {
    /// The policy is well formed and every check's lists are increasing.
    #[verifier::type_invariant]
    closed spec fn consistent(self) -> bool {
        &&& well_formed(*self.policy)
        &&& roles_well_formed(*self.policy)
        &&& forall|i: int| 0 <= i < self.checks@.len() ==> check_ok(#[trigger] self.checks@[i])
    }

    /// The configured checks as plain values.
    pub closed spec fn configured(self) -> Seq<CheckView> {
        check_views(self.checks@)
    }

    /// The validation notices as plain values.
    pub closed spec fn notice_list(self) -> Seq<NoticeView> {
        notice_views(self.notices@)
    }

    /// The policy the checks examine.
    pub closed spec fn examined(self) -> Policy {
        *self.policy
    }

    /// Reads and validates a checker configuration; `source` names it in
    /// messages.
    pub fn from_config(policy: &'a Policy, source: &str, contents: &str) -> (result: Result<Checker<'a>, CheckerConfigError>)
        requires
            well_formed(*policy),
            roles_well_formed(*policy),
        ensures
            match config_outcome(*policy, source@, contents@) {
                (Ok(checks), notices) => result matches Ok(c) && c.configured() == checks && c.notice_list() == notices
                    && c.examined() == *policy,
                (Err(message), _) => result matches Err(e) && e@ == message,
            },
    {
        let sections = match parse_ini(contents) {
            Ok(sections) => sections,
            Err(error) => {
                let mut message = owned("Unable to parse checker config ");
                push_str(&mut message, source);
                push_str(&mut message, ": ");
                push_str(&mut message, error.as_str());
                return Err(CheckerConfigError::new(message.as_str()));
            },
        };
        let ghost views = section_views(sections@);
        let mut checks: Vec<Check> = Vec::new();
        let mut notices: Vec<Notice> = Vec::new();
        let mut index: usize = 0;
        proof {
            assert(views.take(0) =~= Seq::<SectionView>::empty());
            assert(check_views(checks@) =~= Seq::<CheckView>::empty());
            assert(notice_views(notices@) =~= Seq::<NoticeView>::empty());
        }
        while index < sections.len()
            invariant
                index <= sections.len(),
                well_formed(*policy),
                roles_well_formed(*policy),
                views == section_views(sections@),
                ini_sections(contents@) == Ok::<Seq<SectionView>, Seq<char>>(views),
                forall|i: int| 0 <= i < sections@.len() ==> unique_keys(#[trigger] sections@[i].options@),
                forall|i: int| 0 <= i < checks@.len() ==> check_ok(#[trigger] checks@[i]),
                config_checks(*policy, views.take(index as int))
                    == (Ok::<Seq<CheckView>, Seq<char>>(check_views(checks@)), notice_views(notices@)),
            decreases sections.len() - index,
        {
            let section = &sections[index];
            proof {
                assert(views.take(index + 1).drop_last() =~= views.take(index as int));
                assert(views.take(index + 1).last() == section_view(*section));
            }
            let check_type = match get_option(&section.options, "check_type") {
                Some(value) => owned(value.as_str()),
                None => {
                    let mut message = owned(section.name.as_str());
                    push_str(&mut message, ": Missing check_type option.");
                    proof {
                        lemma_config_error_stays(*policy, views, index as int + 1);
                    }
                    return Err(CheckerConfigError::new(message.as_str()));
                },
            };
            let ghost before = notice_views(notices@);
            match Check::from_section(policy, section, check_type.as_str(), &mut notices) {
                Ok(check) => {
                    let ghost old_checks = check_views(checks@);
                    let ghost old_list = checks@;
                    checks.push(check);
                    assert(check_views(checks@) =~= old_checks.push(check_view(check)));
                    assert forall|i: int| 0 <= i < checks@.len() implies check_ok(#[trigger] checks@[i]) by {
                        if i < old_list.len() {
                            assert(checks@[i] == old_list[i]);
                        }
                    }
                },
                Err(e) => {
                    proof {
                        lemma_config_error_stays(*policy, views, index as int + 1);
                    }
                    return Err(e);
                },
            }
            index = index + 1;
        }
        proof {
            assert(views.take(sections.len() as int) =~= views);
        }
        if checks.len() == 0 {
            let mut message = owned("No checks found in ");
            push_str(&mut message, source);
            push_str(&mut message, ".");
            return Err(CheckerConfigError::new(message.as_str()));
        }
        let ghost before = notice_views(notices@);
        push_notice(&mut notices, NoticeLevel::Debug, "setools.checker.checker", owned("Validated 0 checks."));
        Ok(Checker { policy, checks, notices })
    }

    /// Returns the notices validation gave.
    pub fn notices(&self) -> (result: &Vec<Notice>)
        ensures
            notice_views(result@) == self.notice_list(),
    {
        &self.notices
    }

    /// Returns the number of configured checks, disabled ones included.
    pub fn len(&self) -> (result: usize)
        ensures
            result == self.configured().len(),
    {
        self.checks.len()
    }

    /// Returns whether no check is configured.
    pub fn is_empty(&self) -> (result: bool)
        ensures
            result == (self.configured().len() == 0),
    {
        self.checks.len() == 0
    }

    /// Returns the configured checks in section order.
    pub fn checks(&self) -> (result: &Vec<Check>)
        ensures
            check_views(result@) == self.configured(),
            forall|i: int| 0 <= i < result@.len() ==> check_ok(#[trigger] result@[i]),
    {
        proof {
            use_type_invariant(self);
        }
        &self.checks
    }

    /// Returns the policy the checks examine.
    pub fn policy(&self) -> (result: &'a Policy)
        ensures
            *result == self.examined(),
            well_formed(*result),
            roles_well_formed(*result),
    {
        proof {
            use_type_invariant(self);
        }
        self.policy
    }
}

/// Once a section fails, the configuration fails with it.
proof fn lemma_config_error_stays(policy: Policy, sections: Seq<SectionView>, k: int)
    requires
        0 <= k <= sections.len(),
        config_checks(policy, sections.take(k)).0 is Err,
    ensures
        config_checks(policy, sections).0 == config_checks(policy, sections.take(k)).0,
    decreases sections.len(),
{
    if sections.len() > k {
        assert(sections.drop_last().take(k) =~= sections.take(k));
        lemma_config_error_stays(policy, sections.drop_last(), k);
    } else {
        assert(sections.take(k) =~= sections);
    }
}


/// Whether the policy's roles have distinct names, as the checks require.
pub fn roles_distinct(policy: &Policy) -> (result: bool)
    ensures
        result == roles_well_formed(*policy),
{
    let roles = &policy.roles;
    let mut i: usize = 0;
    while i < roles.len()
        invariant
            i <= roles@.len(),
            roles@ == policy.roles@,
            forall|a: int, b: int| 0 <= a < i && 0 <= b < roles@.len() && a != b
                ==> roles@[a].name@ != roles@[b].name@,
        decreases roles.len() - i,
    {
        let mut j: usize = 0;
        while j < roles.len()
            invariant
                i < roles@.len(),
                j <= roles@.len(),
                roles@ == policy.roles@,
                forall|a: int, b: int| 0 <= a < i && 0 <= b < roles@.len() && a != b
                    ==> roles@[a].name@ != roles@[b].name@,
                forall|b: int| 0 <= b < j && b != i ==> roles@[i as int].name@ != roles@[b].name@,
            decreases roles.len() - j,
        {
            if j != i && crate::text::same_text(roles[i].name.as_str(), roles[j].name.as_str()) {
                return false;
            }
            j = j + 1;
        }
        i = i + 1;
    }
    true
}

} // verus!
