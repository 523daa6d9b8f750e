//! The component listings of the policy information tool whose data the
//! policy model does not carry: commons, users, the types each role may
//! have, and type bounds. Their data comes as plain tables beside the
//! policy.
use vstd::prelude::*;
use crate::text::{texts, owned, push_str, joined_by, join_texts, text_order, sort_texts, same_text};
use crate::policy::Policy;
use crate::labeling::{Level, MlsRange, level_text, mls_range_text, write_level, write_range};
use crate::seinfo::{name_ok, by_name, named, sort_named, renderings, Selection, SeinfoOptions, QueryAnswers, Section,
    section_views, optional_section, chosen, crit_of, sections_spec, answers_fit, seinfo_sections, push_section,
    chosen_exec, answer_pairs, Kind, aliased_items, permissive_pairs, polcap_items};
use crate::labeling::{LabelingRule, LabelingOptions, labeling_spec, labeling_options_fit, labeling_sections};
use crate::numbers::{BuildError, error_view};
use crate::class_rules::{ClassDetail, DefaultRule, Constraint, answered_classes, constraint_items, default_items,
    class_error, class_texts, constraint_texts, default_texts, check_class};
use crate::arguments::text_view;

verus! {

/// A common permission set.
#[derive(Debug)]
pub struct Common {
    /// Its name.
    pub name: String,
    /// Its permissions.
    pub permissions: Vec<String>,
}

/// A user, with the numbers of its roles and, where the policy has MLS,
/// its default level and range.
#[derive(Debug)]
pub struct User {
    /// Its name.
    pub name: String,
    /// The numbers of its roles.
    pub roles: Vec<usize>,
    /// Its default level and range.
    pub mls: Option<(Level, MlsRange)>,
}

/// The symbols the policy model does not carry.
#[derive(Debug)]
pub struct ComponentTables {
    /// The commons.
    pub commons: Vec<Common>,
    /// The users.
    pub users: Vec<User>,
    /// For each role of the policy, the numbers of the types it may have.
    pub role_types: Vec<Vec<usize>>,
    /// For each type of the policy, the number of the type bounding it.
    pub bounds: Vec<Option<usize>>,
    /// For each class of the policy, its common and own permissions.
    pub class_details: Vec<ClassDetail>,
    /// The `default_*` rules.
    pub defaults: Vec<DefaultRule>,
    /// The constraints and validate-transition rules.
    pub constraints: Vec<Constraint>,
}

/// Every number in the tables names a symbol of the policy.
pub open spec fn tables_fit(policy: Policy, t: ComponentTables) -> bool {
    &&& t.role_types@.len() == policy.roles@.len()
    &&& t.bounds@.len() == policy.types@.len()
    &&& forall|r: int, k: int| 0 <= r < t.role_types@.len() && 0 <= k < t.role_types@[r]@.len()
        ==> #[trigger] t.role_types@[r]@[k] < policy.types@.len()
    &&& forall|i: int| 0 <= i < t.bounds@.len() && (#[trigger] t.bounds@[i]) is Some
        ==> t.bounds@[i]->Some_0 < policy.types@.len()
    &&& forall|u: int, k: int| 0 <= u < t.users@.len() && 0 <= k < t.users@[u].roles@.len()
        ==> #[trigger] t.users@[u].roles@[k] < policy.roles@.len()
    &&& t.class_details@.len() == policy.classes@.len()
    &&& forall|k: int| 0 <= k < t.defaults@.len() ==> #[trigger] t.defaults@[k].class < policy.classes@.len()
    &&& forall|k: int| 0 <= k < t.constraints@.len() ==> #[trigger] t.constraints@[k].class < policy.classes@.len()
}

/// The names of the types with the given numbers.
pub open spec fn type_names(policy: Policy, ids: Seq<usize>) -> Seq<Seq<char>> {
    ids.map_values(|id: usize| policy.types@[id as int].name@)
}

/// The names of the roles with the given numbers.
pub open spec fn role_names(policy: Policy, ids: Seq<usize>) -> Seq<Seq<char>> {
    ids.map_values(|id: usize| policy.roles@[id as int].name@)
}

/// A common by name, or as its statement.
pub open spec fn common_item(common: Common, expand: bool) -> Seq<char> {
    if expand {
        "common "@ + common.name@ + "\n{\n\t"@ + joined_by(texts(common.permissions@), "\n\t"@) + "\n}"@
    } else {
        common.name@
    }
}

/// The commons the criterion selects, in table order.
pub open spec fn common_items(commons: Seq<Common>, crit: Option<Seq<char>>, expand: bool) -> Seq<Seq<char>>
    decreases commons.len(),
{
    if commons.len() == 0 {
        Seq::empty()
    } else {
        let before = common_items(commons.drop_last(), crit, expand);
        if name_ok(commons.last().name@, crit) { before.push(common_item(commons.last(), expand)) } else { before }
    }
}

/// A role by name, or as its statement with its types sorted by name.
pub open spec fn role_item(policy: Policy, t: ComponentTables, r: int, expand: bool) -> Seq<char> {
    let name = policy.roles@[r].name@;
    let types = type_names(policy, t.role_types@[r]@).sort_by(text_order());
    if !expand {
        name
    } else if types.len() == 0 {
        "role "@ + name + ";"@
    } else if types.len() == 1 {
        "role "@ + name + " types "@ + types[0] + ";"@
    } else {
        "role "@ + name + " types { "@ + joined_by(types, " "@) + " };"@
    }
}

/// The roles at the answered positions, written.
pub open spec fn answered_roles(policy: Policy, t: ComponentTables, ids: Seq<usize>, expand: bool) -> Seq<(Seq<char>, Seq<char>)> {
    ids.map_values(|r: usize| (policy.roles@[r as int].name@, role_item(policy, t, r as int, expand)))
}

/// Whether a role may have a type with the given name.
pub open spec fn role_has_type(policy: Policy, t: ComponentTables, r: int, name: Seq<char>) -> bool {
    exists|k: int| 0 <= k < t.role_types@[r]@.len() && policy.types@[t.role_types@[r]@[k] as int].name@ == name
}

/// The roles (among the first `n`) that may have a type with the name,
/// written, in role order.
pub open spec fn roles_with_type(policy: Policy, t: ComponentTables, n: nat, name: Seq<char>, expand: bool) -> Seq<Seq<char>>
    decreases n,
{
    if n == 0 {
        Seq::empty()
    } else {
        let before = roles_with_type(policy, t, (n - 1) as nat, name, expand);
        if role_has_type(policy, t, n - 1, name) { before.push(role_item(policy, t, n - 1, expand)) } else { before }
    }
}

/// The `typebounds` statements (among the first `n` types) of bounded types
/// the criterion selects, in type order.
pub open spec fn bound_items(policy: Policy, t: ComponentTables, n: nat, crit: Option<Seq<char>>) -> Seq<Seq<char>>
    decreases n,
{
    if n == 0 {
        Seq::empty()
    } else {
        let before = bound_items(policy, t, (n - 1) as nat, crit);
        let child = policy.types@[n - 1].name@;
        match t.bounds@[n - 1] {
            Some(parent) => if name_ok(child, crit) {
                before.push("typebounds "@ + policy.types@[parent as int].name@ + " "@ + child + ";"@)
            } else {
                before
            },
            None => before,
        }
    }
}

/// A user by name, or as its statement: its roles sorted by name (one
/// bare, else in braces), then its level and range where it has them.
pub open spec fn user_item(policy: Policy, user: User, expand: bool) -> Seq<char> {
    let roles = role_names(policy, user.roles@).sort_by(text_order());
    let role_part = if roles.len() == 1 { roles[0] } else { "{ "@ + joined_by(roles, " "@) + " }"@ };
    let mls_part = match user.mls {
        Some((level, range)) => " level "@ + level_text(level) + " range "@ + mls_range_text(range),
        None => Seq::empty(),
    };
    if expand { "user "@ + user.name@ + " roles "@ + role_part + mls_part + ";"@ } else { user.name@ }
}

/// The users the criterion selects, in table order.
pub open spec fn user_items(policy: Policy, users: Seq<User>, crit: Option<Seq<char>>, expand: bool) -> Seq<Seq<char>>
    decreases users.len(),
{
    if users.len() == 0 {
        Seq::empty()
    } else {
        let before = user_items(policy, users.drop_last(), crit, expand);
        if name_ok(users.last().name@, crit) { before.push(user_item(policy, users.last(), expand)) } else { before }
    }
}


/// The names of the types with the given numbers.
fn type_name_list(policy: &Policy, ids: &Vec<usize>) -> (result: Vec<String>)
    requires
        forall|k: int| 0 <= k < ids@.len() ==> #[trigger] ids@[k] < policy.types@.len(),
    ensures
        texts(result@) == type_names(*policy, ids@),
{
    let mut result: Vec<String> = Vec::new();
    let mut k: usize = 0;
    while k < ids.len()
        invariant
            k <= ids@.len(),
            forall|j: int| 0 <= j < ids@.len() ==> #[trigger] ids@[j] < policy.types@.len(),
            texts(result@) == type_names(*policy, ids@).take(k as int),
        decreases ids.len() - k,
    {
        let ghost before = texts(result@);
        result.push(owned(policy.types[ids[k]].name.as_str()));
        assert(texts(result@) =~= before.push(policy.types@[ids@[k as int] as int].name@));
        assert(type_names(*policy, ids@).take(k as int + 1) =~= type_names(*policy, ids@).take(k as int).push(
            policy.types@[ids@[k as int] as int].name@));
        k = k + 1;
    }
    assert(type_names(*policy, ids@).take(ids@.len() as int) =~= type_names(*policy, ids@));
    result
}

/// The names of the roles with the given numbers.
fn role_name_list(policy: &Policy, ids: &Vec<usize>) -> (result: Vec<String>)
    requires
        forall|k: int| 0 <= k < ids@.len() ==> #[trigger] ids@[k] < policy.roles@.len(),
    ensures
        texts(result@) == role_names(*policy, ids@),
{
    let mut result: Vec<String> = Vec::new();
    let mut k: usize = 0;
    while k < ids.len()
        invariant
            k <= ids@.len(),
            forall|j: int| 0 <= j < ids@.len() ==> #[trigger] ids@[j] < policy.roles@.len(),
            texts(result@) == role_names(*policy, ids@).take(k as int),
        decreases ids.len() - k,
    {
        let ghost before = texts(result@);
        result.push(owned(policy.roles[ids[k]].name.as_str()));
        assert(texts(result@) =~= before.push(policy.roles@[ids@[k as int] as int].name@));
        assert(role_names(*policy, ids@).take(k as int + 1) =~= role_names(*policy, ids@).take(k as int).push(
            policy.roles@[ids@[k as int] as int].name@));
        k = k + 1;
    }
    assert(role_names(*policy, ids@).take(ids@.len() as int) =~= role_names(*policy, ids@));
    result
}

/// Whether a name satisfies a criterion.
fn name_fits(name: &str, crit: &Option<String>) -> (result: bool)
    ensures
        result == name_ok(name@, text_view(*crit)),
{
    match crit {
        None => true,
        Some(c) => same_text(c.as_str(), name),
    }
}

/// The commons the criterion selects, written and sorted.
pub fn common_texts(commons: &Vec<Common>, crit: &Option<String>, expand: bool) -> (result: Vec<String>)
    ensures
        texts(result@) == common_items(commons@, text_view(*crit), expand).sort_by(text_order()),
{
    let mut items: Vec<String> = Vec::new();
    let mut index: usize = 0;
    assert(commons@.take(0) =~= Seq::<Common>::empty());
    assert(texts(items@) =~= Seq::<Seq<char>>::empty());
    while index < commons.len()
        invariant
            index <= commons@.len(),
            texts(items@) == common_items(commons@.take(index as int), text_view(*crit), expand),
        decreases commons.len() - index,
    {
        let common = &commons[index];
        let ghost taken = commons@.take(index as int + 1);
        assert(taken.drop_last() =~= commons@.take(index as int));
        assert(taken.last() == commons@[index as int]);
        if name_fits(common.name.as_str(), crit) {
            let text = if expand {
                let mut text = owned("common ");
                push_str(&mut text, common.name.as_str());
                push_str(&mut text, "\n{\n\t");
                let joined = join_texts(&common.permissions, "\n\t");
                push_str(&mut text, joined.as_str());
                push_str(&mut text, "\n}");
                text
            } else {
                owned(common.name.as_str())
            };
            assert(text@ =~= common_item(*common, expand));
            let ghost before = texts(items@);
            items.push(text);
            assert(texts(items@) =~= before.push(common_item(*common, expand)));
        }
        index = index + 1;
    }
    assert(commons@.take(commons.len() as int) =~= commons@);
    sort_texts(&items)
}

/// Writes a role.
fn role_text(policy: &Policy, t: &ComponentTables, r: usize, expand: bool) -> (result: String)
    requires
        tables_fit(*policy, *t),
        r < policy.roles@.len(),
    ensures
        result@ == role_item(*policy, *t, r as int, expand),
{
    let name = policy.roles[r].name.as_str();
    if !expand {
        return owned(name);
    }
    let ids = &t.role_types[r];
    assert forall|k: int| 0 <= k < ids@.len() implies #[trigger] ids@[k] < policy.types@.len() by {
        assert(t.role_types@[r as int]@[k] < policy.types@.len());
    }
    let listed = type_name_list(policy, ids);
    let types = sort_texts(&listed);
    let mut text = owned("role ");
    push_str(&mut text, name);
    if types.len() == 0 {
        push_str(&mut text, ";");
    } else if types.len() == 1 {
        push_str(&mut text, " types ");
        push_str(&mut text, types[0].as_str());
        push_str(&mut text, ";");
    } else {
        push_str(&mut text, " types { ");
        let joined = join_texts(&types, " ");
        push_str(&mut text, joined.as_str());
        push_str(&mut text, " };");
    }
    assert(text@ =~= role_item(*policy, *t, r as int, expand));
    text
}

/// The roles at the answered positions, written and sorted by name.
pub fn role_texts(policy: &Policy, t: &ComponentTables, ids: &Vec<usize>, expand: bool) -> (result: Vec<String>)
    requires
        tables_fit(*policy, *t),
        forall|k: int| 0 <= k < ids@.len() ==> #[trigger] ids@[k] < policy.roles@.len(),
    ensures
        texts(result@) == by_name(answered_roles(*policy, *t, ids@, expand)),
{
    let mut pairs: Vec<(String, String)> = Vec::new();
    let mut k: usize = 0;
    while k < ids.len()
        invariant
            k <= ids@.len(),
            tables_fit(*policy, *t),
            forall|j: int| 0 <= j < ids@.len() ==> #[trigger] ids@[j] < policy.roles@.len(),
            named(pairs@) == answered_roles(*policy, *t, ids@, expand).take(k as int),
        decreases ids.len() - k,
    {
        let r = ids[k];
        let text = role_text(policy, t, r, expand);
        let ghost before = named(pairs@);
        let ghost pair = (policy.roles@[r as int].name@, role_item(*policy, *t, r as int, expand));
        pairs.push((owned(policy.roles[r].name.as_str()), text));
        assert(named(pairs@) =~= before.push(pair));
        assert(answered_roles(*policy, *t, ids@, expand).take(k as int + 1)
            =~= answered_roles(*policy, *t, ids@, expand).take(k as int).push(pair));
        k = k + 1;
    }
    assert(answered_roles(*policy, *t, ids@, expand).take(ids@.len() as int) =~= answered_roles(*policy, *t, ids@, expand));
    let sorted = sort_named(&pairs);
    let result = renderings(&sorted);
    assert(texts(result@) =~= by_name(answered_roles(*policy, *t, ids@, expand)));
    result
}

/// Whether a role may have a type with the given name.
fn has_type_named(policy: &Policy, t: &ComponentTables, r: usize, name: &str) -> (result: bool)
    requires
        tables_fit(*policy, *t),
        r < policy.roles@.len(),
    ensures
        result == role_has_type(*policy, *t, r as int, name@),
{
    let ids = &t.role_types[r];
    let mut k: usize = 0;
    while k < ids.len()
        invariant
            k <= ids@.len(),
            tables_fit(*policy, *t),
            r < policy.roles@.len(),
            ids@ == t.role_types@[r as int]@,
            forall|j: int| 0 <= j < k ==> policy.types@[#[trigger] ids@[j] as int].name@ != name@,
        decreases ids.len() - k,
    {
        assert(ids@[k as int] < policy.types@.len());
        if same_text(policy.types[ids[k]].name.as_str(), name) {
            return true;
        }
        k = k + 1;
    }
    false
}

/// The roles that may have a type with the given name, written and sorted.
pub fn roles_with_type_texts(policy: &Policy, t: &ComponentTables, name: &str, expand: bool) -> (result: Vec<String>)
    requires
        tables_fit(*policy, *t),
    ensures
        texts(result@) == roles_with_type(*policy, *t, policy.roles@.len(), name@, expand).sort_by(text_order()),
{
    let mut items: Vec<String> = Vec::new();
    let mut r: usize = 0;
    while r < policy.roles.len()
        invariant
            r <= policy.roles@.len(),
            tables_fit(*policy, *t),
            texts(items@) == roles_with_type(*policy, *t, r as nat, name@, expand),
        decreases policy.roles.len() - r,
    {
        if has_type_named(policy, t, r, name) {
            let text = role_text(policy, t, r, expand);
            let ghost before = texts(items@);
            items.push(text);
            assert(texts(items@) =~= before.push(role_item(*policy, *t, r as int, expand)));
        }
        r = r + 1;
    }
    sort_texts(&items)
}

/// The `typebounds` statements the criterion selects, sorted.
pub fn bound_texts(policy: &Policy, t: &ComponentTables, crit: &Option<String>) -> (result: Vec<String>)
    requires
        tables_fit(*policy, *t),
    ensures
        texts(result@) == bound_items(*policy, *t, policy.types@.len(), text_view(*crit)).sort_by(text_order()),
{
    let mut items: Vec<String> = Vec::new();
    let mut i: usize = 0;
    while i < policy.types.len()
        invariant
            i <= policy.types@.len(),
            tables_fit(*policy, *t),
            texts(items@) == bound_items(*policy, *t, i as nat, text_view(*crit)),
        decreases policy.types.len() - i,
    {
        match t.bounds[i] {
            Some(parent) => {
                let child = policy.types[i].name.as_str();
                if name_fits(child, crit) {
                    assert(parent < policy.types@.len());
                    let mut text = owned("typebounds ");
                    push_str(&mut text, policy.types[parent].name.as_str());
                    push_str(&mut text, " ");
                    push_str(&mut text, child);
                    push_str(&mut text, ";");
                    let ghost before = texts(items@);
                    let ghost view = text@;
                    items.push(text);
                    assert(texts(items@) =~= before.push(view));
                }
            },
            None => {},
        }
        i = i + 1;
    }
    sort_texts(&items)
}

/// Writes a user.
fn user_text(policy: &Policy, user: &User, expand: bool) -> (result: String)
    requires
        forall|k: int| 0 <= k < user.roles@.len() ==> #[trigger] user.roles@[k] < policy.roles@.len(),
    ensures
        result@ == user_item(*policy, *user, expand),
{
    if !expand {
        return owned(user.name.as_str());
    }
    let listed = role_name_list(policy, &user.roles);
    let roles = sort_texts(&listed);
    let mut text = owned("user ");
    push_str(&mut text, user.name.as_str());
    push_str(&mut text, " roles ");
    if roles.len() == 1 {
        push_str(&mut text, roles[0].as_str());
    } else {
        push_str(&mut text, "{ ");
        let joined = join_texts(&roles, " ");
        push_str(&mut text, joined.as_str());
        push_str(&mut text, " }");
    }
    match &user.mls {
        Some((level, range)) => {
            push_str(&mut text, " level ");
            write_level(&mut text, level);
            push_str(&mut text, " range ");
            write_range(&mut text, range);
        },
        None => {},
    }
    push_str(&mut text, ";");
    assert(text@ =~= user_item(*policy, *user, expand));
    text
}

/// The users the criterion selects, written and sorted.
pub fn user_texts(policy: &Policy, t: &ComponentTables, crit: &Option<String>, expand: bool) -> (result: Vec<String>)
    requires
        tables_fit(*policy, *t),
    ensures
        texts(result@) == user_items(*policy, t.users@, text_view(*crit), expand).sort_by(text_order()),
{
    let users = &t.users;
    let mut items: Vec<String> = Vec::new();
    let mut index: usize = 0;
    assert(users@.take(0) =~= Seq::<User>::empty());
    assert(texts(items@) =~= Seq::<Seq<char>>::empty());
    while index < users.len()
        invariant
            index <= users@.len(),
            users@ == t.users@,
            tables_fit(*policy, *t),
            texts(items@) == user_items(*policy, users@.take(index as int), text_view(*crit), expand),
        decreases users.len() - index,
    {
        let user = &users[index];
        let ghost taken = users@.take(index as int + 1);
        assert(taken.drop_last() =~= users@.take(index as int));
        assert(taken.last() == users@[index as int]);
        if name_fits(user.name.as_str(), crit) {
            assert forall|k: int| 0 <= k < user.roles@.len() implies #[trigger] user.roles@[k] < policy.roles@.len() by {
                assert(t.users@[index as int].roles@[k] < policy.roles@.len());
            }
            let text = user_text(policy, user, expand);
            let ghost before = texts(items@);
            items.push(text);
            assert(texts(items@) =~= before.push(user_item(*policy, *user, expand)));
        }
        index = index + 1;
    }
    assert(users@.take(users.len() as int) =~= users@);
    sort_texts(&items)
}


/// The component queries whose data the tables carry.
#[derive(Debug)]
pub struct ComponentOptions {
    /// The object class query.
    pub target_class: Option<Selection>,
    /// The constraint query, by class.
    pub constrain: Option<Selection>,
    /// The `default_*` rule query, by class.
    pub default_rule: Option<Selection>,
    /// The validate-transition query, by class.
    pub validatetrans: Option<Selection>,
    /// The common query.
    pub common: Option<Selection>,
    /// The role query.
    pub role: Option<Selection>,
    /// The roles that may have the type with this name.
    pub role_types: Option<String>,
    /// The type-bounds query.
    pub typebounds: Option<Selection>,
    /// The user query.
    pub user: Option<Selection>,
}

/// The listings of the policy information tool before the commons.
#[verifier::opaque]
pub open spec fn first_part(policy: Policy, o: SeinfoOptions, answers: QueryAnswers) -> Seq<(Seq<char>, Seq<Seq<char>>)> {
    let category = chosen(o.category, o.all);
    optional_section(chosen(o.boolean, o.all) is Some, "Booleans"@,
        by_name(answer_pairs(policy, Kind::Boolean, answers.booleans@, o.expand)))
        + optional_section(category is Some, "Categories"@, aliased_items(policy.categories@, "category"@, crit_of(category), o.expand))
}

/// The listings between the commons and the roles.
#[verifier::opaque]
pub open spec fn second_part(policy: Policy, o: SeinfoOptions) -> Seq<(Seq<char>, Seq<Seq<char>>)> {
    let permissive = chosen(o.permissive, o.all);
    let polcap = chosen(o.polcap, o.all);
    optional_section(permissive is Some, "Permissive Types"@,
        by_name(permissive_pairs(policy, policy.types@.len(), crit_of(permissive), o.expand)))
        + optional_section(polcap is Some, "Polcap"@,
            polcap_items(texts(policy.capabilities@), crit_of(polcap), o.expand).sort_by(text_order()))
}

/// The listing between the roles and the type bounds.
#[verifier::opaque]
pub open spec fn third_part(policy: Policy, o: SeinfoOptions) -> Seq<(Seq<char>, Seq<Seq<char>>)> {
    let sensitivity = chosen(o.sensitivity, o.all);
    optional_section(sensitivity is Some, "Sensitivities"@,
        aliased_items(policy.sensitivities@, "sensitivity"@, crit_of(sensitivity), o.expand))
}

/// The listings between the type bounds and the users.
#[verifier::opaque]
pub open spec fn fourth_part(policy: Policy, o: SeinfoOptions, answers: QueryAnswers) -> Seq<(Seq<char>, Seq<Seq<char>>)> {
    optional_section(chosen(o.target_type, o.all) is Some, "Types"@,
        by_name(answer_pairs(policy, Kind::Type, answers.types@, o.expand)))
        + optional_section(chosen(o.attribute, o.all) is Some, "Type Attributes"@,
            by_name(answer_pairs(policy, Kind::Attribute, answers.attributes@, o.expand)))
}

/// The commons listing, where it runs.
#[verifier::opaque]
pub open spec fn commons_part(o: SeinfoOptions, c: ComponentOptions, t: ComponentTables) -> Seq<(Seq<char>, Seq<Seq<char>>)> {
    let common = chosen(c.common, o.all);
    optional_section(common is Some, "Commons"@, common_items(t.commons@, crit_of(common), o.expand).sort_by(text_order()))
}

/// The role listings, where they run: the answered roles, then the roles
/// that may have the named type.
#[verifier::opaque]
pub open spec fn roles_part(policy: Policy, o: SeinfoOptions, c: ComponentOptions, roles: Seq<usize>, t: ComponentTables)
    -> Seq<(Seq<char>, Seq<Seq<char>>)>
{
    optional_section(chosen(c.role, o.all) is Some, "Roles"@, by_name(answered_roles(policy, t, roles, o.expand)))
        + optional_section(c.role_types is Some, "Roles"@,
            roles_with_type(policy, t, policy.roles@.len(), c.role_types->Some_0@, o.expand).sort_by(text_order()))
}

/// The type-bounds listing, where it runs.
#[verifier::opaque]
pub open spec fn bounds_part(policy: Policy, o: SeinfoOptions, c: ComponentOptions, t: ComponentTables) -> Seq<(Seq<char>, Seq<Seq<char>>)> {
    let bounds = chosen(c.typebounds, o.all);
    optional_section(bounds is Some, "Typebounds"@,
        bound_items(policy, t, policy.types@.len(), crit_of(bounds)).sort_by(text_order()))
}

/// The user listing, where it runs.
#[verifier::opaque]
pub open spec fn users_part(policy: Policy, o: SeinfoOptions, c: ComponentOptions, t: ComponentTables) -> Seq<(Seq<char>, Seq<Seq<char>>)> {
    let user = chosen(c.user, o.all);
    optional_section(user is Some, "Users"@, user_items(policy, t.users@, crit_of(user), o.expand).sort_by(text_order()))
}

/// The class listing, where it runs.
#[verifier::opaque]
pub open spec fn classes_part(policy: Policy, o: SeinfoOptions, c: ComponentOptions, classes: Seq<usize>, t: ComponentTables)
    -> Seq<(Seq<char>, Seq<Seq<char>>)>
{
    optional_section(chosen(c.target_class, o.all) is Some, "Classes"@,
        by_name(answered_classes(policy, t.class_details@, classes, o.expand)))
}

/// The constraint and `default_*` listings, where they run.
#[verifier::opaque]
pub open spec fn class_rules_part(policy: Policy, o: SeinfoOptions, c: ComponentOptions, t: ComponentTables)
    -> Seq<(Seq<char>, Seq<Seq<char>>)>
{
    let constrain = chosen(c.constrain, o.all);
    let defaults = chosen(c.default_rule, o.all);
    optional_section(constrain is Some, "Constraints"@,
        constraint_items(policy, t.constraints@, crit_of(constrain), false).sort_by(text_order()))
        + optional_section(defaults is Some, "Default rules"@,
            default_items(policy, t.defaults@, crit_of(defaults)).sort_by(text_order()))
}

/// The validate-transition listing, where it runs.
#[verifier::opaque]
pub open spec fn validatetrans_part(policy: Policy, o: SeinfoOptions, c: ComponentOptions, t: ComponentTables)
    -> Seq<(Seq<char>, Seq<Seq<char>>)>
{
    let v = chosen(c.validatetrans, o.all);
    optional_section(v is Some, "Validatetrans"@, constraint_items(policy, t.constraints@, crit_of(v), true).sort_by(text_order()))
}

/// The error of the first class criterion that names no class: of the
/// constraint, the `default_*` and the validate-transition queries.
pub open spec fn class_criteria_error(policy: Policy, o: SeinfoOptions, c: ComponentOptions) -> Option<(bool, Seq<char>)> {
    match class_error(policy, crit_of(chosen(c.constrain, o.all))) {
        Some(e) => Some(e),
        None => match class_error(policy, crit_of(chosen(c.default_rule, o.all))) {
            Some(e) => Some(e),
            None => class_error(policy, crit_of(chosen(c.validatetrans, o.all))),
        },
    }
}

/// Every component listing the options ask for, in the tool's order.
pub open spec fn components_spec(
    policy: Policy,
    o: SeinfoOptions,
    c: ComponentOptions,
    answers: QueryAnswers,
    roles: Seq<usize>,
    classes: Seq<usize>,
    t: ComponentTables,
) -> Seq<(Seq<char>, Seq<Seq<char>>)> {
    first_part(policy, o, answers) + classes_part(policy, o, c, classes, t) + commons_part(o, c, t)
        + class_rules_part(policy, o, c, t) + second_part(policy, o) + roles_part(policy, o, c, roles, t)
        + third_part(policy, o) + bounds_part(policy, o, c, t) + fourth_part(policy, o, answers) + users_part(policy, o, c, t)
        + validatetrans_part(policy, o, c, t)
}

/// What the whole listing gives: the component listings, then the labeling
/// listings; or the first error a criterion gives.
pub open spec fn listing_spec(
    policy: Policy,
    o: SeinfoOptions,
    c: ComponentOptions,
    answers: QueryAnswers,
    roles: Seq<usize>,
    classes: Seq<usize>,
    t: ComponentTables,
    rules: Seq<LabelingRule>,
    labeling: LabelingOptions,
) -> Result<Seq<(Seq<char>, Seq<Seq<char>>)>, (bool, Seq<char>)> {
    match class_criteria_error(policy, o, c) {
        Some(e) => Err(e),
        None => match labeling_spec(rules, labeling) {
            Err(e) => Err(e),
            Ok(more) => Ok(components_spec(policy, o, c, answers, roles, classes, t) + more),
        },
    }
}

/// Appends the class listing.
fn push_classes(out: &mut Vec<Section>, policy: &Policy, o: &SeinfoOptions, c: &ComponentOptions, classes: &Vec<usize>,
    t: &ComponentTables)
    requires
        tables_fit(*policy, *t),
        forall|k: int| 0 <= k < classes@.len() ==> #[trigger] classes@[k] < policy.classes@.len(),
    ensures
        section_views(final(out)@) == section_views(old(out)@) + classes_part(*policy, *o, *c, classes@, *t),
{
    reveal(classes_part);
    let (runs, _) = chosen_exec(&c.target_class, o.all);
    let items = if runs { class_texts(policy, &t.class_details, classes, o.expand) } else { Vec::new() };
    push_section(out, runs, "Classes", items);
}

/// Appends the constraint and `default_*` listings.
fn push_class_rules(out: &mut Vec<Section>, policy: &Policy, o: &SeinfoOptions, c: &ComponentOptions, t: &ComponentTables)
    requires
        tables_fit(*policy, *t),
    ensures
        section_views(final(out)@) == section_views(old(out)@) + class_rules_part(*policy, *o, *c, *t),
{
    reveal(class_rules_part);
    let (runs, crit) = chosen_exec(&c.constrain, o.all);
    let items = if runs { constraint_texts(policy, &t.constraints, &crit, false) } else { Vec::new() };
    push_section(out, runs, "Constraints", items);
    let (runs, crit) = chosen_exec(&c.default_rule, o.all);
    let items = if runs { default_texts(policy, &t.defaults, &crit) } else { Vec::new() };
    push_section(out, runs, "Default rules", items);
    assert(section_views(out@) =~= section_views(old(out)@) + class_rules_part(*policy, *o, *c, *t));
}

/// Appends the validate-transition listing.
fn push_validatetrans(out: &mut Vec<Section>, policy: &Policy, o: &SeinfoOptions, c: &ComponentOptions, t: &ComponentTables)
    requires
        tables_fit(*policy, *t),
    ensures
        section_views(final(out)@) == section_views(old(out)@) + validatetrans_part(*policy, *o, *c, *t),
{
    reveal(validatetrans_part);
    let (runs, crit) = chosen_exec(&c.validatetrans, o.all);
    let items = if runs { constraint_texts(policy, &t.constraints, &crit, true) } else { Vec::new() };
    push_section(out, runs, "Validatetrans", items);
}

/// The error of the first class criterion that names no class.
fn check_class_criteria(policy: &Policy, o: &SeinfoOptions, c: &ComponentOptions) -> (result: Option<BuildError>)
    ensures
        match result {
            Some(e) => class_criteria_error(*policy, *o, *c) == Some(error_view(e)),
            None => class_criteria_error(*policy, *o, *c) is None,
        },
{
    let (_, crit) = chosen_exec(&c.constrain, o.all);
    let first = check_class(policy, &crit);
    if first.is_some() {
        return first;
    }
    let (_, crit) = chosen_exec(&c.default_rule, o.all);
    let second = check_class(policy, &crit);
    if second.is_some() {
        return second;
    }
    let (_, crit) = chosen_exec(&c.validatetrans, o.all);
    check_class(policy, &crit)
}

/// Appends the commons listing.
fn push_commons(out: &mut Vec<Section>, o: &SeinfoOptions, c: &ComponentOptions, t: &ComponentTables)
    ensures
        section_views(final(out)@) == section_views(old(out)@) + commons_part(*o, *c, *t),
{
    reveal(commons_part);
    let (runs, crit) = chosen_exec(&c.common, o.all);
    let items = if runs { common_texts(&t.commons, &crit, o.expand) } else { Vec::new() };
    push_section(out, runs, "Commons", items);
}

/// Appends the role listings.
fn push_roles(out: &mut Vec<Section>, policy: &Policy, o: &SeinfoOptions, c: &ComponentOptions, roles: &Vec<usize>,
    t: &ComponentTables)
    requires
        tables_fit(*policy, *t),
        forall|k: int| 0 <= k < roles@.len() ==> #[trigger] roles@[k] < policy.roles@.len(),
    ensures
        section_views(final(out)@) == section_views(old(out)@) + roles_part(*policy, *o, *c, roles@, *t),
{
    reveal(roles_part);
    let (runs, _) = chosen_exec(&c.role, o.all);
    let items = if runs { role_texts(policy, t, roles, o.expand) } else { Vec::new() };
    push_section(out, runs, "Roles", items);
    let items = match &c.role_types {
        Some(name) => roles_with_type_texts(policy, t, name.as_str(), o.expand),
        None => Vec::new(),
    };
    push_section(out, c.role_types.is_some(), "Roles", items);
    assert(section_views(out@) =~= section_views(old(out)@) + roles_part(*policy, *o, *c, roles@, *t));
}

/// Appends the type-bounds listing.
fn push_bounds(out: &mut Vec<Section>, policy: &Policy, o: &SeinfoOptions, c: &ComponentOptions, t: &ComponentTables)
    requires
        tables_fit(*policy, *t),
    ensures
        section_views(final(out)@) == section_views(old(out)@) + bounds_part(*policy, *o, *c, *t),
{
    reveal(bounds_part);
    let (runs, crit) = chosen_exec(&c.typebounds, o.all);
    let items = if runs { bound_texts(policy, t, &crit) } else { Vec::new() };
    push_section(out, runs, "Typebounds", items);
}

/// Appends the user listing.
fn push_users(out: &mut Vec<Section>, policy: &Policy, o: &SeinfoOptions, c: &ComponentOptions, t: &ComponentTables)
    requires
        tables_fit(*policy, *t),
    ensures
        section_views(final(out)@) == section_views(old(out)@) + users_part(*policy, *o, *c, *t),
{
    reveal(users_part);
    let (runs, crit) = chosen_exec(&c.user, o.all);
    let items = if runs { user_texts(policy, t, &crit, o.expand) } else { Vec::new() };
    push_section(out, runs, "Users", items);
}

/// The listings the policy model answers, with the number in each part.
fn base_sections(policy: &Policy, o: &SeinfoOptions, answers: &QueryAnswers) -> (result: (Vec<Section>, usize, usize, usize, usize))
    requires
        answers_fit(*policy, *answers),
    ensures
        section_views(result.0@) == first_part(*policy, *o, *answers) + second_part(*policy, *o)
            + third_part(*policy, *o) + fourth_part(*policy, *o, *answers),
        result.1 == first_part(*policy, *o, *answers).len(),
        result.2 == second_part(*policy, *o).len(),
        result.3 == third_part(*policy, *o).len(),
        result.4 == fourth_part(*policy, *o, *answers).len(),
{
    let base = seinfo_sections(policy, o, answers);
    proof {
        lemma_parts(*policy, *o, *answers);
    }
    let (b, _) = chosen_exec(&o.boolean, o.all);
    let (c, _) = chosen_exec(&o.category, o.all);
    let (pe, _) = chosen_exec(&o.permissive, o.all);
    let (pc, _) = chosen_exec(&o.polcap, o.all);
    let (se, _) = chosen_exec(&o.sensitivity, o.all);
    let (ty, _) = chosen_exec(&o.target_type, o.all);
    let (at, _) = chosen_exec(&o.attribute, o.all);
    (base, count(b) + count(c), count(pe) + count(pc), count(se), count(ty) + count(at))
}

/// Moves the first `n` sections of one list to the end of another.
fn move_front(from: &mut Vec<Section>, to: &mut Vec<Section>, n: usize)
    requires
        n <= old(from)@.len(),
    ensures
        section_views(final(to)@) == section_views(old(to)@) + section_views(old(from)@).take(n as int),
        section_views(final(from)@) == section_views(old(from)@).skip(n as int),
{
    let ghost start_from = section_views(from@);
    let ghost start_to = section_views(to@);
    let mut k: usize = 0;
    while k < n
        invariant
            k <= n,
            n <= start_from.len(),
            section_views(from@) == start_from.skip(k as int),
            section_views(to@) == start_to + start_from.take(k as int),
        decreases n - k,
    {
        assert(section_views(from@).len() == from@.len());
        let ghost before_from = section_views(from@);
        let ghost before_to = section_views(to@);
        let item = from.remove(0);
        assert(section_views(from@) =~= before_from.drop_first());
        assert(before_from[0] == start_from[k as int]);
        to.push(item);
        assert(section_views(to@) =~= before_to.push(start_from[k as int]));
        assert(start_from.skip(k as int).drop_first() =~= start_from.skip(k as int + 1));
        assert(start_from.take(k as int + 1) =~= start_from.take(k as int).push(start_from[k as int]));
        k = k + 1;
    }
}

/// The number of sections a run flag gives.
fn count(runs: bool) -> (result: usize)
    ensures
        result == if runs { 1usize } else { 0usize },
{
    if runs { 1 } else { 0 }
}

/// The seven listings the policy model answers, split where the other
/// listings go between them.
proof fn lemma_parts(policy: Policy, o: SeinfoOptions, answers: QueryAnswers)
    ensures
        sections_spec(policy, o, answers) == first_part(policy, o, answers) + second_part(policy, o)
            + third_part(policy, o) + fourth_part(policy, o, answers),
        first_part(policy, o, answers).len() == (if chosen(o.boolean, o.all) is Some { 1int } else { 0int })
            + (if chosen(o.category, o.all) is Some { 1int } else { 0int }),
        second_part(policy, o).len() == (if chosen(o.permissive, o.all) is Some { 1int } else { 0int })
            + (if chosen(o.polcap, o.all) is Some { 1int } else { 0int }),
        third_part(policy, o).len() == (if chosen(o.sensitivity, o.all) is Some { 1int } else { 0int }),
        fourth_part(policy, o, answers).len() == (if chosen(o.target_type, o.all) is Some { 1int } else { 0int })
            + (if chosen(o.attribute, o.all) is Some { 1int } else { 0int }),
{
    reveal(first_part);
    reveal(second_part);
    reveal(third_part);
    reveal(fourth_part);
    let e = o.expand;
    let category = chosen(o.category, o.all);
    let permissive = chosen(o.permissive, o.all);
    let polcap = chosen(o.polcap, o.all);
    let sensitivity = chosen(o.sensitivity, o.all);
    lemma_regroup(
        optional_section(chosen(o.boolean, o.all) is Some, "Booleans"@, by_name(answer_pairs(policy, Kind::Boolean, answers.booleans@, e))),
        optional_section(category is Some, "Categories"@, aliased_items(policy.categories@, "category"@, crit_of(category), e)),
        optional_section(permissive is Some, "Permissive Types"@,
            by_name(permissive_pairs(policy, policy.types@.len(), crit_of(permissive), e))),
        optional_section(polcap is Some, "Polcap"@,
            polcap_items(texts(policy.capabilities@), crit_of(polcap), e).sort_by(text_order())),
        optional_section(sensitivity is Some, "Sensitivities"@,
            aliased_items(policy.sensitivities@, "sensitivity"@, crit_of(sensitivity), e)),
        optional_section(chosen(o.target_type, o.all) is Some, "Types"@, by_name(answer_pairs(policy, Kind::Type, answers.types@, e))),
        optional_section(chosen(o.attribute, o.all) is Some, "Type Attributes"@,
            by_name(answer_pairs(policy, Kind::Attribute, answers.attributes@, e))),
    );
}

/// Seven sequences joined in a row, regrouped.
proof fn lemma_regroup<T>(a: Seq<T>, b: Seq<T>, c: Seq<T>, d: Seq<T>, e: Seq<T>, f: Seq<T>, g: Seq<T>)
    ensures
        a + b + c + d + e + f + g == (a + b) + (c + d) + e + (f + g),
{
    assert(a + b + c + d + e + f + g =~= (a + b) + (c + d) + e + (f + g));
}

/// Lists every component the options ask for, in the tool's order.
pub fn component_listing(
    policy: &Policy,
    options: &SeinfoOptions,
    extra: &ComponentOptions,
    answers: &QueryAnswers,
    roles: &Vec<usize>,
    classes: &Vec<usize>,
    tables: &ComponentTables,
) -> (result: Vec<Section>)
    requires
        answers_fit(*policy, *answers),
        tables_fit(*policy, *tables),
        forall|k: int| 0 <= k < roles@.len() ==> #[trigger] roles@[k] < policy.roles@.len(),
        forall|k: int| 0 <= k < classes@.len() ==> #[trigger] classes@[k] < policy.classes@.len(),
    ensures
        section_views(result@) == components_spec(*policy, *options, *extra, *answers, roles@, classes@, *tables),
{
    let o = options;
    let (mut base, n1, n2, n3, n4) = base_sections(policy, o, answers);
    assert(section_views(base@).len() == base@.len());
    let ghost p1 = first_part(*policy, *o, *answers);
    let ghost p2 = second_part(*policy, *o);
    let ghost p3 = third_part(*policy, *o);
    let ghost p4 = fourth_part(*policy, *o, *answers);
    let mut out: Vec<Section> = Vec::new();
    assert(section_views(out@) =~= Seq::<(Seq<char>, Seq<Seq<char>>)>::empty());
    move_front(&mut base, &mut out, n1);
    assert((p1 + p2 + p3 + p4).take(n1 as int) =~= p1);
    assert((p1 + p2 + p3 + p4).skip(n1 as int) =~= p2 + p3 + p4);
    push_classes(&mut out, policy, o, extra, classes, tables);
    push_commons(&mut out, o, extra, tables);
    push_class_rules(&mut out, policy, o, extra, tables);
    move_front(&mut base, &mut out, n2);
    assert((p2 + p3 + p4).take(n2 as int) =~= p2);
    assert((p2 + p3 + p4).skip(n2 as int) =~= p3 + p4);
    push_roles(&mut out, policy, o, extra, roles, tables);
    move_front(&mut base, &mut out, n3);
    assert((p3 + p4).take(n3 as int) =~= p3);
    assert((p3 + p4).skip(n3 as int) =~= p4);
    push_bounds(&mut out, policy, o, extra, tables);
    move_front(&mut base, &mut out, n4);
    assert(p4.take(n4 as int) =~= p4);
    push_users(&mut out, policy, o, extra, tables);
    push_validatetrans(&mut out, policy, o, extra, tables);
    assert(section_views(out@) =~= components_spec(*policy, *o, *extra, *answers, roles@, classes@, *tables));
    out
}

/// Lists every component the options ask for in the tool's order, then the
/// labeling statements of the policy's platform; or the first error a
/// criterion gives: a class criterion that names no class, then a labeling
/// criterion that cannot be read.
pub fn seinfo_listing(
    policy: &Policy,
    options: &SeinfoOptions,
    extra: &ComponentOptions,
    answers: &QueryAnswers,
    roles: &Vec<usize>,
    classes: &Vec<usize>,
    tables: &ComponentTables,
    rules: &Vec<LabelingRule>,
    labeling: &LabelingOptions,
) -> (result: Result<Vec<Section>, BuildError>)
    requires
        answers_fit(*policy, *answers),
        tables_fit(*policy, *tables),
        forall|k: int| 0 <= k < roles@.len() ==> #[trigger] roles@[k] < policy.roles@.len(),
        forall|k: int| 0 <= k < classes@.len() ==> #[trigger] classes@[k] < policy.classes@.len(),
        labeling_options_fit(*labeling),
    ensures
        match result {
            Ok(sections) => listing_spec(*policy, *options, *extra, *answers, roles@, classes@, *tables, rules@, *labeling)
                == Ok::<Seq<(Seq<char>, Seq<Seq<char>>)>, (bool, Seq<char>)>(section_views(sections@)),
            Err(e) => listing_spec(*policy, *options, *extra, *answers, roles@, classes@, *tables, rules@, *labeling)
                == Err::<Seq<(Seq<char>, Seq<Seq<char>>)>, (bool, Seq<char>)>(error_view(e)),
        },
{
    match check_class_criteria(policy, options, extra) {
        Some(e) => {
            return Err(e);
        },
        None => {},
    }
    let mut out = component_listing(policy, options, extra, answers, roles, classes, tables);
    match labeling_sections(rules, labeling) {
        Err(e) => Err(e),
        Ok(mut more) => {
            let ghost front = section_views(out@);
            let ghost back = section_views(more@);
            out.append(&mut more);
            assert(section_views(out@) =~= front + back);
            Ok(out)
        },
    }
}


/// Asking for listings without naming any symbol never fails: with no
/// class criterion and no labeling criterion given, the result is the
/// component listings followed by the labeling listings.
pub proof fn law_unnamed_listing_succeeds(
    policy: Policy,
    o: SeinfoOptions,
    c: ComponentOptions,
    answers: QueryAnswers,
    roles: Seq<usize>,
    classes: Seq<usize>,
    t: ComponentTables,
    rules: Seq<LabelingRule>,
    labeling: LabelingOptions,
)
    requires
        crate::labeling::unnamed(c.constrain),
        crate::labeling::unnamed(c.default_rule),
        crate::labeling::unnamed(c.validatetrans),
        crate::labeling::labeling_unnamed(labeling),
    ensures
        listing_spec(policy, o, c, answers, roles, classes, t, rules, labeling) is Ok,
        listing_spec(policy, o, c, answers, roles, classes, t, rules, labeling)->Ok_0.take(
            components_spec(policy, o, c, answers, roles, classes, t).len() as int)
            == components_spec(policy, o, c, answers, roles, classes, t),
{
    crate::labeling::law_unnamed_labeling_succeeds(rules, labeling);
    let front = components_spec(policy, o, c, answers, roles, classes, t);
    let back = labeling_spec(rules, labeling)->Ok_0;
    assert((front + back).take(front.len() as int) =~= front);
}

} // verus!
