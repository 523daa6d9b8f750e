//! Comparing two policies component by component, by name.
use vstd::prelude::*;
use crate::text::{texts, owned, copy_texts};
use crate::keyed::{text_set, unique_keys};
use crate::policy::{Policy, Boolean, AliasedSymbol, well_formed};
use crate::diff::{NameSetDifference, ComponentDifference, ModifiedBoolean, ModifiedTypeAttribute, ModifiedAliases,
    is_listing, set_difference, boolean_difference, attribute_difference, alias_difference, changed_booleans,
    table_of, table_exact, lemma_table_exact};
use crate::keyed::{key_set, value_of};
use crate::diff_report::{PropertyChange, change_views, property_changes, properties};

verus! {

/// The Booleans of a policy as named states.
pub open spec fn boolean_table(policy: Policy) -> Seq<(String, bool)> {
    policy.booleans@.map_values(|b: Boolean| (b.name, b.state))
}

/// The categories or sensitivities of a policy, each named with its aliases.
pub open spec fn alias_table(symbols: Seq<AliasedSymbol>) -> Seq<(Seq<char>, Set<Seq<char>>)> {
    symbols.map_values(|s: AliasedSymbol| (s.name@, text_set(s.aliases)))
}

/// The names of the types among `ids`.
pub open spec fn member_names(policy: Policy, ids: Seq<usize>) -> Set<Seq<char>> {
    ids.filter_map(|id: usize| if id < policy.types@.len() { Some(policy.types@[id as int].name@) } else { None }).to_set()
}

/// The type attributes of a policy, each named with its member types' names.
pub open spec fn attribute_table(policy: Policy) -> Seq<(Seq<char>, Set<Seq<char>>)> {
    policy.types@.filter_map(
        |t: crate::policy::TypeSymbol| if t.attribute { Some((t.name@, member_names(policy, t.members@))) } else { None },
    )
}

/// No two symbols share a name.
pub open spec fn distinct_names(symbols: Seq<AliasedSymbol>) -> bool {
    forall|i: int, j: int| 0 <= i < symbols.len() && 0 <= j < symbols.len() && i != j ==> symbols[i].name@ != symbols[j].name@
}

/// Two policies to compare, the left one first.
pub struct PolicyDiff<'a> {
    left: &'a Policy,
    right: &'a Policy,
}

impl<'a> PolicyDiff<'a> {
    /// The left policy.
    pub closed spec fn left_policy(self) -> Policy {
        *self.left
    }

    /// The right policy.
    pub closed spec fn right_policy(self) -> Policy {
        *self.right
    }

    /// Pairs two policies for comparison.
    pub fn new(left: &'a Policy, right: &'a Policy) -> (result: PolicyDiff<'a>)
        ensures
            result.left_policy() == *left,
            result.right_policy() == *right,
    {
        PolicyDiff { left, right }
    }

    /// Compares the policy-wide properties.
    pub fn properties(&self) -> (result: Vec<PropertyChange>)
        ensures
            change_views(result@) == property_changes(self.left_policy().metadata, self.right_policy().metadata),
    {
        let result = properties(&self.left.metadata, &self.right.metadata);
        assert(change_views(result@) =~= property_changes(self.left_policy().metadata, self.right_policy().metadata));
        result
    }

    /// Compares the policy capabilities by name.
    pub fn policy_capabilities(&self) -> (result: NameSetDifference)
        ensures
            is_listing(result@.0, text_set(self.right_policy().capabilities).difference(text_set(self.left_policy().capabilities))),
            is_listing(result@.1, text_set(self.left_policy().capabilities).difference(text_set(self.right_policy().capabilities))),
    {
        set_difference(&self.left.capabilities, &self.right.capabilities)
    }

    /// Compares the Booleans by name and default state.
    pub fn booleans(&self) -> (result: ComponentDifference<ModifiedBoolean>)
        requires
            unique_keys(boolean_table(self.left_policy())),
            unique_keys(boolean_table(self.right_policy())),
        ensures
            ({
                let left = boolean_table(self.left_policy());
                let right = boolean_table(self.right_policy());
                &&& is_listing(result@.0, key_set(right).difference(key_set(left)))
                &&& is_listing(result@.1, key_set(left).difference(key_set(right)))
                &&& is_listing(result@.2.map_values(|m: ModifiedBoolean| m@.0), changed_booleans(left, right))
                &&& forall|i: int| 0 <= i < result@.2.len() ==> {
                    let m = #[trigger] result@.2[i];
                    m@.1 == value_of(right, m@.0) && m@.2 == value_of(left, m@.0)
                }
            }),
    {
        let left = boolean_entries(self.left);
        let right = boolean_entries(self.right);
        boolean_difference(&left, &right)
    }

    /// Compares the type attributes by name and by the names of their member
    /// types.
    pub fn type_attributes(&self) -> (result: ComponentDifference<ModifiedTypeAttribute>)
        requires
            well_formed(self.left_policy()),
            well_formed(self.right_policy()),
        ensures
            table_exact(
                attribute_table(self.left_policy()),
                attribute_table(self.right_policy()),
                result@.0,
                result@.1,
                result@.2.map_values(|m: ModifiedTypeAttribute| m@),
            ),
    {
        let left = attribute_entries(self.left);
        let right = attribute_entries(self.right);
        let result = attribute_difference(&left, &right);
        proof {
            lemma_table_exact(left@, right@, result@.0, result@.1, result@.2.map_values(|m: ModifiedTypeAttribute| m@));
        }
        result
    }

    /// Compares the categories by name and aliases.
    pub fn categories(&self) -> (result: ComponentDifference<ModifiedAliases>)
        requires
            distinct_names(self.left_policy().categories@),
            distinct_names(self.right_policy().categories@),
        ensures
            table_exact(
                alias_table(self.left_policy().categories@),
                alias_table(self.right_policy().categories@),
                result@.0,
                result@.1,
                result@.2.map_values(|m: ModifiedAliases| m@),
            ),
    {
        let left = alias_entries(&self.left.categories);
        let right = alias_entries(&self.right.categories);
        let result = alias_difference(&left, &right);
        proof {
            lemma_table_exact(left@, right@, result@.0, result@.1, result@.2.map_values(|m: ModifiedAliases| m@));
        }
        result
    }

    /// Compares the sensitivities by name and aliases.
    pub fn sensitivities(&self) -> (result: ComponentDifference<ModifiedAliases>)
        requires
            distinct_names(self.left_policy().sensitivities@),
            distinct_names(self.right_policy().sensitivities@),
        ensures
            table_exact(
                alias_table(self.left_policy().sensitivities@),
                alias_table(self.right_policy().sensitivities@),
                result@.0,
                result@.1,
                result@.2.map_values(|m: ModifiedAliases| m@),
            ),
    {
        let left = alias_entries(&self.left.sensitivities);
        let right = alias_entries(&self.right.sensitivities);
        let result = alias_difference(&left, &right);
        proof {
            lemma_table_exact(left@, right@, result@.0, result@.1, result@.2.map_values(|m: ModifiedAliases| m@));
        }
        result
    }
}

/// The Booleans of a policy as named states.
fn boolean_entries(policy: &Policy) -> (result: Vec<(String, bool)>)
    ensures
        result@ == boolean_table(*policy),
{
    let mut result: Vec<(String, bool)> = Vec::new();
    let mut index: usize = 0;
    while index < policy.booleans.len()
        invariant
            index <= policy.booleans.len(),
            result@ == boolean_table(*policy).take(index as int),
        decreases policy.booleans.len() - index,
    {
        let b = &policy.booleans[index];
        result.push((b.name.clone(), b.state));
        assert(result@ =~= boolean_table(*policy).take(index + 1));
        index = index + 1;
    }
    assert(boolean_table(*policy).take(policy.booleans.len() as int) =~= boolean_table(*policy));
    result
}

/// Symbols named with their aliases.
fn alias_entries(symbols: &Vec<AliasedSymbol>) -> (result: Vec<(String, Vec<String>)>)
    requires
        distinct_names(symbols@),
    ensures
        table_of(result@) == alias_table(symbols@),
        unique_keys(result@),
{
    let mut result: Vec<(String, Vec<String>)> = Vec::new();
    let mut index: usize = 0;
    while index < symbols.len()
        invariant
            index <= symbols.len(),
            table_of(result@) == alias_table(symbols@).take(index as int),
            result@.len() == index,
            forall|k: int| 0 <= k < index ==> (#[trigger] result@[k]).0@ == symbols@[k].name@,
        decreases symbols.len() - index,
    {
        let s = &symbols[index];
        let entry = (owned(s.name.as_str()), copy_texts(&s.aliases));
        let ghost before = table_of(result@);
        result.push(entry);
        proof {
            assert(text_set(entry.1) == text_set(s.aliases));
            assert(table_of(result@) =~= before.push((s.name@, text_set(s.aliases))));
            assert(alias_table(symbols@).take(index + 1) =~= alias_table(symbols@).take(index as int).push(
                (s.name@, text_set(s.aliases)),
            ));
        }
        index = index + 1;
    }
    assert(alias_table(symbols@).take(symbols.len() as int) =~= alias_table(symbols@));
    result
}

/// The names of the types among `ids`.
fn names_of_members(policy: &Policy, ids: &Vec<usize>) -> (result: Vec<String>)
    ensures
        text_set(result) == member_names(*policy, ids@),
{
    let ghost keep = |id: usize| if id < policy.types@.len() { Some(policy.types@[id as int].name@) } else { None };
    let mut result: Vec<String> = Vec::new();
    let mut index: usize = 0;
    assert(ids@.take(0).filter_map(keep) =~= texts(result@));
    while index < ids.len()
        invariant
            index <= ids.len(),
            keep == (|id: usize| if id < policy.types@.len() { Some(policy.types@[id as int].name@) } else { None }),
            texts(result@) == ids@.take(index as int).filter_map(keep),
        decreases ids.len() - index,
    {
        let id = ids[index];
        proof {
            ids@.lemma_filter_map_take_succ(keep, index as int);
        }
        if id < policy.types.len() {
            let ghost before = texts(result@);
            result.push(owned(policy.types[id].name.as_str()));
            assert(texts(result@) =~= before.push(policy.types@[id as int].name@));
        }
        index = index + 1;
    }
    assert(ids@.take(ids.len() as int) =~= ids@);
    result
}

/// The type attributes of a policy, each named with its member types'
/// names.
fn attribute_entries(policy: &Policy) -> (result: Vec<(String, Vec<String>)>)
    requires
        well_formed(*policy),
    ensures
        table_of(result@) == attribute_table(*policy),
        unique_keys(result@),
{
    let ghost keep = |t: crate::policy::TypeSymbol| if t.attribute { Some((t.name@, member_names(*policy, t.members@))) } else { None };
    let mut result: Vec<(String, Vec<String>)> = Vec::new();
    let mut index: usize = 0;
    assert(policy.types@.take(0).filter_map(keep) =~= table_of(result@));
    while index < policy.types.len()
        invariant
            index <= policy.types.len(),
            well_formed(*policy),
            keep == (|t: crate::policy::TypeSymbol| if t.attribute { Some((t.name@, member_names(*policy, t.members@))) } else { None }),
            table_of(result@) == policy.types@.take(index as int).filter_map(keep),
            forall|k: int| 0 <= k < result@.len() ==> exists|j: int| 0 <= j < index && policy.types@[j].name@ == (#[trigger] result@[k]).0@,
            unique_keys(result@),
        decreases policy.types.len() - index,
    {
        let t = &policy.types[index];
        proof {
            policy.types@.lemma_filter_map_take_succ(keep, index as int);
        }
        if t.attribute {
            let entry = (owned(t.name.as_str()), names_of_members(policy, &t.members));
            let ghost before = result@;
            let ghost before_table = table_of(result@);
            result.push(entry);
            proof {
                assert(table_of(result@) =~= before_table.push((t.name@, member_names(*policy, t.members@))));
                assert forall|k: int| 0 <= k < result@.len() implies exists|j: int| 0 <= j < index + 1
                    && policy.types@[j].name@ == (#[trigger] result@[k]).0@ by {
                    if k < before.len() {
                        assert(result@[k] == before[k]);
                        let j = choose|j: int| 0 <= j < index && policy.types@[j].name@ == before[k].0@;
                    } else {
                        assert(policy.types@[index as int].name@ == result@[k].0@);
                    }
                }
                assert forall|a: int, b: int| 0 <= a < result@.len() && 0 <= b < result@.len() && a != b
                    implies result@[a].0@ != result@[b].0@ by {
                    if a < before.len() && b < before.len() {
                        assert(result@[a] == before[a] && result@[b] == before[b]);
                    } else if a < before.len() {
                        assert(result@[a] == before[a]);
                        let j = choose|j: int| 0 <= j < index && policy.types@[j].name@ == before[a].0@;
                        assert(policy.types@[j].name@ != policy.types@[index as int].name@);
                    } else {
                        assert(result@[b] == before[b]);
                        let j = choose|j: int| 0 <= j < index && policy.types@[j].name@ == before[b].0@;
                        assert(policy.types@[j].name@ != policy.types@[index as int].name@);
                    }
                }
            }
        }
        index = index + 1;
    }
    assert(policy.types@.take(policy.types.len() as int) =~= policy.types@);
    result
}


/// A policy compared with itself differs in nothing: for whatever the
/// comparisons of its Booleans, type attributes, categories and
/// sensitivities return, their added, removed and modified lists are empty.
pub proof fn law_policy_compared_with_itself_is_empty(
    policy: Policy,
    booleans: (Seq<Seq<char>>, Seq<Seq<char>>, Seq<Seq<char>>),
    attributes: (Seq<Seq<char>>, Seq<Seq<char>>, Seq<(Seq<char>, Seq<Seq<char>>, Seq<Seq<char>>)>),
    categories: (Seq<Seq<char>>, Seq<Seq<char>>, Seq<(Seq<char>, Seq<Seq<char>>, Seq<Seq<char>>)>),
    sensitivities: (Seq<Seq<char>>, Seq<Seq<char>>, Seq<(Seq<char>, Seq<Seq<char>>, Seq<Seq<char>>)>),
)
    requires
        is_listing(booleans.0, key_set(boolean_table(policy)).difference(key_set(boolean_table(policy)))),
        is_listing(booleans.1, key_set(boolean_table(policy)).difference(key_set(boolean_table(policy)))),
        is_listing(booleans.2, changed_booleans(boolean_table(policy), boolean_table(policy))),
        table_exact(attribute_table(policy), attribute_table(policy), attributes.0, attributes.1, attributes.2),
        table_exact(alias_table(policy.categories@), alias_table(policy.categories@), categories.0, categories.1, categories.2),
        table_exact(alias_table(policy.sensitivities@), alias_table(policy.sensitivities@),
            sensitivities.0, sensitivities.1, sensitivities.2),
    ensures
        booleans.0.len() == 0 && booleans.1.len() == 0 && booleans.2.len() == 0,
        attributes.0.len() == 0 && attributes.1.len() == 0 && attributes.2.len() == 0,
        categories.0.len() == 0 && categories.1.len() == 0 && categories.2.len() == 0,
        sensitivities.0.len() == 0 && sensitivities.1.len() == 0 && sensitivities.2.len() == 0,
{
    crate::diff::law_boolean_self_comparison_is_empty(boolean_table(policy), booleans.0, booleans.1, booleans.2);
    crate::diff::law_table_self_comparison_is_empty(attribute_table(policy), attributes.0, attributes.1, attributes.2);
    crate::diff::law_table_self_comparison_is_empty(alias_table(policy.categories@), categories.0, categories.1, categories.2);
    crate::diff::law_table_self_comparison_is_empty(alias_table(policy.sensitivities@),
        sensitivities.0, sensitivities.1, sensitivities.2);
}

} // verus!
