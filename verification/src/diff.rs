//! Semantic comparison of named policy components.
//!
//! Components are compared by canonical name, never by policy-local number:
//! each side is a list of `(name, value)` entries.
use vstd::prelude::*;
use crate::text::{texts, strictly_sorted, sorted_difference, lemma_text_lt_irreflexive, owned, copy_texts};
use crate::keyed::{key_set, unique_keys, value_of, text_set, find_key, sorted_keys, lemma_value_at};

verus! {

/// `listing` names every member of `set` once, in increasing order.
pub open spec fn is_listing(listing: Seq<Seq<char>>, set: Set<Seq<char>>) -> bool {
    strictly_sorted(listing) && listing.to_set() == set
}

/// Added and removed canonical names for a set-like component.
#[derive(Debug)]
pub struct NameSetDifference {
    added: Vec<String>,
    removed: Vec<String>,
}

impl View for NameSetDifference {
    type V = (Seq<Seq<char>>, Seq<Seq<char>>);

    closed spec fn view(&self) -> Self::V {
        (texts(self.added@), texts(self.removed@))
    }
}

impl NameSetDifference {
    /// Returns names present only in the right policy.
    pub fn added(&self) -> (result: &[String])
        ensures
            texts(result@) == self@.0,
    {
        self.added.as_slice()
    }

    /// Returns names present only in the left policy.
    pub fn removed(&self) -> (result: &[String])
        ensures
            texts(result@) == self@.1,
    {
        self.removed.as_slice()
    }

    /// Gives up the added and the removed names.
    pub(crate) fn into_parts(self) -> (result: (Vec<String>, Vec<String>))
        ensures
            texts(result.0@) == self@.0,
            texts(result.1@) == self@.1,
    {
        (self.added, self.removed)
    }

    /// Returns whether neither side has a unique name.
    pub fn is_empty(&self) -> (result: bool)
        ensures
            result == (self@.0.len() == 0 && self@.1.len() == 0),
    {
        self.added.len() == 0 && self.removed.len() == 0
    }
}

/// Compares two name lists as sets.
pub fn set_difference(left: &Vec<String>, right: &Vec<String>) -> (result: NameSetDifference)
    ensures
        is_listing(result@.0, text_set(*right).difference(text_set(*left))),
        is_listing(result@.1, text_set(*left).difference(text_set(*right))),
{
    NameSetDifference { added: sorted_difference(right, left), removed: sorted_difference(left, right) }
}

/// Compares the names of two entry lists.
pub fn map_name_difference<V>(left: &Vec<(String, V)>, right: &Vec<(String, V)>) -> (result: NameSetDifference)
    ensures
        is_listing(result@.0, key_set(right@).difference(key_set(left@))),
        is_listing(result@.1, key_set(left@).difference(key_set(right@))),
{
    let left_names = sorted_keys(left);
    let right_names = sorted_keys(right);
    set_difference(&left_names, &right_names)
}

/// Added, removed, and modified results for a named policy component.
#[derive(Debug)]
pub struct ComponentDifference<Modified> {
    names: NameSetDifference,
    modified: Vec<Modified>,
}

impl<Modified> View for ComponentDifference<Modified> {
    type V = (Seq<Seq<char>>, Seq<Seq<char>>, Seq<Modified>);

    closed spec fn view(&self) -> Self::V {
        (self.names@.0, self.names@.1, self.modified@)
    }
}

impl<Modified> ComponentDifference<Modified> {
    /// Returns names present only in the right policy.
    pub fn added(&self) -> (result: &[String])
        ensures
            texts(result@) == self@.0,
    {
        self.names.added()
    }

    /// Returns names present only in the left policy.
    pub fn removed(&self) -> (result: &[String])
        ensures
            texts(result@) == self@.1,
    {
        self.names.removed()
    }

    /// Returns matched names whose semantic value changed.
    pub fn modified(&self) -> (result: &[Modified])
        ensures
            result@ == self@.2,
    {
        self.modified.as_slice()
    }

    /// Returns whether the component is semantically equal.
    pub fn is_empty(&self) -> (result: bool)
        ensures
            result == (self@.0.len() == 0 && self@.1.len() == 0 && self@.2.len() == 0),
    {
        self.names.is_empty() && self.modified.len() == 0
    }
}

/// A Boolean whose default state changed.
#[derive(Debug)]
pub struct ModifiedBoolean {
    name: String,
    added_state: bool,
    removed_state: bool,
}

impl View for ModifiedBoolean {
    type V = (Seq<char>, bool, bool);

    closed spec fn view(&self) -> Self::V {
        (self.name@, self.added_state, self.removed_state)
    }
}

impl ModifiedBoolean {
    /// Returns the Boolean's canonical name.
    pub fn name(&self) -> (result: &str)
        ensures
            result@ == self@.0,
    {
        self.name.as_str()
    }

    /// Returns the default state from the right policy.
    pub fn added_state(&self) -> (result: bool)
        ensures
            result == self@.1,
    {
        self.added_state
    }

    /// Returns the default state from the left policy.
    pub fn removed_state(&self) -> (result: bool)
        ensures
            result == self@.2,
    {
        self.removed_state
    }
}

/// A category or sensitivity whose aliases changed.
#[derive(Debug)]
pub struct ModifiedAliases {
    name: String,
    added_aliases: Vec<String>,
    removed_aliases: Vec<String>,
}

impl View for ModifiedAliases {
    type V = (Seq<char>, Seq<Seq<char>>, Seq<Seq<char>>);

    closed spec fn view(&self) -> Self::V {
        (self.name@, texts(self.added_aliases@), texts(self.removed_aliases@))
    }
}

impl ModifiedAliases {
    /// Returns the canonical category or sensitivity name.
    pub fn name(&self) -> (result: &str)
        ensures
            result@ == self@.0,
    {
        self.name.as_str()
    }

    /// Returns aliases present only in the right policy.
    pub fn added_aliases(&self) -> (result: &[String])
        ensures
            texts(result@) == self@.1,
    {
        self.added_aliases.as_slice()
    }

    /// Returns aliases present only in the left policy.
    pub fn removed_aliases(&self) -> (result: &[String])
        ensures
            texts(result@) == self@.2,
    {
        self.removed_aliases.as_slice()
    }
}

/// A type attribute whose concrete type expansion changed.
#[derive(Debug)]
pub struct ModifiedTypeAttribute {
    name: String,
    added_types: Vec<String>,
    removed_types: Vec<String>,
}

impl View for ModifiedTypeAttribute {
    type V = (Seq<char>, Seq<Seq<char>>, Seq<Seq<char>>);

    closed spec fn view(&self) -> Self::V {
        (self.name@, texts(self.added_types@), texts(self.removed_types@))
    }
}

impl ModifiedTypeAttribute {
    /// Returns the attribute's canonical name.
    pub fn name(&self) -> (result: &str)
        ensures
            result@ == self@.0,
    {
        self.name.as_str()
    }

    /// Returns concrete types added to the attribute in the right policy.
    pub fn added_types(&self) -> (result: &[String])
        ensures
            texts(result@) == self@.1,
    {
        self.added_types.as_slice()
    }

    /// Returns concrete types removed from the attribute in the right policy.
    pub fn removed_types(&self) -> (result: &[String])
        ensures
            texts(result@) == self@.2,
    {
        self.removed_types.as_slice()
    }
}

/// Names present on both sides whose Boolean values differ.
pub open spec fn changed_booleans(left: Seq<(String, bool)>, right: Seq<(String, bool)>) -> Set<Seq<char>> {
    key_set(left).intersect(key_set(right)).filter(
        |name: Seq<char>| value_of(left, name) != value_of(right, name),
    )
}

/// Compares Boolean names and default states.
pub fn boolean_difference(left: &Vec<(String, bool)>, right: &Vec<(String, bool)>) -> (result:
    ComponentDifference<ModifiedBoolean>)
    requires
        unique_keys(left@),
        unique_keys(right@),
    ensures
        is_listing(result@.0, key_set(right@).difference(key_set(left@))),
        is_listing(result@.1, key_set(left@).difference(key_set(right@))),
        is_listing(result@.2.map_values(|m: ModifiedBoolean| m@.0), changed_booleans(left@, right@)),
        forall|i: int| 0 <= i < result@.2.len() ==> {
            let m = #[trigger] result@.2[i];
            m@.1 == value_of(right@, m@.0) && m@.2 == value_of(left@, m@.0)
        },
{
    let names = map_name_difference(left, right);
    let keys = sorted_keys(left);
    let mut modified: Vec<ModifiedBoolean> = Vec::new();
    let ghost changed = changed_booleans(left@, right@);
    let mut index: usize = 0;
    while index < keys.len()
        invariant
            index <= keys.len(),
            unique_keys(left@),
            unique_keys(right@),
            changed == changed_booleans(left@, right@),
            strictly_sorted(texts(keys@)),
            texts(keys@).to_set() == key_set(left@),
            modified@.len() <= index,
            forall|i: int| 0 <= i < modified@.len() ==> {
                let m = #[trigger] modified@[i];
                &&& m@.1 == value_of(right@, m@.0)
                &&& m@.2 == value_of(left@, m@.0)
                &&& changed.contains(m@.0)
            },
            forall|i: int| 0 <= i < modified@.len() ==> exists|k: int|
                0 <= k < index && texts(keys@)[k] == (#[trigger] modified@[i])@.0,
            strictly_sorted(modified@.map_values(|m: ModifiedBoolean| m@.0)),
            forall|i: int, k: int| 0 <= i < modified@.len() && index <= k < keys@.len() ==>
                crate::text::text_lt((#[trigger] modified@[i])@.0, #[trigger] texts(keys@)[k]),
            forall|k: int| 0 <= k < index && changed.contains(#[trigger] texts(keys@)[k]) ==>
                modified@.map_values(|m: ModifiedBoolean| m@.0).contains(texts(keys@)[k]),
        decreases keys.len() - index,
    {
        let name = &keys[index];
        assert(texts(keys@)[index as int] == name@);
        assert(key_set(left@).contains(name@)) by {
            assert(texts(keys@).contains(name@));
        }
        let li = find_key(left, name.as_str());
        let ri = find_key(right, name.as_str());
        let ghost before = modified@;
        match (li, ri) {
            (Some(li), Some(ri)) => {
                proof {
                    lemma_value_at(left@, li as int);
                    lemma_value_at(right@, ri as int);
                }
                if left[li].1 != right[ri].1 {
                    modified.push(ModifiedBoolean {
                        name: name.clone(),
                        added_state: right[ri].1,
                        removed_state: left[li].1,
                    });
                }
            },
            _ => {},
        }
        proof {
            let mapped = modified@.map_values(|m: ModifiedBoolean| m@.0);
            assert forall|i: int, k: int| 0 <= i < modified@.len() && index + 1 <= k < keys@.len()
                implies crate::text::text_lt((#[trigger] modified@[i])@.0, #[trigger] texts(keys@)[k]) by {
                if i == before.len() {
                    assert(modified@[i]@.0 == texts(keys@)[index as int]);
                } else {
                    assert(modified@[i] == before[i]);
                }
            }
            assert forall|i: int, j: int| 0 <= i < j < mapped.len()
                implies crate::text::text_lt(mapped[i], mapped[j]) by {
                if j == before.len() {
                    assert(modified@[i] == before[i]);
                    assert(mapped[j] == texts(keys@)[index as int]);
                    assert(crate::text::text_lt(before[i]@.0, texts(keys@)[index as int]));
                } else {
                    let bm = before.map_values(|m: ModifiedBoolean| m@.0);
                    assert(modified@[i] == before[i]);
                    assert(modified@[j] == before[j]);
                    assert(bm[i] == mapped[i]);
                    assert(bm[j] == mapped[j]);
                    assert(crate::text::text_lt(bm[i], bm[j]));
                }
            }
            assert forall|i: int| 0 <= i < modified@.len() implies exists|k: int|
                0 <= k < index + 1 && texts(keys@)[k] == (#[trigger] modified@[i])@.0 by {
                if i == before.len() {
                    assert(texts(keys@)[index as int] == modified@[i]@.0);
                } else {
                    assert(modified@[i] == before[i]);
                }
            }
            assert forall|k: int| 0 <= k < index + 1 && changed.contains(#[trigger] texts(keys@)[k])
                implies mapped.contains(texts(keys@)[k]) by {
                if k == index {
                    assert(mapped[before.len() as int] == texts(keys@)[k]);
                } else {
                    let before_mapped = before.map_values(|m: ModifiedBoolean| m@.0);
                    assert(before_mapped.contains(texts(keys@)[k]));
                    let j = choose|j: int| 0 <= j < before_mapped.len() && before_mapped[j] == texts(keys@)[k];
                    assert(mapped[j] == before_mapped[j]);
                }
            }
        }
        index = index + 1;
    }
    proof {
        let mapped = modified@.map_values(|m: ModifiedBoolean| m@.0);
        assert forall|name: Seq<char>| mapped.to_set().contains(name) <==> changed.contains(name) by {
            if mapped.to_set().contains(name) {
                let j = choose|j: int| 0 <= j < mapped.len() && mapped[j] == name;
                assert(changed.contains(modified@[j]@.0));
            }
            if changed.contains(name) {
                assert(texts(keys@).to_set().contains(name));
                let k = choose|k: int| 0 <= k < texts(keys@).len() && texts(keys@)[k] == name;
                assert(mapped.contains(texts(keys@)[k]));
            }
        }
        assert(mapped.to_set() =~= changed);
    }
    ComponentDifference { names, modified }
}

/// Names present on both sides whose string sets differ.
pub open spec fn changed_sets(left: Seq<(String, Vec<String>)>, right: Seq<(String, Vec<String>)>) -> Set<Seq<char>> {
    key_set(left).intersect(key_set(right)).filter(
        |name: Seq<char>| text_set(value_of(left, name)) != text_set(value_of(right, name)),
    )
}

/// The names of a list of set changes.
pub open spec fn change_names(changes: Seq<(String, Vec<String>, Vec<String>)>) -> Seq<Seq<char>> {
    changes.map_values(|c: (String, Vec<String>, Vec<String>)| c.0@)
}

/// Each change lists what the right entry adds to, and what it removes from,
/// the left entry of the same name.
pub open spec fn changes_are_exact(
    left: Seq<(String, Vec<String>)>,
    right: Seq<(String, Vec<String>)>,
    changes: Seq<(String, Vec<String>, Vec<String>)>,
) -> bool {
    forall|i: int| 0 <= i < changes.len() ==> {
        let c = #[trigger] changes[i];
        &&& is_listing(texts(c.1@), text_set(value_of(right, c.0@)).difference(text_set(value_of(left, c.0@))))
        &&& is_listing(texts(c.2@), text_set(value_of(left, c.0@)).difference(text_set(value_of(right, c.0@))))
    }
}

proof fn lemma_empty_listing(listing: Seq<Seq<char>>, set: Set<Seq<char>>)
    requires
        listing.to_set() == set,
    ensures
        (listing.len() == 0) == (set == Set::<Seq<char>>::empty()),
{
    if listing.len() == 0 {
        assert(set =~= Set::empty());
    } else {
        assert(set.contains(listing[0]));
    }
}

/// For every name on both sides whose string set changed, in name order, the
/// strings added and removed.
pub fn set_changes(left: &Vec<(String, Vec<String>)>, right: &Vec<(String, Vec<String>)>) -> (result: Vec<(String, Vec<String>, Vec<String>)>)
    requires
        unique_keys(left@),
        unique_keys(right@),
    ensures
        is_listing(change_names(result@), changed_sets(left@, right@)),
        changes_are_exact(left@, right@, result@),
{
    let keys = sorted_keys(left);
    let mut result: Vec<(String, Vec<String>, Vec<String>)> = Vec::new();
    let ghost changed = changed_sets(left@, right@);
    let mut index: usize = 0;
    while index < keys.len()
        invariant
            index <= keys.len(),
            unique_keys(left@),
            unique_keys(right@),
            changed == changed_sets(left@, right@),
            strictly_sorted(texts(keys@)),
            texts(keys@).to_set() == key_set(left@),
            changes_are_exact(left@, right@, result@),
            forall|i: int| 0 <= i < result@.len() ==> changed.contains(#[trigger] change_names(result@)[i]),
            forall|i: int| 0 <= i < result@.len() ==> exists|k: int|
                0 <= k < index && texts(keys@)[k] == #[trigger] change_names(result@)[i],
            strictly_sorted(change_names(result@)),
            forall|i: int, k: int| 0 <= i < result@.len() && index <= k < keys@.len() ==>
                crate::text::text_lt(#[trigger] change_names(result@)[i], #[trigger] texts(keys@)[k]),
            forall|k: int| 0 <= k < index && changed.contains(#[trigger] texts(keys@)[k]) ==>
                change_names(result@).contains(texts(keys@)[k]),
        decreases keys.len() - index,
    {
        let name = &keys[index];
        assert(texts(keys@)[index as int] == name@);
        assert(key_set(left@).contains(name@)) by {
            assert(texts(keys@).contains(name@));
        }
        let li = find_key(left, name.as_str());
        let ri = find_key(right, name.as_str());
        let ghost before = result@;
        match (li, ri) {
            (Some(li), Some(ri)) => {
                proof {
                    lemma_value_at(left@, li as int);
                    lemma_value_at(right@, ri as int);
                }
                let added = sorted_difference(&right[ri].1, &left[li].1);
                let removed = sorted_difference(&left[li].1, &right[ri].1);
                proof {
                    let l = text_set(left@[li as int].1);
                    let r = text_set(right@[ri as int].1);
                    lemma_empty_listing(texts(added@), r.difference(l));
                    lemma_empty_listing(texts(removed@), l.difference(r));
                    if r.difference(l) == Set::<Seq<char>>::empty() && l.difference(r) == Set::<Seq<char>>::empty() {
                        assert forall|x: Seq<char>| l.contains(x) <==> r.contains(x) by {
                            if l.contains(x) { assert(!l.difference(r).contains(x)); }
                            if r.contains(x) { assert(!r.difference(l).contains(x)); }
                        }
                        assert(l =~= r);
                    }
                    if l == r {
                        assert(r.difference(l) =~= Set::empty());
                        assert(l.difference(r) =~= Set::empty());
                    }
                }
                if added.len() > 0 || removed.len() > 0 {
                    result.push((name.clone(), added, removed));
                }
            },
            _ => {},
        }
        proof {
            let mapped = change_names(result@);
            let bm = change_names(before);
            assert forall|i: int| 0 <= i < result@.len() implies changed.contains(#[trigger] change_names(result@)[i]) by {
                if i < before.len() {
                    assert(result@[i] == before[i]);
                    assert(bm[i] == mapped[i]);
                }
            }
            assert forall|i: int, k: int| 0 <= i < result@.len() && index + 1 <= k < keys@.len()
                implies crate::text::text_lt(#[trigger] change_names(result@)[i], #[trigger] texts(keys@)[k]) by {
                if i == before.len() {
                    assert(mapped[i] == texts(keys@)[index as int]);
                } else {
                    assert(result@[i] == before[i]);
                    assert(bm[i] == mapped[i]);
                }
            }
            assert forall|i: int, j: int| 0 <= i < j < mapped.len()
                implies crate::text::text_lt(mapped[i], mapped[j]) by {
                assert(result@[i] == before[i]);
                assert(bm[i] == mapped[i]);
                if j == before.len() {
                    assert(mapped[j] == texts(keys@)[index as int]);
                    assert(crate::text::text_lt(bm[i], texts(keys@)[index as int]));
                } else {
                    assert(result@[j] == before[j]);
                    assert(bm[j] == mapped[j]);
                    assert(crate::text::text_lt(bm[i], bm[j]));
                }
            }
            assert forall|i: int| 0 <= i < result@.len() implies exists|k: int|
                0 <= k < index + 1 && texts(keys@)[k] == #[trigger] change_names(result@)[i] by {
                if i == before.len() {
                    assert(texts(keys@)[index as int] == mapped[i]);
                } else {
                    assert(result@[i] == before[i]);
                    assert(bm[i] == mapped[i]);
                }
            }
            assert forall|k: int| 0 <= k < index + 1 && changed.contains(#[trigger] texts(keys@)[k])
                implies mapped.contains(texts(keys@)[k]) by {
                if k == index {
                    assert(mapped[before.len() as int] == texts(keys@)[k]);
                } else {
                    assert(bm.contains(texts(keys@)[k]));
                    let j = choose|j: int| 0 <= j < bm.len() && bm[j] == texts(keys@)[k];
                    assert(result@[j] == before[j]);
                    assert(mapped[j] == bm[j]);
                }
            }
            assert forall|i: int| 0 <= i < result@.len() implies {
                let c = #[trigger] result@[i];
                &&& is_listing(texts(c.1@), text_set(value_of(right@, c.0@)).difference(text_set(value_of(left@, c.0@))))
                &&& is_listing(texts(c.2@), text_set(value_of(left@, c.0@)).difference(text_set(value_of(right@, c.0@))))
            } by {
                if i < before.len() {
                    assert(result@[i] == before[i]);
                }
            }
        }
        index = index + 1;
    }
    proof {
        let mapped = change_names(result@);
        assert forall|name: Seq<char>| mapped.to_set().contains(name) <==> changed.contains(name) by {
            if mapped.to_set().contains(name) {
                let j = choose|j: int| 0 <= j < mapped.len() && mapped[j] == name;
                assert(changed.contains(mapped[j]));
            }
            if changed.contains(name) {
                assert(texts(keys@).to_set().contains(name));
                let k = choose|k: int| 0 <= k < texts(keys@).len() && texts(keys@)[k] == name;
                assert(mapped.contains(texts(keys@)[k]));
            }
        }
        assert(mapped.to_set() =~= changed);
    }
    result
}

/// A comparison of named string sets: the added and removed names, and for
/// each name on both sides whose set changed, in name order, what its set
/// gained and lost.
pub open spec fn set_component_exact(
    left: Seq<(String, Vec<String>)>,
    right: Seq<(String, Vec<String>)>,
    added: Seq<Seq<char>>,
    removed: Seq<Seq<char>>,
    modified: Seq<(Seq<char>, Seq<Seq<char>>, Seq<Seq<char>>)>,
) -> bool {
    &&& is_listing(added, key_set(right).difference(key_set(left)))
    &&& is_listing(removed, key_set(left).difference(key_set(right)))
    &&& is_listing(modified.map_values(|m: (Seq<char>, Seq<Seq<char>>, Seq<Seq<char>>)| m.0), changed_sets(left, right))
    &&& forall|i: int| 0 <= i < modified.len() ==> {
        let m = #[trigger] modified[i];
        &&& is_listing(m.1, text_set(value_of(right, m.0)).difference(text_set(value_of(left, m.0))))
        &&& is_listing(m.2, text_set(value_of(left, m.0)).difference(text_set(value_of(right, m.0))))
    }
}

/// The plain values of a list of set changes.
pub open spec fn change_views(changes: Seq<(String, Vec<String>, Vec<String>)>) -> Seq<(Seq<char>, Seq<Seq<char>>, Seq<Seq<char>>)> {
    changes.map_values(|c: (String, Vec<String>, Vec<String>)| (c.0@, texts(c.1@), texts(c.2@)))
}

/// The set changes of two named string-set lists, exactly.
proof fn lemma_change_views(
    left: Seq<(String, Vec<String>)>,
    right: Seq<(String, Vec<String>)>,
    changes: Seq<(String, Vec<String>, Vec<String>)>,
)
    requires
        is_listing(change_names(changes), changed_sets(left, right)),
        changes_are_exact(left, right, changes),
    ensures
        is_listing(
            change_views(changes).map_values(|m: (Seq<char>, Seq<Seq<char>>, Seq<Seq<char>>)| m.0),
            changed_sets(left, right),
        ),
        forall|i: int| 0 <= i < change_views(changes).len() ==> {
            let m = #[trigger] change_views(changes)[i];
            &&& is_listing(m.1, text_set(value_of(right, m.0)).difference(text_set(value_of(left, m.0))))
            &&& is_listing(m.2, text_set(value_of(left, m.0)).difference(text_set(value_of(right, m.0))))
        },
{
    assert(change_views(changes).map_values(|m: (Seq<char>, Seq<Seq<char>>, Seq<Seq<char>>)| m.0) =~= change_names(changes));
    assert forall|i: int| 0 <= i < change_views(changes).len() implies {
        let m = #[trigger] change_views(changes)[i];
        &&& is_listing(m.1, text_set(value_of(right, m.0)).difference(text_set(value_of(left, m.0))))
        &&& is_listing(m.2, text_set(value_of(left, m.0)).difference(text_set(value_of(right, m.0))))
    } by {
        let c = changes[i];
        assert(change_views(changes)[i] == (c.0@, texts(c.1@), texts(c.2@)));
    }
}

/// Compares type attributes, each named with the names of its member types.
pub fn attribute_difference(left: &Vec<(String, Vec<String>)>, right: &Vec<(String, Vec<String>)>) -> (result:
    ComponentDifference<ModifiedTypeAttribute>)
    requires
        unique_keys(left@),
        unique_keys(right@),
    ensures
        set_component_exact(left@, right@, result@.0, result@.1, result@.2.map_values(|m: ModifiedTypeAttribute| m@)),
{
    let names = map_name_difference(left, right);
    let changes = set_changes(left, right);
    proof {
        lemma_change_views(left@, right@, changes@);
    }
    let mut modified: Vec<ModifiedTypeAttribute> = Vec::new();
    let mut index: usize = 0;
    while index < changes.len()
        invariant
            index <= changes.len(),
            modified@.map_values(|m: ModifiedTypeAttribute| m@) == change_views(changes@).take(index as int),
        decreases changes.len() - index,
    {
        let c = &changes[index];
        let ghost before = modified@.map_values(|m: ModifiedTypeAttribute| m@);
        modified.push(ModifiedTypeAttribute {
            name: owned(c.0.as_str()),
            added_types: copy_texts(&c.1),
            removed_types: copy_texts(&c.2),
        });
        proof {
            let last = modified@[modified@.len() - 1];
            assert(last@ == change_views(changes@)[index as int]);
            assert(modified@.map_values(|m: ModifiedTypeAttribute| m@) =~= before.push(last@));
            assert(change_views(changes@).take(index + 1) =~= change_views(changes@).take(index as int).push(last@));
        }
        index = index + 1;
    }
    assert(change_views(changes@).take(changes.len() as int) =~= change_views(changes@));
    ComponentDifference { names, modified }
}

/// Compares categories or sensitivities, each named with its aliases.
pub fn alias_difference(left: &Vec<(String, Vec<String>)>, right: &Vec<(String, Vec<String>)>) -> (result:
    ComponentDifference<ModifiedAliases>)
    requires
        unique_keys(left@),
        unique_keys(right@),
    ensures
        set_component_exact(left@, right@, result@.0, result@.1, result@.2.map_values(|m: ModifiedAliases| m@)),
{
    let names = map_name_difference(left, right);
    let changes = set_changes(left, right);
    proof {
        lemma_change_views(left@, right@, changes@);
    }
    let mut modified: Vec<ModifiedAliases> = Vec::new();
    let mut index: usize = 0;
    while index < changes.len()
        invariant
            index <= changes.len(),
            modified@.map_values(|m: ModifiedAliases| m@) == change_views(changes@).take(index as int),
        decreases changes.len() - index,
    {
        let c = &changes[index];
        let ghost before = modified@.map_values(|m: ModifiedAliases| m@);
        modified.push(ModifiedAliases {
            name: owned(c.0.as_str()),
            added_aliases: copy_texts(&c.1),
            removed_aliases: copy_texts(&c.2),
        });
        proof {
            let last = modified@[modified@.len() - 1];
            assert(last@ == change_views(changes@)[index as int]);
            assert(modified@.map_values(|m: ModifiedAliases| m@) =~= before.push(last@));
            assert(change_views(changes@).take(index + 1) =~= change_views(changes@).take(index as int).push(last@));
        }
        index = index + 1;
    }
    assert(change_views(changes@).take(changes.len() as int) =~= change_views(changes@));
    ComponentDifference { names, modified }
}

/// Named string sets as plain values.
pub open spec fn table_of(entries: Seq<(String, Vec<String>)>) -> Seq<(Seq<char>, Set<Seq<char>>)> {
    entries.map_values(|e: (String, Vec<String>)| (e.0@, text_set(e.1)))
}

/// The names of a table.
pub open spec fn table_keys(table: Seq<(Seq<char>, Set<Seq<char>>)>) -> Set<Seq<char>> {
    Set::new(|name: Seq<char>| exists|i: int| 0 <= i < table.len() && table[i].0 == name)
}

/// The set stored under a name of a table.
pub open spec fn table_value(table: Seq<(Seq<char>, Set<Seq<char>>)>, name: Seq<char>) -> Set<Seq<char>> {
    table[choose|i: int| 0 <= i < table.len() && table[i].0 == name].1
}

/// Names on both sides of two tables whose sets differ.
pub open spec fn table_changed(left: Seq<(Seq<char>, Set<Seq<char>>)>, right: Seq<(Seq<char>, Set<Seq<char>>)>) -> Set<Seq<char>> {
    table_keys(left).intersect(table_keys(right)).filter(|name: Seq<char>| table_value(left, name) != table_value(right, name))
}

/// A comparison of two tables of named sets: the added and removed names,
/// and for each name on both sides whose set changed, in name order, what
/// its set gained and lost.
pub open spec fn table_exact(
    left: Seq<(Seq<char>, Set<Seq<char>>)>,
    right: Seq<(Seq<char>, Set<Seq<char>>)>,
    added: Seq<Seq<char>>,
    removed: Seq<Seq<char>>,
    modified: Seq<(Seq<char>, Seq<Seq<char>>, Seq<Seq<char>>)>,
) -> bool {
    &&& is_listing(added, table_keys(right).difference(table_keys(left)))
    &&& is_listing(removed, table_keys(left).difference(table_keys(right)))
    &&& is_listing(modified.map_values(|m: (Seq<char>, Seq<Seq<char>>, Seq<Seq<char>>)| m.0), table_changed(left, right))
    &&& forall|i: int| 0 <= i < modified.len() ==> {
        let m = #[trigger] modified[i];
        &&& is_listing(m.1, table_value(right, m.0).difference(table_value(left, m.0)))
        &&& is_listing(m.2, table_value(left, m.0).difference(table_value(right, m.0)))
    }
}

/// The names and sets of entries are those of their table.
proof fn lemma_table_of(entries: Seq<(String, Vec<String>)>)
    requires
        unique_keys(entries),
    ensures
        key_set(entries) == table_keys(table_of(entries)),
        forall|name: Seq<char>| key_set(entries).contains(name) ==> #[trigger] text_set(value_of(entries, name))
            == table_value(table_of(entries), name),
{
    let table = table_of(entries);
    assert forall|name: Seq<char>| key_set(entries).contains(name) <==> table_keys(table).contains(name) by {
        if key_set(entries).contains(name) {
            let i = choose|i: int| 0 <= i < entries.len() && entries[i].0@ == name;
            assert(table[i].0 == name);
        }
        if table_keys(table).contains(name) {
            let i = choose|i: int| 0 <= i < table.len() && table[i].0 == name;
            assert(entries[i].0@ == name);
        }
    }
    assert(key_set(entries) =~= table_keys(table));
    assert forall|name: Seq<char>| key_set(entries).contains(name) implies #[trigger] text_set(value_of(entries, name))
        == table_value(table, name) by {
        let k = choose|i: int| 0 <= i < entries.len() && entries[i].0@ == name;
        lemma_value_at(entries, k);
        assert(table[k].0 == name);
        let j = choose|i: int| 0 <= i < table.len() && table[i].0 == name;
        assert(entries[j].0@ == name);
        assert(j == k);
    }
}

/// An exact comparison of named string sets is an exact comparison of
/// their tables.
pub proof fn lemma_table_exact(
    left: Seq<(String, Vec<String>)>,
    right: Seq<(String, Vec<String>)>,
    added: Seq<Seq<char>>,
    removed: Seq<Seq<char>>,
    modified: Seq<(Seq<char>, Seq<Seq<char>>, Seq<Seq<char>>)>,
)
    requires
        unique_keys(left),
        unique_keys(right),
        set_component_exact(left, right, added, removed, modified),
    ensures
        table_exact(table_of(left), table_of(right), added, removed, modified),
{
    lemma_table_of(left);
    lemma_table_of(right);
    assert(changed_sets(left, right) =~= table_changed(table_of(left), table_of(right)));
    let names = modified.map_values(|m: (Seq<char>, Seq<Seq<char>>, Seq<Seq<char>>)| m.0);
    assert forall|i: int| 0 <= i < modified.len() implies {
        let m = #[trigger] modified[i];
        &&& is_listing(m.1, table_value(table_of(right), m.0).difference(table_value(table_of(left), m.0)))
        &&& is_listing(m.2, table_value(table_of(left), m.0).difference(table_value(table_of(right), m.0)))
    } by {
        let m = modified[i];
        assert(names[i] == m.0);
        assert(names.to_set().contains(m.0));
        assert(changed_sets(left, right).contains(m.0));
        assert(key_set(left).contains(m.0) && key_set(right).contains(m.0));
        assert(text_set(value_of(left, m.0)) == table_value(table_of(left), m.0));
        assert(text_set(value_of(right, m.0)) == table_value(table_of(right), m.0));
    }
}

/// Two listings of one set are the same sequence.
pub proof fn lemma_listing_unique(a: Seq<Seq<char>>, b: Seq<Seq<char>>, set: Set<Seq<char>>)
    requires
        is_listing(a, set),
        is_listing(b, set),
    ensures
        a == b,
    decreases a.len(),
{
    if a.len() == 0 {
        if b.len() > 0 {
            assert(set.contains(b[0]));
            assert(a.to_set().contains(b[0]));
        }
        assert(a =~= b);
    } else {
        assert(set.contains(a[0]));
        assert(b.to_set().contains(a[0]));
        assert(b.len() > 0);
        let i = choose|i: int| 0 <= i < b.len() && b[i] == a[0];
        assert(set.contains(b[0]));
        assert(a.to_set().contains(b[0]));
        let j = choose|j: int| 0 <= j < a.len() && a[j] == b[0];
        if i > 0 {
            assert(crate::text::text_lt(b[0], b[i]));
            if j > 0 {
                assert(crate::text::text_lt(a[0], a[j]));
                crate::text::lemma_text_lt_transitive(a[0], b[0], a[0]);
                lemma_text_lt_irreflexive(a[0]);
            } else {
                lemma_text_lt_irreflexive(a[0]);
            }
        }
        assert(a[0] == b[0]);
        let rest = set.remove(a[0]);
        assert forall|x: Seq<char>| a.drop_first().to_set().contains(x) <==> rest.contains(x) by {
            if a.drop_first().to_set().contains(x) {
                let k = choose|k: int| 0 <= k < a.drop_first().len() && a.drop_first()[k] == x;
                assert(a[k + 1] == x);
                assert(a.to_set().contains(x));
                assert(crate::text::text_lt(a[0], a[k + 1]));
                if x == a[0] {
                    lemma_text_lt_irreflexive(a[0]);
                }
            }
            if rest.contains(x) {
                assert(a.to_set().contains(x));
                let k = choose|k: int| 0 <= k < a.len() && a[k] == x;
                assert(k != 0);
                assert(a.drop_first()[k - 1] == x);
            }
        }
        assert forall|x: Seq<char>| b.drop_first().to_set().contains(x) <==> rest.contains(x) by {
            if b.drop_first().to_set().contains(x) {
                let k = choose|k: int| 0 <= k < b.drop_first().len() && b.drop_first()[k] == x;
                assert(b[k + 1] == x);
                assert(b.to_set().contains(x));
                assert(crate::text::text_lt(b[0], b[k + 1]));
                if x == b[0] {
                    lemma_text_lt_irreflexive(b[0]);
                }
            }
            if rest.contains(x) {
                assert(b.to_set().contains(x));
                let k = choose|k: int| 0 <= k < b.len() && b[k] == x;
                assert(k != 0);
                assert(b.drop_first()[k - 1] == x);
            }
        }
        assert(a.drop_first().to_set() =~= rest);
        assert(b.drop_first().to_set() =~= rest);
        lemma_listing_unique(a.drop_first(), b.drop_first(), rest);
        assert(a =~= seq![a[0]] + a.drop_first());
        assert(b =~= seq![b[0]] + b.drop_first());
    }
}

/// Comparing two name sets the other way round swaps what was added and
/// what was removed.
pub proof fn law_difference_swaps_sides(
    left: Set<Seq<char>>,
    right: Set<Seq<char>>,
    forward: (Seq<Seq<char>>, Seq<Seq<char>>),
    backward: (Seq<Seq<char>>, Seq<Seq<char>>),
)
    requires
        is_listing(forward.0, right.difference(left)),
        is_listing(forward.1, left.difference(right)),
        is_listing(backward.0, left.difference(right)),
        is_listing(backward.1, right.difference(left)),
    ensures
        forward.0 == backward.1,
        forward.1 == backward.0,
{
    lemma_listing_unique(forward.0, backward.1, right.difference(left));
    lemma_listing_unique(forward.1, backward.0, left.difference(right));
}

/// A name set compared with itself has nothing added and nothing removed.
pub proof fn law_self_difference_is_empty(names: Set<Seq<char>>, added: Seq<Seq<char>>, removed: Seq<Seq<char>>)
    requires
        is_listing(added, names.difference(names)),
        is_listing(removed, names.difference(names)),
    ensures
        added.len() == 0,
        removed.len() == 0,
{
    assert(names.difference(names) =~= Set::<Seq<char>>::empty());
    lemma_empty_listing(added, names.difference(names));
    lemma_empty_listing(removed, names.difference(names));
}

/// Only names on both sides can be modified, and a list compared with itself
/// has no modified names.
pub proof fn law_unchanged_sets_are_not_modified(entries: Seq<(String, Vec<String>)>)
    ensures
        changed_sets(entries, entries) == Set::<Seq<char>>::empty(),
{
    assert(changed_sets(entries, entries) =~= Set::<Seq<char>>::empty());
}


/// A table of named sets compared with itself has no added, removed or
/// modified names: identical policies give empty attribute, category and
/// sensitivity comparisons.
pub proof fn law_table_self_comparison_is_empty(
    table: Seq<(Seq<char>, Set<Seq<char>>)>,
    added: Seq<Seq<char>>,
    removed: Seq<Seq<char>>,
    modified: Seq<(Seq<char>, Seq<Seq<char>>, Seq<Seq<char>>)>,
)
    requires
        table_exact(table, table, added, removed, modified),
    ensures
        added.len() == 0,
        removed.len() == 0,
        modified.len() == 0,
{
    law_self_difference_is_empty(table_keys(table), added, removed);
    assert(table_changed(table, table) =~= Set::<Seq<char>>::empty());
    let names = modified.map_values(|m: (Seq<char>, Seq<Seq<char>>, Seq<Seq<char>>)| m.0);
    lemma_empty_listing(names, table_changed(table, table));
    assert(names.len() == modified.len());
}

/// Named states compared with themselves have no added, removed or changed
/// names: identical policies give an empty Boolean comparison.
pub proof fn law_boolean_self_comparison_is_empty(
    table: Seq<(String, bool)>,
    added: Seq<Seq<char>>,
    removed: Seq<Seq<char>>,
    changed: Seq<Seq<char>>,
)
    requires
        is_listing(added, key_set(table).difference(key_set(table))),
        is_listing(removed, key_set(table).difference(key_set(table))),
        is_listing(changed, changed_booleans(table, table)),
    ensures
        added.len() == 0,
        removed.len() == 0,
        changed.len() == 0,
{
    law_self_difference_is_empty(key_set(table), added, removed);
    assert(changed_booleans(table, table) =~= Set::<Seq<char>>::empty());
    lemma_empty_listing(changed, changed_booleans(table, table));
}

} // verus!
