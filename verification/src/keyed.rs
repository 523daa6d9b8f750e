//! Named entries: lists of `(name, value)` pairs in which each name occurs
//! once, as the policy model's symbol tables are.
use vstd::prelude::*;
use crate::text::{texts, strictly_sorted, text_lt, same_text, sorted_set, sorted_difference,
    insert_sorted, lemma_text_lt_irreflexive, lemma_text_lt_total};

verus! {

/// The names of the entries.
pub open spec fn key_set<V>(entries: Seq<(String, V)>) -> Set<Seq<char>> {
    Set::new(|name: Seq<char>| exists|i: int| 0 <= i < entries.len() && entries[i].0@ == name)
}

/// No name occurs twice.
pub open spec fn unique_keys<V>(entries: Seq<(String, V)>) -> bool {
    forall|i: int, j: int|
        0 <= i < entries.len() && 0 <= j < entries.len() && i != j ==> entries[i].0@ != entries[j].0@
}

/// The value stored under a name that occurs in the entries.
pub open spec fn value_of<V>(entries: Seq<(String, V)>, name: Seq<char>) -> V {
    entries[choose|i: int| 0 <= i < entries.len() && entries[i].0@ == name].1
}

/// The set of strings held by a list.
pub open spec fn text_set(values: Vec<String>) -> Set<Seq<char>> {
    texts(values@).to_set()
}

/// A value stored under the name found at position `i` is `value_of` that name.
pub proof fn lemma_value_at<V>(entries: Seq<(String, V)>, i: int)
    requires
        unique_keys(entries),
        0 <= i < entries.len(),
    ensures
        value_of(entries, entries[i].0@) == entries[i].1,
        key_set(entries).contains(entries[i].0@),
{
    let name = entries[i].0@;
    assert(exists|k: int| 0 <= k < entries.len() && entries[k].0@ == name);
    let k = choose|k: int| 0 <= k < entries.len() && entries[k].0@ == name;
    assert(k == i);
}

/// Finds the position of a name among the entries.
pub fn find_key<V>(entries: &Vec<(String, V)>, name: &str) -> (result: Option<usize>)
    ensures
        match result {
            Some(i) => i < entries.len() && entries@[i as int].0@ == name@,
            None => !key_set(entries@).contains(name@),
        },
{
    let mut index: usize = 0;
    while index < entries.len()
        invariant
            index <= entries.len(),
            forall|k: int| 0 <= k < index ==> entries@[k].0@ != name@,
        decreases entries.len() - index,
    {
        if same_text(entries[index].0.as_str(), name) {
            return Some(index);
        }
        index = index + 1;
    }
    None
}

/// The names of the entries, as a strictly sorted list.
pub fn sorted_keys<V>(entries: &Vec<(String, V)>) -> (result: Vec<String>)
    ensures
        strictly_sorted(texts(result@)),
        texts(result@).to_set() == key_set(entries@),
{
    let mut result: Vec<String> = Vec::new();
    let mut index: usize = 0;
    assert(texts(result@).to_set() =~= Set::empty());
    while index < entries.len()
        invariant
            index <= entries.len(),
            strictly_sorted(texts(result@)),
            texts(result@).to_set() == key_set(entries@.take(index as int)),
        decreases entries.len() - index,
    {
        insert_sorted(&mut result, entries[index].0.clone());
        index = index + 1;
        proof {
            let now = entries@.take(index as int);
            assert forall|name: Seq<char>|
                texts(result@).to_set().contains(name) <==> key_set(now).contains(name) by {
                if key_set(now).contains(name) {
                    let k = choose|k: int| 0 <= k < now.len() && now[k].0@ == name;
                    if k < index - 1 {
                        assert(entries@.take(index - 1)[k] == now[k]);
                        assert(key_set(entries@.take(index - 1)).contains(name));
                    }
                }
                if texts(result@).to_set().contains(name) && name != entries@[index - 1].0@ {
                    let before = entries@.take(index - 1);
                    assert(key_set(before).contains(name));
                    let k = choose|k: int| 0 <= k < before.len() && before[k].0@ == name;
                    assert(now[k] == before[k]);
                }
                if name == entries@[index - 1].0@ {
                    assert(now[index - 1].0@ == name);
                }
            }
            assert(texts(result@).to_set() =~= key_set(now));
        }
    }
    assert(entries@.take(entries.len() as int) =~= entries@);
    result
}

/// Stores `value` under `name`, replacing the value already stored there.
pub fn set_entry<V>(entries: &mut Vec<(String, V)>, name: String, value: V)
    requires
        unique_keys(old(entries)@),
    ensures
        unique_keys(final(entries)@),
        key_set(final(entries)@) == key_set(old(entries)@).insert(name@),
        value_of(final(entries)@, name@) == value,
        forall|other: Seq<char>| other != name@ && key_set(old(entries)@).contains(other)
            ==> value_of(final(entries)@, other) == value_of(old(entries)@, other),
{
    let ghost before = entries@;
    match find_key(entries, name.as_str()) {
        Some(k) => {
            entries.set(k, (name, value));
            proof {
                let after = entries@;
                assert forall|n: Seq<char>| key_set(after).contains(n) <==> key_set(before).insert(name@).contains(n) by {
                    if key_set(after).contains(n) {
                        let i = choose|i: int| 0 <= i < after.len() && after[i].0@ == n;
                        if i != k {
                            assert(before[i] == after[i]);
                        }
                    }
                    if key_set(before).contains(n) {
                        let i = choose|i: int| 0 <= i < before.len() && before[i].0@ == n;
                        if i != k {
                            assert(before[i] == after[i]);
                        } else {
                            assert(after[i].0@ == n);
                        }
                    }
                    if n == name@ {
                        assert(after[k as int].0@ == n);
                    }
                }
                assert(key_set(after) =~= key_set(before).insert(name@));
                lemma_value_at(after, k as int);
                assert forall|other: Seq<char>| other != name@ && key_set(before).contains(other)
                    implies value_of(after, other) == value_of(before, other) by {
                    let i = choose|i: int| 0 <= i < before.len() && before[i].0@ == other;
                    assert(i != k);
                    assert(after[i] == before[i]);
                    lemma_value_at(before, i);
                    lemma_value_at(after, i);
                }
            }
        },
        None => {
            entries.push((name, value));
            proof {
                let after = entries@;
                let last = before.len() as int;
                assert(after[last].0@ == name@);
                assert forall|i: int, j: int| 0 <= i < after.len() && 0 <= j < after.len() && i != j
                    implies after[i].0@ != after[j].0@ by {
                    if i == last {
                        assert(after[j] == before[j]);
                    } else if j == last {
                        assert(after[i] == before[i]);
                    } else {
                        assert(after[i] == before[i]);
                        assert(after[j] == before[j]);
                    }
                }
                assert forall|n: Seq<char>| key_set(after).contains(n) <==> key_set(before).insert(name@).contains(n) by {
                    if key_set(after).contains(n) {
                        let i = choose|i: int| 0 <= i < after.len() && after[i].0@ == n;
                        if i != last {
                            assert(before[i] == after[i]);
                        }
                    }
                    if key_set(before).contains(n) {
                        let i = choose|i: int| 0 <= i < before.len() && before[i].0@ == n;
                        assert(after[i] == before[i]);
                    }
                }
                assert(key_set(after) =~= key_set(before).insert(name@));
                lemma_value_at(after, last);
                assert forall|other: Seq<char>| other != name@ && key_set(before).contains(other)
                    implies value_of(after, other) == value_of(before, other) by {
                    let i = choose|i: int| 0 <= i < before.len() && before[i].0@ == other;
                    assert(after[i] == before[i]);
                    lemma_value_at(before, i);
                    lemma_value_at(after, i);
                }
            }
        },
    }
}

/// The values held by a list of named entries.
pub open spec fn entry_map<V>(entries: Seq<(String, V)>) -> Map<Seq<char>, V> {
    Map::new(|name: Seq<char>| key_set(entries).contains(name), |name: Seq<char>| value_of(entries, name))
}

/// The names of a list of named entries, in order.
pub open spec fn entry_names<V>(entries: Seq<(String, V)>) -> Seq<Seq<char>> {
    entries.map_values(|e: (String, V)| e.0@)
}

/// The entries ordered by name.
pub fn sorted_entries<V: Copy>(entries: &Vec<(String, V)>) -> (result: Vec<(String, V)>)
    requires
        unique_keys(entries@),
    ensures
        strictly_sorted(entry_names(result@)),
        unique_keys(result@),
        entry_map(result@) == entry_map(entries@),
{
    let names = sorted_keys(entries);
    let mut result: Vec<(String, V)> = Vec::new();
    let mut index: usize = 0;
    while index < names.len()
        invariant
            index <= names.len(),
            unique_keys(entries@),
            strictly_sorted(texts(names@)),
            texts(names@).to_set() == key_set(entries@),
            result@.len() == index,
            forall|i: int| 0 <= i < index ==> #[trigger] result@[i].0@ == names@[i]@
                && result@[i].1 == value_of(entries@, names@[i]@),
        decreases names.len() - index,
    {
        let name = &names[index];
        proof {
            assert(texts(names@)[index as int] == name@);
            assert(key_set(entries@).contains(name@));
        }
        match find_key(entries, name.as_str()) {
            Some(k) => {
                proof {
                    lemma_value_at(entries@, k as int);
                }
                result.push((name.clone(), entries[k].1));
            },
            None => {
                assert(false);
            },
        }
        index = index + 1;
    }
    proof {
        assert(entry_names(result@) =~= texts(names@)) by {
            assert forall|i: int| 0 <= i < result@.len() implies entry_names(result@)[i] == texts(names@)[i] by {
                assert(result@[i].0@ == names@[i]@);
            }
        }
        assert forall|i: int, j: int| 0 <= i < result@.len() && 0 <= j < result@.len() && i != j
            implies result@[i].0@ != result@[j].0@ by {
            assert(entry_names(result@)[i] == result@[i].0@);
            assert(entry_names(result@)[j] == result@[j].0@);
            if i < j {
                crate::text::lemma_text_lt_irreflexive(result@[i].0@);
            } else {
                crate::text::lemma_text_lt_irreflexive(result@[j].0@);
            }
        }
        assert forall|name: Seq<char>| key_set(result@).contains(name) <==> key_set(entries@).contains(name) by {
            if key_set(result@).contains(name) {
                let i = choose|i: int| 0 <= i < result@.len() && result@[i].0@ == name;
                assert(texts(names@)[i] == name);
                assert(texts(names@).contains(name));
            }
            if key_set(entries@).contains(name) {
                assert(texts(names@).to_set().contains(name));
                let i = choose|i: int| 0 <= i < texts(names@).len() && texts(names@)[i] == name;
                assert(result@[i].0@ == name);
            }
        }
        assert(key_set(result@) =~= key_set(entries@));
        assert forall|name: Seq<char>| key_set(result@).contains(name) implies
            value_of(result@, name) == value_of(entries@, name) by {
            let i = choose|i: int| 0 <= i < result@.len() && result@[i].0@ == name;
            lemma_value_at(result@, i);
        }
        assert(entry_map(result@) =~= entry_map(entries@));
    }
    result
}

} // verus!
