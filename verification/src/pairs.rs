//! Ordered lists of distinct type pairs: the pairs a rule relates, and the
//! first occurrences of pairs over a sequence of rules.
use vstd::prelude::*;

verus! {

/// The pairs `(source, t)` for `t` in `targets`, leaving out `t == source`.
pub open spec fn row(source: usize, targets: Seq<usize>) -> Seq<(usize, usize)>
    decreases targets.len(),
{
    if targets.len() == 0 {
        Seq::empty()
    } else {
        let before = row(source, targets.drop_last());
        if source != targets.last() { before.push((source, targets.last())) } else { before }
    }
}

/// The pairs of distinct types from `sources` to `targets`, sources first.
pub open spec fn product(sources: Seq<usize>, targets: Seq<usize>) -> Seq<(usize, usize)>
    decreases sources.len(),
{
    if sources.len() == 0 {
        Seq::empty()
    } else {
        product(sources.drop_last(), targets) + row(sources.last(), targets)
    }
}

/// `x` appended unless it is already present.
pub open spec fn add_new(acc: Seq<(usize, usize)>, x: (usize, usize)) -> Seq<(usize, usize)> {
    if acc.contains(x) { acc } else { acc.push(x) }
}

/// `acc` followed by the pairs of `items` it does not yet hold, each once,
/// in order of first occurrence.
pub open spec fn extend_new(acc: Seq<(usize, usize)>, items: Seq<(usize, usize)>) -> Seq<(usize, usize)>
    decreases items.len(),
{
    if items.len() == 0 {
        acc
    } else {
        add_new(extend_new(acc, items.drop_last()), items.last())
    }
}

/// Extending by two pieces is extending by their concatenation.
pub proof fn lemma_extend_concat(acc: Seq<(usize, usize)>, a: Seq<(usize, usize)>, b: Seq<(usize, usize)>)
    ensures
        extend_new(acc, a + b) == extend_new(extend_new(acc, a), b),
    decreases b.len(),
{
    if b.len() == 0 {
        assert(a + b =~= a);
    } else {
        assert((a + b).drop_last() =~= a + b.drop_last());
        assert((a + b).last() == b.last());
        lemma_extend_concat(acc, a, b.drop_last());
    }
}

/// Extending keeps the pairs of `acc` distinct and holds exactly the pairs
/// of `acc` and `items`.
pub proof fn lemma_extend_members(acc: Seq<(usize, usize)>, items: Seq<(usize, usize)>)
    requires
        acc.no_duplicates(),
    ensures
        extend_new(acc, items).no_duplicates(),
        forall|x: (usize, usize)| extend_new(acc, items).contains(x) <==> (acc.contains(x) || items.contains(x)),
    decreases items.len(),
{
    if items.len() > 0 {
        let before = extend_new(acc, items.drop_last());
        lemma_extend_members(acc, items.drop_last());
        assert forall|x: (usize, usize)| extend_new(acc, items).contains(x) <==> (acc.contains(x) || items.contains(x)) by {
            assert(items =~= items.drop_last().push(items.last()));
            assert(items.contains(x) <==> (items.drop_last().contains(x) || x == items.last())) by {
                if items.contains(x) {
                    let k = choose|k: int| 0 <= k < items.len() && items[k] == x;
                    if k < items.len() - 1 {
                        assert(items.drop_last()[k] == x);
                    }
                }
                if items.drop_last().contains(x) {
                    let k = choose|k: int| 0 <= k < items.drop_last().len() && items.drop_last()[k] == x;
                    assert(items[k] == x);
                }
                if x == items.last() {
                    assert(items[items.len() - 1] == x);
                }
            }
            assert(before.push(items.last()).contains(x) <==> (before.contains(x) || x == items.last())) by {
                let pushed = before.push(items.last());
                if pushed.contains(x) {
                    let k = choose|k: int| 0 <= k < pushed.len() && pushed[k] == x;
                    if k < before.len() {
                        assert(before[k] == x);
                    }
                }
                if before.contains(x) {
                    let k = choose|k: int| 0 <= k < before.len() && before[k] == x;
                    assert(pushed[k] == x);
                }
                if x == items.last() {
                    assert(pushed[before.len() as int] == x);
                }
            }
        }
        if !before.contains(items.last()) {
            assert forall|i: int, j: int| 0 <= i < j < before.len() + 1 implies
                before.push(items.last())[i] != before.push(items.last())[j] by {
                if j == before.len() {
                    assert(before[i] != items.last());
                }
            }
        }
    }
}

/// Whether a list holds a pair.
pub fn contains_pair(pairs: &Vec<(usize, usize)>, x: (usize, usize)) -> (result: bool)
    ensures
        result == pairs@.contains(x),
{
    let mut index: usize = 0;
    while index < pairs.len()
        invariant
            index <= pairs.len(),
            forall|k: int| 0 <= k < index ==> pairs@[k] != x,
        decreases pairs.len() - index,
    {
        if pairs[index].0 == x.0 && pairs[index].1 == x.1 {
            assert(pairs@[index as int] == x);
            return true;
        }
        index = index + 1;
    }
    false
}

/// Appends a pair unless it is already present.
pub fn push_new(pairs: &mut Vec<(usize, usize)>, x: (usize, usize))
    ensures
        final(pairs)@ == add_new(old(pairs)@, x),
{
    if !contains_pair(pairs, x) {
        pairs.push(x);
    }
}

/// Appends the pairs from `source` to each of `targets`, as `extend_new`.
pub fn push_row(pairs: &mut Vec<(usize, usize)>, source: usize, targets: &Vec<usize>)
    ensures
        final(pairs)@ == extend_new(old(pairs)@, row(source, targets@)),
{
    let ghost start = pairs@;
    let mut index: usize = 0;
    assert(targets@.take(0) =~= Seq::<usize>::empty());
    while index < targets.len()
        invariant
            index <= targets.len(),
            pairs@ == extend_new(start, row(source, targets@.take(index as int))),
        decreases targets.len() - index,
    {
        let t = targets[index];
        let ghost before = row(source, targets@.take(index as int));
        proof {
            let next = targets@.take(index + 1);
            assert(next.drop_last() =~= targets@.take(index as int));
            assert(next.last() == t);
            if source != t {
                assert(row(source, next) == before.push((source, t)));
                assert(before.push((source, t)).drop_last() =~= before);
            }
        }
        if source != t {
            push_new(pairs, (source, t));
        }
        index = index + 1;
    }
    assert(targets@.take(targets.len() as int) =~= targets@);
}

/// Appends the pairs from each of `sources` to each of `targets`, as
/// `extend_new`.
pub fn push_product(pairs: &mut Vec<(usize, usize)>, sources: &Vec<usize>, targets: &Vec<usize>)
    ensures
        final(pairs)@ == extend_new(old(pairs)@, product(sources@, targets@)),
{
    let ghost start = pairs@;
    let mut index: usize = 0;
    assert(sources@.take(0) =~= Seq::<usize>::empty());
    while index < sources.len()
        invariant
            index <= sources.len(),
            pairs@ == extend_new(start, product(sources@.take(index as int), targets@)),
        decreases sources.len() - index,
    {
        proof {
            let next = sources@.take(index + 1);
            assert(next.drop_last() =~= sources@.take(index as int));
            assert(next.last() == sources@[index as int]);
            lemma_extend_concat(start, product(sources@.take(index as int), targets@), row(sources@[index as int], targets@));
        }
        push_row(pairs, sources[index], targets);
        index = index + 1;
    }
    assert(sources@.take(sources.len() as int) =~= sources@);
}

/// The types that occur in a list of pairs.
pub open spec fn endpoints(pairs: Seq<(usize, usize)>) -> Set<usize> {
    Set::new(|x: usize| exists|i: int| 0 <= i < pairs.len() && (pairs[i].0 == x || pairs[i].1 == x))
}

/// Whether a list of types holds a type.
pub fn contains_type(types: &Vec<usize>, x: usize) -> (result: bool)
    ensures
        result == types@.contains(x),
{
    let mut index: usize = 0;
    while index < types.len()
        invariant
            index <= types.len(),
            forall|k: int| 0 <= k < index ==> types@[k] != x,
        decreases types.len() - index,
    {
        if types[index] == x {
            assert(types@[index as int] == x);
            return true;
        }
        index = index + 1;
    }
    false
}

/// The distinct types occurring in a list of pairs.
pub fn endpoint_list(pairs: &Vec<(usize, usize)>) -> (result: Vec<usize>)
    ensures
        result@.no_duplicates(),
        result@.to_set() == endpoints(pairs@),
{
    let mut result: Vec<usize> = Vec::new();
    let mut index: usize = 0;
    while index < pairs.len()
        invariant
            index <= pairs.len(),
            result@.no_duplicates(),
            forall|x: usize| result@.contains(x) <==> endpoints(pairs@.take(index as int)).contains(x),
        decreases pairs.len() - index,
    {
        let (s, t) = pairs[index];
        let ghost before = result@;
        if !contains_type(&result, s) {
            result.push(s);
        }
        let ghost middle = result@;
        if !contains_type(&result, t) {
            result.push(t);
        }
        proof {
            let next = pairs@.take(index + 1);
            assert forall|x: usize| result@.contains(x) <==> endpoints(next).contains(x) by {
                if endpoints(next).contains(x) {
                    let i = choose|i: int| 0 <= i < next.len() && (next[i].0 == x || next[i].1 == x);
                    if i < index {
                        let prior = pairs@.take(index as int);
                        assert(prior[i] == next[i]);
                        assert(0 <= i < prior.len() && (prior[i].0 == x || prior[i].1 == x));
                        assert(endpoints(prior).contains(x));
                        assert(before.contains(x));
                        let k = choose|k: int| 0 <= k < before.len() && before[k] == x;
                        assert(middle[k] == x);
                        assert(result@[k] == x);
                    } else {
                        if x == s {
                            if !before.contains(x) {
                                assert(middle[before.len() as int] == x);
                            } else {
                                let k = choose|k: int| 0 <= k < before.len() && before[k] == x;
                                assert(middle[k] == x);
                            }
                            let k = choose|k: int| 0 <= k < middle.len() && middle[k] == x;
                            assert(result@[k] == x);
                        } else {
                            if !middle.contains(x) {
                                assert(result@[middle.len() as int] == x);
                            }
                        }
                    }
                }
                if result@.contains(x) {
                    let k = choose|k: int| 0 <= k < result@.len() && result@[k] == x;
                    if k < before.len() {
                        assert(before[k] == x);
                        assert(before.contains(x));
                        assert(endpoints(pairs@.take(index as int)).contains(x));
                        let i = choose|i: int| 0 <= i < index && (pairs@.take(index as int)[i].0 == x || pairs@.take(index as int)[i].1 == x);
                        assert(next[i] == pairs@.take(index as int)[i]);
                    } else {
                        assert(next[index as int] == (s, t));
                        if k < middle.len() {
                            assert(middle[k] == x);
                        }
                    }
                }
            }
            assert forall|i: int, j: int| 0 <= i < j < result@.len() implies result@[i] != result@[j] by {
                if j < before.len() {
                    assert(before[i] != before[j]);
                } else if j < middle.len() {
                    assert(middle[j] == s);
                    assert(!before.contains(s));
                    assert(middle[i] == before[i]);
                } else {
                    assert(result@[j] == t);
                    assert(!middle.contains(t));
                    assert(result@[i] == middle[i]);
                    if i < before.len() {
                        assert(middle[i] == before[i]);
                    }
                }
            }
        }
        index = index + 1;
    }
    assert(pairs@.take(pairs.len() as int) =~= pairs@);
    assert(result@.to_set() =~= endpoints(pairs@));
    result
}

} // verus!
