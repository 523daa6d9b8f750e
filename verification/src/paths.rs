//! Path enumeration over a directed graph given as a list of distinct
//! `(source, target)` edges, read forwards or in reverse.
use vstd::prelude::*;

verus! {

/// The edge from `u` to `v` exists when the edges are read in the given
/// direction.
pub open spec fn arc(edges: Seq<(usize, usize)>, reverse: bool, u: usize, v: usize) -> bool {
    exists|i: int| 0 <= i < edges.len() && #[trigger] oriented(edges[i], reverse) == (u, v)
}

/// An edge read in the given direction.
pub open spec fn oriented(edge: (usize, usize), reverse: bool) -> (usize, usize) {
    if reverse { (edge.1, edge.0) } else { edge }
}

/// No edge occurs twice.
pub open spec fn distinct_edges(edges: Seq<(usize, usize)>) -> bool {
    forall|i: int, j: int| 0 <= i < j < edges.len() ==> edges[i] != edges[j]
}

/// Each consecutive pair of nodes is joined by an edge.
pub open spec fn is_walk(edges: Seq<(usize, usize)>, reverse: bool, path: Seq<usize>) -> bool {
    &&& path.len() >= 1
    &&& forall|i: int| 0 <= i < path.len() - 1 ==> arc(edges, reverse, #[trigger] path[i], path[i + 1])
}

/// A walk from `source` to `target` that visits no node twice and has at
/// most `depth` edges.
pub open spec fn bounded_simple_path(
    edges: Seq<(usize, usize)>,
    reverse: bool,
    source: usize,
    target: usize,
    depth: nat,
    path: Seq<usize>,
) -> bool {
    &&& is_walk(edges, reverse, path)
    &&& path.no_duplicates()
    &&& path[0] == source
    &&& path.last() == target
    &&& path.len() <= depth + 1
}

/// The nodes adjacent to `node`, in edge order.
pub open spec fn neighbor_seq(edges: Seq<(usize, usize)>, reverse: bool, node: usize) -> Seq<usize>
    decreases edges.len(),
{
    if edges.len() == 0 {
        Seq::empty()
    } else {
        let rest = neighbor_seq(edges.drop_last(), reverse, node);
        let e = oriented(edges.last(), reverse);
        if e.0 == node { rest.push(e.1) } else { rest }
    }
}

proof fn lemma_neighbor_seq_members(edges: Seq<(usize, usize)>, reverse: bool, node: usize, v: usize)
    ensures
        neighbor_seq(edges, reverse, node).contains(v) <==> arc(edges, reverse, node, v),
    decreases edges.len(),
{
    if edges.len() > 0 {
        let init = edges.drop_last();
        lemma_neighbor_seq_members(init, reverse, node, v);
        let rest = neighbor_seq(init, reverse, node);
        let e = oriented(edges.last(), reverse);
        let full = neighbor_seq(edges, reverse, node);
        assert(e.0 == node ==> full == rest.push(e.1));
        assert(e.0 != node ==> full == rest);
        if arc(edges, reverse, node, v) {
            let i = choose|i: int| 0 <= i < edges.len() && #[trigger] oriented(edges[i], reverse) == (node, v);
            if i < edges.len() - 1 {
                assert(oriented(init[i], reverse) == (node, v));
                assert(rest.contains(v));
                let k = choose|k: int| 0 <= k < rest.len() && rest[k] == v;
                assert(full[k] == v);
            } else {
                assert(e == (node, v));
                assert(full[rest.len() as int] == v);
            }
        }
        if neighbor_seq(edges, reverse, node).contains(v) {
            if e.0 == node && e.1 == v {
                assert(oriented(edges[edges.len() - 1], reverse) == (node, v));
            } else {
                if e.0 == node {
                    let k = choose|k: int| 0 <= k < rest.push(e.1).len() && rest.push(e.1)[k] == v;
                    assert(rest[k] == v);
                }
                assert(rest.contains(v));
                let i = choose|i: int| 0 <= i < init.len() && #[trigger] oriented(init[i], reverse) == (node, v);
                assert(oriented(edges[i], reverse) == (node, v));
            }
        }
    }
}

proof fn lemma_neighbor_seq_distinct(edges: Seq<(usize, usize)>, reverse: bool, node: usize)
    requires
        distinct_edges(edges),
    ensures
        neighbor_seq(edges, reverse, node).no_duplicates(),
    decreases edges.len(),
{
    if edges.len() > 0 {
        let init = edges.drop_last();
        assert(distinct_edges(init));
        lemma_neighbor_seq_distinct(init, reverse, node);
        let rest = neighbor_seq(init, reverse, node);
        let e = oriented(edges.last(), reverse);
        if e.0 == node {
            lemma_neighbor_seq_members(init, reverse, node, e.1);
            if rest.contains(e.1) {
                let i = choose|i: int| 0 <= i < init.len() && #[trigger] oriented(init[i], reverse) == (node, e.1);
                assert(edges[i] == edges[edges.len() - 1]);
            }
            let all = rest.push(e.1);
            assert forall|a: int, b: int| 0 <= a < all.len() && 0 <= b < all.len() && a != b
                implies all[a] != all[b] by {
                if a == rest.len() {
                    assert(rest.contains(all[b]));
                } else if b == rest.len() {
                    assert(rest.contains(all[a]));
                }
            }
        }
    }
}

/// Returns the nodes adjacent to `node`, in edge order.
pub fn neighbors(edges: &Vec<(usize, usize)>, node: usize, reverse: bool) -> (result: Vec<usize>)
    ensures
        result@ == neighbor_seq(edges@, reverse, node),
        forall|v: usize| result@.contains(v) <==> arc(edges@, reverse, node, v),
        distinct_edges(edges@) ==> result@.no_duplicates(),
{
    let mut result: Vec<usize> = Vec::new();
    let mut index: usize = 0;
    while index < edges.len()
        invariant
            index <= edges.len(),
            result@ == neighbor_seq(edges@.take(index as int), reverse, node),
        decreases edges.len() - index,
    {
        let (a, b) = edges[index];
        let (s, t) = if reverse { (b, a) } else { (a, b) };
        assert(edges@.take(index + 1).drop_last() =~= edges@.take(index as int));
        if s == node {
            result.push(t);
        }
        index = index + 1;
    }
    assert(edges@.take(edges.len() as int) =~= edges@);
    proof {
        assert forall|v: usize| result@.contains(v) <==> arc(edges@, reverse, node, v) by {
            lemma_neighbor_seq_members(edges@, reverse, node, v);
        }
        if distinct_edges(edges@) {
            lemma_neighbor_seq_distinct(edges@, reverse, node);
        }
    }
    result
}

/// The node lists held by a list of paths.
pub open spec fn path_views(paths: Seq<Vec<usize>>) -> Seq<Seq<usize>> {
    paths.map_values(|path: Vec<usize>| path@)
}

/// `path` continues `prefix`.
pub open spec fn extends(prefix: Seq<usize>, path: Seq<usize>) -> bool {
    path.len() >= prefix.len() && path.take(prefix.len() as int) == prefix
}

/// A bounded simple path to `target` that continues the partial path `prefix`.
pub open spec fn completes(
    edges: Seq<(usize, usize)>,
    reverse: bool,
    target: usize,
    depth: nat,
    prefix: Seq<usize>,
    path: Seq<usize>,
) -> bool {
    &&& extends(prefix, path)
    &&& bounded_simple_path(edges, reverse, prefix[0], target, depth, path)
}

/// Whether a node occurs in a node list.
pub fn contains_node(nodes: &Vec<usize>, node: usize) -> (result: bool)
    ensures
        result == nodes@.contains(node),
{
    let mut index: usize = 0;
    while index < nodes.len()
        invariant
            index <= nodes.len(),
            forall|k: int| 0 <= k < index ==> nodes@[k] != node,
        decreases nodes.len() - index,
    {
        if nodes[index] == node {
            return true;
        }
        index = index + 1;
    }
    false
}

/// Copies a node list.
pub fn copy_nodes(nodes: &Vec<usize>) -> (result: Vec<usize>)
    ensures
        result@ == nodes@,
{
    let mut result: Vec<usize> = Vec::new();
    let mut index: usize = 0;
    while index < nodes.len()
        invariant
            index <= nodes.len(),
            result@ == nodes@.take(index as int),
        decreases nodes.len() - index,
    {
        result.push(nodes[index]);
        index = index + 1;
        assert(result@ =~= nodes@.take(index as int));
    }
    assert(nodes@.take(nodes.len() as int) =~= nodes@);
    result
}

proof fn lemma_extends_push(prefix: Seq<usize>, path: Seq<usize>)
    requires
        extends(prefix, path),
        path.len() > prefix.len(),
    ensures
        extends(prefix.push(path[prefix.len() as int]), path),
{
    assert(path.take(prefix.len() + 1int) =~= prefix.push(path[prefix.len() as int]));
}

fn collect_all_paths(
    edges: &Vec<(usize, usize)>,
    target: usize,
    depth: usize,
    reverse: bool,
    current: &mut Vec<usize>,
    output: &mut Vec<Vec<usize>>,
)
    requires
        distinct_edges(edges@),
        is_walk(edges@, reverse, old(current)@),
        old(current)@.no_duplicates(),
        old(current)@.len() <= depth + 1,
        forall|k: int| 0 <= k < old(current)@.len() - 1 ==> old(current)@[k] != target,
    ensures
        final(current)@ == old(current)@,
        final(output)@.len() >= old(output)@.len(),
        path_views(final(output)@).take(old(output)@.len() as int) == path_views(old(output)@),
        path_views(final(output)@).skip(old(output)@.len() as int).no_duplicates(),
        forall|path: Seq<usize>|
            path_views(final(output)@).skip(old(output)@.len() as int).contains(path) <==> completes(
                edges@,
                reverse,
                target,
                depth as nat,
                old(current)@,
                path,
            ),
    decreases depth + 1 - old(current)@.len(),
{
    let ghost start = current@;
    let ghost base = path_views(output@);
    let node = current[current.len() - 1];
    if node == target {
        let found = copy_nodes(current);
        output.push(found);
        proof {
            let part = path_views(output@).skip(base.len() as int);
            assert(part =~= seq![start]);
            assert(path_views(output@).take(base.len() as int) =~= base);
            assert forall|path: Seq<usize>| part.contains(path) <==> completes(
                edges@, reverse, target, depth as nat, start, path) by {
                if part.contains(path) {
                    assert(part[0] == path);
                    assert(start.take(start.len() as int) =~= start);
                }
                if completes(edges@, reverse, target, depth as nat, start, path) {
                    if path.len() > start.len() {
                        assert(path[start.len() - 1] == start[start.len() - 1]);
                        assert(path[path.len() - 1] == target);
                    }
                    assert(path =~= start);
                    assert(part[0] == path);
                }
            }
        }
        return;
    }
    if current.len() - 1 == depth {
        proof {
            let part = path_views(output@).skip(base.len() as int);
            assert(part =~= Seq::<Seq<usize>>::empty());
            assert(path_views(output@).take(base.len() as int) =~= base);
            assert forall|path: Seq<usize>| !completes(edges@, reverse, target, depth as nat, start, path) by {
                if completes(edges@, reverse, target, depth as nat, start, path) {
                    assert(path.len() == start.len());
                    assert(path =~= start);
                }
            }
        }
        return;
    }
    let next = neighbors(edges, node, reverse);
    let mut index: usize = 0;
    while index < next.len()
        invariant
            distinct_edges(edges@),
            is_walk(edges@, reverse, start),
            start.no_duplicates(),
            start.len() <= depth,
            start.len() >= 1,
            node == start.last(),
            node != target,
            forall|k: int| 0 <= k < start.len() - 1 ==> start[k] != target,
            current@ == start,
            start == old(current)@,
            output@.len() >= base.len(),
            next@.no_duplicates(),
            forall|v: usize| next@.contains(v) <==> arc(edges@, reverse, node, v),
            index <= next.len(),
            path_views(output@).take(base.len() as int) == base,
            path_views(output@).len() >= base.len(),
            path_views(output@).skip(base.len() as int).no_duplicates(),
            forall|path: Seq<usize>| path_views(output@).skip(base.len() as int).contains(path) ==> {
                &&& completes(edges@, reverse, target, depth as nat, start, path)
                &&& path.len() > start.len()
                &&& next@.take(index as int).contains(path[start.len() as int])
            },
            forall|path: Seq<usize>| completes(edges@, reverse, target, depth as nat, start, path)
                && path.len() > start.len() && next@.take(index as int).contains(path[start.len() as int])
                ==> path_views(output@).skip(base.len() as int).contains(path),
        decreases next.len() - index,
    {
        let candidate = next[index];
        let ghost before = path_views(output@);
        if !contains_node(current, candidate) {
            current.push(candidate);
            proof {
                let c = current@;
                assert(c.len() == start.len() + 1);
                assert(next@.contains(candidate));
                assert forall|i: int| 0 <= i < c.len() - 1 implies arc(edges@, reverse, #[trigger] c[i], c[i + 1]) by {
                    if i < start.len() - 1 {
                        assert(c[i] == start[i] && c[i + 1] == start[i + 1]);
                    } else {
                        assert(c[i] == node && c[i + 1] == candidate);
                    }
                }
                assert forall|a: int, b: int| 0 <= a < c.len() && 0 <= b < c.len() && a != b
                    implies c[a] != c[b] by {
                    if a == start.len() {
                        assert(start.contains(c[b]));
                    } else if b == start.len() {
                        assert(start.contains(c[a]));
                    }
                }
                assert(c[0] == start[0]);
            }
            assert(depth + 1 - current@.len() < depth + 1 - start.len());
            collect_all_paths(edges, target, depth, reverse, current, output);
            current.pop();
            proof {
                assert(current@ =~= start);
            }
        }
        proof {
            let after = path_views(output@);
            let old_part = before.skip(base.len() as int);
            let part = after.skip(base.len() as int);
            let ext = start.push(candidate);
            let new_part = after.skip(before.len() as int);
            assert(after.take(before.len() as int) == before);
            assert(after.len() >= before.len());
            assert(after.take(base.len() as int) =~= after.take(before.len() as int).take(base.len() as int));
            assert(after.take(base.len() as int) =~= before.take(base.len() as int));
            assert(part =~= old_part + new_part);
            assert(next@.take(index + 1) =~= next@.take(index as int).push(candidate));
            // new paths all continue `ext`
            assert forall|path: Seq<usize>| new_part.contains(path) implies {
                &&& completes(edges@, reverse, target, depth as nat, start, path)
                &&& path.len() > start.len()
                &&& path[start.len() as int] == candidate
            } by {
                if new_part.contains(path) {
                    assert(!start.contains(candidate));
                    assert(completes(edges@, reverse, target, depth as nat, ext, path));
                    assert(path.take(ext.len() as int) == ext);
                    assert(path[start.len() as int] == path.take(ext.len() as int)[start.len() as int]);
                    assert(path.take(start.len() as int) =~= path.take(ext.len() as int).take(start.len() as int));
                    assert(ext[0] == start[0]);
                }
            }
            assert forall|a: int, b: int| 0 <= a < part.len() && 0 <= b < part.len() && a != b
                implies part[a] != part[b] by {
                if a < old_part.len() && b >= old_part.len() {
                    assert(old_part.contains(part[a]));
                    assert(new_part.contains(part[b]));
                    assert(!next@.take(index as int).contains(candidate)) by {
                        if next@.take(index as int).contains(candidate) {
                            let k = choose|k: int| 0 <= k < index && next@.take(index as int)[k] == candidate;
                            assert(next@[k] == next@[index as int]);
                        }
                    }
                } else if b < old_part.len() && a >= old_part.len() {
                    assert(old_part.contains(part[b]));
                    assert(new_part.contains(part[a]));
                    assert(!next@.take(index as int).contains(candidate)) by {
                        if next@.take(index as int).contains(candidate) {
                            let k = choose|k: int| 0 <= k < index && next@.take(index as int)[k] == candidate;
                            assert(next@[k] == next@[index as int]);
                        }
                    }
                } else if a < old_part.len() && b < old_part.len() {
                    assert(part[a] == old_part[a] && part[b] == old_part[b]);
                } else {
                    assert(part[a] == new_part[a - old_part.len()] && part[b] == new_part[b - old_part.len()]);
                }
            }
            assert forall|path: Seq<usize>| part.contains(path) implies {
                &&& completes(edges@, reverse, target, depth as nat, start, path)
                &&& path.len() > start.len()
                &&& next@.take(index + 1).contains(path[start.len() as int])
            } by {
                let k = choose|k: int| 0 <= k < part.len() && part[k] == path;
                if k < old_part.len() {
                    assert(old_part.contains(path));
                    let t0 = next@.take(index as int);
                    assert(completes(edges@, reverse, target, depth as nat, start, path));
                    assert(t0.contains(path[start.len() as int]));
                    let j = choose|j: int| 0 <= j < t0.len() && t0[j] == path[start.len() as int];
                    assert(next@.take(index + 1)[j] == path[start.len() as int]);
                } else {
                    assert(new_part.contains(path));
                    assert(next@.take(index + 1)[index as int] == candidate);
                }
            }
            assert forall|path: Seq<usize>| completes(edges@, reverse, target, depth as nat, start, path)
                && path.len() > start.len() && next@.take(index + 1).contains(path[start.len() as int])
                implies part.contains(path) by {
                let t1 = next@.take(index + 1);
                let j = choose|j: int| 0 <= j < t1.len() && t1[j] == path[start.len() as int];
                if j < index {
                    assert(next@.take(index as int)[j] == path[start.len() as int]);
                    assert(old_part.contains(path));
                    let k = choose|k: int| 0 <= k < old_part.len() && old_part[k] == path;
                    assert(part[k] == path);
                } else {
                    assert(path[start.len() as int] == candidate);
                    assert(path.take(start.len() as int) == start);
                    assert(path.no_duplicates());
                    assert(!start.contains(candidate)) by {
                        if start.contains(candidate) {
                            let q = choose|q: int| 0 <= q < start.len() && start[q] == candidate;
                            assert(path[q] == path.take(start.len() as int)[q]);
                        }
                    }
                    lemma_extends_push(start, path);
                    assert(completes(edges@, reverse, target, depth as nat, ext, path)) by {
                        assert(ext[0] == start[0]);
                    }
                    assert(new_part.contains(path));
                    let k = choose|k: int| 0 <= k < new_part.len() && new_part[k] == path;
                    assert(part[old_part.len() + k] == path);
                }
            }
        }
        index = index + 1;
    }
    proof {
        let part = path_views(output@).skip(base.len() as int);
        assert(next@.take(next.len() as int) =~= next@);
        assert forall|path: Seq<usize>| completes(edges@, reverse, target, depth as nat, start, path)
            implies part.contains(path) by {
            if path.len() == start.len() {
                assert(path =~= start);
                assert(start.last() == target);
            }
            assert(path.len() > start.len());
            assert(path[start.len() - 1] == path.take(start.len() as int)[start.len() - 1]);
            assert(arc(edges@, reverse, path[start.len() - 1], path[start.len() as int]));
            assert(next@.contains(path[start.len() as int]));
        }
    }
}

/// Every simple path of at most `depth` edges from `source` to `target`.
pub fn all_node_paths(
    edges: &Vec<(usize, usize)>,
    source: usize,
    target: usize,
    depth: usize,
    reverse: bool,
) -> (result: Vec<Vec<usize>>)
    requires
        distinct_edges(edges@),
    ensures
        path_views(result@).no_duplicates(),
        forall|path: Seq<usize>|
            path_views(result@).contains(path) <==> bounded_simple_path(
                edges@,
                reverse,
                source,
                target,
                depth as nat,
                path,
            ),
{
    let mut output: Vec<Vec<usize>> = Vec::new();
    let mut current: Vec<usize> = Vec::new();
    current.push(source);
    assert(current@ =~= seq![source]);
    collect_all_paths(edges, target, depth, reverse, &mut current, &mut output);
    proof {
        assert(path_views(output@).skip(0) =~= path_views(output@));
        let start = seq![source];
        assert(start[0] == source);
        assert forall|path: Seq<usize>| path_views(output@).contains(path) <==> bounded_simple_path(
            edges@, reverse, source, target, depth as nat, path) by {
            if bounded_simple_path(edges@, reverse, source, target, depth as nat, path) {
                assert(path.take(1) =~= start);
                assert(completes(edges@, reverse, target, depth as nat, start, path));
            }
            if path_views(output@).contains(path) {
                assert(path_views(output@).skip(0).contains(path));
                assert(completes(edges@, reverse, target, depth as nat, start, path));
            }
        }
    }
    output
}

/// `path` is a walk from `source` to `node`.
pub open spec fn walk_ends(
    edges: Seq<(usize, usize)>,
    reverse: bool,
    source: usize,
    node: usize,
    path: Seq<usize>,
) -> bool {
    &&& is_walk(edges, reverse, path)
    &&& path[0] == source
    &&& path.last() == node
}

/// Some walk of `length` edges leads from `source` to `node`.
pub open spec fn walk_of_len(
    edges: Seq<(usize, usize)>,
    reverse: bool,
    source: usize,
    node: usize,
    length: int,
) -> bool {
    exists|path: Seq<usize>| #[trigger] walk_ends(edges, reverse, source, node, path) && path.len() == length + 1
}

/// The fewest edges on any walk from `source` to `node` is `distance`.
pub open spec fn at_distance(
    edges: Seq<(usize, usize)>,
    reverse: bool,
    source: usize,
    node: usize,
    distance: int,
) -> bool {
    &&& distance >= 0
    &&& walk_of_len(edges, reverse, source, node, distance)
    &&& forall|n: int| 0 <= n < distance ==> !#[trigger] walk_of_len(edges, reverse, source, node, n)
}

/// A walk from `source` to `node` with as few edges as any such walk.
pub open spec fn shortest_walk(
    edges: Seq<(usize, usize)>,
    reverse: bool,
    source: usize,
    node: usize,
    path: Seq<usize>,
) -> bool {
    &&& walk_ends(edges, reverse, source, node, path)
    &&& at_distance(edges, reverse, source, node, path.len() - 1)
}

proof fn lemma_distance_unique(
    edges: Seq<(usize, usize)>,
    reverse: bool,
    source: usize,
    node: usize,
    a: int,
    b: int,
)
    requires
        at_distance(edges, reverse, source, node, a),
        at_distance(edges, reverse, source, node, b),
    ensures
        a == b,
{
    if a < b {
        assert(walk_of_len(edges, reverse, source, node, a));
    } else if b < a {
        assert(walk_of_len(edges, reverse, source, node, b));
    }
}

proof fn lemma_walk_extend(
    edges: Seq<(usize, usize)>,
    reverse: bool,
    source: usize,
    u: usize,
    v: usize,
    n: int,
)
    requires
        walk_of_len(edges, reverse, source, u, n),
        arc(edges, reverse, u, v),
    ensures
        walk_of_len(edges, reverse, source, v, n + 1),
{
    let p = choose|p: Seq<usize>| #[trigger] walk_ends(edges, reverse, source, u, p) && p.len() == n + 1;
    let q = p.push(v);
    assert forall|i: int| 0 <= i < q.len() - 1 implies arc(edges, reverse, #[trigger] q[i], q[i + 1]) by {
        if i < p.len() - 1 {
            assert(q[i] == p[i] && q[i + 1] == p[i + 1]);
        }
    }
    assert(walk_ends(edges, reverse, source, v, q));
}

proof fn lemma_walk_truncate(
    edges: Seq<(usize, usize)>,
    reverse: bool,
    source: usize,
    path: Seq<usize>,
)
    requires
        is_walk(edges, reverse, path),
        path[0] == source,
        path.len() >= 2,
    ensures
        walk_ends(edges, reverse, source, path[path.len() - 2], path.drop_last()),
        arc(edges, reverse, path[path.len() - 2], path.last()),
{
    let q = path.drop_last();
    assert forall|i: int| 0 <= i < q.len() - 1 implies arc(edges, reverse, #[trigger] q[i], q[i + 1]) by {
        assert(q[i] == path[i] && q[i + 1] == path[i + 1]);
    }
    assert(path[path.len() - 2] == path[path.len() - 2]);
}

/// The source and every edge end point.
pub open spec fn node_universe(edges: Seq<(usize, usize)>, source: usize) -> Set<usize> {
    (seq![source] + edges.map_values(|e: (usize, usize)| e.0) + edges.map_values(|e: (usize, usize)| e.1)).to_set()
}

proof fn lemma_arc_in_universe(edges: Seq<(usize, usize)>, reverse: bool, source: usize, u: usize, v: usize)
    requires
        arc(edges, reverse, u, v),
    ensures
        node_universe(edges, source).contains(v),
{
    let i = choose|i: int| 0 <= i < edges.len() && #[trigger] oriented(edges[i], reverse) == (u, v);
    let a = edges.map_values(|e: (usize, usize)| e.0);
    let b = edges.map_values(|e: (usize, usize)| e.1);
    let all = seq![source] + a + b;
    if reverse {
        assert(all[1 + i] == v);
    } else {
        assert(all[1 + a.len() + i] == v);
    }
}

/// Breadth-first distances from `source`: for each node reached, its
/// distance and every predecessor one step closer to the source.
pub struct DistanceTable {
    pub nodes: Vec<usize>,
    pub distances: Vec<usize>,
    pub predecessors: Vec<Vec<usize>>,
}

/// `table` lists each node reachable from `source` once, with its distance
/// and exactly the neighbours one step closer to the source.
pub open spec fn complete_table(
    edges: Seq<(usize, usize)>,
    reverse: bool,
    source: usize,
    table: DistanceTable,
) -> bool {
    &&& table.nodes@.len() == table.distances@.len()
    &&& table.nodes@.len() == table.predecessors@.len()
    &&& table.nodes@.no_duplicates()
    &&& forall|k: int| 0 <= k < table.nodes@.len() ==> at_distance(
        edges,
        reverse,
        source,
        #[trigger] table.nodes@[k],
        table.distances@[k] as int,
    )
    &&& forall|v: usize, n: int| #[trigger] walk_of_len(edges, reverse, source, v, n) ==> table.nodes@.contains(v)
    &&& forall|k: int| 0 <= k < table.nodes@.len() ==> (#[trigger] table.predecessors@[k])@.no_duplicates()
    &&& forall|k: int, u: usize| 0 <= k < table.nodes@.len() ==> (#[trigger] table.predecessors@[k]@.contains(u) <==> (
        arc(edges, reverse, u, table.nodes@[k]) && at_distance(
            edges,
            reverse,
            source,
            u,
            table.distances@[k] - 1,
        )))
}

/// Finds the position of a node in a node list.
pub fn position_of(nodes: &Vec<usize>, node: usize) -> (result: Option<usize>)
    ensures
        match result {
            Some(i) => i < nodes.len() && nodes@[i as int] == node,
            None => !nodes@.contains(node),
        },
{
    let mut index: usize = 0;
    while index < nodes.len()
        invariant
            index <= nodes.len(),
            forall|k: int| 0 <= k < index ==> nodes@[k] != node,
        decreases nodes.len() - index,
    {
        if nodes[index] == node {
            return Some(index);
        }
        index = index + 1;
    }
    None
}

proof fn lemma_least_distance(
    edges: Seq<(usize, usize)>,
    reverse: bool,
    source: usize,
    node: usize,
    n: int,
)
    requires
        n >= 0,
        walk_of_len(edges, reverse, source, node, n),
    ensures
        exists|d: int| 0 <= d <= n && at_distance(edges, reverse, source, node, d),
    decreases n,
{
    if exists|m: int| 0 <= m < n && #[trigger] walk_of_len(edges, reverse, source, node, m) {
        let m = choose|m: int| 0 <= m < n && #[trigger] walk_of_len(edges, reverse, source, node, m);
        lemma_least_distance(edges, reverse, source, node, m);
        let d = choose|d: int| 0 <= d <= m && at_distance(edges, reverse, source, node, d);
        assert(0 <= d <= n && at_distance(edges, reverse, source, node, d));
    } else {
        assert(at_distance(edges, reverse, source, node, n));
    }
}

/// Joins a walk ending at a node with a walk starting there.
proof fn lemma_walk_join(
    edges: Seq<(usize, usize)>,
    reverse: bool,
    first: Seq<usize>,
    second: Seq<usize>,
)
    requires
        is_walk(edges, reverse, first),
        is_walk(edges, reverse, second),
        first.last() == second[0],
    ensures
        is_walk(edges, reverse, first + second.drop_first()),
        (first + second.drop_first()).len() == first.len() + second.len() - 1,
        (first + second.drop_first())[0] == first[0],
        (first + second.drop_first()).last() == second.last(),
{
    let joined = first + second.drop_first();
    assert forall|i: int| 0 <= i < joined.len() - 1 implies arc(edges, reverse, #[trigger] joined[i], joined[i + 1]) by {
        if i < first.len() - 1 {
            assert(joined[i] == first[i] && joined[i + 1] == first[i + 1]);
        } else {
            let k = i - (first.len() - 1);
            assert(joined[i] == second[k]);
            assert(joined[i + 1] == second[k + 1]);
        }
    }
    if second.len() == 1 {
        assert(joined.last() == first.last());
    }
}

/// Every node on a shortest walk is reached by its prefix in the fewest steps.
proof fn lemma_shortest_prefix(
    edges: Seq<(usize, usize)>,
    reverse: bool,
    source: usize,
    node: usize,
    walk: Seq<usize>,
    i: int,
)
    requires
        walk_ends(edges, reverse, source, node, walk),
        at_distance(edges, reverse, source, node, walk.len() - 1),
        0 <= i < walk.len(),
    ensures
        at_distance(edges, reverse, source, walk[i], i),
{
    let prefix = walk.take(i + 1);
    assert forall|k: int| 0 <= k < prefix.len() - 1 implies arc(edges, reverse, #[trigger] prefix[k], prefix[k + 1]) by {
        assert(prefix[k] == walk[k] && prefix[k + 1] == walk[k + 1]);
    }
    assert(walk_ends(edges, reverse, source, walk[i], prefix));
    assert(walk_of_len(edges, reverse, source, walk[i], i));
    let rest = walk.skip(i);
    assert forall|k: int| 0 <= k < rest.len() - 1 implies arc(edges, reverse, #[trigger] rest[k], rest[k + 1]) by {
        assert(rest[k] == walk[i + k] && rest[k + 1] == walk[i + k + 1]);
    }
    assert forall|m: int| 0 <= m < i implies !#[trigger] walk_of_len(edges, reverse, source, walk[i], m) by {
        if walk_of_len(edges, reverse, source, walk[i], m) {
            let shorter = choose|shorter: Seq<usize>| #[trigger] walk_ends(edges, reverse, source, walk[i], shorter) && shorter.len() == m + 1;
            lemma_walk_join(edges, reverse, shorter, rest);
            let joined = shorter + rest.drop_first();
            assert(walk_ends(edges, reverse, source, node, joined));
            assert(walk_of_len(edges, reverse, source, node, joined.len() - 1));
        }
    }
}

proof fn lemma_table_bound(nodes: Seq<usize>, universe: Set<usize>)
    requires
        nodes.no_duplicates(),
        nodes.to_set().subset_of(universe),
        universe.finite(),
    ensures
        nodes.len() <= universe.len(),
{
    nodes.unique_seq_to_set();
    vstd::set_lib::lemma_len_subset(nodes.to_set(), universe);
}

proof fn lemma_universe_finite(edges: Seq<(usize, usize)>, source: usize)
    ensures
        node_universe(edges, source).finite(),
{
    let all = seq![source] + edges.map_values(|e: (usize, usize)| e.0) + edges.map_values(|e: (usize, usize)| e.1);
    vstd::seq_lib::seq_to_set_is_finite(all);
}

/// Computes breadth-first distances and predecessor lists from `source`.
#[verifier::rlimit(100)]
pub fn distance_table(edges: &Vec<(usize, usize)>, source: usize, reverse: bool) -> (result: DistanceTable)
    requires
        distinct_edges(edges@),
    ensures
        complete_table(edges@, reverse, source, result),
{
    let ghost universe = node_universe(edges@, source);
    proof {
        lemma_universe_finite(edges@, source);
        let all = seq![source] + edges@.map_values(|e: (usize, usize)| e.0) + edges@.map_values(|e: (usize, usize)| e.1);
        assert(all[0] == source);
        assert(universe.contains(source));
    }
    let mut nodes: Vec<usize> = Vec::new();
    let mut distances: Vec<usize> = Vec::new();
    let mut predecessors: Vec<Vec<usize>> = Vec::new();
    nodes.push(source);
    distances.push(0);
    predecessors.push(Vec::new());
    let mut frontier: Vec<usize> = Vec::new();
    frontier.push(source);
    let mut level: usize = 0;
    proof {
        let p = seq![source];
        assert(walk_ends(edges@, reverse, source, source, p));
        assert(at_distance(edges@, reverse, source, source, 0));
        assert forall|v: usize, n: int| #[trigger] walk_of_len(edges@, reverse, source, v, n) && n <= 0
            implies nodes@.contains(v) by {
            let q = choose|q: Seq<usize>| #[trigger] walk_ends(edges@, reverse, source, v, q) && q.len() == n + 1;
            assert(nodes@[0] == v);
        }
        assert forall|v: usize| frontier@.contains(v) <==> at_distance(edges@, reverse, source, v, 0) by {
            if at_distance(edges@, reverse, source, v, 0) {
                let q = choose|q: Seq<usize>| #[trigger] walk_ends(edges@, reverse, source, v, q) && q.len() == 1;
                assert(frontier@[0] == v);
            }
        }
        assert(nodes@.to_set().subset_of(universe)) by {
            assert forall|x: usize| nodes@.to_set().contains(x) implies universe.contains(x) by {
                assert(nodes@[0] == x);
            }
        }
    }
    while frontier.len() > 0
        invariant
            universe == node_universe(edges@, source),
            universe.finite(),
            distinct_edges(edges@),
            nodes@.len() == distances@.len(),
            nodes@.len() == predecessors@.len(),
            nodes@.no_duplicates(),
            nodes@.to_set().subset_of(universe),
            level <= nodes@.len(),
            frontier@.len() > 0 ==> level + 1 <= nodes@.len(),
            forall|k: int| 0 <= k < nodes@.len() ==> at_distance(
                edges@, reverse, source, #[trigger] nodes@[k], distances@[k] as int),
            forall|k: int| 0 <= k < nodes@.len() ==> #[trigger] distances@[k] <= level,
            forall|v: usize, n: int| #[trigger] walk_of_len(edges@, reverse, source, v, n) && n <= level
                ==> nodes@.contains(v),
            frontier@.no_duplicates(),
            forall|v: usize| frontier@.contains(v) <==> at_distance(edges@, reverse, source, v, level as int),
            forall|k: int| 0 <= k < nodes@.len() ==> (#[trigger] predecessors@[k])@.no_duplicates(),
            forall|k: int, u: usize| 0 <= k < nodes@.len() ==> (#[trigger] predecessors@[k]@.contains(u) <==> (
                arc(edges@, reverse, u, nodes@[k]) && at_distance(edges@, reverse, source, u, distances@[k] - 1))),
        decreases 2 * (universe.len() - nodes@.len()) + if frontier@.len() > 0 { 1int } else { 0int },
    {
        let start_count = nodes.len();
        let ghost start_len = nodes@.len();
        let mut next: Vec<usize> = Vec::new();
        let mut i: usize = 0;
        while i < frontier.len()
            invariant
                universe == node_universe(edges@, source),
                universe.finite(),
                distinct_edges(edges@),
                nodes@.len() == distances@.len(),
                nodes@.len() == predecessors@.len(),
                nodes@.no_duplicates(),
                nodes@.to_set().subset_of(universe),
                level + 1 <= start_len,
                start_len == start_count,
                start_len <= nodes@.len(),
                nodes@.len() == start_len + next@.len(),
                i <= frontier@.len(),
                frontier@.no_duplicates(),
                forall|v: usize| frontier@.contains(v) <==> at_distance(edges@, reverse, source, v, level as int),
                forall|k: int| 0 <= k < nodes@.len() ==> at_distance(
                    edges@, reverse, source, #[trigger] nodes@[k], distances@[k] as int),
                forall|k: int| 0 <= k < nodes@.len() ==> #[trigger] distances@[k] <= level + 1,
                forall|v: usize, n: int| #[trigger] walk_of_len(edges@, reverse, source, v, n) && n <= level
                    ==> nodes@.contains(v),
                forall|k: int, v: usize| 0 <= k < i && #[trigger] arc(edges@, reverse, frontier@[k], v)
                    ==> nodes@.contains(v),
                next@.no_duplicates(),
                forall|v: usize| next@.contains(v) <==> (nodes@.contains(v) && at_distance(
                    edges@, reverse, source, v, level + 1)),
                forall|k: int| 0 <= k < nodes@.len() ==> (#[trigger] predecessors@[k])@.no_duplicates(),
                forall|k: int, u: usize| 0 <= k < nodes@.len() && distances@[k] <= level ==> (
                    #[trigger] predecessors@[k]@.contains(u) <==> (
                    arc(edges@, reverse, u, nodes@[k]) && at_distance(edges@, reverse, source, u, distances@[k] - 1))),
                forall|k: int, u: usize| 0 <= k < nodes@.len() && distances@[k] == level + 1 ==> (
                    #[trigger] predecessors@[k]@.contains(u) <==> (
                    arc(edges@, reverse, u, nodes@[k]) && frontier@.take(i as int).contains(u))),
            decreases frontier@.len() - i,
        {
            let u = frontier[i];
            assert(frontier@.contains(u));
            let nb = neighbors(edges, u, reverse);
            let mut j: usize = 0;
            while j < nb.len()
                invariant
                    universe == node_universe(edges@, source),
                    universe.finite(),
                    distinct_edges(edges@),
                    nodes@.len() == distances@.len(),
                    nodes@.len() == predecessors@.len(),
                    nodes@.no_duplicates(),
                    nodes@.to_set().subset_of(universe),
                    level + 1 <= start_len,
                    start_len == start_count,
                    start_len <= nodes@.len(),
                    nodes@.len() == start_len + next@.len(),
                    i < frontier@.len(),
                    u == frontier@[i as int],
                    at_distance(edges@, reverse, source, u, level as int),
                    frontier@.no_duplicates(),
                    forall|v: usize| frontier@.contains(v) <==> at_distance(edges@, reverse, source, v, level as int),
                    nb@.no_duplicates(),
                    forall|v: usize| nb@.contains(v) <==> arc(edges@, reverse, u, v),
                    j <= nb@.len(),
                    forall|k: int| 0 <= k < nodes@.len() ==> at_distance(
                        edges@, reverse, source, #[trigger] nodes@[k], distances@[k] as int),
                    forall|k: int| 0 <= k < nodes@.len() ==> #[trigger] distances@[k] <= level + 1,
                    forall|v: usize, n: int| #[trigger] walk_of_len(edges@, reverse, source, v, n) && n <= level
                        ==> nodes@.contains(v),
                    forall|k: int, v: usize| 0 <= k < i && #[trigger] arc(edges@, reverse, frontier@[k], v)
                        ==> nodes@.contains(v),
                    forall|k: int| 0 <= k < j ==> nodes@.contains(#[trigger] nb@[k]),
                    next@.no_duplicates(),
                    forall|v: usize| next@.contains(v) <==> (nodes@.contains(v) && at_distance(
                        edges@, reverse, source, v, level + 1)),
                    forall|k: int| 0 <= k < nodes@.len() ==> (#[trigger] predecessors@[k])@.no_duplicates(),
                    forall|k: int, x: usize| 0 <= k < nodes@.len() && distances@[k] <= level ==> (
                        #[trigger] predecessors@[k]@.contains(x) <==> (
                        arc(edges@, reverse, x, nodes@[k]) && at_distance(edges@, reverse, source, x, distances@[k] - 1))),
                    forall|k: int, x: usize| 0 <= k < nodes@.len() && distances@[k] == level + 1 ==> (
                        #[trigger] predecessors@[k]@.contains(x) <==> (
                        arc(edges@, reverse, x, nodes@[k]) && (frontier@.take(i as int).contains(x)
                            || (x == u && nb@.take(j as int).contains(nodes@[k]))))),
                decreases nb@.len() - j,
            {
                let v = nb[j];
                let ghost nb_next = nb@.take(j + 1);
                assert(nb@.contains(v));
                assert(arc(edges@, reverse, u, v));
                let ghost old_nodes = nodes@;
                let ghost old_dist = distances@;
                let ghost old_preds = predecessors@;
                let ghost old_next = next@;
                assert(!frontier@.take(i as int).contains(u)) by {
                    if frontier@.take(i as int).contains(u) {
                        let q = choose|q: int| 0 <= q < i && frontier@.take(i as int)[q] == u;
                        assert(frontier@[q] == frontier@[i as int]);
                    }
                }
                assert(!nb@.take(j as int).contains(v)) by {
                    if nb@.take(j as int).contains(v) {
                        let q = choose|q: int| 0 <= q < j && nb@.take(j as int)[q] == v;
                        assert(nb@[q] == nb@[j as int]);
                    }
                }
                assert(nb@.take(j + 1) =~= nb@.take(j as int).push(v));
                match position_of(&nodes, v) {
                    None => {
                        proof {
                            lemma_walk_extend(edges@, reverse, source, u, v, level as int);
                            assert forall|n: int| 0 <= n < level + 1 implies
                                !#[trigger] walk_of_len(edges@, reverse, source, v, n) by {
                                if walk_of_len(edges@, reverse, source, v, n) {
                                    assert(nodes@.contains(v));
                                }
                            }
                            assert(at_distance(edges@, reverse, source, v, level + 1));
                            lemma_arc_in_universe(edges@, reverse, source, u, v);
                            lemma_table_bound(nodes@, universe);
                        }
                        let mut first: Vec<usize> = Vec::new();
                        first.push(u);
                        nodes.push(v);
                        distances.push(level + 1);
                        predecessors.push(first);
                        next.push(v);
                        proof {
                            let k = old_nodes.len() as int;
                            assert(nodes@[k] == v);
                            assert forall|a: int, b: int| 0 <= a < nodes@.len() && 0 <= b < nodes@.len() && a != b
                                implies nodes@[a] != nodes@[b] by {
                                if a == k { assert(old_nodes.contains(nodes@[b])); }
                                else if b == k { assert(old_nodes.contains(nodes@[a])); }
                                else { assert(nodes@[a] == old_nodes[a] && nodes@[b] == old_nodes[b]); }
                            }
                            assert forall|x: usize| nodes@.to_set().contains(x) implies universe.contains(x) by {
                                let q = choose|q: int| 0 <= q < nodes@.len() && nodes@[q] == x;
                                if q < k { assert(old_nodes[q] == x); assert(old_nodes.to_set().contains(x)); }
                            }
                            assert forall|a: int, b: int| 0 <= a < next@.len() && 0 <= b < next@.len() && a != b
                                implies next@[a] != next@[b] by {
                                if a == old_next.len() {
                                    assert(old_next.contains(next@[b]));
                                } else if b == old_next.len() {
                                    assert(old_next.contains(next@[a]));
                                } else {
                                    assert(next@[a] == old_next[a] && next@[b] == old_next[b]);
                                }
                            }
                            assert forall|w: usize| next@.contains(w) <==> (nodes@.contains(w) && at_distance(
                                edges@, reverse, source, w, level + 1)) by {
                                if next@.contains(w) && w != v {
                                    let q = choose|q: int| 0 <= q < next@.len() && next@[q] == w;
                                    assert(old_next[q] == w);
                                    assert(old_next.contains(w));
                                    let r = choose|r: int| 0 <= r < old_nodes.len() && old_nodes[r] == w;
                                    assert(nodes@[r] == w);
                                }
                                if nodes@.contains(w) && at_distance(edges@, reverse, source, w, level + 1) && w != v {
                                    let r = choose|r: int| 0 <= r < nodes@.len() && nodes@[r] == w;
                                    assert(r < k);
                                    assert(old_nodes[r] == w);
                                    assert(old_nodes.contains(w));
                                    assert(old_next.contains(w));
                                    let q = choose|q: int| 0 <= q < old_next.len() && old_next[q] == w;
                                    assert(next@[q] == w);
                                }
                                if w == v {
                                    assert(next@[old_next.len() as int] == v);
                                    assert(nodes@[k] == v);
                                }
                            }
                            assert forall|q: int| 0 <= q < j + 1 implies nodes@.contains(#[trigger] nb@[q]) by {
                                if q < j {
                                    assert(old_nodes.contains(nb@[q]));
                                    let r = choose|r: int| 0 <= r < old_nodes.len() && old_nodes[r] == nb@[q];
                                    assert(nodes@[r] == nb@[q]);
                                } else {
                                    assert(nodes@[k] == nb@[q]);
                                }
                            }
                            assert forall|q: int, w: usize| 0 <= q < i && #[trigger] arc(edges@, reverse, frontier@[q], w)
                                implies nodes@.contains(w) by {
                                assert(old_nodes.contains(w));
                                let r = choose|r: int| 0 <= r < old_nodes.len() && old_nodes[r] == w;
                                assert(nodes@[r] == w);
                            }
                            assert forall|w: usize, n: int| #[trigger] walk_of_len(edges@, reverse, source, w, n) && n <= level
                                implies nodes@.contains(w) by {
                                assert(old_nodes.contains(w));
                                let r = choose|r: int| 0 <= r < old_nodes.len() && old_nodes[r] == w;
                                assert(nodes@[r] == w);
                            }
                            assert(predecessors@[k]@ =~= seq![u]);
                            assert forall|x: usize| #[trigger] predecessors@[k]@.contains(x) <==> (
                                arc(edges@, reverse, x, nodes@[k]) && (frontier@.take(i as int).contains(x)
                                    || (x == u && nb@.take(j + 1).contains(nodes@[k])))) by {
                                if frontier@.take(i as int).contains(x) && arc(edges@, reverse, x, v) {
                                    let q = choose|q: int| 0 <= q < i && frontier@.take(i as int)[q] == x;
                                    assert(frontier@[q] == x);
                                    assert(old_nodes.contains(v));
                                }
                                if x == u {
                                    assert(nb@.take(j + 1)[j as int] == v);
                                    assert(predecessors@[k]@[0] == u);
                                }
                            }
                            assert forall|q: int, x: usize| 0 <= q < nodes@.len() && distances@[q] <= level implies (
                                #[trigger] predecessors@[q]@.contains(x) <==> (
                                arc(edges@, reverse, x, nodes@[q]) && at_distance(edges@, reverse, source, x, distances@[q] - 1))) by {
                                assert(q < k);
                                assert(predecessors@[q] == old_preds[q]);
                            }
                            assert forall|q: int, x: usize| 0 <= q < nodes@.len() && distances@[q] == level + 1 implies (
                                #[trigger] predecessors@[q]@.contains(x) <==> (
                                arc(edges@, reverse, x, nodes@[q]) && (frontier@.take(i as int).contains(x)
                                    || (x == u && nb@.take(j + 1).contains(nodes@[q]))))) by {
                                if q < k {
                                    assert(predecessors@[q] == old_preds[q]);
                                    assert(nodes@[q] == old_nodes[q]);
                                    assert(nodes@[q] != v);
                                    if x == u && nb@.take(j + 1).contains(nodes@[q]) {
                                        let r = choose|r: int| 0 <= r < j + 1 && nb_next[r] == nodes@[q];
                                        if r == j {
                                            assert(false);
                                        }
                                        assert(nb@.take(j as int)[r] == nodes@[q]);
                                    }
                                    if x == u && nb@.take(j as int).contains(nodes@[q]) {
                                        let r = choose|r: int| 0 <= r < j && nb@.take(j as int)[r] == nodes@[q];
                                        assert(nb@.take(j + 1)[r] == nodes@[q]);
                                    }
                                }
                            }
                            assert forall|q: int| 0 <= q < nodes@.len() implies (#[trigger] predecessors@[q])@.no_duplicates() by {
                                if q < k { assert(predecessors@[q] == old_preds[q]); }
                            }
                        }
                    },
                    Some(position) => {
                        if distances[position] == level + 1 {
                            let mut updated = copy_nodes(&predecessors[position]);
                            proof {
                                assert(!updated@.contains(u)) by {
                                    if updated@.contains(u) {
                                        assert(old_preds[position as int]@.contains(u));
                                        assert(nb@.take(j as int).contains(old_nodes[position as int]) ==> false);
                                    }
                                }
                            }
                            let ghost prior = updated@;
                            updated.push(u);
                            predecessors.set(position, updated);
                            proof {
                                let pk = position as int;
                                assert(predecessors@[pk]@ == prior.push(u));
                                assert forall|a: int, b: int| 0 <= a < prior.push(u).len() && 0 <= b < prior.push(u).len() && a != b
                                    implies prior.push(u)[a] != prior.push(u)[b] by {
                                    if a == prior.len() { assert(prior.contains(prior.push(u)[b])); }
                                    else if b == prior.len() { assert(prior.contains(prior.push(u)[a])); }
                                }
                                assert forall|q: int| 0 <= q < nodes@.len() implies (#[trigger] predecessors@[q])@.no_duplicates() by {
                                    if q != pk { assert(predecessors@[q] == old_preds[q]); }
                                }
                                assert forall|q: int| 0 <= q < j + 1 implies nodes@.contains(#[trigger] nb@[q]) by {
                                    if q == j { assert(nodes@[pk] == v); }
                                }
                                assert forall|q: int, x: usize| 0 <= q < nodes@.len() && distances@[q] <= level implies (
                                    #[trigger] predecessors@[q]@.contains(x) <==> (
                                    arc(edges@, reverse, x, nodes@[q]) && at_distance(edges@, reverse, source, x, distances@[q] - 1))) by {
                                    assert(q != pk);
                                    assert(predecessors@[q] == old_preds[q]);
                                }
                                assert forall|q: int, x: usize| 0 <= q < nodes@.len() && distances@[q] == level + 1 implies (
                                    #[trigger] predecessors@[q]@.contains(x) <==> (
                                    arc(edges@, reverse, x, nodes@[q]) && (frontier@.take(i as int).contains(x)
                                        || (x == u && nb@.take(j + 1).contains(nodes@[q]))))) by {
                                    if q != pk {
                                        assert(predecessors@[q] == old_preds[q]);
                                        assert(nodes@[q] != v);
                                        if x == u && nb@.take(j + 1).contains(nodes@[q]) {
                                            let r = choose|r: int| 0 <= r < j + 1 && nb_next[r] == nodes@[q];
                                            assert(nb@.take(j as int)[r] == nodes@[q]);
                                        }
                                        if x == u && nb@.take(j as int).contains(nodes@[q]) {
                                            let r = choose|r: int| 0 <= r < j && nb@.take(j as int)[r] == nodes@[q];
                                            assert(nb@.take(j + 1)[r] == nodes@[q]);
                                        }
                                    } else {
                                        assert(nodes@[q] == v);
                                        assert(nb@.take(j + 1)[j as int] == v);
                                        if x == u {
                                            assert(prior.push(u)[prior.len() as int] == u);
                                        }
                                        if prior.push(u).contains(x) && x != u {
                                            let r = choose|r: int| 0 <= r < prior.push(u).len() && prior.push(u)[r] == x;
                                            assert(prior[r] == x);
                                        }
                                        if prior.contains(x) {
                                            let r = choose|r: int| 0 <= r < prior.len() && prior[r] == x;
                                            assert(prior.push(u)[r] == x);
                                        }
                                    }
                                }
                            }
                        } else {
                            proof {
                                assert forall|q: int| 0 <= q < j + 1 implies nodes@.contains(#[trigger] nb@[q]) by {
                                    if q == j { assert(nodes@[position as int] == v); }
                                }
                                assert forall|q: int, x: usize| 0 <= q < nodes@.len() && distances@[q] == level + 1 implies (
                                    #[trigger] predecessors@[q]@.contains(x) <==> (
                                    arc(edges@, reverse, x, nodes@[q]) && (frontier@.take(i as int).contains(x)
                                        || (x == u && nb@.take(j + 1).contains(nodes@[q]))))) by {
                                    assert(q != position);
                                    assert(nodes@[q] != v);
                                    if x == u && nb@.take(j + 1).contains(nodes@[q]) {
                                        let r = choose|r: int| 0 <= r < j + 1 && nb_next[r] == nodes@[q];
                                        assert(nb@.take(j as int)[r] == nodes@[q]);
                                    }
                                    if x == u && nb@.take(j as int).contains(nodes@[q]) {
                                        let r = choose|r: int| 0 <= r < j && nb@.take(j as int)[r] == nodes@[q];
                                        assert(nb@.take(j + 1)[r] == nodes@[q]);
                                    }
                                }
                            }
                        }
                    },
                }
                j = j + 1;
            }
            let ghost fr_next = frontier@.take(i + 1);
            proof {
                assert(nb@.take(nb@.len() as int) =~= nb@);
                assert(frontier@.take(i + 1) =~= frontier@.take(i as int).push(u));
                assert forall|k: int, v: usize| 0 <= k < i + 1 && #[trigger] arc(edges@, reverse, frontier@[k], v)
                    implies nodes@.contains(v) by {
                    if k == i {
                        assert(nb@.contains(v));
                        let r = choose|r: int| 0 <= r < nb@.len() && nb@[r] == v;
                        assert(nodes@.contains(nb@[r]));
                    }
                }
                assert forall|k: int, x: usize| 0 <= k < nodes@.len() && distances@[k] == level + 1 implies (
                    #[trigger] predecessors@[k]@.contains(x) <==> (
                    arc(edges@, reverse, x, nodes@[k]) && frontier@.take(i + 1).contains(x))) by {
                    if x == u {
                        assert(frontier@.take(i + 1)[i as int] == u);
                        if arc(edges@, reverse, x, nodes@[k]) {
                            assert(nb@.contains(nodes@[k]));
                        }
                    } else {
                        if frontier@.take(i + 1).contains(x) {
                            let r = choose|r: int| 0 <= r < i + 1 && fr_next[r] == x;
                            assert(frontier@.take(i as int)[r] == x);
                        }
                        if frontier@.take(i as int).contains(x) {
                            let r = choose|r: int| 0 <= r < i && frontier@.take(i as int)[r] == x;
                            assert(frontier@.take(i + 1)[r] == x);
                        }
                    }
                }
            }
            i = i + 1;
        }
        proof {
            assert(frontier@.take(frontier@.len() as int) =~= frontier@);
            // Everything within one more step is now recorded.
            assert forall|v: usize, n: int| #[trigger] walk_of_len(edges@, reverse, source, v, n) && n <= level + 1
                implies nodes@.contains(v) by {
                if n == level + 1 {
                    let p = choose|p: Seq<usize>| #[trigger] walk_ends(edges@, reverse, source, v, p) && p.len() == n + 1;
                    lemma_walk_truncate(edges@, reverse, source, p);
                    let w = p[p.len() - 2];
                    assert(walk_ends(edges@, reverse, source, w, p.drop_last()));
                    assert(walk_of_len(edges@, reverse, source, w, level as int));
                    assert(nodes@.contains(w));
                    let r = choose|r: int| 0 <= r < nodes@.len() && nodes@[r] == w;
                    let d = distances@[r] as int;
                    assert(at_distance(edges@, reverse, source, w, d));
                    if d < level {
                        lemma_walk_extend(edges@, reverse, source, w, v, d);
                        assert(walk_of_len(edges@, reverse, source, v, d + 1));
                    } else if d == level {
                        assert(frontier@.contains(w));
                        let q = choose|q: int| 0 <= q < frontier@.len() && frontier@[q] == w;
                        assert(arc(edges@, reverse, frontier@[q], v));
                    } else {
                        assert(walk_of_len(edges@, reverse, source, w, level as int));
                    }
                }
            }
            assert forall|v: usize| next@.contains(v) <==> at_distance(edges@, reverse, source, v, level + 1) by {
                if at_distance(edges@, reverse, source, v, level + 1) {
                    assert(walk_of_len(edges@, reverse, source, v, level + 1));
                }
            }
            assert forall|k: int, u: usize| 0 <= k < nodes@.len() implies (#[trigger] predecessors@[k]@.contains(u) <==> (
                arc(edges@, reverse, u, nodes@[k]) && at_distance(edges@, reverse, source, u, distances@[k] - 1))) by {
                if distances@[k] == level + 1 {
                    if frontier@.contains(u) {
                        assert(frontier@.take(frontier@.len() as int).contains(u));
                    }
                }
            }
            lemma_table_bound(nodes@, universe);
        }
        assert(level + 1 <= start_count);
        frontier = next;
        level = level + 1;
    }
    proof {
        assert forall|v: usize, n: int| #[trigger] walk_of_len(edges@, reverse, source, v, n)
            implies nodes@.contains(v) by {
            if n > level {
                lemma_least_distance(edges@, reverse, source, v, n);
                let d = choose|d: int| 0 <= d <= n && at_distance(edges@, reverse, source, v, d);
                if d > level {
                    let q = choose|q: Seq<usize>| #[trigger] walk_ends(edges@, reverse, source, v, q) && q.len() == d + 1;
                    lemma_shortest_prefix(edges@, reverse, source, v, q, level as int);
                    assert(frontier@.contains(q[level as int]));
                } else {
                    assert(walk_of_len(edges@, reverse, source, v, d));
                }
            }
        }
    }
    DistanceTable { nodes, distances, predecessors }
}

/// `path` is a shortest walk from `source` to `node` followed by `suffix`.
pub open spec fn shortest_then(
    edges: Seq<(usize, usize)>,
    reverse: bool,
    source: usize,
    node: usize,
    suffix: Seq<usize>,
    path: Seq<usize>,
) -> bool {
    &&& path.len() > suffix.len()
    &&& path.skip(path.len() - suffix.len()) == suffix
    &&& shortest_walk(edges, reverse, source, node, path.take(path.len() - suffix.len()))
}

proof fn lemma_shortest_source(edges: Seq<(usize, usize)>, reverse: bool, source: usize, walk: Seq<usize>)
    requires
        shortest_walk(edges, reverse, source, source, walk),
    ensures
        walk == seq![source],
{
    assert(walk_ends(edges, reverse, source, source, seq![source]));
    assert(walk_of_len(edges, reverse, source, source, 0));
    assert(walk.len() == 1);
    assert(walk =~= seq![source]);
}

#[verifier::rlimit(60)]
#[verifier::spinoff_prover]
fn collect_shortest_paths(
    table: &DistanceTable,
    Ghost(edges): Ghost<Seq<(usize, usize)>>,
    Ghost(reverse): Ghost<bool>,
    source: usize,
    node: usize,
    Ghost(distance): Ghost<int>,
    reversed: &mut Vec<usize>,
    output: &mut Vec<Vec<usize>>,
)
    requires
        complete_table(edges, reverse, source, *table),
        at_distance(edges, reverse, source, node, distance),
        old(reversed)@.len() >= 1,
        old(reversed)@.last() == node,
    ensures
        final(reversed)@ == old(reversed)@,
        final(output)@.len() >= old(output)@.len(),
        path_views(final(output)@).take(old(output)@.len() as int) == path_views(old(output)@),
        path_views(final(output)@).skip(old(output)@.len() as int).no_duplicates(),
        forall|path: Seq<usize>|
            path_views(final(output)@).skip(old(output)@.len() as int).contains(path) <==> shortest_then(
                edges,
                reverse,
                source,
                node,
                old(reversed)@.reverse().drop_first(),
                path,
            ),
    decreases distance,
{
    let ghost start = reversed@;
    let ghost suffix = start.reverse().drop_first();
    let ghost base = path_views(output@);
    if node == source {
        let mut found: Vec<usize> = Vec::new();
        let mut index = reversed.len();
        while index > 0
            invariant
                index <= reversed@.len(),
                reversed@ == start,
                found@ == start.reverse().take(reversed@.len() - index),
            decreases index,
        {
            index = index - 1;
            found.push(reversed[index]);
            assert(found@ =~= start.reverse().take(reversed@.len() - index));
        }
        assert(found@ =~= start.reverse());
        output.push(found);
        proof {
            let whole = start.reverse();
            let part = path_views(output@).skip(base.len() as int);
            assert(part =~= seq![whole]);
            assert(path_views(output@).take(base.len() as int) =~= base);
            assert(whole[0] == source);
            assert(whole.take(whole.len() - suffix.len()) =~= seq![source]);
            assert(whole.skip(whole.len() - suffix.len()) =~= suffix);
            assert(walk_ends(edges, reverse, source, source, seq![source]));
            assert(at_distance(edges, reverse, source, source, 0)) by {
                assert(walk_of_len(edges, reverse, source, source, 0));
            }
            assert forall|path: Seq<usize>| part.contains(path) <==> shortest_then(
                edges, reverse, source, node, suffix, path) by {
                if shortest_then(edges, reverse, source, node, suffix, path) {
                    lemma_shortest_source(edges, reverse, source, path.take(path.len() - suffix.len()));
                    assert(path =~= path.take(path.len() - suffix.len()) + path.skip(path.len() - suffix.len()));
                    assert(path =~= whole);
                    assert(part[0] == path);
                }
                if part.contains(path) {
                    assert(part[0] == path);
                }
            }
        }
        return;
    }
    let position = position_of(&table.nodes, node);
    proof {
        assert(walk_of_len(edges, reverse, source, node, distance));
    }
    let position = position.unwrap();
    proof {
        lemma_distance_unique(edges, reverse, source, node, distance, table.distances@[position as int] as int);
        if distance == 0 {
            let w = choose|w: Seq<usize>| #[trigger] walk_ends(edges, reverse, source, node, w) && w.len() == 1;
            assert(w[0] == node);
        }
    }
    let predecessors = &table.predecessors[position];
    let mut index: usize = 0;
    while index < predecessors.len()
        invariant
            complete_table(edges, reverse, source, *table),
            at_distance(edges, reverse, source, node, distance),
            distance >= 1,
            node != source,
            position < table.nodes@.len(),
            table.nodes@[position as int] == node,
            table.distances@[position as int] == distance,
            *predecessors == table.predecessors@[position as int],
            reversed@ == start,
            start.len() >= 1,
            start.last() == node,
            suffix == start.reverse().drop_first(),
            index <= predecessors@.len(),
            output@.len() >= base.len(),
            path_views(output@).take(base.len() as int) == base,
            path_views(output@).skip(base.len() as int).no_duplicates(),
            forall|path: Seq<usize>| #[trigger] path_views(output@).skip(base.len() as int).contains(path) ==> {
                &&& shortest_then(edges, reverse, source, node, suffix, path)
                &&& predecessors@.take(index as int).contains(path[path.len() - suffix.len() - 2])
            },
            forall|path: Seq<usize>| shortest_then(edges, reverse, source, node, suffix, path)
                && predecessors@.take(index as int).contains(path[path.len() - suffix.len() - 2])
                ==> path_views(output@).skip(base.len() as int).contains(path),
        decreases predecessors@.len() - index,
    {
        let u = predecessors[index];
        let ghost before = path_views(output@);
        proof {
            assert(predecessors@.contains(u));
            assert(table.predecessors@[position as int]@.contains(u));
        }
        reversed.push(u);
        collect_shortest_paths(table, Ghost(edges), Ghost(reverse), source, u, Ghost(distance - 1), reversed, output);
        reversed.pop();
        proof {
            assert(reversed@ =~= start);
            let after = path_views(output@);
            let old_part = before.skip(base.len() as int);
            let part = after.skip(base.len() as int);
            let new_part = after.skip(before.len() as int);
            let longer = start.push(u).reverse().drop_first();
            assert(longer =~= start.reverse()) by {
                assert(start.push(u).reverse() =~= seq![u] + start.reverse());
            }
            assert(start.reverse()[0] == node);
            assert(start.reverse() =~= seq![node] + suffix);
            assert(after.take(base.len() as int) =~= after.take(before.len() as int).take(base.len() as int));
            assert(part =~= old_part + new_part);
            let t0 = predecessors@.take(index as int);
            let t1 = predecessors@.take(index + 1);
            assert(t1 =~= t0.push(u));
            assert(!t0.contains(u)) by {
                if t0.contains(u) {
                    let q = choose|q: int| 0 <= q < t0.len() && t0[q] == u;
                    assert(predecessors@[q] == predecessors@[index as int]);
                }
            }
            // Paths through `u` are shortest paths to `node`.
            assert forall|path: Seq<usize>| new_part.contains(path) implies {
                &&& shortest_then(edges, reverse, source, node, suffix, path)
                &&& path[path.len() - suffix.len() - 2] == u
            } by {
                assert(shortest_then(edges, reverse, source, u, longer, path));
                let cut = path.len() - longer.len();
                let w = path.take(cut);
                assert(shortest_walk(edges, reverse, source, u, w));
                let q = w.push(node);
                assert(arc(edges, reverse, u, node));
                lemma_walk_extend(edges, reverse, source, u, node, w.len() - 1);
                assert forall|i: int| 0 <= i < q.len() - 1 implies arc(edges, reverse, #[trigger] q[i], q[i + 1]) by {
                    if i < w.len() - 1 { assert(q[i] == w[i] && q[i + 1] == w[i + 1]); }
                }
                assert(walk_ends(edges, reverse, source, node, q));
                assert(path.skip(cut) == longer);
                assert(path =~= w + longer);
                assert(path.take(path.len() - suffix.len()) =~= q);
                assert(path.skip(path.len() - suffix.len()) =~= suffix);
                assert(path[path.len() - suffix.len() - 2] == w.last());
            }
            assert forall|a: int, b: int| 0 <= a < part.len() && 0 <= b < part.len() && a != b
                implies part[a] != part[b] by {
                if a < old_part.len() && b >= old_part.len() {
                    assert(old_part.contains(part[a]));
                    assert(new_part.contains(part[b]));
                } else if b < old_part.len() && a >= old_part.len() {
                    assert(old_part.contains(part[b]));
                    assert(new_part.contains(part[a]));
                } else if a < old_part.len() && b < old_part.len() {
                    assert(part[a] == old_part[a] && part[b] == old_part[b]);
                } else {
                    assert(part[a] == new_part[a - old_part.len()] && part[b] == new_part[b - old_part.len()]);
                }
            }
            assert forall|path: Seq<usize>| part.contains(path) implies {
                &&& shortest_then(edges, reverse, source, node, suffix, path)
                &&& t1.contains(path[path.len() - suffix.len() - 2])
            } by {
                let k = choose|k: int| 0 <= k < part.len() && part[k] == path;
                if k < old_part.len() {
                    assert(old_part.contains(path));
                    assert(t0.contains(path[path.len() - suffix.len() - 2]));
                    let j = choose|j: int| 0 <= j < t0.len() && t0[j] == path[path.len() - suffix.len() - 2];
                    assert(t1[j] == t0[j]);
                } else {
                    assert(new_part.contains(path));
                    assert(t1[index as int] == u);
                }
            }
            assert forall|path: Seq<usize>| shortest_then(edges, reverse, source, node, suffix, path)
                && t1.contains(path[path.len() - suffix.len() - 2]) implies part.contains(path) by {
                let x = path[path.len() - suffix.len() - 2];
                let j = choose|j: int| 0 <= j < t1.len() && t1[j] == x;
                if j < index {
                    assert(t0[j] == x);
                    assert(old_part.contains(path));
                    let k = choose|k: int| 0 <= k < old_part.len() && old_part[k] == path;
                    assert(part[k] == path);
                } else {
                    let q = path.take(path.len() - suffix.len());
                    assert(q.len() == distance + 1);
                    lemma_shortest_prefix(edges, reverse, source, node, q, distance - 1);
                    let w = q.drop_last();
                    assert forall|i: int| 0 <= i < w.len() - 1 implies arc(edges, reverse, #[trigger] w[i], w[i + 1]) by {
                        assert(w[i] == q[i] && w[i + 1] == q[i + 1]);
                    }
                    assert(w.last() == x);
                    assert(x == u);
                    assert(shortest_walk(edges, reverse, source, u, w));
                    assert(path =~= w + longer) by {
                        assert(path =~= q + suffix);
                        assert(q =~= w.push(node));
                    }
                    let cut = path.len() - longer.len();
                    assert(path.take(cut) =~= w);
                    assert(path.skip(cut) =~= longer);
                    assert(shortest_then(edges, reverse, source, u, longer, path));
                    assert(new_part.contains(path));
                    let k = choose|k: int| 0 <= k < new_part.len() && new_part[k] == path;
                    assert(part[old_part.len() + k] == path);
                }
            }
        }
        index = index + 1;
    }
    proof {
        let part = path_views(output@).skip(base.len() as int);
        assert(predecessors@.take(predecessors@.len() as int) =~= predecessors@);
        assert forall|path: Seq<usize>| shortest_then(edges, reverse, source, node, suffix, path)
            implies part.contains(path) by {
            let q = path.take(path.len() - suffix.len());
            assert(q.len() == distance + 1) by {
                lemma_distance_unique(edges, reverse, source, node, distance, q.len() - 1);
            }
            lemma_shortest_prefix(edges, reverse, source, node, q, distance - 1);
            lemma_walk_truncate(edges, reverse, source, q);
            let x = q[distance - 1];
            assert(path[path.len() - suffix.len() - 2] == x);
            assert(table.predecessors@[position as int]@.contains(x));
        }
    }
}

/// Every shortest walk from `source` to `target`.
pub fn shortest_node_paths(
    edges: &Vec<(usize, usize)>,
    source: usize,
    target: usize,
    reverse: bool,
) -> (result: Vec<Vec<usize>>)
    requires
        distinct_edges(edges@),
    ensures
        path_views(result@).no_duplicates(),
        forall|path: Seq<usize>|
            path_views(result@).contains(path) <==> shortest_walk(edges@, reverse, source, target, path),
{
    let table = distance_table(edges, source, reverse);
    let mut output: Vec<Vec<usize>> = Vec::new();
    match position_of(&table.nodes, target) {
        None => {
            proof {
                assert forall|path: Seq<usize>| !shortest_walk(edges@, reverse, source, target, path) by {
                    if shortest_walk(edges@, reverse, source, target, path) {
                        assert(walk_of_len(edges@, reverse, source, target, path.len() - 1));
                    }
                }
                assert(path_views(output@) =~= Seq::<Seq<usize>>::empty());
            }
            output
        },
        Some(position) => {
            let mut reversed: Vec<usize> = Vec::new();
            reversed.push(target);
            assert(reversed@ =~= seq![target]);
            let ghost distance = table.distances@[position as int] as int;
            collect_shortest_paths(&table, Ghost(edges@), Ghost(reverse), source, target, Ghost(distance), &mut reversed, &mut output);
            proof {
                let suffix = seq![target].reverse().drop_first();
                assert(suffix =~= Seq::<usize>::empty());
                assert(path_views(output@).skip(0) =~= path_views(output@));
                assert forall|path: Seq<usize>| path_views(output@).contains(path) <==> shortest_walk(
                    edges@, reverse, source, target, path) by {
                    assert(path.skip(path.len() as int) =~= suffix);
                    assert(path.take(path.len() as int) =~= path);
                    if shortest_walk(edges@, reverse, source, target, path) {
                        assert(shortest_then(edges@, reverse, source, target, suffix, path));
                        assert(path_views(output@).skip(0).contains(path));
                    }
                    if path_views(output@).contains(path) {
                        assert(path_views(output@).skip(0).contains(path));
                        assert(shortest_then(edges@, reverse, source, target, suffix, path));
                    }
                }
            }
            output
        },
    }
}

} // verus!
