//! What holds of every explainable path: it is a path of the graph, none is shorter, and what it
//! is worth.
use vstd::prelude::*;
use crate::graph::{EdgeView, GraphNodeKind, ModelView, NodeView};
use crate::paths::{PathView, VisitView};
use crate::{filter, graph, order, paths, ranking, text};

verus! {

/// Whether an edge of the graph joins two of its nodes, in either direction.
pub open spec fn adjacent(m: ModelView, a: Seq<char>, b: Seq<char>) -> bool {
    exists|k: int, id: Seq<char>| #[trigger] paths::edge_between(m, k, id, a, b)
}

/// Whether each node of a sequence is adjacent to the next.
pub open spec fn is_walk(m: ModelView, walk: Seq<Seq<char>>) -> bool {
    &&& walk.len() > 0
    &&& forall|i: int| 0 <= i < walk.len() - 1 ==> adjacent(m, #[trigger] walk[i], walk[i + 1])
}

/// Whether the path leads along edges of the graph, each under its id.
pub open spec fn follows_edges(m: ModelView, p: PathView) -> bool {
    &&& p.node_ids.len() == p.edge_ids.len() + 1
    &&& forall|i: int| 0 <= i < p.edge_ids.len() ==> #[trigger] steps_along(m, p, i)
}

/// Whether a step of the path leads along an edge of the graph under its id.
pub open spec fn steps_along(m: ModelView, p: PathView, i: int) -> bool {
    exists|k: int| #[trigger]
        paths::edge_between(m, k, p.edge_ids[i], p.node_ids[i], p.node_ids[i + 1])
}

// ---------------------------------------------------------------------------
// The search
// ---------------------------------------------------------------------------

/// Each found node but the start was found along an edge from one found before it, one step
/// nearer, and nearer ones were found first.
spec fn sound(m: ModelView, start: Seq<char>, found: Seq<VisitView>) -> bool {
    &&& paths::found_once(m, found)
    &&& found[0].id == start
    &&& found[0].depth == 0
    &&& forall|i: int|
        0 < i < found.len() ==> (#[trigger] found[i]).depth == found[found[i].parent].depth + 1
            && came_along(m, found, i)
    &&& forall|i: int, j: int|
        0 <= i < j < found.len() ==> (#[trigger] found[i]).depth <= (#[trigger] found[j]).depth
}

/// The edge along which a node was found.
spec fn came_along(m: ModelView, found: Seq<VisitView>, i: int) -> bool {
    exists|k: int| #[trigger]
        paths::edge_between(m, k, found[i].edge, found[found[i].parent].id, found[i].id)
}

/// A node is found no deeper than `depth`.
spec fn found_within(found: Seq<VisitView>, id: Seq<char>, depth: nat) -> bool {
    exists|j: int| 0 <= j < found.len() && (#[trigger] found[j]).id == id && found[j].depth <= depth
}

proof fn lemma_parent_range(m: ModelView, found: Seq<VisitView>, i: int)
    requires
        paths::found_once(m, found),
        0 < i < found.len(),
    ensures
        0 <= found[i].parent < i,
{
    assert(0 <= found[i].parent <= i);
    assert(found[i].parent < i);
}

proof fn lemma_with_hops_sound(
    m: ModelView,
    start: Seq<char>,
    found: Seq<VisitView>,
    at: int,
    n: int,
)
    requires
        sound(m, start, found),
        0 <= at < found.len(),
        forall|j: int| 0 <= j < found.len() ==> (#[trigger] found[j]).depth <= found[at].depth + 1,
        0 <= n <= paths::ranked_hops(m, found[at].id).len(),
    ensures
        ({
            let hops = paths::ranked_hops(m, found[at].id);
            let r = paths::with_hops(found, hops, at, n);
            &&& sound(m, start, r)
            &&& r.len() >= found.len()
            &&& forall|j: int| 0 <= j < found.len() ==> #[trigger] r[j] == found[j]
            &&& forall|j: int| 0 <= j < r.len() ==> (#[trigger] r[j]).depth <= found[at].depth + 1
            &&& forall|k: int|
                0 <= k < n ==> found_within(r, (#[trigger] hops[k]).node, found[at].depth + 1)
        }),
    decreases n,
{
    let hops = paths::ranked_hops(m, found[at].id);
    if n > 0 {
        lemma_with_hops_sound(m, start, found, at, n - 1);
        paths::ranked_hops_follow_edges(m, found[at].id, n - 1);
        let before = paths::with_hops(found, hops, at, n - 1);
        let after = paths::with_hops(found, hops, at, n);
        let hop = hops[n - 1];
        if paths::visited(before, hop.node) {
            let j = choose|j: int| 0 <= j < before.len() && (#[trigger] before[j]).id == hop.node;
            assert(after[j].id == hop.node && after[j].depth <= found[at].depth + 1);
            assert(found_within(after, hop.node, found[at].depth + 1));
        } else {
            let last = before.len() as int;
            assert(after == before.push(after[last]));
            assert forall|j: int| 0 <= j < found.len() implies #[trigger] after[j] == found[j] by {
                assert(after[j] == before[j]);
            }
            assert forall|i: int, j: int| 0 <= i < j < after.len() implies (
            #[trigger] after[i]).id != (#[trigger] after[j]).id && after[i].depth
                <= after[j].depth by {
                if j < last {
                    assert(after[i] == before[i] && after[j] == before[j]);
                } else {
                    assert(after[i] == before[i]);
                }
            }
            assert forall|i: int| 0 <= i < after.len() implies m.has_node(
                (#[trigger] after[i]).id,
            ) && 0 <= after[i].parent <= i && (0 < i ==> after[i].parent < i) by {
                if i < last {
                    assert(after[i] == before[i]);
                }
            }
            assert forall|i: int| 0 < i < after.len() implies (#[trigger] after[i]).depth
                == after[after[i].parent].depth + 1 && came_along(m, after, i) by {
                if i < last {
                    assert(after[i] == before[i]);
                    lemma_parent_range(m, before, i);
                    assert(after[after[i].parent] == before[before[i].parent]);
                    assert(came_along(m, before, i));
                } else {
                    assert(after[at] == before[at]);
                    let k = choose|k: int| #[trigger]
                        paths::edge_between(m, k, hop.edge, found[at].id, hop.node);
                    assert(paths::edge_between(
                        m,
                        k,
                        after[i].edge,
                        after[after[i].parent].id,
                        after[i].id,
                    ));
                }
            }
            assert forall|j: int| 0 <= j < after.len() implies (#[trigger] after[j]).depth
                <= found[at].depth + 1 by {
                if j < last {
                    assert(after[j] == before[j]);
                }
            }
            assert forall|k: int| 0 <= k < n implies found_within(
                after,
                (#[trigger] hops[k]).node,
                found[at].depth + 1,
            ) by {
                if k < n - 1 {
                    assert(found_within(before, hops[k].node, found[at].depth + 1));
                    let j = choose|j: int|
                        0 <= j < before.len() && (#[trigger] before[j]).id == hops[k].node
                            && before[j].depth <= found[at].depth + 1;
                    assert(after[j].id == hops[k].node);
                } else {
                    assert(after[last].id == hop.node);
                }
            }
        }
    }
}

/// What the search has reached when its first `n` nodes have been expanded.
spec fn reached(
    m: ModelView,
    start: Seq<char>,
    max_depth: nat,
    found: Seq<VisitView>,
    n: int,
) -> bool {
    &&& sound(m, start, found)
    &&& n < found.len() ==> forall|j: int|
        0 <= j < found.len() ==> (#[trigger] found[j]).depth <= found[n].depth + 1
    &&& forall|h: int, k: int|
        0 <= h < n && h < found.len() && found[h].depth < max_depth && 0 <= k
            < paths::ranked_hops(m, found[h].id).len() ==> found_within(
            found,
            (#[trigger] paths::ranked_hops(m, (#[trigger] found[h]).id)[k]).node,
            found[h].depth + 1,
        )
}

proof fn lemma_reached(m: ModelView, start: Seq<char>, max_depth: nat, n: int)
    requires
        m.has_node(start),
        0 <= n,
    ensures
        reached(m, start, max_depth, paths::explored(m, start, max_depth, n), n),
    decreases n,
{
    if n > 0 {
        lemma_reached(m, start, max_depth, n - 1);
        let found = paths::explored(m, start, max_depth, n - 1);
        let after = paths::explored(m, start, max_depth, n);
        let at = n - 1;
        if at < found.len() && found[at].depth < max_depth {
            let hops = paths::ranked_hops(m, found[at].id);
            lemma_with_hops_sound(m, start, found, at, hops.len() as int);
            assert forall|h: int, k: int|
                0 <= h < n && h < after.len() && after[h].depth < max_depth && 0 <= k
                    < paths::ranked_hops(m, after[h].id).len() implies found_within(
                after,
                (#[trigger] paths::ranked_hops(m, (#[trigger] after[h]).id)[k]).node,
                after[h].depth + 1,
            ) by {
                assert(after[h] == found[h]);
                if h < at {
                    let node = paths::ranked_hops(m, found[h].id)[k].node;
                    assert(found_within(found, node, found[h].depth + 1));
                    let j = choose|j: int|
                        0 <= j < found.len() && (#[trigger] found[j]).id == node && found[j].depth
                            <= found[h].depth + 1;
                    assert(after[j] == found[j]);
                } else {
                    assert(found_within(after, hops[k].node, found[at].depth + 1));
                }
            }
            if n < after.len() {
                assert(after[at] == found[at]);
                assert(after[at].depth <= after[n].depth);
            }
        } else {
            assert(after == found);
            if n < after.len() {
                assert(found[at].depth <= found[n].depth);
                assert forall|j: int| 0 <= j < after.len() implies (#[trigger] after[j]).depth
                    <= after[n].depth + 1 by {
                    assert(found[j].depth <= found[at].depth + 1);
                }
            }
        }
    } else {
        let found = paths::explored(m, start, max_depth, 0);
        assert(found.len() == 1);
        assert(m.has_node(found[0].id));
    }
}

proof fn lemma_hops_complete(edges: Seq<EdgeView>, ids: Set<Seq<char>>, a: Seq<char>, b: Seq<char>, k: int) -> (i: int)
    requires
        0 <= k < edges.len(),
        paths::joins(ids, edges[k]),
        (edges[k].from == a && edges[k].to == b) || (edges[k].to == a && edges[k].from == b),
    ensures
        0 <= i < paths::hops_at(edges, ids, a).len(),
        paths::hops_at(edges, ids, a)[i].node == b,
    decreases edges.len(),
{
    let before = paths::hops_at(edges.drop_last(), ids, a);
    let all = paths::hops_at(edges, ids, a);
    if k < edges.len() - 1 {
        let i = lemma_hops_complete(edges.drop_last(), ids, a, b, k);
        assert(all[i] == before[i]);
        i
    } else {
        let e = edges.last();
        if e.from == a && e.to == b {
            assert(all[before.len() as int].node == b);
            before.len() as int
        } else {
            let i = all.len() - 1;
            assert(all[i].node == b);
            i
        }
    }
}

proof fn lemma_adjacent_hop(m: ModelView, a: Seq<char>, b: Seq<char>) -> (i: int)
    requires
        adjacent(m, a, b),
    ensures
        0 <= i < paths::ranked_hops(m, a).len(),
        paths::ranked_hops(m, a)[i].node == b,
{
    let (k, id) = choose|k: int, id: Seq<char>| #[trigger] paths::edge_between(m, k, id, a, b);
    let ids = filter::ids_of(m.nodes);
    assert(ids.contains(m.edges[k].from) && ids.contains(m.edges[k].to));
    let o = lemma_hops_complete(m.edges, ids, a, b, k);
    let hops = paths::hops_at(m.edges, ids, a);
    let keys = hops.map_values(paths::hop_rank(m.nodes));
    ranking::ranking_is_stable_sort(keys, keys.len() as int);
    let r = ranking::ranking(keys);
    assert(r.contains(o));
    let i = choose|i: int| 0 <= i < r.len() && r[i] == o;
    assert(paths::ranked_hops(m, a)[i] == hops[o]);
    i
}

proof fn lemma_walk_found(m: ModelView, start: Seq<char>, walk: Seq<Seq<char>>, n: int)
    requires
        m.has_node(start),
        is_walk(m, walk),
        walk[0] == start,
        0 <= n < walk.len(),
        n <= paths::search_depth(m),
    ensures
        found_within(paths::visits(m, start), walk[n], n as nat),
    decreases n,
{
    let most = paths::search_depth(m);
    let found = paths::visits(m, start);
    lemma_reached(m, start, most, m.nodes.len() as int);
    paths::no_more_found_than_nodes(m, found);
    if n == 0 {
        assert(found[0].id == start);
    } else {
        lemma_walk_found(m, start, walk, n - 1);
        let h = choose|h: int|
            0 <= h < found.len() && (#[trigger] found[h]).id == walk[n - 1] && found[h].depth <= n
                - 1;
        assert(adjacent(m, walk[n - 1], walk[n - 1 + 1]));
        let k = lemma_adjacent_hop(m, walk[n - 1], walk[n]);
        assert(found_within(
            found,
            paths::ranked_hops(m, found[h].id)[k].node,
            found[h].depth + 1,
        ));
        let j = choose|j: int|
            0 <= j < found.len() && (#[trigger] found[j]).id == walk[n] && found[j].depth
                <= found[h].depth + 1;
        assert(found[j].depth <= n);
    }
}

// ---------------------------------------------------------------------------
// Paths
// ---------------------------------------------------------------------------

proof fn lemma_way(m: ModelView, start: Seq<char>, found: Seq<VisitView>, i: int)
    requires
        sound(m, start, found),
        0 <= i < found.len(),
    ensures
        paths::way_edges(found, i).len() == found[i].depth,
        paths::way_nodes(found, i).len() == found[i].depth + 1,
        paths::way_nodes(found, i)[0] == start,
        paths::way_nodes(found, i).last() == found[i].id,
        follows_edges(m, paths::path_to(m, found, i)),
    decreases i,
{
    let p = paths::path_to(m, found, i);
    if i > 0 {
        lemma_parent_range(m, found, i);
        let o = found[i].parent;
        lemma_way(m, start, found, o);
        let q = paths::path_to(m, found, o);
        assert(found[i].depth == found[o].depth + 1);
        assert(came_along(m, found, i));
        assert forall|s: int| 0 <= s < p.edge_ids.len() implies #[trigger] steps_along(
            m,
            p,
            s,
        ) by {
            if s < q.edge_ids.len() {
                assert(steps_along(m, q, s));
                assert(p.edge_ids[s] == q.edge_ids[s]);
                assert(p.node_ids[s] == q.node_ids[s] && p.node_ids[s + 1] == q.node_ids[s + 1]);
            } else {
                let k = choose|k: int| #[trigger]
                    paths::edge_between(m, k, found[i].edge, found[o].id, found[i].id);
                assert(p.node_ids[s] == found[o].id);
                assert(p.node_ids[s + 1] == found[i].id);
                assert(paths::edge_between(
                    m,
                    k,
                    p.edge_ids[s],
                    p.node_ids[s],
                    p.node_ids[s + 1],
                ));
            }
        }
    } else {
        assert(p.edge_ids.len() == 0);
    }
}

proof fn lemma_useful_path_origin(
    m: ModelView,
    start: Seq<char>,
    found: Seq<VisitView>,
    n: int,
    i: int,
) -> (v: int)
    requires
        0 <= i < paths::useful_paths(m, start, found, n).len(),
    ensures
        1 <= v < n,
        paths::useful(m, start, found[v]),
        paths::useful_paths(m, start, found, n)[i] == paths::path_to(m, found, v),
    decreases n,
{
    let before = paths::useful_paths(m, start, found, n - 1);
    if i < before.len() {
        lemma_useful_path_origin(m, start, found, n - 1, i)
    } else {
        n - 1
    }
}

proof fn lemma_best_path_origin(m: ModelView, start: Seq<char>, limit: int, i: int) -> (v: int)
    requires
        0 <= i < paths::best_paths(m, start, limit).len(),
    ensures
        1 <= v < paths::visits(m, start).len(),
        paths::useful(m, start, paths::visits(m, start)[v]),
        paths::best_paths(m, start, limit)[i] == paths::path_to(m, paths::visits(m, start), v),
{
    let found = paths::visits(m, start);
    let all = paths::useful_paths(m, start, found, found.len() as int);
    let keys = all.map_values(paths::path_rank(m));
    ranking::ranking_is_stable_sort(keys, keys.len() as int);
    let r = ranking::ranking(keys);
    assert(r.contains(r[i]));
    assert(paths::best_paths(m, start, limit)[i] == all[r[i]]);
    lemma_useful_path_origin(m, start, found, found.len() as int, r[i])
}

/// Every path starts at the start, leads along edges of the graph, and has at least one step and
/// no more than the search goes deep. There are at most as many paths as asked for, and never
/// more than twelve.
pub proof fn paths_lead_along_edges(m: ModelView, start: Seq<char>, limit: int, i: int)
    requires
        0 <= i < paths::best_paths(m, start, limit).len(),
    ensures
        ({
            let p = paths::best_paths(m, start, limit)[i];
            &&& p.node_ids[0] == start
            &&& follows_edges(m, p)
            &&& 1 <= p.edge_ids.len() <= paths::search_depth(m)
        }),
        paths::best_paths(m, start, limit).len() <= filter::clamped(limit, 1, 12),
{
    let found = paths::visits(m, start);
    let v = lemma_best_path_origin(m, start, limit, i);
    lemma_reached(m, start, paths::search_depth(m), m.nodes.len() as int);
    lemma_way(m, start, found, v);
    paths::search_stays_within_depth(
        m,
        start,
        paths::search_depth(m),
        m.nodes.len() as int,
    );
    assert(found[v].depth == found[found[v].parent].depth + 1);
}

/// No walk from the start to the end of a path is shorter than the path.
pub proof fn paths_are_shortest(
    m: ModelView,
    start: Seq<char>,
    limit: int,
    i: int,
    walk: Seq<Seq<char>>,
)
    requires
        0 <= i < paths::best_paths(m, start, limit).len(),
        is_walk(m, walk),
        walk[0] == start,
        walk.last() == paths::best_paths(m, start, limit)[i].node_ids.last(),
    ensures
        walk.len() >= paths::best_paths(m, start, limit)[i].node_ids.len(),
{
    let most = paths::search_depth(m);
    let found = paths::visits(m, start);
    let v = lemma_best_path_origin(m, start, limit, i);
    lemma_reached(m, start, most, m.nodes.len() as int);
    lemma_way(m, start, found, v);
    paths::search_stays_within_depth(m, start, most, m.nodes.len() as int);
    let n = walk.len() - 1;
    if n <= most {
        lemma_walk_found(m, start, walk, n);
        let j = choose|j: int|
            0 <= j < found.len() && (#[trigger] found[j]).id == walk[n] && found[j].depth <= n;
        assert(found[v].id == walk[n]);
        if j < v {
            assert(found[j].id != found[v].id);
        }
        if v < j {
            assert(found[v].id != found[j].id);
        }
    }
}

/// Whatever a walk of no more steps than the search goes deep leads to is found.
pub proof fn search_finds_what_is_near(m: ModelView, start: Seq<char>, walk: Seq<Seq<char>>)
    requires
        m.has_node(start),
        is_walk(m, walk),
        walk[0] == start,
        walk.len() <= paths::search_depth(m) + 1,
    ensures
        paths::visited(paths::visits(m, start), walk.last()),
{
    let n = walk.len() - 1;
    lemma_walk_found(m, start, walk, n);
    let found = paths::visits(m, start);
    let j = choose|j: int|
        0 <= j < found.len() && (#[trigger] found[j]).id == walk[n] && found[j].depth <= n;
    assert(found[j].id == walk.last());
}

proof fn lemma_paths_are_ranked(m: ModelView, start: Seq<char>, limit: int, i: int, j: int)
    requires
        0 <= i < j < paths::best_paths(m, start, limit).len(),
    ensures
        ({
            let best = paths::best_paths(m, start, limit);
            !ranking::ranks_before(paths::path_rank(m)(best[j]), paths::path_rank(m)(best[i]))
        }),
{
    let found = paths::visits(m, start);
    let all = paths::useful_paths(m, start, found, found.len() as int);
    let rank_of = paths::path_rank(m);
    let keys = all.map_values(rank_of);
    ranking::ranking_is_stable_sort(keys, keys.len() as int);
    let r = ranking::ranking(keys);
    let ranked = ranking::ranking_of(keys, keys.len() as int);
    assert(ranking::comes_first(keys, ranked[i], ranked[j]));
    assert(r.contains(r[i]) && r.contains(r[j]));
    assert(keys[r[i]] == rank_of(all[r[i]]));
    assert(keys[r[j]] == rank_of(all[r[j]]));
    assert(!ranking::ranks_before(keys[r[j]], keys[r[i]]));
}

/// A better path comes first.
pub proof fn better_paths_come_first(m: ModelView, start: Seq<char>, limit: int, i: int, j: int)
    requires
        0 <= i < j < paths::best_paths(m, start, limit).len(),
    ensures
        paths::best_paths(m, start, limit)[i].score >= paths::best_paths(m, start, limit)[j].score,
{
    lemma_paths_are_ranked(m, start, limit, i, j);
}

/// Of paths with equal scores the shorter comes first; of such of one length, the one whose end
/// has the lesser label.
pub proof fn shorter_of_equal_paths_come_first(
    m: ModelView,
    start: Seq<char>,
    limit: int,
    i: int,
    j: int,
)
    requires
        0 <= i < j < paths::best_paths(m, start, limit).len(),
        paths::best_paths(m, start, limit)[i].score == paths::best_paths(m, start, limit)[j].score,
    ensures
        ({
            let a = paths::best_paths(m, start, limit)[i];
            let b = paths::best_paths(m, start, limit)[j];
            &&& a.edge_ids.len() <= b.edge_ids.len()
            &&& a.edge_ids.len() == b.edge_ids.len() ==> !order::text_before(
                graph::label_of(m.nodes, b.node_ids.last()),
                graph::label_of(m.nodes, a.node_ids.last()),
            )
        }),
{
    lemma_paths_are_ranked(m, start, limit, i, j);
    let a = graph::label_of(m.nodes, paths::best_paths(m, start, limit)[i].node_ids.last());
    order::KeyOrder::irreflexive(a);
}

// ---------------------------------------------------------------------------
// What a path is worth
// ---------------------------------------------------------------------------

/// What the end of a path adds to its score by its kind.
pub open spec fn worth_of_end(kind: GraphNodeKind) -> int {
    match kind {
        GraphNodeKind::Cluster => 900,
        GraphNodeKind::CodeFile => 800,
        GraphNodeKind::Memory => 800,
        GraphNodeKind::CodeSymbol => 700,
        GraphNodeKind::Entity => 700,
        GraphNodeKind::Type => 600,
        GraphNodeKind::Fact => 400,
    }
}

/// What edges weigh at a node, each as often as it ends there, and one at least each; edges that
/// do not join two nodes of the graph weigh nothing.
pub open spec fn pull(m: ModelView, edges: Seq<EdgeView>, id: Seq<char>) -> int
    decreases edges.len(),
{
    if edges.len() == 0 {
        0
    } else {
        let e = edges.last();
        let weight: int = if e.weight == 0 {
            1
        } else {
            e.weight as int
        };
        pull(m, edges.drop_last(), id) + (if !m.has_node(e.from) || !m.has_node(e.to) {
            0int
        } else if e.from == id && e.to == id {
            weight + weight
        } else if e.from == id || e.to == id {
            weight
        } else {
            0
        })
    }
}

/// What the edges with some ids weigh, each one at least.
pub open spec fn weight_along(edges: Seq<EdgeView>, ids: Seq<Seq<char>>) -> int
    decreases edges.len(),
{
    if edges.len() == 0 {
        0
    } else {
        let e = edges.last();
        weight_along(edges.drop_last(), ids) + (if !ids.contains(e.id) {
            0int
        } else if e.weight == 0 {
            1
        } else {
            e.weight as int
        })
    }
}

proof fn lemma_pull(m: ModelView, edges: Seq<EdgeView>, id: Seq<char>)
    ensures
        pull(m, edges, id) == paths::weight_at(edges, filter::ids_of(m.nodes), id),
    decreases edges.len(),
{
    if edges.len() > 0 {
        lemma_pull(m, edges.drop_last(), id);
        let e = edges.last();
        assert(filter::ids_of(m.nodes).contains(e.from) <==> m.has_node(e.from));
        assert(filter::ids_of(m.nodes).contains(e.to) <==> m.has_node(e.to));
    }
}

proof fn lemma_weight_along(edges: Seq<EdgeView>, ids: Seq<Seq<char>>)
    ensures
        weight_along(edges, ids) == paths::way_weight(edges, ids),
    decreases edges.len(),
{
    if edges.len() > 0 {
        lemma_weight_along(edges.drop_last(), ids);
    }
}

proof fn lemma_kind(nodes: Seq<NodeView>, k: int)
    requires
        0 <= k < nodes.len(),
        forall|i: int, j: int|
            0 <= i < j < nodes.len() ==> (#[trigger] nodes[i]).id != (#[trigger] nodes[j]).id,
    ensures
        paths::kind_of(nodes, nodes[k].id) == Some(nodes[k].kind),
    decreases nodes.len(),
{
    if k < nodes.len() - 1 {
        let front = nodes.drop_last();
        assert(nodes[nodes.len() - 1].id != nodes[k].id);
        assert(front[k] == nodes[k]);
        lemma_kind(front, k);
    }
}

/// A path is worth what its end is worth by its kind, six times what edges weigh there, and what
/// its own edges weigh, less eighteen for each step.
pub proof fn paths_are_worth_their_ends(
    m: ModelView,
    start: Seq<char>,
    limit: int,
    i: int,
    k: int,
)
    requires
        m.unique_nodes(),
        0 <= i < paths::best_paths(m, start, limit).len(),
        0 <= k < m.nodes.len(),
        m.nodes[k].id == paths::best_paths(m, start, limit)[i].node_ids.last(),
    ensures
        ({
            let p = paths::best_paths(m, start, limit)[i];
            p.score == worth_of_end(m.nodes[k].kind) + 6 * pull(m, m.edges, m.nodes[k].id) - 18
                * p.edge_ids.len() + weight_along(m.edges, p.edge_ids)
        }),
{
    let found = paths::visits(m, start);
    let v = lemma_best_path_origin(m, start, limit, i);
    lemma_reached(m, start, paths::search_depth(m), m.nodes.len() as int);
    lemma_way(m, start, found, v);
    lemma_kind(m.nodes, k);
    lemma_pull(m, m.edges, m.nodes[k].id);
    lemma_weight_along(m.edges, paths::way_edges(found, v));
}

/// The end of a path is one step away, or of another kind than the start, or edges weigh three at
/// least there.
pub proof fn paths_end_where_it_is_useful(
    m: ModelView,
    start: Seq<char>,
    limit: int,
    i: int,
    s: int,
    k: int,
)
    requires
        m.unique_nodes(),
        0 <= i < paths::best_paths(m, start, limit).len(),
        0 <= s < m.nodes.len(),
        m.nodes[s].id == start,
        0 <= k < m.nodes.len(),
        m.nodes[k].id == paths::best_paths(m, start, limit)[i].node_ids.last(),
    ensures
        paths::best_paths(m, start, limit)[i].edge_ids.len() == 1 || m.nodes[k].kind
            != m.nodes[s].kind || pull(m, m.edges, m.nodes[k].id) >= 3,
{
    let found = paths::visits(m, start);
    let v = lemma_best_path_origin(m, start, limit, i);
    lemma_reached(m, start, paths::search_depth(m), m.nodes.len() as int);
    lemma_way(m, start, found, v);
    lemma_kind(m.nodes, k);
    lemma_kind(m.nodes, s);
    lemma_pull(m, m.edges, m.nodes[k].id);
}

proof fn lemma_useful_path(
    m: ModelView,
    start: Seq<char>,
    found: Seq<VisitView>,
    n: int,
    v: int,
) -> (i: int)
    requires
        1 <= v < n,
        paths::useful(m, start, found[v]),
    ensures
        0 <= i < paths::useful_paths(m, start, found, n).len(),
        paths::useful_paths(m, start, found, n)[i] == paths::path_to(m, found, v),
    decreases n,
{
    if v == n - 1 {
        paths::useful_paths(m, start, found, n - 1).len() as int
    } else {
        lemma_useful_path(m, start, found, n - 1, v)
    }
}

/// Where fewer paths are shown than asked for, there is one to every other node that a walk of as
/// many steps as the search goes deep leads to, and that is next to the start, of another kind, or
/// of weight three at least.
pub proof fn useful_ends_have_their_path(
    m: ModelView,
    start: Seq<char>,
    limit: int,
    walk: Seq<Seq<char>>,
    s: int,
    k: int,
)
    requires
        m.unique_nodes(),
        0 <= s < m.nodes.len(),
        m.nodes[s].id == start,
        0 <= k < m.nodes.len(),
        m.nodes[k].id == walk.last(),
        k != s,
        is_walk(m, walk),
        walk[0] == start,
        walk.len() <= paths::search_depth(m) + 1,
        walk.len() == 2 || m.nodes[k].kind != m.nodes[s].kind || pull(
            m,
            m.edges,
            m.nodes[k].id,
        ) >= 3,
        paths::best_paths(m, start, limit).len() <= 11,
        paths::best_paths(m, start, limit).len() <= limit - 1,
    ensures
        exists|i: int|
            0 <= i < paths::best_paths(m, start, limit).len() && (
            #[trigger] paths::best_paths(m, start, limit)[i]).node_ids.last() == walk.last(),
{
    let n = walk.len() - 1;
    let found = paths::visits(m, start);
    assert(m.has_node(start));
    lemma_walk_found(m, start, walk, n);
    lemma_reached(m, start, paths::search_depth(m), m.nodes.len() as int);
    let v = choose|v: int|
        0 <= v < found.len() && (#[trigger] found[v]).id == walk[n] && found[v].depth <= n;
    assert(m.nodes[s].id != m.nodes[k].id);
    assert(found[0].id == start);
    assert(v > 0);
    assert(found[v].depth == found[found[v].parent].depth + 1);
    lemma_way(m, start, found, v);
    lemma_kind(m.nodes, k);
    lemma_kind(m.nodes, s);
    lemma_pull(m, m.edges, m.nodes[k].id);
    assert(paths::useful(m, start, found[v]));
    let all = paths::useful_paths(m, start, found, found.len() as int);
    let a = lemma_useful_path(m, start, found, found.len() as int, v);
    let keys = all.map_values(paths::path_rank(m));
    ranking::ranking_is_stable_sort(keys, keys.len() as int);
    let r = ranking::ranking(keys);
    assert(ranking::ranking_of(keys, keys.len() as int).contains(a));
    let i = choose|i: int| 0 <= i < r.len() && r[i] == a;
    let ranked = ranking::picked(all, r);
    assert(ranked[i] == all[a]);
    assert(paths::best_paths(m, start, limit) == ranked);
    assert(paths::best_paths(m, start, limit)[i].node_ids.last() == walk.last());
}

/// Where paths are left out, none of them is worth more than one that is shown, or as much with
/// fewer steps.
pub proof fn paths_that_are_shown_are_the_best(
    m: ModelView,
    start: Seq<char>,
    limit: int,
    v: int,
    i: int,
)
    requires
        m.has_node(start),
        1 <= v < paths::visits(m, start).len(),
        paths::useful(m, start, paths::visits(m, start)[v]),
        0 <= i < paths::best_paths(m, start, limit).len(),
    ensures
        ({
            let p = paths::path_to(m, paths::visits(m, start), v);
            let best = paths::best_paths(m, start, limit);
            best.contains(p) || best[i].score > p.score || (best[i].score == p.score
                && best[i].edge_ids.len() <= p.edge_ids.len())
        }),
{
    let found = paths::visits(m, start);
    let all = paths::useful_paths(m, start, found, found.len() as int);
    let a = lemma_useful_path(m, start, found, found.len() as int, v);
    let rank_of = paths::path_rank(m);
    let keys = all.map_values(rank_of);
    ranking::ranking_is_stable_sort(keys, keys.len() as int);
    let r = ranking::ranking(keys);
    let ranked = ranking::ranking_of(keys, keys.len() as int);
    assert(ranked.contains(a));
    let at = choose|at: int| 0 <= at < r.len() && r[at] == a;
    let best = paths::best_paths(m, start, limit);
    let shown = ranking::picked(all, r);
    assert(shown[at] == all[a]);
    assert(r.contains(r[i]));
    assert(best[i] == all[r[i]]);
    if at < best.len() {
        assert(best[at] == all[a]);
    } else {
        assert(ranking::comes_first(keys, ranked[i], ranked[at]));
        assert(keys[r[i]] == rank_of(all[r[i]]));
        assert(keys[a] == rank_of(all[a]));
        assert(!ranking::ranks_before(keys[a], keys[r[i]]));
    }
}

/// The search goes four steps deep, and three in a graph of more than 120 nodes.
pub proof fn search_goes_three_or_four_steps(m: ModelView)
    ensures
        m.nodes.len() <= 120 ==> paths::search_depth(m) == 4,
        m.nodes.len() > 120 ==> paths::search_depth(m) == 3,
{
}

/// From a node the search first goes to what is worth more by its kind, and of nodes of equal worth
/// to the one whose id comes first.
pub proof fn worthwhile_neighbours_come_first(
    m: ModelView,
    at: Seq<char>,
    i: int,
    j: int,
    a: int,
    b: int,
)
    requires
        m.unique_nodes(),
        0 <= i < j < paths::ranked_hops(m, at).len(),
        0 <= a < m.nodes.len(),
        0 <= b < m.nodes.len(),
        m.nodes[a].id == paths::ranked_hops(m, at)[i].node,
        m.nodes[b].id == paths::ranked_hops(m, at)[j].node,
    ensures
        worth_of_end(m.nodes[a].kind) >= worth_of_end(m.nodes[b].kind),
        worth_of_end(m.nodes[a].kind) == worth_of_end(m.nodes[b].kind) ==> !order::text_before(
            m.nodes[b].id,
            m.nodes[a].id,
        ),
{
    lemma_kind(m.nodes, a);
    lemma_kind(m.nodes, b);
    let hops = paths::hops_at(m.edges, filter::ids_of(m.nodes), at);
    let rank_of = paths::hop_rank(m.nodes);
    let keys = hops.map_values(rank_of);
    ranking::ranking_is_stable_sort(keys, keys.len() as int);
    let r = ranking::ranking(keys);
    let ranked = ranking::ranking_of(keys, keys.len() as int);
    assert(ranking::comes_first(keys, ranked[i], ranked[j]));
    assert(r.contains(r[i]) && r.contains(r[j]));
    assert(keys[r[i]] == rank_of(hops[r[i]]));
    assert(keys[r[j]] == rank_of(hops[r[j]]));
    assert(!ranking::ranks_before(keys[r[j]], keys[r[i]]));
    order::KeyOrder::irreflexive(m.nodes[a].id);
}

proof fn lemma_edge_by_id(edges: Seq<EdgeView>, k: int)
    requires
        0 <= k < edges.len(),
        forall|i: int, j: int|
            0 <= i < j < edges.len() ==> (#[trigger] edges[i]).id != (#[trigger] edges[j]).id,
    ensures
        filter::edge_by_id(edges, edges[k].id) == Some(edges[k]),
    decreases k,
{
    if k > 0 {
        assert(edges[0].id != edges[k].id);
        let rest = edges.drop_first();
        assert(rest[k - 1] == edges[k]);
        assert forall|i: int, j: int| 0 <= i < j < rest.len() implies (#[trigger] rest[i]).id != (
        #[trigger] rest[j]).id by {
            assert(rest[i] == edges[i + 1] && rest[j] == edges[j + 1]);
        }
        lemma_edge_by_id(rest, k - 1);
    }
}

/// A step of a path is told with an arrow the way its edge leads.
pub proof fn steps_are_told_the_way_their_edge_leads(
    m: ModelView,
    from: Seq<char>,
    to: Seq<char>,
    k: int,
)
    requires
        m.unique_edges(),
        0 <= k < m.edges.len(),
        from != to,
    ensures
        ({
            let e = m.edges[k];
            let target = text::truncated(graph::label_of(m.nodes, to), 24);
            let words = text::truncated(e.label, 18);
            &&& e.from == from && e.to == to ==> paths::step_text(m, from, to, e.id) == " -"@
                + words + "→ "@ + target
            &&& e.from == to && e.to == from ==> paths::step_text(m, from, to, e.id) == " ←"@
                + words + "- "@ + target
        }),
{
    lemma_edge_by_id(m.edges, k);
}

proof fn lemma_label(nodes: Seq<NodeView>, k: int)
    requires
        0 <= k < nodes.len(),
        forall|i: int, j: int|
            0 <= i < j < nodes.len() ==> (#[trigger] nodes[i]).id != (#[trigger] nodes[j]).id,
    ensures
        graph::label_of(nodes, nodes[k].id) == nodes[k].label,
    decreases k,
{
    if k > 0 {
        assert(nodes[0].id != nodes[k].id);
        let rest = nodes.drop_first();
        assert(rest[k - 1] == nodes[k]);
        assert forall|i: int, j: int| 0 <= i < j < rest.len() implies (#[trigger] rest[i]).id != (
        #[trigger] rest[j]).id by {
            assert(rest[i] == nodes[i + 1] && rest[j] == nodes[j + 1]);
        }
        lemma_label(rest, k - 1);
    }
}

/// A node is called by its label, and what is no node of the graph by its id.
pub proof fn nodes_are_called_by_their_label(m: ModelView, k: int, other: Seq<char>)
    requires
        m.unique_nodes(),
        0 <= k < m.nodes.len(),
        !m.has_node(other),
    ensures
        graph::label_of(m.nodes, m.nodes[k].id) == m.nodes[k].label,
        graph::label_of(m.nodes, other) == other,
{
    lemma_label(m.nodes, k);
    lemma_no_label(m.nodes, other);
}

proof fn lemma_no_label(nodes: Seq<NodeView>, id: Seq<char>)
    requires
        forall|i: int| 0 <= i < nodes.len() ==> (#[trigger] nodes[i]).id != id,
    ensures
        graph::label_of(nodes, id) == id,
    decreases nodes.len(),
{
    if nodes.len() > 0 {
        let rest = nodes.drop_first();
        assert forall|i: int| 0 <= i < rest.len() implies (#[trigger] rest[i]).id != id by {
            assert(rest[i] == nodes[i + 1]);
        }
        lemma_no_label(rest, id);
    }
}

} // verus!
