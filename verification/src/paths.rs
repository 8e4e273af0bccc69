//! Explainable paths: how a node is joined to others that are worth knowing.
use vstd::prelude::*;
use crate::filter::{collect_ids, find_edge};
use crate::graph::{node_label, EdgeView, GraphEdge, GraphModel, GraphNode, GraphNodeKind, ModelView, NodeView};
use crate::order::TextSet;
use crate::ranking::{rank, RankKey, RankView};
use crate::text::{copy_texts, decimal, owned, truncate_text};
use crate::{filter, graph, ranking, text};

verus! {

/// A path from one node to another.
#[derive(Debug, Clone, PartialEq, Eq)]
pub struct ExplainablePath {
    pub node_ids: Vec<String>,
    pub edge_ids: Vec<String>,
    pub score: usize,
}

/// A path by its texts.
#[verifier::ext_equal]
pub struct PathView {
    pub node_ids: Seq<Seq<char>>,
    pub edge_ids: Seq<Seq<char>>,
    pub score: int,
}

impl View for ExplainablePath {
    type V = PathView;

    open spec fn view(&self) -> PathView {
        PathView {
            node_ids: text::texts(self.node_ids@),
            edge_ids: text::texts(self.edge_ids@),
            score: self.score as int,
        }
    }
}

/// The views of paths.
pub open spec fn path_views(s: Seq<ExplainablePath>) -> Seq<PathView> {
    s.map_values(|p: ExplainablePath| p@)
}

// ---------------------------------------------------------------------------
// Nodes
// ---------------------------------------------------------------------------

/// How much a kind of node is worth being led to.
pub open spec fn target_priority(kind: GraphNodeKind) -> nat {
    match kind {
        GraphNodeKind::Cluster => 9,
        GraphNodeKind::CodeFile => 8,
        GraphNodeKind::Memory => 8,
        GraphNodeKind::CodeSymbol => 7,
        GraphNodeKind::Entity => 7,
        GraphNodeKind::Type => 6,
        GraphNodeKind::Fact => 4,
    }
}

/// How much a kind of node is worth being led to.
pub fn explain_target_priority(kind: GraphNodeKind) -> (r: usize)
    ensures
        r == target_priority(kind),
        4 <= r <= 9,
{
    match kind {
        GraphNodeKind::Cluster => 9,
        GraphNodeKind::CodeFile => 8,
        GraphNodeKind::Memory => 8,
        GraphNodeKind::CodeSymbol => 7,
        GraphNodeKind::Entity => 7,
        GraphNodeKind::Type => 6,
        GraphNodeKind::Fact => 4,
    }
}

/// The kind of the last node with the id.
pub open spec fn kind_of(nodes: Seq<NodeView>, id: Seq<char>) -> Option<GraphNodeKind>
    decreases nodes.len(),
{
    if nodes.len() == 0 {
        None
    } else if nodes.last().id == id {
        Some(nodes.last().kind)
    } else {
        kind_of(nodes.drop_last(), id)
    }
}

/// How much the node with the id is worth being led to.
pub open spec fn priority_at(nodes: Seq<NodeView>, id: Seq<char>) -> nat {
    match kind_of(nodes, id) {
        Some(kind) => target_priority(kind),
        None => 0,
    }
}

/// The kind of the last node with the id.
fn find_kind(nodes: &Vec<GraphNode>, id: &String) -> (r: Option<GraphNodeKind>)
    ensures
        r == kind_of(graph::node_views(nodes@), id@),
{
    let ghost views = graph::node_views(nodes@);
    let mut i: usize = nodes.len();
    assert(views.take(i as int) =~= views);
    while i > 0
        invariant
            i <= nodes.len(),
            views == graph::node_views(nodes@),
            kind_of(views, id@) == kind_of(views.take(i as int), id@),
        decreases i,
    {
        assert(views.take(i as int).last() == nodes@[i - 1]@);
        assert(views.take(i as int).drop_last() =~= views.take(i - 1));
        if nodes[i - 1].id == *id {
            return Some(nodes[i - 1].kind);
        }
        i -= 1;
    }
    None
}

// ---------------------------------------------------------------------------
// Neighbours
// ---------------------------------------------------------------------------

/// A step along an edge to a node.
pub struct HopView {
    pub node: Seq<char>,
    pub edge: Seq<char>,
}

/// Whether an edge joins two nodes of the set.
pub open spec fn joins(ids: Set<Seq<char>>, e: EdgeView) -> bool {
    ids.contains(e.from) && ids.contains(e.to)
}

/// Hops with those that an edge offers at a node, in either direction.
pub open spec fn with_hops_of(
    hops: Seq<HopView>,
    ids: Set<Seq<char>>,
    e: EdgeView,
    at: Seq<char>,
) -> Seq<HopView> {
    let forth = if joins(ids, e) && e.from == at {
        hops.push(HopView { node: e.to, edge: e.id })
    } else {
        hops
    };
    if joins(ids, e) && e.to == at {
        forth.push(HopView { node: e.from, edge: e.id })
    } else {
        forth
    }
}

/// The hops that edges offer at a node, in the order of the edges.
pub open spec fn hops_at(
    edges: Seq<EdgeView>,
    ids: Set<Seq<char>>,
    at: Seq<char>,
) -> Seq<HopView>
    decreases edges.len(),
{
    if edges.len() == 0 {
        Seq::empty()
    } else {
        with_hops_of(hops_at(edges.drop_last(), ids, at), ids, edges.last(), at)
    }
}

/// What a hop is ranked by: the worth of the node it leads to, then its id.
pub open spec fn hop_rank(nodes: Seq<NodeView>) -> spec_fn(HopView) -> RankView {
    |h: HopView|
        RankView {
            score: priority_at(nodes, h.node) as int,
            length: 0,
            first: h.node,
            second: Seq::empty(),
        }
}

/// The hops at a node, the most worthwhile first.
pub open spec fn ranked_hops(m: ModelView, at: Seq<char>) -> Seq<HopView> {
    let hops = hops_at(m.edges, filter::ids_of(m.nodes), at);
    ranking::picked(hops, ranking::ranking(hops.map_values(hop_rank(m.nodes))))
}

/// A step along an edge to a node.
struct Hop {
    node: String,
    edge: String,
}

impl View for Hop {
    type V = HopView;

    closed spec fn view(&self) -> HopView {
        HopView { node: self.node@, edge: self.edge@ }
    }
}

/// The views of hops.
spec fn hop_views(s: Seq<Hop>) -> Seq<HopView> {
    s.map_values(|h: Hop| h@)
}

/// The hops that edges offer at a node, in the order of the edges.
fn collect_hops(edges: &Vec<GraphEdge>, ids: &TextSet, at: &String) -> (r: Vec<Hop>)
    requires
        ids.wf(),
    ensures
        hop_views(r@) == hops_at(graph::edge_views(edges@), ids@, at@),
{
    let ghost views = graph::edge_views(edges@);
    let mut r: Vec<Hop> = Vec::new();
    let mut i: usize = 0;
    assert(views.take(0) =~= Seq::<EdgeView>::empty());
    assert(hop_views(r@) =~= Seq::<HopView>::empty());
    while i < edges.len()
        invariant
            i <= edges.len(),
            ids.wf(),
            views == graph::edge_views(edges@),
            hop_views(r@) == hops_at(views.take(i as int), ids@, at@),
        decreases edges.len() - i,
    {
        let ghost start = r@;
        assert(views.take(i + 1).drop_last() =~= views.take(i as int));
        assert(views.take(i + 1).last() == edges@[i as int]@);
        if ids.contains(&edges[i].from) && ids.contains(&edges[i].to) {
            if edges[i].from == *at {
                r.push(Hop { node: edges[i].to.clone(), edge: edges[i].id.clone() });
                assert(hop_views(r@) =~= hop_views(start).push(r@[start.len() as int]@));
            }
            let ghost middle = r@;
            if edges[i].to == *at {
                r.push(Hop { node: edges[i].from.clone(), edge: edges[i].id.clone() });
                assert(hop_views(r@) =~= hop_views(middle).push(r@[middle.len() as int]@));
            }
        }
        i += 1;
    }
    assert(views.take(i as int) =~= views);
    r
}

/// The hops at a node, the most worthwhile first.
fn rank_hops(model: &GraphModel, ids: &TextSet, at: &String) -> (r: Vec<Hop>)
    requires
        ids.wf(),
        ids@ == filter::ids_of(model@.nodes),
    ensures
        hop_views(r@) == ranked_hops(model@, at@),
{
    let hops = collect_hops(&model.edges, ids, at);
    let ghost rank_of = hop_rank(model@.nodes);
    let ghost views = hop_views(hops@);
    let mut keys: Vec<RankKey> = Vec::new();
    let mut i: usize = 0;
    while i < hops.len()
        invariant
            i <= hops.len(),
            views == hop_views(hops@),
            rank_of == hop_rank(model@.nodes),
            keys.len() == i,
            forall|j: int| 0 <= j < i ==> (#[trigger] keys@[j])@ == rank_of(views[j]),
        decreases hops.len() - i,
    {
        let priority: usize = match find_kind(&model.nodes, &hops[i].node) {
            Some(kind) => explain_target_priority(kind),
            None => 0,
        };
        assert(views[i as int] == hops@[i as int]@);
        keys.push(
            RankKey {
                score: priority as i128,
                length: 0,
                first: hops[i].node.clone(),
                second: String::new(),
            },
        );
        i += 1;
    }
    assert(ranking::key_views(keys@) =~= views.map_values(rank_of));
    let ranked = rank(&keys);
    let ghost all = ranking::as_ints(ranked@);
    let mut r: Vec<Hop> = Vec::new();
    let mut k: usize = 0;
    while k < ranked.len()
        invariant
            k <= ranked.len(),
            ranked.len() == hops.len(),
            views == hop_views(hops@),
            forall|j: int| 0 <= j < ranked@.len() ==> #[trigger] ranked@[j] < hops@.len(),
            r.len() == k,
            forall|j: int| 0 <= j < k ==> (#[trigger] r@[j])@ == views[ranked@[j] as int],
        decreases ranked.len() - k,
    {
        let from = &hops[ranked[k]];
        r.push(Hop { node: from.node.clone(), edge: from.edge.clone() });
        k += 1;
    }
    assert(hop_views(r@) =~= ranking::picked(views, all));
    r
}

// ---------------------------------------------------------------------------
// The search
// ---------------------------------------------------------------------------

/// A node that the search found: how far from the start, from which one, and along which edge.
pub struct VisitView {
    pub id: Seq<char>,
    pub depth: nat,
    pub parent: int,
    pub edge: Seq<char>,
}

/// Whether a node was found.
pub open spec fn visited(found: Seq<VisitView>, id: Seq<char>) -> bool {
    exists|i: int| 0 <= i < found.len() && (#[trigger] found[i]).id == id
}

/// The nodes found so far with those that the first `n` hops from one of them lead to.
pub open spec fn with_hops(
    found: Seq<VisitView>,
    hops: Seq<HopView>,
    from: int,
    n: int,
) -> Seq<VisitView>
    decreases n,
{
    if n <= 0 {
        found
    } else {
        let before = with_hops(found, hops, from, n - 1);
        let hop = hops[n - 1];
        if visited(before, hop.node) {
            before
        } else {
            before.push(
                VisitView {
                    id: hop.node,
                    depth: found[from].depth + 1,
                    parent: from,
                    edge: hop.edge,
                },
            )
        }
    }
}

/// The nodes found so far with those that lie one hop from the one at `at`, unless that is at the
/// greatest depth.
pub open spec fn expanded(
    m: ModelView,
    found: Seq<VisitView>,
    at: int,
    max_depth: nat,
) -> Seq<VisitView> {
    if 0 <= at < found.len() && found[at].depth < max_depth {
        let hops = ranked_hops(m, found[at].id);
        with_hops(found, hops, at, hops.len() as int)
    } else {
        found
    }
}

/// The nodes found from the start when the first `n` of them have been expanded.
pub open spec fn explored(
    m: ModelView,
    start: Seq<char>,
    max_depth: nat,
    n: int,
) -> Seq<VisitView>
    decreases n,
{
    if n <= 0 {
        seq![VisitView { id: start, depth: 0, parent: 0, edge: Seq::empty() }]
    } else {
        expanded(m, explored(m, start, max_depth, n - 1), n - 1, max_depth)
    }
}

/// How far the search goes: less far in a large graph.
pub open spec fn search_depth(m: ModelView) -> nat {
    if m.nodes.len() > 120 {
        3
    } else {
        4
    }
}

/// All nodes that the search finds from the start, nearer ones first.
pub open spec fn visits(m: ModelView, start: Seq<char>) -> Seq<VisitView> {
    explored(m, start, search_depth(m), m.nodes.len() as int)
}

/// Every node was found once and is a node of the graph.
pub open spec fn found_once(m: ModelView, found: Seq<VisitView>) -> bool {
    &&& found.len() > 0
    &&& forall|i: int, j: int|
        0 <= i < j < found.len() ==> (#[trigger] found[i]).id != (#[trigger] found[j]).id
    &&& forall|i: int| 0 <= i < found.len() ==> m.has_node((#[trigger] found[i]).id)
    &&& forall|i: int| 0 <= i < found.len() ==> 0 <= (#[trigger] found[i]).parent <= i
    &&& forall|i: int| 0 < i < found.len() ==> (#[trigger] found[i]).parent < i
}

proof fn lemma_hops_lead_to_nodes(edges: Seq<EdgeView>, ids: Set<Seq<char>>, at: Seq<char>, i: int)
    requires
        0 <= i < hops_at(edges, ids, at).len(),
    ensures
        ids.contains(hops_at(edges, ids, at)[i].node),
        exists|k: int|
            0 <= k < edges.len() && joins(ids, #[trigger] edges[k]) && edges[k].id == hops_at(
                edges,
                ids,
                at,
            )[i].edge && ((edges[k].from == at && edges[k].to == hops_at(edges, ids, at)[i].node)
                || (edges[k].to == at && edges[k].from == hops_at(edges, ids, at)[i].node)),
    decreases edges.len(),
{
    if edges.len() > 0 {
        let before = hops_at(edges.drop_last(), ids, at);
        let hop = hops_at(edges, ids, at)[i];
        if i < before.len() {
            lemma_hops_lead_to_nodes(edges.drop_last(), ids, at, i);
            let front = edges.drop_last();
            let k = choose|k: int|
                0 <= k < front.len() && joins(ids, #[trigger] front[k]) && front[k].id
                    == before[i].edge && ((front[k].from == at && front[k].to == before[i].node)
                    || (front[k].to == at && front[k].from == before[i].node));
            assert(edges[k] == front[k]);
            assert(hop == before[i]);
        } else {
            assert(edges[edges.len() - 1] == edges.last());
        }
    }
}

/// Each ranked hop is along an edge between the node and one of the graph.
pub proof fn ranked_hops_follow_edges(m: ModelView, at: Seq<char>, i: int)
    requires
        0 <= i < ranked_hops(m, at).len(),
    ensures
        m.has_node(ranked_hops(m, at)[i].node),
        exists|k: int| #[trigger]
            edge_between(m, k, ranked_hops(m, at)[i].edge, at, ranked_hops(m, at)[i].node),
{
    let ids = filter::ids_of(m.nodes);
    let hops = hops_at(m.edges, ids, at);
    let keys = hops.map_values(hop_rank(m.nodes));
    ranking::ranking_is_stable_sort(keys, keys.len() as int);
    let r = ranking::ranking(keys);
    assert(r.contains(r[i]));
    lemma_hops_lead_to_nodes(m.edges, ids, at, r[i]);
    let hop = hops[r[i]];
    assert(ranked_hops(m, at)[i] == hop);
    let k = choose|k: int|
        0 <= k < m.edges.len() && joins(ids, #[trigger] m.edges[k]) && m.edges[k].id == hop.edge
            && ((m.edges[k].from == at && m.edges[k].to == hop.node) || (m.edges[k].to == at
            && m.edges[k].from == hop.node));
    assert(edge_between(m, k, hop.edge, at, hop.node));
}

/// Whether the edge at `k` has the id and joins two nodes of the graph, in either direction.
pub open spec fn edge_between(
    m: ModelView,
    k: int,
    id: Seq<char>,
    a: Seq<char>,
    b: Seq<char>,
) -> bool {
    &&& 0 <= k < m.edges.len()
    &&& m.edges[k].id == id
    &&& m.has_node(m.edges[k].from)
    &&& m.has_node(m.edges[k].to)
    &&& (m.edges[k].from == a && m.edges[k].to == b) || (m.edges[k].to == a && m.edges[k].from
        == b)
}

proof fn lemma_with_hops_found_once(
    m: ModelView,
    found: Seq<VisitView>,
    at: int,
    n: int,
)
    requires
        found_once(m, found),
        0 <= at < found.len(),
        0 <= n <= ranked_hops(m, found[at].id).len(),
    ensures
        found_once(m, with_hops(found, ranked_hops(m, found[at].id), at, n)),
        with_hops(found, ranked_hops(m, found[at].id), at, n).len() >= found.len(),
        with_hops(found, ranked_hops(m, found[at].id), at, n).take(found.len() as int) == found,
    decreases n,
{
    let hops = ranked_hops(m, found[at].id);
    if n > 0 {
        lemma_with_hops_found_once(m, found, at, n - 1);
        ranked_hops_follow_edges(m, found[at].id, n - 1);
        let before = with_hops(found, hops, at, n - 1);
        let after = with_hops(found, hops, at, n);
        if !visited(before, hops[n - 1].node) {
            assert(after.take(found.len() as int) =~= before.take(found.len() as int));
            assert forall|i: int, j: int| 0 <= i < j < after.len() implies (
            #[trigger] after[i]).id != (#[trigger] after[j]).id by {
                if j < before.len() {
                    assert(after[i] == before[i] && after[j] == before[j]);
                } else {
                    assert(after[i] == before[i]);
                }
            }
            assert forall|i: int| 0 <= i < after.len() implies m.has_node(
                (#[trigger] after[i]).id,
            ) && 0 <= after[i].parent <= i && (0 < i ==> after[i].parent < i) by {
                if i < before.len() {
                    assert(after[i] == before[i]);
                }
            }
        }
    } else {
        assert(found.take(found.len() as int) =~= found);
    }
}

proof fn lemma_expanded_found_once(m: ModelView, found: Seq<VisitView>, at: int, max_depth: nat)
    requires
        found_once(m, found),
        0 <= at,
    ensures
        found_once(m, expanded(m, found, at, max_depth)),
        expanded(m, found, at, max_depth).len() >= found.len(),
        expanded(m, found, at, max_depth).take(found.len() as int) == found,
{
    if at < found.len() && found[at].depth < max_depth {
        lemma_with_hops_found_once(
            m,
            found,
            at,
            ranked_hops(m, found[at].id).len() as int,
        );
    } else {
        assert(found.take(found.len() as int) =~= found);
    }
}

/// No more nodes are found than the graph has.
pub proof fn no_more_found_than_nodes(m: ModelView, found: Seq<VisitView>)
    requires
        found_once(m, found),
    ensures
        found.len() <= m.nodes.len(),
{
    let ids = found.map_values(|v: VisitView| v.id);
    let all = m.nodes.map_values(|n: NodeView| n.id);
    assert(ids.no_duplicates()) by {
        assert forall|i: int, j: int| 0 <= i < j < ids.len() implies ids[i] != ids[j] by {
            assert(found[i].id != found[j].id);
        }
    }
    ids.unique_seq_to_set();
    assert(ids.to_set().subset_of(all.to_set())) by {
        assert forall|x: Seq<char>| ids.to_set().contains(x) implies all.to_set().contains(x) by {
            let i = choose|i: int| 0 <= i < ids.len() && ids[i] == x;
            assert(m.has_node(found[i].id));
            let k = choose|k: int| 0 <= k < m.nodes.len() && (#[trigger] m.nodes[k]).id == x;
            assert(all[k] == x);
        }
    }
    all.lemma_cardinality_of_set();
    vstd::set_lib::lemma_len_subset(ids.to_set(), all.to_set());
}

/// Once all found nodes have been expanded, nothing more is found.
proof fn lemma_explored_settled(m: ModelView, start: Seq<char>, max_depth: nat, n: int, k: int)
    requires
        0 <= n <= k,
        explored(m, start, max_depth, n).len() <= n,
    ensures
        explored(m, start, max_depth, k) == explored(m, start, max_depth, n),
    decreases k,
{
    if k > n {
        lemma_explored_settled(m, start, max_depth, n, k - 1);
    }
}

/// A node that the search found.
struct Visit {
    id: String,
    depth: usize,
    parent: usize,
    edge: String,
}

impl View for Visit {
    type V = VisitView;

    closed spec fn view(&self) -> VisitView {
        VisitView {
            id: self.id@,
            depth: self.depth as nat,
            parent: self.parent as int,
            edge: self.edge@,
        }
    }
}

/// The views of visits.
spec fn visit_views(s: Seq<Visit>) -> Seq<VisitView> {
    s.map_values(|v: Visit| v@)
}

/// Whether a node was found.
fn was_visited(found: &Vec<Visit>, id: &String) -> (r: bool)
    ensures
        r == visited(visit_views(found@), id@),
{
    let mut i: usize = 0;
    while i < found.len()
        invariant
            i <= found.len(),
            forall|j: int| 0 <= j < i ==> (#[trigger] visit_views(found@)[j]).id != id@,
        decreases found.len() - i,
    {
        assert(visit_views(found@)[i as int] == found@[i as int]@);
        if found[i].id == *id {
            assert(visit_views(found@)[i as int].id == id@);
            return true;
        }
        i += 1;
    }
    false
}

/// Adds the nodes one hop from the one at `at`.
fn expand(
    model: &GraphModel,
    ids: &TextSet,
    found: &mut Vec<Visit>,
    at: usize,
    max_depth: usize,
)
    requires
        ids.wf(),
        ids@ == filter::ids_of(model@.nodes),
        at < old(found)@.len(),
        max_depth < usize::MAX,
    ensures
        visit_views(final(found)@) == expanded(
            model@,
            visit_views(old(found)@),
            at as int,
            max_depth as nat,
        ),
{
    let ghost start = visit_views(found@);
    let depth: usize = found[at].depth;
    assert(start[at as int] == found@[at as int]@);
    if depth >= max_depth {
        return ;
    }
    let hops = rank_hops(model, ids, &found[at].id);
    let ghost views = hop_views(hops@);
    let mut n: usize = 0;
    while n < hops.len()
        invariant
            n <= hops.len(),
            at < start.len(),
            depth < max_depth < usize::MAX,
            start[at as int].depth == depth,
            views == hop_views(hops@),
            visit_views(found@) == with_hops(start, views, at as int, n as int),
        decreases hops.len() - n,
    {
        assert(views[n as int] == hops@[n as int]@);
        if !was_visited(found, &hops[n].node) {
            let ghost before = found@;
            found.push(
                Visit {
                    id: hops[n].node.clone(),
                    depth: depth + 1,
                    parent: at,
                    edge: hops[n].edge.clone(),
                },
            );
            assert(visit_views(found@) =~= visit_views(before).push(
                found@[before.len() as int]@,
            ));
        }
        n += 1;
    }
}

/// All nodes that the search finds from the start.
fn explore(model: &GraphModel, ids: &TextSet, start_id: &str) -> (r: Vec<Visit>)
    requires
        ids.wf(),
        ids@ == filter::ids_of(model@.nodes),
        model@.has_node(start_id@),
    ensures
        visit_views(r@) == visits(model@, start_id@),
        found_once(model@, visit_views(r@)),
{
    let max_depth: usize = if model.nodes.len() > 120 {
        3
    } else {
        4
    };
    let ghost m = model@;
    let mut found: Vec<Visit> = Vec::new();
    found.push(Visit { id: owned(start_id), depth: 0, parent: 0, edge: String::new() });
    assert(visit_views(found@) =~= explored(m, start_id@, max_depth as nat, 0));
    let mut at: usize = 0;
    proof {
        no_more_found_than_nodes(m, visit_views(found@));
    }
    while at < found.len()
        invariant
            m == model@,
            ids.wf(),
            ids@ == filter::ids_of(m.nodes),
            at <= found.len() <= m.nodes.len(),
            max_depth == search_depth(m),
            found_once(m, visit_views(found@)),
            visit_views(found@) == explored(m, start_id@, max_depth as nat, at as int),
        decreases m.nodes.len() - at,
    {
        proof {
            lemma_expanded_found_once(m, visit_views(found@), at as int, max_depth as nat);
        }
        let ghost before = visit_views(found@);
        expand(model, ids, &mut found, at, max_depth);
        at += 1;
        proof {
            no_more_found_than_nodes(m, visit_views(found@));
            assert(visit_views(found@).len() == found@.len());
        }
    }
    proof {
        lemma_explored_settled(
            m,
            start_id@,
            max_depth as nat,
            at as int,
            m.nodes.len() as int,
        );
    }
    found
}

// ---------------------------------------------------------------------------
// Paths
// ---------------------------------------------------------------------------

/// The nodes on the way from the start to the one at `i`.
pub open spec fn way_nodes(found: Seq<VisitView>, i: int) -> Seq<Seq<char>>
    decreases i,
{
    if i <= 0 || !(0 <= found[i].parent < i) {
        seq![found[i].id]
    } else {
        way_nodes(found, found[i].parent).push(found[i].id)
    }
}

/// The edges on the way from the start to the node at `i`.
pub open spec fn way_edges(found: Seq<VisitView>, i: int) -> Seq<Seq<char>>
    decreases i,
{
    if i <= 0 || !(0 <= found[i].parent < i) {
        Seq::empty()
    } else {
        way_edges(found, found[i].parent).push(found[i].edge)
    }
}

/// The nodes and edges on the way from the start to the node at `at`.
fn reconstruct_explainable_path(found: &Vec<Visit>, at: usize) -> (r: (Vec<String>, Vec<String>))
    requires
        at < found@.len(),
        forall|i: int| 0 < i < found@.len() ==> (#[trigger] visit_views(found@)[i]).parent < i,
    ensures
        text::texts(r.0@) == way_nodes(visit_views(found@), at as int),
        text::texts(r.1@) == way_edges(visit_views(found@), at as int),
    decreases at,
{
    let ghost views = visit_views(found@);
    assert(views[at as int] == found@[at as int]@);
    if at == 0 {
        let mut nodes: Vec<String> = Vec::new();
        nodes.push(found[0].id.clone());
        let edges: Vec<String> = Vec::new();
        assert(text::texts(nodes@) =~= seq![views[0].id]);
        assert(text::texts(edges@) =~= Seq::<Seq<char>>::empty());
        (nodes, edges)
    } else {
        let (mut nodes, mut edges) = reconstruct_explainable_path(found, found[at].parent);
        let ghost (n0, e0) = (nodes@, edges@);
        nodes.push(found[at].id.clone());
        edges.push(found[at].edge.clone());
        assert(text::texts(nodes@) =~= text::texts(n0).push(views[at as int].id));
        assert(text::texts(edges@) =~= text::texts(e0).push(views[at as int].edge));
        (nodes, edges)
    }
}

/// What an edge weighs: one at least.
pub open spec fn weight_of(e: EdgeView) -> nat {
    if e.weight < 1 {
        1
    } else {
        e.weight
    }
}

/// What the edges at a node weigh together.
pub open spec fn weight_at(edges: Seq<EdgeView>, ids: Set<Seq<char>>, id: Seq<char>) -> nat
    decreases edges.len(),
{
    if edges.len() == 0 {
        0
    } else {
        let e = edges.last();
        weight_at(edges.drop_last(), ids, id) + (if joins(ids, e) && e.from == id {
            weight_of(e)
        } else {
            0
        }) + (if joins(ids, e) && e.to == id {
            weight_of(e)
        } else {
            0
        })
    }
}

/// What the edges of a way weigh together.
pub open spec fn way_weight(edges: Seq<EdgeView>, way: Seq<Seq<char>>) -> nat
    decreases edges.len(),
{
    if edges.len() == 0 {
        0
    } else {
        way_weight(edges.drop_last(), way) + if way.contains(edges.last().id) {
            weight_of(edges.last())
        } else {
            0
        }
    }
}

/// The kind of the start; that of an entity where it is not known.
pub open spec fn start_kind(m: ModelView, start: Seq<char>) -> GraphNodeKind {
    match kind_of(m.nodes, start) {
        Some(kind) => kind,
        None => GraphNodeKind::Entity,
    }
}

/// Whether a found node is worth a path: it lies next to the start, is of another kind, or is
/// joined to several others.
pub open spec fn useful(m: ModelView, start: Seq<char>, v: VisitView) -> bool {
    kind_of(m.nodes, v.id) matches Some(kind) && (v.depth == 1 || kind != start_kind(m, start)
        || weight_at(m.edges, filter::ids_of(m.nodes), v.id) >= 3)
}

/// How good the end of a path is: by its kind and the edges at it.
pub open spec fn end_score(m: ModelView, v: VisitView) -> nat {
    priority_at(m.nodes, v.id) * 100 + weight_at(m.edges, filter::ids_of(m.nodes), v.id) * 6
}

/// How good a path is: by the worth and the edges of its end, its length and its weight.
pub open spec fn path_score(m: ModelView, v: VisitView, way: Seq<Seq<char>>) -> int {
    end_score(m, v) - v.depth * 18 + way_weight(m.edges, way)
}

/// The path to the node found at `i`.
pub open spec fn path_to(m: ModelView, found: Seq<VisitView>, i: int) -> PathView {
    PathView {
        node_ids: way_nodes(found, i),
        edge_ids: way_edges(found, i),
        score: path_score(m, found[i], way_edges(found, i)),
    }
}

/// The paths to the useful ones among the first `n` found nodes.
pub open spec fn useful_paths(
    m: ModelView,
    start: Seq<char>,
    found: Seq<VisitView>,
    n: int,
) -> Seq<PathView>
    decreases n,
{
    if n <= 1 {
        Seq::empty()
    } else {
        let before = useful_paths(m, start, found, n - 1);
        if useful(m, start, found[n - 1]) {
            before.push(path_to(m, found, n - 1))
        } else {
            before
        }
    }
}

/// What a path is ranked by: its score, then its length, then the label of its end.
pub open spec fn path_rank(m: ModelView) -> spec_fn(PathView) -> RankView {
    |p: PathView|
        RankView {
            score: p.score,
            length: p.edge_ids.len() as int,
            first: graph::label_of(m.nodes, p.node_ids.last()),
            second: Seq::empty(),
        }
}

/// The best paths from the start, at most as many as asked for, and never more than twelve.
pub open spec fn best_paths(m: ModelView, start: Seq<char>, limit: int) -> Seq<PathView> {
    if m.has_node(start) {
        let found = visits(m, start);
        let paths = useful_paths(m, start, found, found.len() as int);
        let ranked = ranking::picked(
            paths,
            ranking::ranking(paths.map_values(path_rank(m))),
        );
        let most = filter::clamped(limit, 1, 12);
        if ranked.len() <= most {
            ranked
        } else {
            ranked.take(most)
        }
    } else {
        Seq::empty()
    }
}

/// The first edges at a node, and the first of a way, weigh no more than all of them.
proof fn lemma_weights_of_prefix(
    edges: Seq<EdgeView>,
    ids: Set<Seq<char>>,
    id: Seq<char>,
    way: Seq<Seq<char>>,
    n: int,
)
    requires
        0 <= n <= edges.len(),
    ensures
        weight_at(edges.take(n), ids, id) <= weight_at(edges, ids, id),
        way_weight(edges.take(n), way) <= way_weight(edges, way),
    decreases edges.len() - n,
{
    if n < edges.len() {
        lemma_weights_of_prefix(edges, ids, id, way, n + 1);
        assert(edges.take(n + 1).drop_last() =~= edges.take(n));
    } else {
        assert(edges.take(n) =~= edges);
    }
}

/// What the edges at a node weigh together; none where it does not fit.
fn sum_weight_at(edges: &Vec<GraphEdge>, ids: &TextSet, id: &String) -> (r: Option<usize>)
    requires
        ids.wf(),
    ensures
        match r {
            Some(w) => w == weight_at(graph::edge_views(edges@), ids@, id@),
            None => weight_at(graph::edge_views(edges@), ids@, id@) > usize::MAX,
        },
{
    let ghost views = graph::edge_views(edges@);
    let mut r: usize = 0;
    let mut i: usize = 0;
    assert(views.take(0) =~= Seq::<EdgeView>::empty());
    while i < edges.len()
        invariant
            i <= edges.len(),
            ids.wf(),
            views == graph::edge_views(edges@),
            r == weight_at(views.take(i as int), ids@, id@),
        decreases edges.len() - i,
    {
        proof {
            lemma_weights_of_prefix(views, ids@, id@, Seq::empty(), i + 1);
            assert(views.take(i + 1).drop_last() =~= views.take(i as int));
            assert(views.take(i + 1).last() == edges@[i as int]@);
        }
        if ids.contains(&edges[i].from) && ids.contains(&edges[i].to) {
            let weight: usize = if edges[i].weight < 1 {
                1
            } else {
                edges[i].weight
            };
            if edges[i].from == *id {
                r = match r.checked_add(weight) {
                    Some(sum) => sum,
                    None => return None,
                };
            }
            if edges[i].to == *id {
                r = match r.checked_add(weight) {
                    Some(sum) => sum,
                    None => return None,
                };
            }
        }
        i += 1;
    }
    assert(views.take(i as int) =~= views);
    Some(r)
}

/// What the edges of a way weigh together; none where it does not fit.
fn sum_way_weight(edges: &Vec<GraphEdge>, way: &Vec<String>) -> (r: Option<usize>)
    ensures
        match r {
            Some(w) => w == way_weight(graph::edge_views(edges@), text::texts(way@)),
            None => way_weight(graph::edge_views(edges@), text::texts(way@)) > usize::MAX,
        },
{
    let ghost views = graph::edge_views(edges@);
    let mut r: usize = 0;
    let mut i: usize = 0;
    assert(views.take(0) =~= Seq::<EdgeView>::empty());
    while i < edges.len()
        invariant
            i <= edges.len(),
            views == graph::edge_views(edges@),
            r == way_weight(views.take(i as int), text::texts(way@)),
        decreases edges.len() - i,
    {
        proof {
            lemma_weights_of_prefix(
                views,
                Set::empty(),
                Seq::empty(),
                text::texts(way@),
                i + 1,
            );
            assert(views.take(i + 1).drop_last() =~= views.take(i as int));
            assert(views.take(i + 1).last() == edges@[i as int]@);
        }
        if text::holds_text(way.as_slice(), edges[i].id.as_str()) {
            let weight: usize = if edges[i].weight < 1 {
                1
            } else {
                edges[i].weight
            };
            r = match r.checked_add(weight) {
                Some(sum) => sum,
                None => return None,
            };
        }
        i += 1;
    }
    assert(views.take(i as int) =~= views);
    Some(r)
}

/// The score of a path with an end of a kind, edges of a weight at that end, a length and a
/// weight; none where a step of the sum does not fit.
fn count_score(kind: GraphNodeKind, degree: usize, depth: usize, weight: usize) -> (r: Option<
    usize,
>)
    requires
        depth <= 4,
    ensures
        ({
            let end = target_priority(kind) * 100 + degree * 6;
            let score = end - depth * 18 + weight;
            match r {
                Some(s) => s == score && end <= usize::MAX,
                None => end > usize::MAX || score > usize::MAX,
            }
        }),
{
    let end = match degree.checked_mul(6) {
        Some(edges) => match edges.checked_add(explain_target_priority(kind) * 100) {
            Some(end) => end,
            None => return None,
        },
        None => return None,
    };
    (end - depth * 18).checked_add(weight)
}

proof fn lemma_with_hops_depth(found: Seq<VisitView>, hops: Seq<HopView>, from: int, n: int, most: nat)
    requires
        0 <= from < found.len(),
        found[from].depth < most,
        forall|i: int| 0 <= i < found.len() ==> (#[trigger] found[i]).depth <= most,
    ensures
        forall|i: int|
            0 <= i < with_hops(found, hops, from, n).len() ==> (#[trigger] with_hops(
                found,
                hops,
                from,
                n,
            )[i]).depth <= most,
    decreases n,
{
    if n > 0 {
        lemma_with_hops_depth(found, hops, from, n - 1, most);
        let before = with_hops(found, hops, from, n - 1);
        let after = with_hops(found, hops, from, n);
        assert forall|i: int| 0 <= i < after.len() implies (#[trigger] after[i]).depth <= most by {
            if i < before.len() {
                assert(after[i] == before[i]);
            }
        }
    }
}

/// The search goes no farther than it may.
pub proof fn search_stays_within_depth(m: ModelView, start: Seq<char>, max_depth: nat, n: int)
    ensures
        forall|i: int|
            0 <= i < explored(m, start, max_depth, n).len() ==> (#[trigger] explored(
                m,
                start,
                max_depth,
                n,
            )[i]).depth <= max_depth,
    decreases n,
{
    if n > 0 {
        search_stays_within_depth(m, start, max_depth, n - 1);
        let found = explored(m, start, max_depth, n - 1);
        if n - 1 < found.len() && found[n - 1].depth < max_depth {
            let hops = ranked_hops(m, found[n - 1].id);
            lemma_with_hops_depth(found, hops, n - 1, hops.len() as int, max_depth);
        }
    }
}

/// Whether the score of the path to the node found at `i` can be counted: that of its end, from
/// which the length is taken, and the whole.
pub open spec fn score_fits(m: ModelView, found: Seq<VisitView>, i: int) -> bool {
    end_score(m, found[i]) <= usize::MAX && path_to(m, found, i).score <= usize::MAX
}

/// Whether the scores of the paths to the useful ones among the first `n` found nodes can be
/// counted.
pub open spec fn scores_fit(m: ModelView, start: Seq<char>, found: Seq<VisitView>, n: int) -> bool {
    forall|i: int| 0 < i < n && useful(m, start, #[trigger] found[i]) ==> score_fits(m, found, i)
}

/// Whether the weights of a graph leave room for the scores of the paths from the start.
pub open spec fn weights_fit(m: ModelView, start: Seq<char>) -> bool {
    m.has_node(start) ==> scores_fit(m, start, visits(m, start), visits(m, start).len() as int)
}

/// Collects the paths to the useful nodes; none where a score does not fit.
fn collect_useful_paths(
    model: &GraphModel,
    ids: &TextSet,
    start_id: &str,
    found: &Vec<Visit>,
) -> (r: Option<Vec<ExplainablePath>>)
    requires
        ids.wf(),
        ids@ == filter::ids_of(model@.nodes),
        found_once(model@, visit_views(found@)),
        forall|i: int| 0 <= i < found@.len() ==> (#[trigger] visit_views(found@)[i]).depth <= 4,
    ensures
        r is Some == scores_fit(
            model@,
            start_id@,
            visit_views(found@),
            found@.len() as int,
        ),
        r matches Some(paths) ==> path_views(paths@) == useful_paths(
            model@,
            start_id@,
            visit_views(found@),
            found@.len() as int,
        ),
{
    let ghost m = model@;
    let ghost views = visit_views(found@);
    let first_kind: GraphNodeKind = match find_kind(&model.nodes, &owned(start_id)) {
        Some(kind) => kind,
        None => GraphNodeKind::Entity,
    };
    let mut r: Vec<ExplainablePath> = Vec::new();
    assert(path_views(r@) =~= Seq::<PathView>::empty());
    let mut n: usize = 1;
    while n < found.len()
        invariant
            1 <= n,
            n <= found.len() || found.len() == 0,
            m == model@,
            views == visit_views(found@),
            ids.wf(),
            ids@ == filter::ids_of(m.nodes),
            scores_fit(m, start_id@, views, n as int),
            first_kind == start_kind(m, start_id@),
            found_once(m, views),
            forall|i: int| 0 <= i < found@.len() ==> (#[trigger] views[i]).depth <= 4,
            path_views(r@) == useful_paths(m, start_id@, views, n as int),
        decreases found.len() - n,
    {
        assert(views[n as int] == found@[n as int]@);
        if let Some(kind) = find_kind(&model.nodes, &found[n].id) {
            let degree = match sum_weight_at(&model.edges, ids, &found[n].id) {
                Some(degree) => degree,
                None => {
                    assert(useful(m, start_id@, views[n as int]));
                    assert(!score_fits(m, views, n as int));
                    return None;
                },
            };
            if found[n].depth == 1 || kind != first_kind || degree >= 3 {
                assert(useful(m, start_id@, views[n as int]));
                let (node_ids, edge_ids) = reconstruct_explainable_path(found, n);
                let weight = match sum_way_weight(&model.edges, &edge_ids) {
                    Some(weight) => weight,
                    None => {
                        assert(!score_fits(m, views, n as int));
                        return None;
                    },
                };
                let score = match count_score(kind, degree, found[n].depth, weight) {
                    Some(score) => score,
                    None => {
                        assert(!score_fits(m, views, n as int));
                        return None;
                    },
                };
                let ghost before = r@;
                r.push(ExplainablePath { node_ids, edge_ids, score });
                assert(r@[before.len() as int]@ =~= path_to(m, views, n as int));
                assert(path_views(r@) =~= path_views(before).push(path_to(m, views, n as int)));
            }
        }
        n += 1;
    }
    Some(r)
}

/// The way to a found node ends in it.
proof fn lemma_way_ends(found: Seq<VisitView>, i: int)
    ensures
        way_nodes(found, i).len() > 0,
        way_nodes(found, i).last() == found[i].id,
{
}

proof fn lemma_useful_paths_nonempty(m: ModelView, start: Seq<char>, found: Seq<VisitView>, n: int)
    ensures
        forall|i: int|
            0 <= i < useful_paths(m, start, found, n).len() ==> (#[trigger] useful_paths(
                m,
                start,
                found,
                n,
            )[i]).node_ids.len() > 0,
    decreases n,
{
    if n > 1 {
        lemma_useful_paths_nonempty(m, start, found, n - 1);
        lemma_way_ends(found, n - 1);
        let before = useful_paths(m, start, found, n - 1);
        let after = useful_paths(m, start, found, n);
        assert forall|i: int| 0 <= i < after.len() implies (
        #[trigger] after[i]).node_ids.len() > 0 by {
            if i < before.len() {
                assert(after[i] == before[i]);
            }
        }
    }
}

/// The best paths from the start, at most as many as asked for, and never more than twelve.
pub fn explainable_paths(model: &GraphModel, start_id: &str, limit: usize) -> (r: Vec<
    ExplainablePath,
>)
    requires
        weights_fit(model@, start_id@),
    ensures
        path_views(r@) == best_paths(model@, start_id@, limit as int),
{
    match checked_explainable_paths(model, start_id, limit) {
        Some(paths) => paths,
        None => Vec::new(),
    }
}

/// The best paths from the start; none where the weights of the graph leave no room for their
/// scores.
pub fn checked_explainable_paths(model: &GraphModel, start_id: &str, limit: usize) -> (r: Option<
    Vec<ExplainablePath>,
>)
    ensures
        r is Some == weights_fit(model@, start_id@),
        r matches Some(paths) ==> path_views(paths@) == best_paths(
            model@,
            start_id@,
            limit as int,
        ),
{
    if !model.contains_node(start_id) {
        let r: Vec<ExplainablePath> = Vec::new();
        assert(path_views(r@) =~= Seq::<PathView>::empty());
        return Some(r);
    }
    let ghost m = model@;
    let ids = collect_ids(&model.nodes);
    let found = explore(model, &ids, start_id);
    proof {
        search_stays_within_depth(m, start_id@, search_depth(m), m.nodes.len() as int);
    }
    let paths = match collect_useful_paths(model, &ids, start_id, &found) {
        Some(paths) => paths,
        None => return None,
    };
    let ghost views = path_views(paths@);
    let ghost rank_of = path_rank(m);
    proof {
        lemma_useful_paths_nonempty(m, start_id@, visit_views(found@), found@.len() as int);
    }
    let mut keys: Vec<RankKey> = Vec::new();
    let mut i: usize = 0;
    while i < paths.len()
        invariant
            i <= paths.len(),
            m == model@,
            views == path_views(paths@),
            rank_of == path_rank(m),
            forall|j: int| 0 <= j < views.len() ==> (#[trigger] views[j]).node_ids.len() > 0,
            keys.len() == i,
            forall|j: int| 0 <= j < i ==> (#[trigger] keys@[j])@ == rank_of(views[j]),
        decreases paths.len() - i,
    {
        let path = &paths[i];
        assert(views[i as int] == path@);
        assert(path@.node_ids.len() == path.node_ids@.len());
        let end = &path.node_ids[path.node_ids.len() - 1];
        keys.push(
            RankKey {
                score: path.score as i128,
                length: path.edge_ids.len(),
                first: owned(node_label(model, end.as_str())),
                second: String::new(),
            },
        );
        i += 1;
    }
    assert(ranking::key_views(keys@) =~= views.map_values(rank_of));
    let ranked = rank(&keys);
    let ghost all = ranking::as_ints(ranked@);
    let most: usize = if limit < 1 {
        1
    } else if limit > 12 {
        12
    } else {
        limit
    };
    let count: usize = if ranked.len() <= most {
        ranked.len()
    } else {
        most
    };
    let mut r: Vec<ExplainablePath> = Vec::new();
    let mut k: usize = 0;
    while k < count
        invariant
            k <= count <= ranked.len(),
            ranked.len() == paths.len(),
            views == path_views(paths@),
            forall|j: int| 0 <= j < ranked@.len() ==> #[trigger] ranked@[j] < paths@.len(),
            r.len() == k,
            forall|j: int| 0 <= j < k ==> (#[trigger] r@[j])@ == views[ranked@[j] as int],
        decreases count - k,
    {
        let path = &paths[ranked[k]];
        let copy = ExplainablePath {
            node_ids: copy_texts(&path.node_ids),
            edge_ids: copy_texts(&path.edge_ids),
            score: path.score,
        };
        assert(copy@ == views[ranked@[k as int] as int]);
        r.push(copy);
        k += 1;
    }
    proof {
        let full = ranking::picked(views, all);
        assert(path_views(r@) =~= full.take(count as int));
        if ranked@.len() <= most {
            assert(full.take(count as int) =~= full);
        }
    }
    Some(r)
}

// ---------------------------------------------------------------------------
// Words
// ---------------------------------------------------------------------------

/// The words for one step of a path: an arrow along the edge or against it.
pub open spec fn step_text(m: ModelView, from: Seq<char>, to: Seq<char>, edge: Seq<char>) -> Seq<
    char,
> {
    match filter::edge_by_id(m.edges, edge) {
        Some(e) => {
            let label = text::truncated(e.label, 18);
            let target = text::truncated(graph::label_of(m.nodes, to), 24);
            if e.from == from && e.to == to {
                " -"@ + label + "→ "@ + target
            } else {
                " ←"@ + label + "- "@ + target
            }
        },
        None => Seq::empty(),
    }
}

/// The words for the first `n` steps of a path.
pub open spec fn steps_text(m: ModelView, p: PathView, n: int) -> Seq<char>
    decreases n,
{
    if n <= 0 {
        text::decimal_text(p.edge_ids.len()) + " шаг. "@ + text::truncated(
            graph::label_of(m.nodes, p.node_ids[0]),
            24,
        )
    } else {
        steps_text(m, p, n - 1) + step_text(m, p.node_ids[n - 1], p.node_ids[n], p.edge_ids[n - 1])
    }
}

/// The words for a path, cut to 170 characters; a path without nodes has none.
pub open spec fn path_text(m: ModelView, p: PathView) -> Seq<char> {
    if p.node_ids.len() == 0 {
        Seq::empty()
    } else {
        text::truncated(steps_text(m, p, p.edge_ids.len() as int), 170)
    }
}

/// The words for one step of a path.
fn format_step(model: &GraphModel, from: &String, to: &String, edge_id: &String) -> (r: String)
    ensures
        r@ == step_text(model@, from@, to@, edge_id@),
{
    match find_edge(&model.edges, edge_id.as_str()) {
        Some(edge) => {
            let label = truncate_text(edge.label.as_str(), 18);
            let target = truncate_text(node_label(model, to.as_str()), 24);
            if edge.from == *from && edge.to == *to {
                text::cat4(" -", label.as_str(), "→ ", target.as_str())
            } else {
                text::cat4(" ←", label.as_str(), "- ", target.as_str())
            }
        },
        None => String::new(),
    }
}

/// The words for a path.
pub fn format_explainable_path(model: &GraphModel, path: &ExplainablePath) -> (r: String)
    requires
        path.node_ids@.len() > 0 ==> path.node_ids@.len() > path.edge_ids@.len(),
    ensures
        r@ == path_text(model@, path@),
{
    if path.node_ids.len() == 0 {
        return String::new();
    }
    let steps = decimal(path.edge_ids.len() as u64);
    let first = truncate_text(node_label(model, path.node_ids[0].as_str()), 24);
    let mut words = text::cat3(steps.as_str(), " шаг. ", first.as_str());
    let mut n: usize = 0;
    while n < path.edge_ids.len()
        invariant
            n <= path.edge_ids.len() < path.node_ids.len(),
            words@ == steps_text(model@, path@, n as int),
        decreases path.edge_ids.len() - n,
    {
        let step = format_step(
            model,
            &path.node_ids[n],
            &path.node_ids[n + 1],
            &path.edge_ids[n],
        );
        words = text::cat2(words.as_str(), step.as_str());
        n += 1;
    }
    truncate_text(words.as_str(), 170)
}

} // verus!
