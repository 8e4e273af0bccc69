//! What of a graph is shown: neighbourhoods, filters by kind and text, and limits.
use vstd::prelude::*;
use crate::graph::{
    EdgeView, GraphEdge, GraphEdgeKind, GraphModel, GraphNode, GraphNodeKind, GraphSelection,
    ModelView, NodeView, SelectionView,
};
use crate::order::{Count, OrderedMap, TextSet};
use crate::ranking::{rank, RankKey, RankView};
use crate::text::{contains_text, lowercase, same_text, trim};
use crate::{aggregate, graph, order, ranking, text};

verus! {

// ---------------------------------------------------------------------------
// Restriction to a set of nodes
// ---------------------------------------------------------------------------

/// The ids of nodes.
pub open spec fn ids_of(nodes: Seq<NodeView>) -> Set<Seq<char>> {
    Set::new(|id: Seq<char>| exists|i: int| 0 <= i < nodes.len() && (#[trigger] nodes[i]).id == id)
}

/// Nodes with an id of the set.
pub open spec fn node_in(ids: Set<Seq<char>>) -> spec_fn(NodeView) -> bool {
    |n: NodeView| ids.contains(n.id)
}

/// Edges with both ends in the set.
pub open spec fn edge_in(ids: Set<Seq<char>>) -> spec_fn(EdgeView) -> bool {
    |e: EdgeView| ids.contains(e.from) && ids.contains(e.to)
}

/// A graph cut to the nodes of the set and the edges between them.
pub open spec fn restricted(m: ModelView, ids: Set<Seq<char>>) -> ModelView {
    ModelView {
        nodes: m.nodes.filter(node_in(ids)),
        edges: m.edges.filter(edge_in(ids)),
        fallback: m.fallback,
    }
}

/// The ids of nodes.
pub fn collect_ids(nodes: &Vec<GraphNode>) -> (r: TextSet)
    ensures
        r.wf(),
        r@ == ids_of(graph::node_views(nodes@)),
{
    let ghost views = graph::node_views(nodes@);
    let mut r = TextSet::new();
    let mut i: usize = 0;
    assert(r@ =~= ids_of(views.take(0)));
    while i < nodes.len()
        invariant
            i <= nodes.len(),
            views == graph::node_views(nodes@),
            r.wf(),
            r@ == ids_of(views.take(i as int)),
        decreases nodes.len() - i,
    {
        r.insert(nodes[i].id.clone());
        proof {
            let a = views.take(i as int);
            let b = views.take(i + 1);
            assert(b =~= a.push(views[i as int]));
            assert forall|x: Seq<char>| ids_of(b).contains(x) <==> ids_of(a).insert(
                views[i as int].id,
            ).contains(x) by {
                if ids_of(a).contains(x) {
                    let k = choose|k: int| 0 <= k < a.len() && (#[trigger] a[k]).id == x;
                    assert(b[k].id == x);
                }
                assert(b[i as int] == views[i as int]);
                if ids_of(b).contains(x) {
                    let k = choose|k: int| 0 <= k < b.len() && (#[trigger] b[k]).id == x;
                    if k < i {
                        assert(a[k].id == x);
                    }
                }
            }
            assert(ids_of(b) =~= ids_of(a).insert(views[i as int].id));
        }
        i += 1;
    }
    assert(views.take(i as int) =~= views);
    r
}

/// The nodes with an id of the set.
pub fn keep_nodes(nodes: &Vec<GraphNode>, ids: &TextSet) -> (r: Vec<GraphNode>)
    requires
        ids.wf(),
    ensures
        graph::node_views(r@) == graph::node_views(nodes@).filter(node_in(ids@)),
{
    let ghost views = graph::node_views(nodes@);
    let ghost p = node_in(ids@);
    let mut r: Vec<GraphNode> = Vec::new();
    let mut i: usize = 0;
    proof {
        reveal(Seq::filter);
        assert(views.take(0) =~= Seq::<NodeView>::empty());
        assert(graph::node_views(r@) =~= Seq::<NodeView>::empty());
    }
    while i < nodes.len()
        invariant
            i <= nodes.len(),
            ids.wf(),
            p == node_in(ids@),
            views == graph::node_views(nodes@),
            graph::node_views(r@) == views.take(i as int).filter(p),
        decreases nodes.len() - i,
    {
        proof {
            views.take(i as int).lemma_filter_push(views[i as int], p);
            assert(views.take(i + 1) =~= views.take(i as int).push(views[i as int]));
        }
        if ids.contains(&nodes[i].id) {
            let ghost before = r@;
            r.push(nodes[i].clone());
            assert(graph::node_views(r@) =~= graph::node_views(before).push(views[i as int]));
        }
        i += 1;
    }
    assert(views.take(i as int) =~= views);
    r
}

/// The edges with both ends in the set.
pub fn keep_edges(edges: &Vec<GraphEdge>, ids: &TextSet) -> (r: Vec<GraphEdge>)
    requires
        ids.wf(),
    ensures
        graph::edge_views(r@) == graph::edge_views(edges@).filter(edge_in(ids@)),
{
    let ghost views = graph::edge_views(edges@);
    let ghost p = edge_in(ids@);
    let mut r: Vec<GraphEdge> = Vec::new();
    let mut i: usize = 0;
    proof {
        reveal(Seq::filter);
        assert(views.take(0) =~= Seq::<EdgeView>::empty());
        assert(graph::edge_views(r@) =~= Seq::<EdgeView>::empty());
    }
    while i < edges.len()
        invariant
            i <= edges.len(),
            ids.wf(),
            p == edge_in(ids@),
            views == graph::edge_views(edges@),
            graph::edge_views(r@) == views.take(i as int).filter(p),
        decreases edges.len() - i,
    {
        proof {
            views.take(i as int).lemma_filter_push(views[i as int], p);
            assert(views.take(i + 1) =~= views.take(i as int).push(views[i as int]));
        }
        if ids.contains(&edges[i].from) && ids.contains(&edges[i].to) {
            let ghost before = r@;
            r.push(edges[i].clone());
            assert(graph::edge_views(r@) =~= graph::edge_views(before).push(views[i as int]));
        }
        i += 1;
    }
    assert(views.take(i as int) =~= views);
    r
}

// ---------------------------------------------------------------------------
// Neighbourhoods
// ---------------------------------------------------------------------------

/// Whether an edge leads from one of the nodes to `x`, or from `x` to one of them.
pub open spec fn reaches(e: EdgeView, from: Set<Seq<char>>, x: Seq<char>) -> bool {
    (from.contains(e.from) && x == e.to) || (from.contains(e.to) && x == e.from)
}

/// The nodes with all that an edge joins to one of them.
pub open spec fn neighborhood(edges: Seq<EdgeView>, seeds: Set<Seq<char>>) -> Set<Seq<char>> {
    Set::new(
        |x: Seq<char>|
            seeds.contains(x) || exists|i: int|
                0 <= i < edges.len() && reaches(#[trigger] edges[i], seeds, x),
    )
}

/// The nodes with all that an edge joins to one of them.
fn neighborhood_of(edges: &Vec<GraphEdge>, seeds: &TextSet) -> (r: TextSet)
    requires
        seeds.wf(),
    ensures
        r.wf(),
        r@ == neighborhood(graph::edge_views(edges@), seeds@),
{
    let ghost views = graph::edge_views(edges@);
    let mut r = seeds.copy();
    let mut i: usize = 0;
    assert(r@ =~= neighborhood(views.take(0), seeds@));
    while i < edges.len()
        invariant
            i <= edges.len(),
            seeds.wf(),
            views == graph::edge_views(edges@),
            r.wf(),
            r@ == neighborhood(views.take(i as int), seeds@),
        decreases edges.len() - i,
    {
        let ghost before = r@;
        if seeds.contains(&edges[i].from) {
            r.insert(edges[i].to.clone());
        }
        if seeds.contains(&edges[i].to) {
            r.insert(edges[i].from.clone());
        }
        proof {
            let a = views.take(i as int);
            let b = views.take(i + 1);
            assert forall|x: Seq<char>| #[trigger] r@.contains(x) <==> neighborhood(
                b,
                seeds@,
            ).contains(x) by {
                assert(b[i as int] == views[i as int]);
                if before.contains(x) && !seeds@.contains(x) {
                    let k = choose|k: int|
                        0 <= k < a.len() && reaches(#[trigger] a[k], seeds@, x);
                    assert(reaches(b[k], seeds@, x));
                }
                if r@.contains(x) && !before.contains(x) {
                    assert(reaches(b[i as int], seeds@, x));
                }
                if neighborhood(b, seeds@).contains(x) && !seeds@.contains(x) {
                    let k = choose|k: int|
                        0 <= k < b.len() && reaches(#[trigger] b[k], seeds@, x);
                    if k < i {
                        assert(reaches(a[k], seeds@, x));
                    }
                }
            }
            assert(r@ =~= neighborhood(b, seeds@));
        }
        i += 1;
    }
    assert(views.take(i as int) =~= views);
    r
}

/// The first edge with the id.
pub open spec fn edge_by_id(edges: Seq<EdgeView>, id: Seq<char>) -> Option<EdgeView>
    decreases edges.len(),
{
    if edges.len() == 0 {
        None
    } else if edges[0].id == id {
        Some(edges[0])
    } else {
        edge_by_id(edges.drop_first(), id)
    }
}

/// The first edge with the id.
pub fn find_edge<'a>(edges: &'a Vec<GraphEdge>, id: &str) -> (r: Option<&'a GraphEdge>)
    ensures
        edge_by_id(graph::edge_views(edges@), id@) == (match r {
            Some(e) => Some(e@),
            None => None,
        }),
{
    let ghost views = graph::edge_views(edges@);
    let mut i: usize = 0;
    assert(views.skip(0) =~= views);
    while i < edges.len()
        invariant
            i <= edges.len(),
            views == graph::edge_views(edges@),
            edge_by_id(views, id@) == edge_by_id(views.skip(i as int), id@),
        decreases edges.len() - i,
    {
        assert(views.skip(i as int)[0] == edges@[i as int]@);
        assert(views.skip(i as int).drop_first() =~= views.skip(i + 1));
        if same_text(edges[i].id.as_str(), id) {
            return Some(&edges[i]);
        }
        i += 1;
    }
    None
}

/// The nodes that a selection brings into focus: all, a node with its neighbours, or the ends of
/// an edge.
pub open spec fn focus_nodes(m: ModelView, selection: SelectionView) -> Set<Seq<char>> {
    match selection {
        SelectionView::Overview => ids_of(m.nodes),
        SelectionView::Node(id) => neighborhood(m.edges, set![id]),
        SelectionView::Edge(id) => match edge_by_id(m.edges, id) {
            Some(e) => set![e.from, e.to],
            None => Set::empty(),
        },
    }
}

/// The nodes that a selection brings into focus.
pub fn selected_neighbor_nodes(model: &GraphModel, selection: &GraphSelection) -> (r: TextSet)
    ensures
        r.wf(),
        r@ == focus_nodes(model@, selection@),
{
    match selection {
        GraphSelection::Overview => collect_ids(&model.nodes),
        GraphSelection::Node(id) => {
            let seeds = TextSet::singleton(id.as_str());
            neighborhood_of(&model.edges, &seeds)
        },
        GraphSelection::Edge(id) => {
            let mut r = TextSet::new();
            if let Some(edge) = find_edge(&model.edges, id.as_str()) {
                r.insert(edge.from.clone());
                r.insert(edge.to.clone());
                assert(r@ =~= set![edge.from@, edge.to@]);
            }
            r
        },
    }
}

/// The edges that a selection brings into focus: all, those at a node, or the one.
pub open spec fn focus_edges(m: ModelView, selection: SelectionView) -> Set<Seq<char>> {
    match selection {
        SelectionView::Overview => Set::new(|x: Seq<char>| m.has_edge(x)),
        SelectionView::Node(id) => Set::new(
            |x: Seq<char>|
                exists|i: int|
                    0 <= i < m.edges.len() && (#[trigger] m.edges[i]).id == x && (m.edges[i].from
                        == id || m.edges[i].to == id),
        ),
        SelectionView::Edge(id) => set![id],
    }
}

/// Whether the edge is one that the selection of everything or of a node takes.
spec fn taken(e: EdgeView, at: Option<Seq<char>>) -> bool {
    at matches Some(id) ==> e.from == id || e.to == id
}

/// The ids of edges, or of those at a node.
fn edge_ids_at(edges: &Vec<GraphEdge>, at: Option<&String>) -> (r: TextSet)
    ensures
        r.wf(),
        ({
            let views = graph::edge_views(edges@);
            let node = match at {
                Some(s) => Some(s@),
                None => None,
            };
            forall|x: Seq<char>| #[trigger]
                r@.contains(x) <==> exists|i: int|
                    0 <= i < views.len() && (#[trigger] views[i]).id == x && taken(views[i], node)
        }),
{
    let ghost views = graph::edge_views(edges@);
    let ghost node = match at {
        Some(s) => Some(s@),
        None => None,
    };
    let mut r = TextSet::new();
    let mut i: usize = 0;
    while i < edges.len()
        invariant
            i <= edges.len(),
            views == graph::edge_views(edges@),
            node == (match at {
                Some(s) => Some(s@),
                None => None,
            }),
            r.wf(),
            forall|x: Seq<char>| #[trigger]
                r@.contains(x) <==> exists|k: int|
                    0 <= k < i && (#[trigger] views[k]).id == x && taken(views[k], node),
        decreases edges.len() - i,
    {
        let ghost before = r@;
        let wanted: bool = match at {
            Some(id) => edges[i].from == *id || edges[i].to == *id,
            None => true,
        };
        if wanted {
            r.insert(edges[i].id.clone());
        }
        assert forall|x: Seq<char>| #[trigger] r@.contains(x) <==> exists|k: int|
            0 <= k < i + 1 && (#[trigger] views[k]).id == x && taken(views[k], node) by {
            assert(views[i as int] == edges@[i as int]@);
            assert(wanted == taken(views[i as int], node));
            if before.contains(x) {
                let k = choose|k: int|
                    0 <= k < i && (#[trigger] views[k]).id == x && taken(views[k], node);
                assert(views[k].id == x);
            }
            if exists|k: int|
                0 <= k < i + 1 && (#[trigger] views[k]).id == x && taken(views[k], node) {
                let k = choose|k: int|
                    0 <= k < i + 1 && (#[trigger] views[k]).id == x && taken(views[k], node);
                if k < i {
                    assert(before.contains(x));
                }
            }
        }
        i += 1;
    }
    r
}

/// The edges that a selection brings into focus.
pub fn selected_edges(model: &GraphModel, selection: &GraphSelection) -> (r: TextSet)
    ensures
        r.wf(),
        r@ == focus_edges(model@, selection@),
{
    match selection {
        GraphSelection::Overview => {
            let r = edge_ids_at(&model.edges, None);
            assert(r@ =~= focus_edges(model@, selection@));
            r
        },
        GraphSelection::Node(id) => {
            let r = edge_ids_at(&model.edges, Some(id));
            assert(r@ =~= focus_edges(model@, selection@));
            r
        },
        GraphSelection::Edge(id) => TextSet::singleton(id.as_str()),
    }
}

/// A graph cut to the neighbourhood of the seeds, where anything is left of it.
pub open spec fn drilldown(m: ModelView, seeds: Set<Seq<char>>) -> Option<ModelView> {
    let nodes = m.nodes.filter(node_in(neighborhood(m.edges, seeds)));
    if seeds == Set::<Seq<char>>::empty() || nodes.len() == 0 {
        None
    } else {
        Some(
            ModelView {
                nodes,
                edges: m.edges.filter(edge_in(ids_of(nodes))),
                fallback: m.fallback,
            },
        )
    }
}

/// The view of an optional graph.
pub open spec fn opt_model(o: Option<GraphModel>) -> Option<ModelView> {
    match o {
        Some(m) => Some(m@),
        None => None,
    }
}

/// Cuts a graph to the neighbourhood of the seeds.
pub fn drilldown_neighborhood(model: &GraphModel, seeds: &TextSet) -> (r: Option<GraphModel>)
    requires
        seeds.wf(),
    ensures
        opt_model(r) == drilldown(model@, seeds@),
{
    if seeds.is_empty() {
        return None;
    }
    let allowed = neighborhood_of(&model.edges, seeds);
    let nodes = keep_nodes(&model.nodes, &allowed);
    assert(graph::node_views(nodes@).len() == nodes@.len());
    if nodes.len() == 0 {
        return None;
    }
    let ids = collect_ids(&nodes);
    let edges = keep_edges(&model.edges, &ids);
    Some(GraphModel { nodes, edges, fallback: model.fallback })
}

// ---------------------------------------------------------------------------
// Filters
// ---------------------------------------------------------------------------

/// Nodes of the kinds that are shown.
pub open spec fn shown_node(fallback: bool, show_facts: bool, show_evidence: bool) -> spec_fn(
    NodeView,
) -> bool {
    |n: NodeView|
        (show_facts || n.kind != GraphNodeKind::Fact) && (fallback || show_evidence || n.kind
            != GraphNodeKind::Memory)
}

/// Edges of the kinds that are shown, between nodes of the set.
pub open spec fn shown_edge(
    show_facts: bool,
    show_evidence: bool,
    ids: Set<Seq<char>>,
) -> spec_fn(EdgeView) -> bool {
    |e: EdgeView|
        (show_facts || e.kind != GraphEdgeKind::Fact) && (show_evidence || e.kind
            != GraphEdgeKind::Evidence) && ids.contains(e.from) && ids.contains(e.to)
}

/// A graph without the kinds that are not shown.
pub open spec fn kind_filtered(m: ModelView, show_facts: bool, show_evidence: bool) -> ModelView {
    let nodes = m.nodes.filter(shown_node(m.fallback, show_facts, show_evidence));
    ModelView {
        nodes,
        edges: m.edges.filter(shown_edge(show_facts, show_evidence, ids_of(nodes))),
        fallback: m.fallback,
    }
}

/// Edges whose label holds the words.
pub open spec fn edge_labelled(words: Seq<char>) -> spec_fn(EdgeView) -> bool {
    |e: EdgeView| text::occurs_in(words, text::lowered(e.label))
}

/// The ends of edges.
pub open spec fn endpoints(edges: Seq<EdgeView>) -> Seq<Seq<char>>
    decreases edges.len(),
{
    if edges.len() == 0 {
        Seq::empty()
    } else {
        endpoints(edges.drop_last()).push(edges.last().from).push(edges.last().to)
    }
}

/// A graph cut to the edges whose label holds the words, and the nodes they join.
pub open spec fn relation_filtered(m: ModelView, words: Seq<char>) -> ModelView {
    if words.len() == 0 {
        m
    } else {
        let edges = m.edges.filter(edge_labelled(words));
        ModelView {
            nodes: m.nodes.filter(node_in(endpoints(edges).to_set())),
            edges,
            fallback: m.fallback,
        }
    }
}

/// Whether the label or the detail of a node holds the words.
pub open spec fn node_matches(n: NodeView, words: Seq<char>) -> bool {
    text::occurs_in(words, text::lowered(n.label)) || text::occurs_in(
        words,
        text::lowered(n.detail),
    )
}

/// The ids of the nodes that hold the words.
pub open spec fn matching_ids(nodes: Seq<NodeView>, words: Seq<char>) -> Set<Seq<char>> {
    Set::new(
        |id: Seq<char>|
            exists|i: int|
                0 <= i < nodes.len() && (#[trigger] nodes[i]).id == id && node_matches(
                    nodes[i],
                    words,
                ),
    )
}

/// A graph cut to the nodes that hold the words and their neighbours.
pub open spec fn node_filtered(m: ModelView, words: Seq<char>) -> ModelView {
    if words.len() == 0 {
        m
    } else {
        let found = matching_ids(m.nodes, words);
        if found == Set::<Seq<char>>::empty() {
            ModelView { nodes: Seq::empty(), edges: Seq::empty(), fallback: m.fallback }
        } else {
            restricted(m, neighborhood(m.edges, found))
        }
    }
}

/// What a filter field holds: its text without white space around it, in small letters.
pub open spec fn filter_words(field: Seq<char>) -> Seq<char> {
    text::lowered(text::trimmed(field))
}

/// A graph with both text filters applied, the one on relations first.
pub open spec fn text_filtered(
    m: ModelView,
    node_filter: Seq<char>,
    relation_filter: Seq<char>,
) -> ModelView {
    node_filtered(relation_filtered(m, filter_words(relation_filter)), filter_words(node_filter))
}

/// A graph without the kinds that are not shown.
fn filter_kinds(model: &GraphModel, show_facts: bool, show_evidence: bool) -> (r: GraphModel)
    ensures
        r@ == kind_filtered(model@, show_facts, show_evidence),
{
    let ghost np = shown_node(model.fallback, show_facts, show_evidence);
    let ghost nviews = graph::node_views(model.nodes@);
    let mut nodes: Vec<GraphNode> = Vec::new();
    let mut i: usize = 0;
    proof {
        reveal(Seq::filter);
        assert(nviews.take(0) =~= Seq::<NodeView>::empty());
        assert(graph::node_views(nodes@) =~= Seq::<NodeView>::empty());
    }
    while i < model.nodes.len()
        invariant
            i <= model.nodes.len(),
            np == shown_node(model.fallback, show_facts, show_evidence),
            nviews == graph::node_views(model.nodes@),
            graph::node_views(nodes@) == nviews.take(i as int).filter(np),
        decreases model.nodes.len() - i,
    {
        proof {
            nviews.take(i as int).lemma_filter_push(nviews[i as int], np);
            assert(nviews.take(i + 1) =~= nviews.take(i as int).push(nviews[i as int]));
        }
        let kind = model.nodes[i].kind;
        if (show_facts || kind != GraphNodeKind::Fact) && (model.fallback || show_evidence || kind
            != GraphNodeKind::Memory) {
            let ghost before = nodes@;
            nodes.push(model.nodes[i].clone());
            assert(graph::node_views(nodes@) =~= graph::node_views(before).push(nviews[i as int]));
        }
        i += 1;
    }
    assert(nviews.take(i as int) =~= nviews);
    let ids = collect_ids(&nodes);
    let ghost ep = shown_edge(show_facts, show_evidence, ids@);
    let ghost eviews = graph::edge_views(model.edges@);
    let mut edges: Vec<GraphEdge> = Vec::new();
    let mut k: usize = 0;
    proof {
        reveal(Seq::filter);
        assert(eviews.take(0) =~= Seq::<EdgeView>::empty());
        assert(graph::edge_views(edges@) =~= Seq::<EdgeView>::empty());
    }
    while k < model.edges.len()
        invariant
            k <= model.edges.len(),
            ids.wf(),
            ep == shown_edge(show_facts, show_evidence, ids@),
            eviews == graph::edge_views(model.edges@),
            graph::edge_views(edges@) == eviews.take(k as int).filter(ep),
        decreases model.edges.len() - k,
    {
        proof {
            eviews.take(k as int).lemma_filter_push(eviews[k as int], ep);
            assert(eviews.take(k + 1) =~= eviews.take(k as int).push(eviews[k as int]));
        }
        let kind = model.edges[k].kind;
        if (show_facts || kind != GraphEdgeKind::Fact) && (show_evidence || kind
            != GraphEdgeKind::Evidence) && ids.contains(&model.edges[k].from) && ids.contains(
            &model.edges[k].to,
        ) {
            let ghost before = edges@;
            edges.push(model.edges[k].clone());
            assert(graph::edge_views(edges@) =~= graph::edge_views(before).push(eviews[k as int]));
        }
        k += 1;
    }
    assert(eviews.take(k as int) =~= eviews);
    GraphModel { nodes, edges, fallback: model.fallback }
}

/// The set of the ends of edges.
pub fn collect_endpoints(edges: &Vec<GraphEdge>) -> (r: TextSet)
    ensures
        r.wf(),
        r@ == endpoints(graph::edge_views(edges@)).to_set(),
{
    let ghost views = graph::edge_views(edges@);
    let mut r = TextSet::new();
    let mut i: usize = 0;
    assert(views.take(0) =~= Seq::<EdgeView>::empty());
    assert(r@ =~= endpoints(views.take(0)).to_set());
    while i < edges.len()
        invariant
            i <= edges.len(),
            views == graph::edge_views(edges@),
            r.wf(),
            r@ == endpoints(views.take(i as int)).to_set(),
        decreases edges.len() - i,
    {
        proof {
            let a = endpoints(views.take(i as int));
            let e = views[i as int];
            assert(views.take(i + 1).drop_last() =~= views.take(i as int));
            assert(views.take(i + 1).last() == e);
            assert(a.push(e.from).push(e.to).to_set() =~= a.to_set().insert(e.from).insert(
                e.to,
            )) by {
                let b = a.push(e.from).push(e.to);
                assert forall|x: Seq<char>| b.contains(x) <==> a.contains(x) || x == e.from || x
                    == e.to by {
                    if a.contains(x) {
                        let j = choose|j: int| 0 <= j < a.len() && a[j] == x;
                        assert(b[j] == x);
                    }
                    assert(b[a.len() as int] == e.from);
                    assert(b[a.len() as int + 1] == e.to);
                    if b.contains(x) {
                        let j = choose|j: int| 0 <= j < b.len() && b[j] == x;
                        if j < a.len() {
                            assert(a[j] == x);
                        }
                    }
                }
            }
        }
        r.insert(edges[i].from.clone());
        r.insert(edges[i].to.clone());
        i += 1;
    }
    assert(views.take(i as int) =~= views);
    r
}

/// Cuts a graph to the edges whose label holds the words, and the nodes they join.
fn filter_relations(model: &mut GraphModel, words: &String)
    ensures
        final(model)@ == relation_filtered(old(model)@, words@),
{
    if words.as_str().is_empty() {
        return ;
    }
    let ghost p = edge_labelled(words@);
    let ghost views = graph::edge_views(model.edges@);
    let mut edges: Vec<GraphEdge> = Vec::new();
    let mut i: usize = 0;
    proof {
        reveal(Seq::filter);
        assert(views.take(0) =~= Seq::<EdgeView>::empty());
        assert(graph::edge_views(edges@) =~= Seq::<EdgeView>::empty());
    }
    while i < model.edges.len()
        invariant
            i <= model.edges.len(),
            p == edge_labelled(words@),
            views == graph::edge_views(model.edges@),
            graph::edge_views(edges@) == views.take(i as int).filter(p),
        decreases model.edges.len() - i,
    {
        proof {
            views.take(i as int).lemma_filter_push(views[i as int], p);
            assert(views.take(i + 1) =~= views.take(i as int).push(views[i as int]));
        }
        let label = lowercase(model.edges[i].label.as_str());
        if contains_text(label.as_str(), words.as_str()) {
            let ghost before = edges@;
            edges.push(model.edges[i].clone());
            assert(graph::edge_views(edges@) =~= graph::edge_views(before).push(views[i as int]));
        }
        i += 1;
    }
    assert(views.take(i as int) =~= views);
    let joined = collect_endpoints(&edges);
    let nodes = keep_nodes(&model.nodes, &joined);
    model.nodes = nodes;
    model.edges = edges;
}

/// The ids of the nodes that hold the words.
fn collect_matching(nodes: &Vec<GraphNode>, words: &String) -> (r: TextSet)
    ensures
        r.wf(),
        r@ == matching_ids(graph::node_views(nodes@), words@),
{
    let ghost views = graph::node_views(nodes@);
    let mut r = TextSet::new();
    let mut i: usize = 0;
    assert(r@ =~= matching_ids(views.take(0), words@));
    while i < nodes.len()
        invariant
            i <= nodes.len(),
            views == graph::node_views(nodes@),
            r.wf(),
            r@ == matching_ids(views.take(i as int), words@),
        decreases nodes.len() - i,
    {
        let ghost before = r@;
        let label = lowercase(nodes[i].label.as_str());
        let detail = lowercase(nodes[i].detail.as_str());
        if contains_text(label.as_str(), words.as_str()) || contains_text(
            detail.as_str(),
            words.as_str(),
        ) {
            r.insert(nodes[i].id.clone());
        }
        proof {
            let a = views.take(i as int);
            let b = views.take(i + 1);
            assert forall|x: Seq<char>| #[trigger] r@.contains(x) <==> matching_ids(
                b,
                words@,
            ).contains(x) by {
                assert(b[i as int] == nodes@[i as int]@);
                if before.contains(x) {
                    let k = choose|k: int|
                        0 <= k < a.len() && (#[trigger] a[k]).id == x && node_matches(a[k], words@);
                    assert(b[k].id == x && node_matches(b[k], words@));
                }
                if r@.contains(x) && !before.contains(x) {
                    assert(b[i as int].id == x && node_matches(b[i as int], words@));
                }
                if matching_ids(b, words@).contains(x) {
                    let k = choose|k: int|
                        0 <= k < b.len() && (#[trigger] b[k]).id == x && node_matches(b[k], words@);
                    if k < i {
                        assert(a[k].id == x && node_matches(a[k], words@));
                    }
                }
            }
            assert(r@ =~= matching_ids(b, words@));
        }
        i += 1;
    }
    assert(views.take(i as int) =~= views);
    r
}

/// Cuts a graph to the nodes that hold the words and their neighbours.
fn filter_nodes(model: &mut GraphModel, words: &String)
    ensures
        final(model)@ == node_filtered(old(model)@, words@),
{
    if words.as_str().is_empty() {
        return ;
    }
    let found = collect_matching(&model.nodes, words);
    if found.is_empty() {
        model.nodes = Vec::new();
        model.edges = Vec::new();
        assert(model@.nodes =~= Seq::<NodeView>::empty());
        assert(model@.edges =~= Seq::<EdgeView>::empty());
        return ;
    }
    let visible = neighborhood_of(&model.edges, &found);
    let nodes = keep_nodes(&model.nodes, &visible);
    let edges = keep_edges(&model.edges, &visible);
    model.nodes = nodes;
    model.edges = edges;
}

/// Applies both text filters, the one on relations first.
pub fn apply_text_filters(model: &mut GraphModel, node_filter: &str, relation_filter: &str)
    ensures
        final(model)@ == text_filtered(old(model)@, node_filter@, relation_filter@),
{
    let node_trimmed = trim(node_filter);
    let node_words = lowercase(node_trimmed.as_str());
    let relation_trimmed = trim(relation_filter);
    let relation_words = lowercase(relation_trimmed.as_str());
    filter_relations(model, &relation_words);
    filter_nodes(model, &node_words);
}

// ---------------------------------------------------------------------------
// Limits
// ---------------------------------------------------------------------------

/// A number moved into a range.
pub open spec fn clamped(n: int, low: int, high: int) -> int {
    if n < low {
        low
    } else if n > high {
        high
    } else {
        n
    }
}

/// How many nodes are shown at most.
pub open spec fn node_limit(max_visible_nodes: int) -> int {
    clamped(max_visible_nodes, 20, 250)
}

/// How many edges are shown at most.
pub open spec fn edge_limit(max_visible_nodes: int) -> int {
    clamped(max_visible_nodes * 5, 80, 700)
}

/// What the kind of a node counts for.
pub open spec fn kind_weight(kind: GraphNodeKind) -> int {
    match kind {
        GraphNodeKind::Cluster => 620,
        GraphNodeKind::Entity => 400,
        GraphNodeKind::Type => 520,
        GraphNodeKind::CodeSymbol => 430,
        GraphNodeKind::CodeFile => 560,
        GraphNodeKind::Fact => 180,
        GraphNodeKind::Memory => 80,
    }
}

/// How much a node is worth showing: by its edges, its kind and the selection.
pub open spec fn node_score(
    n: NodeView,
    degree: nat,
    near: Set<Seq<char>>,
    selection: SelectionView,
) -> int {
    degree * 12 + kind_weight(n.kind) + (if near.contains(n.id) {
        8_000int
    } else {
        0
    }) + (if selection == SelectionView::Node(n.id) {
        12_000int
    } else {
        0
    })
}

/// How much an edge is worth showing: by its weight and the selection.
pub open spec fn edge_score(
    e: EdgeView,
    near: Set<Seq<char>>,
    selection: SelectionView,
) -> int {
    (if e.weight < 1 {
        1
    } else {
        e.weight as int
    }) * 20 + (if near.contains(e.from) || near.contains(e.to) {
        2_000int
    } else {
        0
    }) + (if selection == SelectionView::Edge(e.id) {
        12_000int
    } else {
        0
    })
}

/// What a node is ranked by: its score, then its label.
pub open spec fn node_rank(m: ModelView, selection: SelectionView) -> spec_fn(NodeView) -> RankView {
    |n: NodeView|
        RankView {
            score: node_score(
                n,
                order::occurrences(endpoints(m.edges), n.id),
                focus_nodes(m, selection),
                selection,
            ),
            length: 0,
            first: n.label,
            second: Seq::empty(),
        }
}

/// What an edge is ranked by: its score, then its label, then its id.
pub open spec fn edge_rank(m: ModelView, selection: SelectionView) -> spec_fn(EdgeView) -> RankView {
    |e: EdgeView|
        RankView {
            score: edge_score(e, focus_nodes(m, selection), selection),
            length: 0,
            first: e.label,
            second: e.id,
        }
}

/// A graph with at most so many nodes, those that rank first, and the edges between them.
pub open spec fn node_clamped(
    m: ModelView,
    selection: SelectionView,
    max_visible_nodes: int,
) -> ModelView {
    let limit = node_limit(max_visible_nodes);
    if m.nodes.len() <= limit {
        m
    } else {
        let keys = m.nodes.map_values(node_rank(m, selection));
        let nodes = ranking::picked(m.nodes, ranking::ranking(keys).take(limit));
        ModelView {
            nodes,
            edges: m.edges.filter(edge_in(ids_of(nodes))),
            fallback: m.fallback,
        }
    }
}

/// A graph with at most so many edges, those that rank first.
pub open spec fn edge_clamped(
    m: ModelView,
    selection: SelectionView,
    max_visible_nodes: int,
) -> ModelView {
    let limit = edge_limit(max_visible_nodes);
    if m.edges.len() <= limit {
        m
    } else {
        let keys = m.edges.map_values(edge_rank(m, selection));
        ModelView { edges: ranking::picked(m.edges, ranking::ranking(keys).take(limit)), ..m }
    }
}

/// How often each text is the end of an edge.
fn count_endpoints(edges: &Vec<GraphEdge>) -> (r: OrderedMap<String, Count>)
    ensures
        r.wf(),
        r@ == order::tally(endpoints(graph::edge_views(edges@))),
{
    let ghost views = graph::edge_views(edges@);
    let mut list: Vec<String> = Vec::new();
    let mut i: usize = 0;
    assert(views.take(0) =~= Seq::<EdgeView>::empty());
    assert(text::texts(list@) =~= endpoints(views.take(0)));
    while i < edges.len()
        invariant
            i <= edges.len(),
            views == graph::edge_views(edges@),
            text::texts(list@) == endpoints(views.take(i as int)),
        decreases edges.len() - i,
    {
        let ghost before = list@;
        list.push(edges[i].from.clone());
        list.push(edges[i].to.clone());
        proof {
            assert(views.take(i + 1).drop_last() =~= views.take(i as int));
            assert(views.take(i + 1).last() == edges@[i as int]@);
            assert(text::texts(list@) =~= text::texts(before).push(views[i as int].from).push(
                views[i as int].to,
            ));
        }
        i += 1;
    }
    assert(views.take(i as int) =~= views);
    aggregate::count_texts(&list)
}

/// What the kind of a node counts for.
fn weight_of_kind(kind: GraphNodeKind) -> (r: i128)
    ensures
        r == kind_weight(kind),
        0 <= r <= 620,
{
    match kind {
        GraphNodeKind::Cluster => 620,
        GraphNodeKind::Entity => 400,
        GraphNodeKind::Type => 520,
        GraphNodeKind::CodeSymbol => 430,
        GraphNodeKind::CodeFile => 560,
        GraphNodeKind::Fact => 180,
        GraphNodeKind::Memory => 80,
    }
}

/// How much a node is worth showing.
pub fn node_priority(
    node: &GraphNode,
    degree: usize,
    selected_ids: &TextSet,
    selection: &GraphSelection,
) -> (r: i128)
    requires
        selected_ids.wf(),
    ensures
        r == node_score(node@, degree as nat, selected_ids@, selection@),
{
    let mut score: i128 = degree as i128 * 12 + weight_of_kind(node.kind);
    if selected_ids.contains(&node.id) {
        score = score + 8_000;
    }
    if let GraphSelection::Node(id) = selection {
        if *id == node.id {
            score = score + 12_000;
        }
    }
    score
}

/// How much an edge is worth showing.
pub fn edge_priority(edge: &GraphEdge, selected_ids: &TextSet, selection: &GraphSelection) -> (r:
    i128)
    requires
        selected_ids.wf(),
    ensures
        r == edge_score(edge@, selected_ids@, selection@),
{
    let weight: usize = if edge.weight < 1 {
        1
    } else {
        edge.weight
    };
    let mut score: i128 = weight as i128 * 20;
    if selected_ids.contains(&edge.from) || selected_ids.contains(&edge.to) {
        score = score + 2_000;
    }
    if let GraphSelection::Edge(id) = selection {
        if *id == edge.id {
            score = score + 12_000;
        }
    }
    score
}

/// A number moved into a range.
fn clamp(n: usize, low: usize, high: usize) -> (r: usize)
    ensures
        r == clamped(n as int, low as int, high as int),
{
    if n < low {
        low
    } else if n > high {
        high
    } else {
        n
    }
}

/// Cuts a graph to the nodes that rank first.
pub fn clamp_visible_nodes(
    model: GraphModel,
    selection: &GraphSelection,
    max_visible_nodes: usize,
) -> (r: GraphModel)
    ensures
        r@ == node_clamped(model@, selection@, max_visible_nodes as int),
{
    let limit = clamp(max_visible_nodes, 20, 250);
    if model.nodes.len() <= limit {
        return model;
    }
    let near = selected_neighbor_nodes(&model, selection);
    let degrees = count_endpoints(&model.edges);
    let ghost rank_of = node_rank(model@, selection@);
    let ghost ends = endpoints(model@.edges);
    let mut keys: Vec<RankKey> = Vec::new();
    let mut i: usize = 0;
    while i < model.nodes.len()
        invariant
            i <= model.nodes.len(),
            near.wf(),
            near@ == focus_nodes(model@, selection@),
            degrees.wf(),
            ends == endpoints(model@.edges),
            degrees@ == order::tally(ends),
            rank_of == node_rank(model@, selection@),
            keys.len() == i,
            forall|j: int| 0 <= j < i ==> (#[trigger] keys@[j])@ == rank_of(model@.nodes[j]),
        decreases model.nodes.len() - i,
    {
        let degree: usize = match degrees.get(&model.nodes[i].id) {
            Some(c) => c.n,
            None => 0,
        };
        proof {
            order::occurrences_of_absent(ends, model.nodes@[i as int].id@);
        }
        let score = node_priority(&model.nodes[i], degree, &near, selection);
        let key = RankKey {
            score,
            length: 0,
            first: model.nodes[i].label.clone(),
            second: String::new(),
        };
        assert(model@.nodes[i as int] == model.nodes@[i as int]@);
        keys.push(key);
        i += 1;
    }
    assert(ranking::key_views(keys@) =~= model@.nodes.map_values(rank_of));
    let ranked = rank(&keys);
    let ghost all = ranking::as_ints(ranked@);
    let mut nodes: Vec<GraphNode> = Vec::new();
    let mut k: usize = 0;
    while k < limit
        invariant
            k <= limit < model.nodes.len(),
            ranked.len() == model.nodes.len(),
            forall|j: int| 0 <= j < ranked@.len() ==> #[trigger] ranked@[j] < model.nodes@.len(),
            nodes.len() == k,
            forall|j: int|
                0 <= j < k ==> (#[trigger] nodes@[j])@ == model@.nodes[ranked@[j] as int],
        decreases limit - k,
    {
        nodes.push(model.nodes[ranked[k]].clone());
        k += 1;
    }
    assert(graph::node_views(nodes@) =~= ranking::picked(model@.nodes, all.take(limit as int)));
    let kept = collect_ids(&nodes);
    let edges = keep_edges(&model.edges, &kept);
    GraphModel { nodes, edges, fallback: model.fallback }
}

/// Cuts a graph to the edges that rank first.
pub fn clamp_visible_edges(
    model: GraphModel,
    selection: &GraphSelection,
    max_visible_nodes: usize,
) -> (r: GraphModel)
    requires
        max_visible_nodes * 5 <= usize::MAX,
    ensures
        r@ == edge_clamped(model@, selection@, max_visible_nodes as int),
{
    let limit = clamp(max_visible_nodes * 5, 80, 700);
    if model.edges.len() <= limit {
        return model;
    }
    let near = selected_neighbor_nodes(&model, selection);
    let ghost rank_of = edge_rank(model@, selection@);
    let mut keys: Vec<RankKey> = Vec::new();
    let mut i: usize = 0;
    while i < model.edges.len()
        invariant
            i <= model.edges.len(),
            near.wf(),
            near@ == focus_nodes(model@, selection@),
            rank_of == edge_rank(model@, selection@),
            keys.len() == i,
            forall|j: int| 0 <= j < i ==> (#[trigger] keys@[j])@ == rank_of(model@.edges[j]),
        decreases model.edges.len() - i,
    {
        let score = edge_priority(&model.edges[i], &near, selection);
        let key = RankKey {
            score,
            length: 0,
            first: model.edges[i].label.clone(),
            second: model.edges[i].id.clone(),
        };
        assert(model@.edges[i as int] == model.edges@[i as int]@);
        keys.push(key);
        i += 1;
    }
    assert(ranking::key_views(keys@) =~= model@.edges.map_values(rank_of));
    let ranked = rank(&keys);
    let ghost all = ranking::as_ints(ranked@);
    let mut edges: Vec<GraphEdge> = Vec::new();
    let mut k: usize = 0;
    while k < limit
        invariant
            k <= limit < model.edges.len(),
            ranked.len() == model.edges.len(),
            forall|j: int| 0 <= j < ranked@.len() ==> #[trigger] ranked@[j] < model.edges@.len(),
            edges.len() == k,
            forall|j: int|
                0 <= j < k ==> (#[trigger] edges@[j])@ == model@.edges[ranked@[j] as int],
        decreases limit - k,
    {
        edges.push(model.edges[ranked[k]].clone());
        k += 1;
    }
    assert(graph::edge_views(edges@) =~= ranking::picked(model@.edges, all.take(limit as int)));
    GraphModel { nodes: model.nodes, edges, fallback: model.fallback }
}

// ---------------------------------------------------------------------------
// All together
// ---------------------------------------------------------------------------

/// What of a graph is to be shown.
pub struct RelationshipFilterOptions<'a> {
    pub selection: &'a GraphSelection,
    pub show_facts: bool,
    pub show_evidence: bool,
    pub focus_selected: bool,
    pub max_visible_nodes: usize,
    pub node_filter: &'a str,
    pub relation_filter: &'a str,
}

/// The options by their texts.
pub struct FilterView {
    pub selection: SelectionView,
    pub show_facts: bool,
    pub show_evidence: bool,
    pub focus_selected: bool,
    pub max_visible_nodes: int,
    pub node_filter: Seq<char>,
    pub relation_filter: Seq<char>,
}

impl<'a> View for RelationshipFilterOptions<'a> {
    type V = FilterView;

    open spec fn view(&self) -> FilterView {
        FilterView {
            selection: self.selection@,
            show_facts: self.show_facts,
            show_evidence: self.show_evidence,
            focus_selected: self.focus_selected,
            max_visible_nodes: self.max_visible_nodes as int,
            node_filter: self.node_filter@,
            relation_filter: self.relation_filter@,
        }
    }
}

/// A graph cut to the focus of a selection, where there is one.
pub open spec fn focused(m: ModelView, selection: SelectionView, focus_selected: bool) -> ModelView {
    let focus = focus_nodes(m, selection);
    if focus_selected && selection != SelectionView::Overview && focus != Set::<
        Seq<char>,
    >::empty() {
        restricted(m, focus)
    } else {
        m
    }
}

/// What of a graph is shown.
pub open spec fn filtered(m: ModelView, options: FilterView) -> ModelView {
    let selection = options.selection;
    let max = options.max_visible_nodes;
    let kinds = kind_filtered(m, options.show_facts, options.show_evidence);
    let words = text_filtered(kinds, options.node_filter, options.relation_filter);
    let focus = focused(words, selection, options.focus_selected);
    edge_clamped(node_clamped(focus, selection, max), selection, max)
}

/// Cuts a graph to what is shown of it.
pub fn filter_relationship_model(
    model: &GraphModel,
    options: &RelationshipFilterOptions<'_>,
) -> (r: GraphModel)
    requires
        options.max_visible_nodes * 5 <= usize::MAX,
    ensures
        r@ == filtered(model@, options@),
{
    let mut shown = filter_kinds(model, options.show_facts, options.show_evidence);
    apply_text_filters(&mut shown, options.node_filter, options.relation_filter);
    let overview: bool = match options.selection {
        GraphSelection::Overview => true,
        _ => false,
    };
    if options.focus_selected && !overview {
        let focus = selected_neighbor_nodes(&shown, options.selection);
        if !focus.is_empty() {
            let nodes = keep_nodes(&shown.nodes, &focus);
            let edges = keep_edges(&shown.edges, &focus);
            shown = GraphModel { nodes, edges, fallback: shown.fallback };
        }
    }
    let nodes_clamped = clamp_visible_nodes(shown, options.selection, options.max_visible_nodes);
    clamp_visible_edges(nodes_clamped, options.selection, options.max_visible_nodes)
}

} // verus!
