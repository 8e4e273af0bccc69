//! What the viewer shows and counts: which graph belongs to which view, what the pointer does, what
//! is counted as support, and how nodes are laid out.
use vstd::prelude::*;
use vstd::string::*;
use crate::bridge::{ClusterView, TargetView};
use crate::bridge_laws::{is_named_among, names_file, names_symbol, targets_are_what_a_text_names};
use crate::code_graph::CodeGrouping;
use crate::graph::{
    EdgeView, GraphEdge, GraphEdgeKind, GraphModel, GraphNode, GraphNodeKind, ModelView, NodeView,
    SelectionView,
};
use crate::group_laws::lemma_tally_lists;
use crate::overview::{GraphDomain, GraphViewMode};
use crate::paths::PathView;
use crate::quality::{Coverage, GraphQuality, RetrievalQuality};
use crate::records::{
    CodeRelation, CodeSymbol, Memory, MemoryEdge, MemoryEntity, MemoryFact, MemoryGraph,
};
use crate::viewer::{HistoryView, ViewerData, ViewerDisplay, ViewerFilters, ViewerState};
use crate::viewer_events::{NodeAction, PointerEvent};
use crate::{
    bridge, code_graph, drilldown, file_paths, filter, graph, layout_plan, memory_graph, order,
    overview, paths, quality, ranking, text, viewer, viewer_events, viewer_refresh,
};

verus! {

// ---------------------------------------------------------------------------
// Views
// ---------------------------------------------------------------------------

/// Each view shows its graph: the overview that of the project; objects the entities, the symbols
/// or the bridge; types the types of entities or the kinds of symbols; files the files; and
/// clusters the clusters, or what is behind the open one where anything is.
pub proof fn views_show_their_graphs(data: ViewerData, display: ViewerDisplay)
    ensures
        ({
            let shown = viewer::base_model(data, display);
            let memories = data.memories@;
            let symbols = data.code_symbols@;
            let relations = data.code_relations@;
            let g = data.graph;
            let memory = display.domain == GraphDomain::Memory;
            let code = display.domain == GraphDomain::Code;
            let between = display.domain == GraphDomain::Bridge;
            let objects = display.view_mode == GraphViewMode::Entities;
            let types = display.view_mode == GraphViewMode::Types;
            let files = display.view_mode == GraphViewMode::Files;
            let clusters = display.view_mode == GraphViewMode::Clusters;
            let closed = display.expanded_cluster is None;
            let open = display.expanded_cluster->0@;
            &&& display.view_mode == GraphViewMode::Overview ==> shown == overview::overview_model(
                memories,
                g,
                symbols,
                relations,
            )
            &&& memory && objects ==> shown == memory_graph::relationship_model(memories, g)
            &&& memory && (types || files) ==> shown == memory_graph::type_model(g)
            &&& code && objects ==> shown == code_graph::code_symbol_model(symbols, relations)
            &&& code && types ==> shown == code_graph::code_group_model(
                CodeGrouping::Kind,
                symbols,
                relations,
            )
            &&& code && files ==> shown == code_graph::code_group_model(
                CodeGrouping::File,
                symbols,
                relations,
            )
            &&& between && (objects || types || files) ==> shown == bridge::bridge_model(
                memories,
                g,
                symbols,
            )
            &&& clusters && closed && memory ==> shown == memory_graph::memory_cluster_model(g)
            &&& clusters && closed && code ==> shown == code_graph::code_group_model(
                CodeGrouping::Directory,
                symbols,
                relations,
            )
            &&& clusters && closed && between ==> shown == bridge::bridge_cluster_model(
                memories,
                g,
                symbols,
            )
            &&& clusters && !closed && memory ==> {
                let behind = drilldown::memory_cluster_drilldown(memories, g, open);
                shown == (if behind is Some {
                    behind->0
                } else {
                    memory_graph::memory_cluster_model(g)
                })
            }
            &&& clusters && !closed && code ==> {
                let behind = drilldown::code_cluster_drilldown(symbols, relations, open);
                shown == (if behind is Some {
                    behind->0
                } else {
                    code_graph::code_group_model(CodeGrouping::Directory, symbols, relations)
                })
            }
            &&& clusters && !closed && between ==> {
                let behind = drilldown::bridge_cluster_drilldown(memories, g, symbols, open);
                shown == (if behind is Some {
                    behind->0
                } else {
                    bridge::bridge_cluster_model(memories, g, symbols)
                })
            }
        }),
{
}

/// In the overview facts and memories are shown whatever is switched off, and between memories and
/// code memories are; elsewhere the switches hold, and the rest of what is filtered by is what the
/// viewer has.
pub proof fn switches_hold_outside_the_overview(state: ViewerState, selection: SelectionView)
    ensures
        ({
            let f = state.filter_view(selection);
            let areas = state.display.view_mode == GraphViewMode::Overview;
            let between = state.display.domain == GraphDomain::Bridge;
            &&& areas ==> f.show_facts && f.show_evidence
            &&& !areas ==> f.show_facts == state.display.show_facts
            &&& between ==> f.show_evidence
            &&& !areas && !between ==> f.show_evidence == state.display.show_evidence
            &&& f.selection == selection
            &&& f.focus_selected == state.display.focus_selected
            &&& f.max_visible_nodes == state.display.max_visible_nodes
            &&& f.node_filter == state.filters.node_filter@
            &&& f.relation_filter == state.filters.relation_filter@
        }),
{
}

/// Selecting shows what is selected and ends the way forward; what is selected already stays so.
pub proof fn selecting_ends_the_way_forward(h: HistoryView, selection: SelectionView)
    ensures
        h.selecting(selection).selected == selection,
        selection != h.selected ==> h.selecting(selection).forward.len() == 0
            && h.selecting(selection).back == h.back.push(h.selected),
        selection == h.selected ==> h.selecting(selection) == h,
        h.back.len() == 0 ==> h.going_back() == h,
        h.forward.len() == 0 ==> h.going_forward() == h,
        h.back.len() > 0 ==> h.going_back().selected == h.back[h.back.len() - 1]
            && h.going_back().back.len() == h.back.len() - 1,
        h.forward.len() > 0 ==> h.going_forward().selected == h.forward[h.forward.len() - 1]
            && h.going_forward().forward.len() == h.forward.len() - 1,
{
}

/// A symbol passes the filters on code where the path of its file holds what is asked for, in
/// whatever capitals, and, where nothing is searched for, its kind is the one asked for; a blank
/// filter asks for nothing.
pub proof fn code_is_filtered_by_path_and_kind(f: ViewerFilters, s: CodeSymbol)
    ensures
        ({
            let path = text::trimmed(f.code_file_filter@);
            let kind = text::trimmed(f.code_kind_filter@);
            let searched = text::trimmed(f.query@).len() > 0;
            f.admits(s) <==> (path.len() == 0 || text::occurs_in(
                text::lowered(path),
                text::lowered(s.file_path@),
            )) && (searched || kind.len() == 0 || s.kind@ == kind)
        }),
{
}

/// Of the symbols that were loaded those that pass the filters are kept, in their order, and no
/// more of them than asked for, one at least and five hundred at most.
pub proof fn loaded_code_is_filtered_and_cut(state: ViewerState, symbols: Seq<CodeSymbol>)
    ensures
        ({
            let kept = viewer_refresh::kept_symbols(state, symbols);
            let all = symbols.filter(|s: CodeSymbol| state.filters.admits(s));
            let most: int = if state.filters.limit < 1 {
                1
            } else if state.filters.limit > 500 {
                500
            } else {
                state.filters.limit as int
            };
            &&& kept.len() == (if all.len() <= most {
                all.len() as int
            } else {
                most
            })
            &&& forall|i: int| 0 <= i < kept.len() ==> #[trigger] kept[i] == all[i]
        }),
{
    let p = state.filters.admitted();
    let q = |s: CodeSymbol| state.filters.admits(s);
    assert(p =~= q);
}

// ---------------------------------------------------------------------------
// The pointer
// ---------------------------------------------------------------------------

/// A drag moves a node. Else a double click opens an area of the overview or a cluster among
/// clusters, a click selects, and nothing does nothing.
pub proof fn pointers_open_what_is_under_them(
    view_mode: GraphViewMode,
    id: Seq<char>,
    kind: GraphNodeKind,
    event: PointerEvent,
)
    ensures
        ({
            let action = viewer_events::node_action(view_mode, id, kind, event);
            let area = view_mode == GraphViewMode::Overview && overview::navigation_target(
                id,
            ) is Some;
            let cluster = view_mode == GraphViewMode::Clusters && kind == GraphNodeKind::Cluster;
            &&& event.dragged <==> action == NodeAction::Drag
            &&& !event.dragged && event.double_clicked && area <==> action == NodeAction::OpenArea
            &&& !event.dragged && event.double_clicked && cluster <==> action
                == NodeAction::ExpandCluster
            &&& !event.dragged && event.clicked && !(event.double_clicked && (area || cluster))
                <==> action == NodeAction::Select
            &&& !event.dragged && !event.clicked && !(event.double_clicked && (area || cluster))
                <==> action == NodeAction::Ignore
        }),
{
}

/// Beside the nodes a drag moves the view, a double click fits it, and a click alone selects the
/// whole; on a node none of this happens.
pub proof fn the_background_moves_and_fits(event: PointerEvent, dragged: bool, interacted: bool)
    ensures
        ({
            let b = viewer_events::background_action(event, dragged, interacted);
            &&& interacted ==> !b.pan && !b.fit && !b.select_overview
            &&& !interacted ==> (b.fit <==> event.double_clicked)
            &&& !interacted ==> (b.pan <==> event.dragged && !dragged)
            &&& !interacted ==> (b.select_overview <==> event.clicked && !event.dragged
                && !event.double_clicked)
        }),
{
}

/// The edges listed for a node are those that end there, in their order, up to forty; without a
/// node, the first forty of all.
pub proof fn listed_edges_end_at_the_node(m: ModelView, id: Seq<char>)
    ensures
        ({
            let at = m.edges.filter(|e: EdgeView| e.from == id || e.to == id);
            viewer_events::linked_edges(m, Some(id)) == (if at.len() > 40 {
                at.take(40)
            } else {
                at
            })
        }),
        viewer_events::linked_edges(m, None) == (if m.edges.len() > 40 {
            m.edges.take(40)
        } else {
            m.edges
        }),
{
    let p = viewer_events::at_node(Some(id));
    let q = |e: EdgeView| e.from == id || e.to == id;
    assert(p =~= q);
    let r = viewer_events::at_node(None);
    lemma_filter_all(m.edges, r);
}

proof fn lemma_filter_all<T>(s: Seq<T>, p: spec_fn(T) -> bool)
    requires
        forall|x: T| #[trigger] p(x),
    ensures
        s.filter(p) == s,
    decreases s.len(),
{
    reveal(Seq::filter);
    if s.len() > 0 {
        lemma_filter_all(s.drop_last(), p);
        assert(s =~= s.drop_last().push(s.last()));
    }
}

/// A node has as many relations as the edges that end there weigh, each one at least.
pub proof fn relations_are_weighed_at_their_ends(edges: Seq<EdgeView>, e: EdgeView, id: Seq<char>)
    ensures
        viewer_events::relation_weight(Seq::empty(), id) == 0,
        e.from != id && e.to != id ==> viewer_events::relation_weight(edges.push(e), id)
            == viewer_events::relation_weight(edges, id),
        (e.from == id || e.to == id) && e.weight == 0 ==> viewer_events::relation_weight(
            edges.push(e),
            id,
        ) == viewer_events::relation_weight(edges, id) + 1,
        (e.from == id || e.to == id) && e.weight > 0 ==> viewer_events::relation_weight(
            edges.push(e),
            id,
        ) == viewer_events::relation_weight(edges, id) + e.weight,
{
    assert(edges.push(e).drop_last() =~= edges);
}

// ---------------------------------------------------------------------------
// Support
// ---------------------------------------------------------------------------

/// Whether a fact or a relation of the graph rests on a memory.
pub open spec fn is_rested_on(g: MemoryGraph, id: Seq<char>) -> bool {
    ||| is_of_a_fact(g.facts@, id)
    ||| is_of_an_edge(g.edges@, id)
}

/// Whether a fact rests on a memory.
pub open spec fn is_of_a_fact(facts: Seq<MemoryFact>, id: Seq<char>) -> bool {
    exists|i: int|
        0 <= i < facts.len() && text::opt_text((#[trigger] facts[i]).memory_id) == Some(id)
}

/// Whether a relation rests on a memory.
pub open spec fn is_of_an_edge(edges: Seq<MemoryEdge>, id: Seq<char>) -> bool {
    exists|i: int|
        0 <= i < edges.len() && text::opt_text((#[trigger] edges[i]).memory_id) == Some(id)
}

proof fn lemma_fact_memories(facts: Seq<MemoryFact>, id: Seq<char>)
    ensures
        quality::fact_memories(facts).contains(id) <==> is_of_a_fact(facts, id),
    decreases facts.len(),
{
    if facts.len() > 0 {
        let front = facts.drop_last();
        lemma_fact_memories(front, id);
        assert(facts[facts.len() - 1] == facts.last());
        if is_of_a_fact(front, id) {
            let i = choose|i: int|
                0 <= i < front.len() && text::opt_text((#[trigger] front[i]).memory_id) == Some(id);
            assert(facts[i] == front[i]);
        }
        if is_of_a_fact(facts, id) {
            let i = choose|i: int|
                0 <= i < facts.len() && text::opt_text((#[trigger] facts[i]).memory_id) == Some(id);
            if i < front.len() {
                assert(front[i] == facts[i]);
            }
        }
    }
}

proof fn lemma_edge_memories(ids: Set<Seq<char>>, edges: Seq<MemoryEdge>, id: Seq<char>)
    ensures
        quality::with_edge_memories(ids, edges).contains(id) <==> ids.contains(id)
            || is_of_an_edge(edges, id),
    decreases edges.len(),
{
    if edges.len() > 0 {
        let front = edges.drop_last();
        lemma_edge_memories(ids, front, id);
        assert(edges[edges.len() - 1] == edges.last());
        if is_of_an_edge(front, id) {
            let i = choose|i: int|
                0 <= i < front.len() && text::opt_text((#[trigger] front[i]).memory_id) == Some(id);
            assert(edges[i] == front[i]);
        }
        if is_of_an_edge(edges, id) {
            let i = choose|i: int|
                0 <= i < edges.len() && text::opt_text((#[trigger] edges[i]).memory_id) == Some(id);
            if i < front.len() {
                assert(front[i] == edges[i]);
            }
        }
    }
}

/// A memory counts as supported by the graph exactly where a fact or a relation rests on it.
pub proof fn supported_memories_are_rested_on(g: MemoryGraph, memories: Seq<Memory>, m: Memory)
    ensures
        ({
            let ids = quality::graph_memories(g);
            &&& quality::memories_in(Seq::empty(), ids) == 0
            &&& quality::memories_in(memories.push(m), ids) == quality::memories_in(memories, ids)
                + (if is_rested_on(g, m.id@) {
                1int
            } else {
                0
            })
        }),
{
    lemma_fact_memories(g.facts@, m.id@);
    lemma_edge_memories(quality::fact_memories(g.facts@), g.edges@, m.id@);
    assert(memories.push(m).drop_last() =~= memories);
}

/// Whether a symbol stands at an end of a relation.
pub open spec fn is_related(relations: Seq<CodeRelation>, id: Seq<char>) -> bool {
    exists|i: int|
        0 <= i < relations.len() && (text::opt_text((#[trigger] relations[i]).from_symbol_id)
            == Some(id) || text::opt_text(relations[i].target_symbol_id) == Some(id))
}

proof fn lemma_related(relations: Seq<CodeRelation>, id: Seq<char>)
    ensures
        quality::related_symbols(relations).contains(id) <==> is_related(relations, id),
    decreases relations.len(),
{
    if relations.len() > 0 {
        let front = relations.drop_last();
        lemma_related(front, id);
        assert(relations[relations.len() - 1] == relations.last());
        if is_related(front, id) {
            let i = choose|i: int|
                0 <= i < front.len() && (text::opt_text((#[trigger] front[i]).from_symbol_id)
                    == Some(id) || text::opt_text(front[i].target_symbol_id) == Some(id));
            assert(relations[i] == front[i]);
        }
        if is_related(relations, id) {
            let i = choose|i: int|
                0 <= i < relations.len() && (text::opt_text(
                    (#[trigger] relations[i]).from_symbol_id,
                ) == Some(id) || text::opt_text(relations[i].target_symbol_id) == Some(id));
            if i < front.len() {
                assert(front[i] == relations[i]);
            }
        }
    }
}

/// A symbol counts as related exactly where a relation comes from it or leads to it.
pub proof fn related_symbols_stand_at_relations(
    relations: Seq<CodeRelation>,
    symbols: Seq<CodeSymbol>,
    s: CodeSymbol,
)
    ensures
        ({
            let ids = quality::related_symbols(relations);
            &&& quality::symbols_in(Seq::empty(), ids) == 0
            &&& quality::symbols_in(symbols.push(s), ids) == quality::symbols_in(symbols, ids) + (
            if is_related(relations, s.id@) {
                1int
            } else {
                0
            })
        }),
{
    lemma_related(relations, s.id@);
    assert(symbols.push(s).drop_last() =~= symbols);
}

/// A node counts as isolated exactly where no edge of the graph ends there.
pub proof fn isolated_nodes_have_no_edge(m: ModelView, nodes: Seq<GraphNode>, n: GraphNode)
    ensures
        ({
            let ends = filter::endpoints(m.edges).to_set();
            &&& quality::isolated_nodes(Seq::empty(), ends) == 0
            &&& quality::isolated_nodes(nodes.push(n), ends) == quality::isolated_nodes(nodes, ends)
                + (if exists|i: int|
                0 <= i < m.edges.len() && ((#[trigger] m.edges[i]).from == n.id@ || m.edges[i].to
                    == n.id@) {
                0int
            } else {
                1
            })
        }),
{
    assert(nodes.push(n).drop_last() =~= nodes);
    lemma_ends(m.edges, n.id@);
}

proof fn lemma_ends(edges: Seq<EdgeView>, id: Seq<char>)
    ensures
        filter::endpoints(edges).contains(id) <==> exists|i: int|
            0 <= i < edges.len() && ((#[trigger] edges[i]).from == id || edges[i].to == id),
    decreases edges.len(),
{
    if edges.len() > 0 {
        let front = edges.drop_last();
        lemma_ends(front, id);
        let all = filter::endpoints(edges);
        let rest = filter::endpoints(front);
        let e = edges.last();
        assert(all == rest.push(e.from).push(e.to));
        assert(all.contains(id) <==> rest.contains(id) || e.from == id || e.to == id) by {
            if rest.contains(id) {
                let i = choose|i: int| 0 <= i < rest.len() && rest[i] == id;
                assert(all[i] == id);
            }
            assert(all[rest.len() as int] == e.from);
            assert(all[rest.len() as int + 1] == e.to);
            if all.contains(id) {
                let i = choose|i: int| 0 <= i < all.len() && all[i] == id;
                if i < rest.len() {
                    assert(rest[i] == id);
                }
            }
        }
        assert(edges[edges.len() - 1] == e);
        if exists|i: int|
            0 <= i < front.len() && ((#[trigger] front[i]).from == id || front[i].to == id) {
            let i = choose|i: int|
                0 <= i < front.len() && ((#[trigger] front[i]).from == id || front[i].to == id);
            assert(edges[i] == front[i]);
        }
        if exists|i: int|
            0 <= i < edges.len() && ((#[trigger] edges[i]).from == id || edges[i].to == id) {
            let i = choose|i: int|
                0 <= i < edges.len() && ((#[trigger] edges[i]).from == id || edges[i].to == id);
            if i < front.len() {
                assert(front[i] == edges[i]);
            }
        }
    }
}

/// An edge counts as strong unless it was derived or stands for several.
pub proof fn strong_edges_were_stated(edges: Seq<GraphEdge>, e: GraphEdge)
    ensures
        quality::strong_edges(Seq::empty()) == 0,
        quality::strong_edges(edges.push(e)) == quality::strong_edges(edges) + (match e.kind {
            GraphEdgeKind::Derived => 0int,
            GraphEdgeKind::Aggregate => 0,
            _ => 1,
        }),
{
    assert(edges.push(e).drop_last() =~= edges);
}

/// Support is low where less than a quarter is supported, or there is nothing to support.
pub proof fn a_quarter_is_enough_support(c: Coverage)
    ensures
        c.total == 0 ==> c.is_low(),
        c.total > 0 && c.part + c.part + c.part + c.part >= c.total ==> !c.is_low(),
        c.total > 0 && c.part + c.part + c.part + c.part < c.total ==> c.is_low(),
{
}

// ---------------------------------------------------------------------------
// Layout
// ---------------------------------------------------------------------------

/// How far a kind of node stands from the middle: the lesser, the nearer.
pub open spec fn ring_of(kind: GraphNodeKind) -> int {
    match kind {
        GraphNodeKind::Cluster => 1,
        GraphNodeKind::CodeFile => 2,
        GraphNodeKind::Memory => 3,
        GraphNodeKind::CodeSymbol => 4,
        GraphNodeKind::Entity => 5,
        GraphNodeKind::Type => 6,
        GraphNodeKind::Fact => 7,
    }
}

/// Whether a node is selected, or next to what is.
pub open spec fn nearness(m: ModelView, selection: SelectionView, n: NodeView) -> int {
    (if selection == SelectionView::Node(n.id) {
        2int
    } else {
        0
    }) + (if filter::focus_nodes(m, selection).contains(n.id) {
        1int
    } else {
        0
    })
}

/// Nodes are laid out from what is selected to what is next to it to the rest; of equally near
/// ones, by their kind, and of one kind by their label and then their id.
pub proof fn layouts_start_at_the_selection(m: ModelView, selection: SelectionView, i: int, j: int)
    requires
        0 <= i < j < layout_plan::radial_sequence(m, selection).len(),
    ensures
        ({
            let a = layout_plan::radial_sequence(m, selection)[i];
            let b = layout_plan::radial_sequence(m, selection)[j];
            let near = nearness(m, selection, a);
            let far = nearness(m, selection, b);
            &&& near >= far
            &&& near == far ==> ring_of(a.kind) <= ring_of(b.kind)
            &&& near == far && a.kind == b.kind ==> !order::text_before(b.label, a.label)
            &&& near == far && a.kind == b.kind && a.label == b.label ==> !order::text_before(
                b.id,
                a.id,
            )
        }),
        layout_plan::radial_sequence(m, selection).len() == m.nodes.len(),
{
    let rank_of = layout_plan::radial_rank(m, selection);
    let keys = m.nodes.map_values(rank_of);
    ranking::ranking_is_stable_sort(keys, keys.len() as int);
    let r = ranking::ranking(keys);
    let ranked = ranking::ranking_of(keys, keys.len() as int);
    assert(ranking::comes_first(keys, ranked[i], ranked[j]));
    assert(r.contains(r[i]) && r.contains(r[j]));
    let a = m.nodes[r[i]];
    let b = m.nodes[r[j]];
    assert(keys[r[i]] == rank_of(a));
    assert(keys[r[j]] == rank_of(b));
    assert(!ranking::ranks_before(rank_of(b), rank_of(a)));
    order::KeyOrder::irreflexive(a.label);
    order::KeyOrder::irreflexive(a.id);
}

/// The selected node is held in place, else the project where it is shown, else none.
pub proof fn the_selection_is_held(m: ModelView, id: Seq<char>, selection: SelectionView)
    ensures
        m.has_node(id) ==> layout_plan::fixed_node(m, SelectionView::Node(id)) == Some(id),
        !(selection is Node) && m.has_node("overview:project"@) ==> layout_plan::fixed_node(
            m,
            selection,
        ) == Some("overview:project"@),
        !(selection is Node) && !m.has_node("overview:project"@) ==> layout_plan::fixed_node(
            m,
            selection,
        ) is None,
        layout_plan::fixed_node(m, selection) matches Some(held) ==> m.has_node(held),
{
}

// ---------------------------------------------------------------------------
// Clusters of the bridge
// ---------------------------------------------------------------------------

/// Whether an id is that of the directory of a file that a text names, or whose symbol it names.
pub open spec fn is_named_directory(
    id: Seq<char>,
    words: Seq<char>,
    symbols: Seq<CodeSymbol>,
) -> bool {
    exists|k: int|
        0 <= k < symbols.len() && id == "code-dir:"@ + file_paths::code_directory_text(
            (#[trigger] symbols[k]).file_path@,
        ) && (names_file(words, symbols[k]) || names_symbol(words, symbols[k]))
}

/// Whether an edge leads from the kind of a memory to a directory that the memory names.
pub open spec fn leads_from_kind(
    from: Seq<char>,
    relation: Seq<char>,
    to: Seq<char>,
    m: Memory,
    symbols: Seq<CodeSymbol>,
) -> bool {
    &&& from == "memory-kind:"@ + m.kind@
    &&& relation == "mentions_code"@
    &&& is_named_directory(to, bridge::memory_text(m), symbols)
}

/// Whether an edge leads from the cluster of an entity to a directory that the entity names.
pub open spec fn leads_from_cluster(
    from: Seq<char>,
    relation: Seq<char>,
    to: Seq<char>,
    e: MemoryEntity,
    symbols: Seq<CodeSymbol>,
) -> bool {
    &&& from == "memory-cluster:"@ + graph::cluster_of_type(e.entity_type@)
    &&& relation == "relates_code"@
    &&& is_named_directory(to, bridge::entity_text(e), symbols)
}

/// Whether a triple leads from a kind of memories or a cluster of entities to a directory.
pub open spec fn is_cluster_link(
    t: (Seq<char>, Seq<char>, Seq<char>),
    memories: Seq<Memory>,
    entities: Seq<MemoryEntity>,
    symbols: Seq<CodeSymbol>,
) -> bool {
    ||| exists|i: int|
        0 <= i < memories.len() && leads_from_kind(
            t.0,
            t.1,
            t.2,
            #[trigger] memories[i],
            symbols,
        )
    ||| exists|i: int|
        0 <= i < entities.len() && leads_from_cluster(
            t.0,
            t.1,
            t.2,
            #[trigger] entities[i],
            symbols,
        )
}

proof fn lemma_directory_links(
    c: ClusterView,
    from: Seq<char>,
    relation: Seq<char>,
    words: Seq<char>,
    symbols: Seq<CodeSymbol>,
    targets: Seq<TargetView>,
    n: int,
)
    requires
        0 <= n <= targets.len(),
        forall|i: int|
            0 <= i < targets.len() ==> is_named_among(#[trigger] targets[i], words, symbols),
    ensures
        ({
            let after = bridge::with_directory_links(c, from, relation, targets, n).triples;
            &&& after.len() == c.triples.len() + n
            &&& forall|i: int| 0 <= i < c.triples.len() ==> #[trigger] after[i] == c.triples[i]
            &&& forall|i: int|
                c.triples.len() <= i < after.len() ==> (#[trigger] after[i]).0 == from
                    && after[i].1 == relation && is_named_directory(after[i].2, words, symbols)
            &&& forall|i: int|
                0 <= i < n ==> after[c.triples.len() + i].2 == "code-dir:"@
                    + bridge::target_directory(#[trigger] targets[i])
        }),
    decreases n,
{
    if n > 0 {
        lemma_directory_links(c, from, relation, words, symbols, targets, n - 1);
        let t = targets[n - 1];
        assert(is_named_among(t, words, symbols));
        let k = choose|k: int|
            0 <= k < symbols.len() && crate::bridge_laws::is_named(t, words, #[trigger] symbols[k]);
        assert(bridge::target_directory(t) == file_paths::code_directory_text(
            symbols[k].file_path@,
        ));
        let before = bridge::with_directory_links(c, from, relation, targets, n - 1).triples;
        let after = bridge::with_directory_links(c, from, relation, targets, n).triples;
        assert(after == before.push((from, relation, "code-dir:"@ + bridge::target_directory(t))));
        assert(is_named_directory(
            "code-dir:"@ + bridge::target_directory(t),
            words,
            symbols,
        ));
        assert forall|i: int| 0 <= i < n implies after[c.triples.len() + i].2 == "code-dir:"@
            + bridge::target_directory(#[trigger] targets[i]) by {
            if i < n - 1 {
                assert(after[c.triples.len() + i] == before[c.triples.len() + i]);
            }
        }
    }
}

proof fn lemma_kind_links(
    c: ClusterView,
    memories: Seq<Memory>,
    entities: Seq<MemoryEntity>,
    symbols: Seq<CodeSymbol>,
    n: int,
)
    requires
        0 <= n <= memories.len(),
        forall|i: int|
            0 <= i < c.triples.len() ==> is_cluster_link(
                #[trigger] c.triples[i],
                memories,
                entities,
                symbols,
            ),
    ensures
        ({
            let after = bridge::with_memory_kinds(c, memories, symbols, n).triples;
            &&& forall|i: int|
                0 <= i < after.len() ==> is_cluster_link(
                    #[trigger] after[i],
                    memories,
                    entities,
                    symbols,
                )
            &&& forall|k: int|
                0 <= k < n ==> is_linked(
                    after,
                    "memory-kind:"@ + (#[trigger] memories[k]).kind@,
                    "mentions_code"@,
                    bridge::targets_in(bridge::memory_text(memories[k]), symbols, 8),
                )
        }),
    decreases n,
{
    if n > 0 {
        lemma_kind_links(c, memories, entities, symbols, n - 1);
        let before = bridge::with_memory_kinds(c, memories, symbols, n - 1);
        let m = memories[n - 1];
        let from = "memory-kind:"@ + m.kind@;
        let words = bridge::memory_text(m);
        let targets = bridge::targets_in(words, symbols, 8);
        targets_are_what_a_text_names(words, symbols, 8);
        let start = ClusterView {
            draft: before.draft.ensure_node(
                bridge::plain_cluster(from, "Память: "@ + m.kind@, "тип памяти"@),
            ),
            ..before
        };
        lemma_directory_links(
            start,
            from,
            "mentions_code"@,
            words,
            symbols,
            targets,
            targets.len() as int,
        );
        let after = bridge::with_memory_kinds(c, memories, symbols, n).triples;
        assert forall|i: int| 0 <= i < after.len() implies is_cluster_link(
            #[trigger] after[i],
            memories,
            entities,
            symbols,
        ) by {
            if i < before.triples.len() {
                assert(after[i] == before.triples[i]);
            } else {
                assert(leads_from_kind(
                    after[i].0,
                    after[i].1,
                    after[i].2,
                    memories[n - 1],
                    symbols,
                ));
            }
        }
        assert forall|k: int| 0 <= k < n implies is_linked(
            after,
            "memory-kind:"@ + (#[trigger] memories[k]).kind@,
            "mentions_code"@,
            bridge::targets_in(bridge::memory_text(memories[k]), symbols, 8),
        ) by {
            let found = bridge::targets_in(bridge::memory_text(memories[k]), symbols, 8);
            if k < n - 1 {
                lemma_still_linked(
                    before.triples,
                    after,
                    "memory-kind:"@ + memories[k].kind@,
                    "mentions_code"@,
                    found,
                );
            } else {
                lemma_now_linked(start, from, "mentions_code"@, targets, after);
            }
        }
    }
}

/// Whether triples lead to the directories of targets.
pub open spec fn is_linked(
    triples: Seq<(Seq<char>, Seq<char>, Seq<char>)>,
    from: Seq<char>,
    relation: Seq<char>,
    targets: Seq<TargetView>,
) -> bool {
    forall|i: int|
        0 <= i < targets.len() ==> triples.contains(
            (from, relation, "code-dir:"@ + bridge::target_directory(#[trigger] targets[i])),
        )
}

proof fn lemma_still_linked(
    before: Seq<(Seq<char>, Seq<char>, Seq<char>)>,
    after: Seq<(Seq<char>, Seq<char>, Seq<char>)>,
    from: Seq<char>,
    relation: Seq<char>,
    targets: Seq<TargetView>,
)
    requires
        is_linked(before, from, relation, targets),
        before.len() <= after.len(),
        forall|i: int| 0 <= i < before.len() ==> #[trigger] after[i] == before[i],
    ensures
        is_linked(after, from, relation, targets),
{
    assert forall|i: int| 0 <= i < targets.len() implies after.contains(
        (from, relation, "code-dir:"@ + bridge::target_directory(#[trigger] targets[i])),
    ) by {
        let t = (from, relation, "code-dir:"@ + bridge::target_directory(targets[i]));
        assert(before.contains(t));
        let k = choose|k: int| 0 <= k < before.len() && before[k] == t;
        assert(after[k] == t);
    }
}

proof fn lemma_now_linked(
    c: ClusterView,
    from: Seq<char>,
    relation: Seq<char>,
    targets: Seq<TargetView>,
    after: Seq<(Seq<char>, Seq<char>, Seq<char>)>,
)
    requires
        after.len() == c.triples.len() + targets.len(),
        forall|i: int|
            c.triples.len() <= i < after.len() ==> (#[trigger] after[i]).0 == from && after[i].1
                == relation,
        forall|i: int|
            0 <= i < targets.len() ==> after[c.triples.len() + i].2 == "code-dir:"@
                + bridge::target_directory(#[trigger] targets[i]),
    ensures
        is_linked(after, from, relation, targets),
{
    assert forall|i: int| 0 <= i < targets.len() implies after.contains(
        (from, relation, "code-dir:"@ + bridge::target_directory(#[trigger] targets[i])),
    ) by {
        let k = c.triples.len() + i;
        assert(after[k] == (
            from,
            relation,
            "code-dir:"@ + bridge::target_directory(targets[i]),
        ));
    }
}

proof fn lemma_cluster_links(
    c: ClusterView,
    memories: Seq<Memory>,
    entities: Seq<MemoryEntity>,
    symbols: Seq<CodeSymbol>,
    n: int,
)
    requires
        0 <= n <= entities.len(),
        forall|i: int|
            0 <= i < c.triples.len() ==> is_cluster_link(
                #[trigger] c.triples[i],
                memories,
                entities,
                symbols,
            ),
    ensures
        ({
            let after = bridge::with_entity_clusters(c, entities, symbols, n).triples;
            &&& c.triples.len() <= after.len()
            &&& forall|i: int| 0 <= i < c.triples.len() ==> #[trigger] after[i] == c.triples[i]
            &&& forall|i: int|
                0 <= i < after.len() ==> is_cluster_link(
                    #[trigger] after[i],
                    memories,
                    entities,
                    symbols,
                )
            &&& forall|k: int|
                0 <= k < n ==> is_linked(
                    after,
                    "memory-cluster:"@ + graph::cluster_of_type(
                        (#[trigger] entities[k]).entity_type@,
                    ),
                    "relates_code"@,
                    bridge::targets_in(bridge::entity_text(entities[k]), symbols, 5),
                )
        }),
    decreases n,
{
    if n > 0 {
        lemma_cluster_links(c, memories, entities, symbols, n - 1);
        let before = bridge::with_entity_clusters(c, entities, symbols, n - 1);
        let e = entities[n - 1];
        let cluster = graph::cluster_of_type(e.entity_type@);
        let from = "memory-cluster:"@ + cluster;
        let words = bridge::entity_text(e);
        let targets = bridge::targets_in(words, symbols, 5);
        targets_are_what_a_text_names(words, symbols, 5);
        let start = ClusterView {
            draft: before.draft.ensure_node(
                bridge::plain_cluster(
                    from,
                    graph::cluster_label_text(cluster),
                    "кластер сущностей памяти"@,
                ),
            ),
            ..before
        };
        lemma_directory_links(
            start,
            from,
            "relates_code"@,
            words,
            symbols,
            targets,
            targets.len() as int,
        );
        let after = bridge::with_entity_clusters(c, entities, symbols, n).triples;
        assert forall|i: int| 0 <= i < c.triples.len() implies #[trigger] after[i]
            == c.triples[i] by {
            assert(after[i] == before.triples[i]);
        }
        assert forall|i: int| 0 <= i < after.len() implies is_cluster_link(
            #[trigger] after[i],
            memories,
            entities,
            symbols,
        ) by {
            if i < before.triples.len() {
                assert(after[i] == before.triples[i]);
            } else {
                assert(leads_from_cluster(
                    after[i].0,
                    after[i].1,
                    after[i].2,
                    entities[n - 1],
                    symbols,
                ));
            }
        }
        assert forall|k: int| 0 <= k < n implies is_linked(
            after,
            "memory-cluster:"@ + graph::cluster_of_type((#[trigger] entities[k]).entity_type@),
            "relates_code"@,
            bridge::targets_in(bridge::entity_text(entities[k]), symbols, 5),
        ) by {
            let found = bridge::targets_in(bridge::entity_text(entities[k]), symbols, 5);
            if k < n - 1 {
                lemma_still_linked(
                    before.triples,
                    after,
                    "memory-cluster:"@ + graph::cluster_of_type(entities[k].entity_type@),
                    "relates_code"@,
                    found,
                );
            } else {
                lemma_now_linked(start, from, "relates_code"@, targets, after);
            }
        }
    }
}

proof fn lemma_bridge_links(memories: Seq<Memory>, g: MemoryGraph, symbols: Seq<CodeSymbol>)
    ensures
        ({
            let all = bridge::bridge_clusters(memories, g, symbols).triples;
            &&& forall|i: int|
                0 <= i < all.len() ==> is_cluster_link(
                    #[trigger] all[i],
                    memories,
                    g.entities@,
                    symbols,
                )
            &&& forall|k: int|
                0 <= k < memories.len() ==> is_linked(
                    all,
                    "memory-kind:"@ + (#[trigger] memories[k]).kind@,
                    "mentions_code"@,
                    bridge::targets_in(bridge::memory_text(memories[k]), symbols, 8),
                )
            &&& forall|k: int|
                0 <= k < g.entities@.len() ==> is_linked(
                    all,
                    "memory-cluster:"@ + graph::cluster_of_type(
                        (#[trigger] g.entities@[k]).entity_type@,
                    ),
                    "relates_code"@,
                    bridge::targets_in(bridge::entity_text(g.entities@[k]), symbols, 5),
                )
        }),
{
    let start = ClusterView {
        draft: crate::graph::DraftView::empty(),
        triples: Seq::empty(),
    };
    lemma_kind_links(start, memories, g.entities@, symbols, memories.len() as int);
    let kinds = bridge::with_memory_kinds(start, memories, symbols, memories.len() as int);
    lemma_cluster_links(kinds, memories, g.entities@, symbols, g.entities@.len() as int);
    let all = bridge::bridge_clusters(memories, g, symbols).triples;
    assert forall|k: int| 0 <= k < memories.len() implies is_linked(
        all,
        "memory-kind:"@ + (#[trigger] memories[k]).kind@,
        "mentions_code"@,
        bridge::targets_in(bridge::memory_text(memories[k]), symbols, 8),
    ) by {
        lemma_still_linked(
            kinds.triples,
            all,
            "memory-kind:"@ + memories[k].kind@,
            "mentions_code"@,
            bridge::targets_in(bridge::memory_text(memories[k]), symbols, 8),
        );
    }
}

/// Every edge between clusters leads from a kind of memories or a cluster of entities to the
/// directory of code that one of them names.
pub proof fn cluster_bridges_lead_to_directories(
    memories: Seq<Memory>,
    g: MemoryGraph,
    symbols: Seq<CodeSymbol>,
    i: int,
)
    requires
        0 <= i < bridge::bridge_cluster_model(memories, g, symbols).edges.len(),
    ensures
        ({
            let e = bridge::bridge_cluster_model(memories, g, symbols).edges[i];
            &&& e.kind == GraphEdgeKind::Aggregate
            &&& is_cluster_link(
                (e.from, "mentions_code"@, e.to),
                memories,
                g.entities@,
                symbols,
            ) && e.label == graph::weighted_label("mentions_code"@, e.weight) || is_cluster_link(
                (e.from, "relates_code"@, e.to),
                memories,
                g.entities@,
                symbols,
            ) && e.label == graph::weighted_label("relates_code"@, e.weight)
        }),
{
    lemma_bridge_links(memories, g, symbols);
    let all = bridge::bridge_clusters(memories, g, symbols).triples;
    let entries = order::sorted_entries(order::tally(all));
    lemma_tally_lists(all);
    assert(order::tally(all).contains_pair(entries[i].0, entries[i].1));
    assert(all.contains(entries[i].0));
    let o = choose|o: int| 0 <= o < all.len() && all[o] == entries[i].0;
    assert(is_cluster_link(all[o], memories, g.entities@, symbols));
}

/// Whether an edge leads from one node to another.
pub open spec fn is_joined(m: ModelView, from: Seq<char>, to: Seq<char>) -> bool {
    exists|i: int| 0 <= i < m.edges.len() && (#[trigger] m.edges[i]).from == from && m.edges[i].to
        == to
}

/// The kind of every memory is joined to the directory of each file and symbol found in it, and the
/// cluster of every entity to those found in it.
pub proof fn found_code_is_joined_to_its_cluster(
    memories: Seq<Memory>,
    g: MemoryGraph,
    symbols: Seq<CodeSymbol>,
    k: int,
    t: TargetView,
)
    requires
        t.file_path is Some,
    ensures
        ({
            let m = bridge::bridge_cluster_model(memories, g, symbols);
            let to = "code-dir:"@ + file_paths::code_directory_text(t.file_path->0);
            &&& 0 <= k < memories.len() && bridge::targets_in(
                bridge::memory_text(memories[k]),
                symbols,
                8,
            ).contains(t) ==> is_joined(m, "memory-kind:"@ + memories[k].kind@, to)
            &&& 0 <= k < g.entities@.len() && bridge::targets_in(
                bridge::entity_text(g.entities@[k]),
                symbols,
                5,
            ).contains(t) ==> is_joined(
                m,
                "memory-cluster:"@ + graph::cluster_of_type(g.entities@[k].entity_type@),
                to,
            )
        }),
{
    lemma_bridge_links(memories, g, symbols);
    let all = bridge::bridge_clusters(memories, g, symbols).triples;
    let to = "code-dir:"@ + file_paths::code_directory_text(t.file_path->0);
    if 0 <= k < memories.len() {
        let found = bridge::targets_in(bridge::memory_text(memories[k]), symbols, 8);
        if found.contains(t) {
            let i = choose|i: int| 0 <= i < found.len() && found[i] == t;
            let from = "memory-kind:"@ + memories[k].kind@;
            assert(is_linked(all, from, "mentions_code"@, found));
            assert(bridge::target_directory(found[i]) == file_paths::code_directory_text(
                t.file_path->0,
            ));
            assert(all.contains((from, "mentions_code"@, to)));
            lemma_triple_is_an_edge(memories, g, symbols, (from, "mentions_code"@, to));
        }
    }
    if 0 <= k < g.entities@.len() {
        let found = bridge::targets_in(bridge::entity_text(g.entities@[k]), symbols, 5);
        if found.contains(t) {
            let i = choose|i: int| 0 <= i < found.len() && found[i] == t;
            let from = "memory-cluster:"@ + graph::cluster_of_type(g.entities@[k].entity_type@);
            assert(is_linked(all, from, "relates_code"@, found));
            assert(bridge::target_directory(found[i]) == file_paths::code_directory_text(
                t.file_path->0,
            ));
            assert(all.contains((from, "relates_code"@, to)));
            lemma_triple_is_an_edge(memories, g, symbols, (from, "relates_code"@, to));
        }
    }
}

proof fn lemma_triple_is_an_edge(
    memories: Seq<Memory>,
    g: MemoryGraph,
    symbols: Seq<CodeSymbol>,
    t: (Seq<char>, Seq<char>, Seq<char>),
)
    requires
        bridge::bridge_clusters(memories, g, symbols).triples.contains(t),
    ensures
        is_joined(bridge::bridge_cluster_model(memories, g, symbols), t.0, t.2),
{
    let all = bridge::bridge_clusters(memories, g, symbols).triples;
    let entries = order::sorted_entries(order::tally(all));
    lemma_tally_lists(all);
    assert(order::tally(all).dom().contains(t));
    let i = choose|i: int| 0 <= i < entries.len() && (#[trigger] entries[i]).0 == t;
    let m = bridge::bridge_cluster_model(memories, g, symbols);
    assert(m.edges[i].from == t.0 && m.edges[i].to == t.2);
}

// ---------------------------------------------------------------------------
// Matches
// ---------------------------------------------------------------------------

/// A match is a memory or an entity with a file or a symbol that is found in it; each counts once.
pub proof fn matches_are_what_is_found(
    memories: Seq<Memory>,
    symbols: Seq<CodeSymbol>,
    entities: Seq<MemoryEntity>,
    x: Seq<char>,
)
    ensures
        bridge::memory_matches(memories, symbols, memories.len() as int).contains(x) <==> exists|
            k: int,
            i: int,
        |
            #[trigger] is_memory_match(memories, symbols, k, i, x),
        bridge::entity_matches(entities, symbols, entities.len() as int).contains(x) <==> exists|
            k: int,
            i: int,
        |
            #[trigger] is_entity_match(entities, symbols, k, i, x),
{
    lemma_memory_matches(memories, symbols, memories.len() as int, x);
    lemma_entity_matches(entities, symbols, entities.len() as int, x);
    if bridge::memory_matches(memories, symbols, memories.len() as int).contains(x) {
        let (k, i) = choose|k: int, i: int|
            k < memories.len() && #[trigger] is_memory_match(memories, symbols, k, i, x);
        assert(is_memory_match(memories, symbols, k, i, x));
    }
    if bridge::entity_matches(entities, symbols, entities.len() as int).contains(x) {
        let (k, i) = choose|k: int, i: int|
            k < entities.len() && #[trigger] is_entity_match(entities, symbols, k, i, x);
        assert(is_entity_match(entities, symbols, k, i, x));
    }
}

/// Whether a text names a memory and a target that is found in it.
pub open spec fn is_memory_match(
    memories: Seq<Memory>,
    symbols: Seq<CodeSymbol>,
    k: int,
    i: int,
    x: Seq<char>,
) -> bool {
    &&& 0 <= k < memories.len()
    &&& 0 <= i < bridge::targets_in(bridge::memory_text(memories[k]), symbols, 4).len()
    &&& x == "memory:"@ + memories[k].id@ + "->"@ + bridge::targets_in(
        bridge::memory_text(memories[k]),
        symbols,
        4,
    )[i].id
}

/// Whether a text names an entity and a target that is found in it.
pub open spec fn is_entity_match(
    entities: Seq<MemoryEntity>,
    symbols: Seq<CodeSymbol>,
    k: int,
    i: int,
    x: Seq<char>,
) -> bool {
    &&& 0 <= k < entities.len()
    &&& 0 <= i < bridge::targets_in(bridge::entity_text(entities[k]), symbols, 4).len()
    &&& x == "entity:"@ + entities[k].id@ + "->"@ + bridge::targets_in(
        bridge::entity_text(entities[k]),
        symbols,
        4,
    )[i].id
}

proof fn lemma_memory_matches(
    memories: Seq<Memory>,
    symbols: Seq<CodeSymbol>,
    n: int,
    x: Seq<char>,
)
    requires
        0 <= n <= memories.len(),
    ensures
        bridge::memory_matches(memories, symbols, n).contains(x) <==> exists|k: int, i: int|
            k < n && #[trigger] is_memory_match(memories, symbols, k, i, x),
    decreases n,
{
    if n > 0 {
        lemma_memory_matches(memories, symbols, n - 1, x);
        let a = bridge::memory_matches(memories, symbols, n - 1);
        let targets = bridge::targets_in(bridge::memory_text(memories[n - 1]), symbols, 4);
        let b = bridge::matches_of("memory:"@ + memories[n - 1].id@, targets);
        lemma_contains_sum(a, b, x);
        if b.contains(x) {
            let i = choose|i: int| 0 <= i < b.len() && b[i] == x;
            assert(is_memory_match(memories, symbols, n - 1, i, x));
        }
        if exists|k: int, i: int| k < n && #[trigger] is_memory_match(memories, symbols, k, i, x) {
            let (k, i) = choose|k: int, i: int|
                k < n && #[trigger] is_memory_match(memories, symbols, k, i, x);
            if k == n - 1 {
                assert(b[i] == x);
            }
        }
    }
}

proof fn lemma_entity_matches(
    entities: Seq<MemoryEntity>,
    symbols: Seq<CodeSymbol>,
    n: int,
    x: Seq<char>,
)
    requires
        0 <= n <= entities.len(),
    ensures
        bridge::entity_matches(entities, symbols, n).contains(x) <==> exists|k: int, i: int|
            k < n && #[trigger] is_entity_match(entities, symbols, k, i, x),
    decreases n,
{
    if n > 0 {
        lemma_entity_matches(entities, symbols, n - 1, x);
        let a = bridge::entity_matches(entities, symbols, n - 1);
        let targets = bridge::targets_in(bridge::entity_text(entities[n - 1]), symbols, 4);
        let b = bridge::matches_of("entity:"@ + entities[n - 1].id@, targets);
        lemma_contains_sum(a, b, x);
        if b.contains(x) {
            let i = choose|i: int| 0 <= i < b.len() && b[i] == x;
            assert(is_entity_match(entities, symbols, n - 1, i, x));
        }
        if exists|k: int, i: int| k < n && #[trigger] is_entity_match(entities, symbols, k, i, x) {
            let (k, i) = choose|k: int, i: int|
                k < n && #[trigger] is_entity_match(entities, symbols, k, i, x);
            if k == n - 1 {
                assert(b[i] == x);
            }
        }
    }
}

proof fn lemma_contains_sum(a: Seq<Seq<char>>, b: Seq<Seq<char>>, x: Seq<char>)
    ensures
        (a + b).contains(x) <==> a.contains(x) || b.contains(x),
{
    let all = a + b;
    if a.contains(x) {
        let i = choose|i: int| 0 <= i < a.len() && a[i] == x;
        assert(all[i] == x);
    }
    if b.contains(x) {
        let i = choose|i: int| 0 <= i < b.len() && b[i] == x;
        assert(all[a.len() + i] == x);
    }
    if all.contains(x) {
        let i = choose|i: int| 0 <= i < all.len() && all[i] == x;
        if i < a.len() {
            assert(a[i] == x);
        } else {
            assert(b[i - a.len()] == x);
        }
    }
}

/// There are as many matches as different ones among memories and entities.
pub proof fn matches_are_counted_once(
    memories: Seq<Memory>,
    g: MemoryGraph,
    symbols: Seq<CodeSymbol>,
    all: Set<Seq<char>>,
)
    requires
        forall|x: Seq<char>| #[trigger]
            all.contains(x) <==> (exists|k: int, i: int| #[trigger]
                is_memory_match(memories, symbols, k, i, x)) || (exists|k: int, i: int| #[trigger]
                is_entity_match(g.entities@, symbols, k, i, x)),
    ensures
        bridge::bridge_match_count(memories, g, symbols) == all.len(),
{
    let a = bridge::memory_matches(memories, symbols, memories.len() as int);
    let b = bridge::entity_matches(g.entities@, symbols, g.entities@.len() as int);
    assert forall|x: Seq<char>| #[trigger] (a + b).to_set().contains(x) <==> all.contains(x) by {
        matches_are_what_is_found(memories, symbols, g.entities@, x);
        lemma_contains_sum(a, b, x);
    }
    assert((a + b).to_set() =~= all);
}

// ---------------------------------------------------------------------------
// Parallel edges
// ---------------------------------------------------------------------------

/// How many of the first edges lead from one node to another.
pub open spec fn edges_from_to(edges: Seq<EdgeView>, from: Seq<char>, to: Seq<char>, n: int) -> int
    decreases n,
{
    if n <= 0 {
        0
    } else {
        edges_from_to(edges, from, to, n - 1) + (if edges[n - 1].from == from && edges[n - 1].to
            == to {
            1int
        } else {
            0
        })
    }
}

proof fn lemma_edges_between(edges: Seq<EdgeView>, from: Seq<char>, to: Seq<char>, n: int)
    requires
        n <= edges.len(),
    ensures
        quality::edges_between(edges, from, to, n) == edges_from_to(edges, from, to, n),
    decreases n,
{
    if n > 0 {
        lemma_edges_between(edges, from, to, n - 1);
    }
}

proof fn lemma_pair_offsets(
    offsets: Map<Seq<char>, int>,
    edges: Seq<EdgeView>,
    from: Seq<char>,
    to: Seq<char>,
    n: int,
    k: int,
)
    requires
        0 <= n <= edges.len(),
        0 <= k < edges.len(),
        forall|i: int, j: int|
            0 <= i < j < edges.len() ==> (#[trigger] edges[i]).id != (#[trigger] edges[j]).id,
    ensures
        ({
            let after = quality::with_pair_offsets(offsets, edges, from, to, n);
            let id = edges[k].id;
            let hit = k < n && edges[k].from == from && edges[k].to == to;
            &&& hit ==> after.dom().contains(id) && after[id] == quality::parallel_offset(
                quality::edges_between(edges, from, to, k),
                quality::edges_between(edges, from, to, edges.len() as int),
            )
            &&& !hit ==> (after.dom().contains(id) <==> offsets.dom().contains(id)) && (
            offsets.dom().contains(id) ==> after[id] == offsets[id])
        }),
    decreases n,
{
    if n > 0 {
        lemma_pair_offsets(offsets, edges, from, to, n - 1, k);
        if k < n - 1 {
            assert(edges[k].id != edges[n - 1].id);
        }
        if k > n - 1 {
            assert(edges[n - 1].id != edges[k].id);
        }
    }
}

proof fn lemma_offsets(
    edges: Seq<EdgeView>,
    pairs: Seq<((Seq<char>, Seq<char>, Seq<char>), nat)>,
    n: int,
    k: int,
)
    requires
        0 <= n <= pairs.len(),
        0 <= k < edges.len(),
        forall|i: int, j: int|
            0 <= i < j < edges.len() ==> (#[trigger] edges[i]).id != (#[trigger] edges[j]).id,
    ensures
        ({
            let after = quality::with_offsets(edges, pairs, n);
            let e = edges[k];
            &&& after.dom().contains(e.id) <==> is_counted_pair(pairs, n, e)
            &&& after.dom().contains(e.id) ==> after[e.id] == quality::parallel_offset(
                quality::edges_between(edges, e.from, e.to, k),
                quality::edges_between(edges, e.from, e.to, edges.len() as int),
            )
        }),
    decreases n,
{
    let e = edges[k];
    if n > 0 {
        lemma_offsets(edges, pairs, n - 1, k);
        let before = quality::with_offsets(edges, pairs, n - 1);
        let (pair, count) = pairs[n - 1];
        lemma_pair_offsets(before, edges, pair.0, pair.1, edges.len() as int, k);
        assert(is_counted_pair(pairs, n, e) <==> is_counted_pair(pairs, n - 1, e) || (pair.0
            == e.from && pair.1 == e.to && count > 1)) by {
            if is_counted_pair(pairs, n - 1, e) {
                let i = choose|i: int|
                    0 <= i < n - 1 && (#[trigger] pairs[i]).0.0 == e.from && pairs[i].0.1 == e.to
                        && pairs[i].1 > 1;
                assert(pairs[i].1 > 1);
            }
            if is_counted_pair(pairs, n, e) {
                let i = choose|i: int|
                    0 <= i < n && (#[trigger] pairs[i]).0.0 == e.from && pairs[i].0.1 == e.to
                        && pairs[i].1 > 1;
                if i < n - 1 {
                    assert(is_counted_pair(pairs, n - 1, e));
                }
            }
        }
    }
}

/// Whether the ends of an edge are among the first pairs, with a count above one.
spec fn is_counted_pair(
    pairs: Seq<((Seq<char>, Seq<char>, Seq<char>), nat)>,
    n: int,
    e: EdgeView,
) -> bool {
    exists|i: int|
        0 <= i < n && (#[trigger] pairs[i]).0.0 == e.from && pairs[i].0.1 == e.to && pairs[i].1 > 1
}

proof fn lemma_ends_tallied(edges: Seq<EdgeView>, from: Seq<char>, to: Seq<char>)
    ensures
        order::occurrences(quality::edge_ends(edges), (from, to, ""@)) == edges_from_to(
            edges,
            from,
            to,
            edges.len() as int,
        ),
    decreases edges.len(),
{
    let ends = quality::edge_ends(edges);
    if edges.len() > 0 {
        let front = edges.drop_last();
        lemma_ends_tallied(front, from, to);
        assert(ends.drop_last() =~= quality::edge_ends(front));
        lemma_same_front(edges, front, from, to, front.len() as int);
        assert(ends.last() == (edges.last().from, edges.last().to, ""@));
    } else {
        assert(ends.len() == 0);
    }
}

proof fn lemma_same_front(
    edges: Seq<EdgeView>,
    front: Seq<EdgeView>,
    from: Seq<char>,
    to: Seq<char>,
    n: int,
)
    requires
        front == edges.drop_last(),
        edges.len() > 0,
        0 <= n <= front.len(),
    ensures
        edges_from_to(edges, from, to, n) == edges_from_to(front, from, to, n),
    decreases n,
{
    if n > 0 {
        lemma_same_front(edges, front, from, to, n - 1);
    }
}

/// An edge is set aside exactly where another leads from the same node to the same node; the edges
/// between two nodes lie ten apart in their order, as far to one side as to the other.
pub proof fn parallel_edges_are_set_apart(edges: Seq<EdgeView>, k: int)
    requires
        0 <= k < edges.len(),
        forall|i: int, j: int|
            0 <= i < j < edges.len() ==> (#[trigger] edges[i]).id != (#[trigger] edges[j]).id,
    ensures
        ({
            let e = edges[k];
            let offsets = quality::parallel_offsets(edges);
            let before = edges_from_to(edges, e.from, e.to, k);
            let all = edges_from_to(edges, e.from, e.to, edges.len() as int);
            &&& offsets.dom().contains(e.id) <==> all > 1
            &&& all > 1 ==> 2 * offsets[e.id] == 10 * (before - (all - 1 - before))
        }),
{
    let e = edges[k];
    let ends = quality::edge_ends(edges);
    let pairs = order::sorted_entries(order::tally(ends));
    lemma_tally_lists(ends);
    lemma_offsets(edges, pairs, pairs.len() as int, k);
    lemma_edges_between(edges, e.from, e.to, k);
    lemma_edges_between(edges, e.from, e.to, edges.len() as int);
    lemma_ends_tallied(edges, e.from, e.to);
    let key = (e.from, e.to, ""@);
    assert(ends[k] == key);
    assert(order::tally(ends).dom().contains(key));
    let all = edges_from_to(edges, e.from, e.to, edges.len() as int);
    if all > 1 {
        let i = choose|i: int| 0 <= i < pairs.len() && (#[trigger] pairs[i]).0 == key;
        assert(order::tally(ends).contains_pair(pairs[i].0, pairs[i].1));
        assert(is_counted_pair(pairs, pairs.len() as int, e));
    }
    if is_counted_pair(pairs, pairs.len() as int, e) {
        let i = choose|i: int|
            0 <= i < pairs.len() && (#[trigger] pairs[i]).0.0 == e.from && pairs[i].0.1 == e.to
                && pairs[i].1 > 1;
        assert(order::tally(ends).contains_pair(pairs[i].0, pairs[i].1));
        assert(ends.contains(pairs[i].0));
        let o = choose|o: int| 0 <= o < ends.len() && ends[o] == pairs[i].0;
        assert(pairs[i].0 == key);
    }
}

// ---------------------------------------------------------------------------
// Quality as a whole
// ---------------------------------------------------------------------------

/// The quality of a search counts a source for memories, for the memory graph, for symbols, for
/// relations and for matches, each where there is any, and a warning for each of four weaknesses.
pub proof fn searches_count_their_sources_and_weaknesses(
    q: RetrievalQuality,
    query: Seq<char>,
    memories: Seq<Memory>,
    g: MemoryGraph,
    symbols: Seq<CodeSymbol>,
    relations: Seq<CodeRelation>,
    visible_nodes: nat,
    visible_edges: nat,
)
    requires
        quality::quality_is_of(
            q,
            query,
            memories,
            g,
            symbols,
            relations,
            visible_nodes,
            visible_edges,
        ),
    ensures
        ({
            let one = |b: bool| if b {
                1int
            } else {
                0
            };
            let signals = g.entities@.len() + g.facts@.len() + g.edges@.len();
            let few = |part: nat, total: nat| total == 0 || part + part + part + part < total;
            let supported = quality::memories_in(memories, quality::graph_memories(g));
            let related = quality::symbols_in(symbols, quality::related_symbols(relations));
            &&& q.source_count == one(memories.len() > 0) + one(signals > 0) + one(
                symbols.len() > 0,
            ) + one(relations.len() > 0) + one(q.bridge_edges > 0)
            &&& q.warning_count == one(
                text::trimmed(query).len() > 0 && q.source_count <= 1,
            ) + one(memories.len() > 0 && few(supported, memories.len())) + one(
                symbols.len() > 0 && few(related, symbols.len()),
            ) + one(memories.len() > 0 && symbols.len() > 0 && q.bridge_edges == 0)
            &&& q.bridge_edges == bridge::bridge_match_count(memories, g, symbols)
            &&& q.memory_hits == memories.len()
            &&& q.memory_graph_signals == signals
            &&& q.code_symbols == symbols.len()
            &&& q.code_relations == relations.len()
            &&& q.visible_nodes == visible_nodes
            &&& q.visible_edges == visible_edges
        }),
{
}

/// The words for a search say whether there is anything, whether all is well, or how many weak
/// places it has.
pub proof fn searches_are_summed_up(q: RetrievalQuality)
    ensures
        q.source_count == 0 ==> q.summary_text() == "нет данных для текущей карты"@,
        q.source_count > 0 && q.warning_count == 0 ==> q.summary_text()
            == "источники поиска сбалансированы"@,
        q.source_count > 0 && q.warning_count > 0 ==> q.summary_text() == "слабых мест: "@
            + text::decimal_text(q.warning_count as nat),
{
}

/// The quality of a graph counts its isolated nodes, its strong and weak edges, and the memories
/// and symbols that nothing rests on, and warns where more than half of them are so.
pub proof fn graphs_count_what_stands_alone(
    q: GraphQuality,
    model: GraphModel,
    memories: Seq<Memory>,
    g: MemoryGraph,
    symbols: Seq<CodeSymbol>,
    relations: Seq<CodeRelation>,
    max_visible_nodes: nat,
)
    requires
        quality::graph_quality_is_of(
            q,
            model,
            memories,
            g,
            symbols,
            relations,
            max_visible_nodes,
        ),
    ensures
        ({
            let one = |b: bool| if b {
                1int
            } else {
                0
            };
            let n = model.nodes@.len();
            &&& q.strong_edges + q.weak_edges == model.edges@.len()
            &&& q.strong_edges == quality::strong_edges(model.edges@)
            &&& q.edges == model.edges@.len()
            &&& n * (n - 1) <= usize::MAX ==> q.possible_edges == n * (n - 1)
            &&& q.isolated_nodes == quality::isolated_nodes(
                model.nodes@,
                filter::endpoints(model@.edges).to_set(),
            )
            &&& q.memories_without_graph + quality::memories_in(
                memories,
                quality::graph_memories(g),
            ) == memories.len()
            &&& q.code_symbols_without_relations + quality::symbols_in(
                symbols,
                quality::related_symbols(relations),
            ) == symbols.len()
            &&& q.warning_count == one(q.isolated_nodes > max_visible_nodes / 2) + one(
                q.memories_without_graph > memories.len() / 2,
            ) + one(q.code_symbols_without_relations > symbols.len() / 2)
        }),
{
}

// ---------------------------------------------------------------------------
// Words and selections
// ---------------------------------------------------------------------------

/// A selected node brings its edges into focus, a selected edge itself, and nothing selected all
/// edges.
pub proof fn focus_holds_the_edges_of_the_selection(m: ModelView, id: Seq<char>, x: Seq<char>)
    ensures
        filter::focus_edges(m, SelectionView::Overview).contains(x) <==> m.has_edge(x),
        filter::focus_edges(m, SelectionView::Edge(id)).contains(x) <==> x == id,
        filter::focus_edges(m, SelectionView::Node(id)).contains(x) <==> exists|i: int|
            0 <= i < m.edges.len() && (#[trigger] m.edges[i]).id == x && (m.edges[i].from == id
                || m.edges[i].to == id),
{
}

/// A node is told by its label and its detail, and by what a double click does where it opens
/// something.
pub proof fn nodes_are_told_under_the_pointer(n: NodeView, view_mode: GraphViewMode)
    ensures
        ({
            let told = viewer_events::hover_text(n, view_mode);
            let start = n.label + "\n"@ + n.detail;
            let area = text::after_prefix(n.id, "overview:"@) is Some;
            let cluster = view_mode == GraphViewMode::Clusters && n.kind == GraphNodeKind::Cluster;
            &&& area ==> told == start + "\nДвойной клик: открыть область"@
            &&& !area && cluster ==> told == start + "\nДвойной клик: открыть кластер"@
            &&& !area && !cluster ==> told == start
        }),
{
    reveal_strlit("");
    let start = n.label + "\n"@ + n.detail;
    assert(start + ""@ =~= start);
}

/// Whether anything is searched or filtered by: a field that is not blank.
pub proof fn filters_are_active_where_a_field_is_filled(f: ViewerFilters)
    ensures
        f.active() <==> text::trimmed(f.query@).len() + text::trimmed(f.node_filter@).len()
            + text::trimmed(f.relation_filter@).len() + text::trimmed(f.kind@).len()
            + text::trimmed(f.code_kind_filter@).len() + text::trimmed(f.code_file_filter@).len()
            > 0,
{
}

/// A path is told by how many steps it has, its start and each step in order, cut to 170
/// characters.
pub proof fn paths_are_told_from_their_start(m: ModelView, p: PathView, n: int)
    ensures
        p.node_ids.len() == 0 ==> paths::path_text(m, p).len() == 0,
        p.node_ids.len() > 0 ==> paths::path_text(m, p) == text::truncated(
            paths::steps_text(m, p, p.edge_ids.len() as int),
            170,
        ),
        paths::steps_text(m, p, 0) == text::decimal_text(p.edge_ids.len()) + " шаг. "@
            + text::truncated(graph::label_of(m.nodes, p.node_ids[0]), 24),
        n >= 0 ==> paths::steps_text(m, p, n + 1) == paths::steps_text(m, p, n) + paths::step_text(
            m,
            p.node_ids[n],
            p.node_ids[n + 1],
            p.edge_ids[n],
        ),
{
}

/// Bodies of nodes are kept from each other in 64, 84, 72 or 56 rounds, for up to 30, 80, 160 and
/// more nodes.
pub proof fn collisions_are_settled_in_rounds(n: nat)
    ensures
        layout_plan::collision_rounds(n) == (if n > 160 {
            56int
        } else if n > 80 {
            72
        } else if n > 30 {
            84
        } else {
            64
        }),
        layout_plan::force_rounds(n) == (if n > 150 {
            12int
        } else if n > 90 {
            24
        } else if n > 40 {
            42
        } else {
            70
        }),
        layout_plan::repulsion_stride(n) == (if n > 190 {
            3int
        } else if n > 120 {
            2
        } else {
            1
        }),
{
}

/// All that is searched of a memory is its kind, its body, its source and its tags, and of an
/// entity its type, its name, what it is and its other names, in small letters with blanks between.
pub proof fn only_what_is_said_is_searched(m: Memory, e: MemoryEntity)
    ensures
        m.tags@.len() == 0 ==> bridge::memory_text(m) == text::lowered(
            m.kind@ + " "@ + m.body@ + (if m.source is Some {
                " "@ + m.source->0@
            } else {
                Seq::empty()
            }),
        ),
        e.aliases@.len() == 0 ==> bridge::entity_text(e) == text::lowered(
            e.entity_type@ + " "@ + e.name@ + (if e.description is Some {
                " "@ + e.description->0@
            } else {
                Seq::empty()
            }),
        ),
        m.tags@.len() > 0 ==> bridge::memory_text(m) == text::lowered(
            bridge::with_words(bridge::with_word(m.kind@ + " "@ + m.body@, m.source), m.tags@),
        ),
        forall|base: Seq<char>, words: Seq<String>, word: String| #[trigger]
            bridge::with_words(base, words.push(word)) == bridge::with_words(base, words) + " "@
                + word@,
{
    let a = m.kind@ + " "@ + m.body@;
    assert(a + Seq::<char>::empty() =~= a);
    if m.source is Some {
        assert(a + (" "@ + m.source->0@) =~= a + " "@ + m.source->0@);
    }
    let b = e.entity_type@ + " "@ + e.name@;
    assert(b + Seq::<char>::empty() =~= b);
    if e.description is Some {
        assert(b + (" "@ + e.description->0@) =~= b + " "@ + e.description->0@);
    }
    assert forall|base: Seq<char>, words: Seq<String>, word: String| #[trigger]
        bridge::with_words(base, words.push(word)) == bridge::with_words(base, words) + " "@
            + word@ by {
        assert(words.push(word).drop_last() =~= words);
    }
}

} // verus!
