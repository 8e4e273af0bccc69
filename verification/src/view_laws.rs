//! What the contracts speak of is what the types hold: every part under its own name.
use vstd::prelude::*;
use crate::bridge::CodeTarget;
use crate::graph::{GraphEdge, GraphModel, GraphNode, GraphSelection, ModelView, SelectionView};
use crate::json::{Json, JsonView};
use crate::lsif_graph::LsifGraph;
use crate::maintenance_steps::AuditEvent;
use crate::memory_writes::{NewMemory, StatusChange};
use crate::paths::ExplainablePath;
use crate::readiness::{ReadinessCheck, ReadinessState};
use crate::records::CodeRelation;
use crate::review::{ReviewAction, ReviewDecisionInput};
use crate::viewer::{SelectionHistory, ViewerState};
use crate::{graph, launchd_maintenance, paths, readiness, text, viewer, viewer_refresh};

verus! {

/// A graph is its nodes and its edges in their order, each with its own id, label and kind, and
/// each edge from where it comes from to where it leads.
pub proof fn graphs_are_what_they_hold(m: GraphModel, i: int)
    ensures
        m@.nodes.len() == m.nodes@.len(),
        m@.edges.len() == m.edges@.len(),
        m@.fallback == m.fallback,
        0 <= i < m.nodes@.len() ==> {
            let n = m.nodes@[i];
            &&& m@.nodes[i].id == n.id@
            &&& m@.nodes[i].label == n.label@
            &&& m@.nodes[i].detail == n.detail@
            &&& m@.nodes[i].kind == n.kind
        },
        0 <= i < m.edges@.len() ==> {
            let e = m.edges@[i];
            &&& m@.edges[i].id == e.id@
            &&& m@.edges[i].from == e.from@
            &&& m@.edges[i].to == e.to@
            &&& m@.edges[i].label == e.label@
            &&& m@.edges[i].kind == e.kind
            &&& m@.edges[i].weight == e.weight
        },
{
}

/// Nodes and edges by themselves are what they hold, too.
pub proof fn nodes_and_edges_are_what_they_hold(n: GraphNode, e: GraphEdge)
    ensures
        n@.id == n.id@ && n@.label == n.label@ && n@.detail == n.detail@ && n@.kind == n.kind,
        e@.id == e.id@ && e@.from == e.from@ && e@.to == e.to@,
        e@.label == e.label@ && e@.kind == e.kind && e@.weight == e.weight,
{
}

/// A graph has a node or an edge where one of its nodes or edges has the id, and a selection where
/// it has what is selected; nothing selected is always there.
pub proof fn graphs_have_what_is_in_them(m: ModelView, id: Seq<char>)
    ensures
        m.has_node(id) <==> exists|i: int|
            0 <= i < m.nodes.len() && (#[trigger] m.nodes[i]).id == id,
        m.has_edge(id) <==> exists|i: int|
            0 <= i < m.edges.len() && (#[trigger] m.edges[i]).id == id,
        m.has_selection(SelectionView::Overview),
        m.has_selection(SelectionView::Node(id)) <==> m.has_node(id),
        m.has_selection(SelectionView::Edge(id)) <==> m.has_edge(id),
{
}

/// A selection is what is selected, and a history is the selection, what came before it and what
/// was left by going back.
pub proof fn histories_are_what_they_hold(h: SelectionHistory, s: GraphSelection, i: int)
    ensures
        h@.selected == h.selected@,
        h@.back.len() == h.back@.len(),
        h@.forward.len() == h.forward@.len(),
        0 <= i < h.back@.len() ==> h@.back[i] == h.back@[i]@,
        0 <= i < h.forward@.len() ==> h@.forward[i] == h.forward@[i]@,
        s is Overview <==> s@ is Overview,
        s matches GraphSelection::Node(id) ==> s@ == SelectionView::Node(id@),
        s matches GraphSelection::Edge(id) ==> s@ == SelectionView::Edge(id@),
{
}

/// A path is its nodes, its edges and its score.
pub proof fn paths_are_what_they_hold(p: ExplainablePath, i: int)
    ensures
        p@.score == p.score,
        p@.node_ids.len() == p.node_ids@.len(),
        p@.edge_ids.len() == p.edge_ids@.len(),
        0 <= i < p.node_ids@.len() ==> p@.node_ids[i] == p.node_ids@[i]@,
        0 <= i < p.edge_ids@.len() ==> p@.edge_ids[i] == p.edge_ids@[i]@,
{
}

/// Paths whose weights fit have scores that fit.
pub proof fn scores_fit_where_weights_do(m: ModelView, start: Seq<char>, i: int)
    requires
        paths::weights_fit(m, start),
        m.has_node(start),
        0 < i < paths::visits(m, start).len(),
        paths::useful(m, start, paths::visits(m, start)[i]),
    ensures
        paths::path_to(m, paths::visits(m, start), i).score <= usize::MAX,
{
    assert(paths::score_fits(m, paths::visits(m, start), i));
}

/// A target of code and a relation of code are what they hold, from the symbol and file a relation
/// comes from to what it leads to.
pub proof fn records_of_code_are_what_they_hold(t: CodeTarget, r: CodeRelation)
    ensures
        t@.id == t.id@ && t@.label == t.label@ && t@.detail == t.detail@ && t@.kind == t.kind,
        t@.file_path == text::opt_text(t.file_path),
        r@.id == r.id@ && r@.project_id == r.project_id@,
        r@.from_symbol_id == text::opt_text(r.from_symbol_id),
        r@.from_file_path == r.from_file_path@,
        r@.relation_kind == r.relation_kind@,
        r@.target_name == r.target_name@,
        r@.target_symbol_id == text::opt_text(r.target_symbol_id),
{
}

/// What is written, decided and checked is what is held of it.
pub proof fn decisions_and_changes_are_what_they_hold(
    d: ReviewDecisionInput,
    a: ReviewAction,
    c: StatusChange,
    m: NewMemory,
    k: ReadinessCheck,
    e: AuditEvent,
)
    ensures
        d@.id == d.id@ && d@.action == d.action@ && d@.reason == text::opt_text(d.reason),
        a@.id == a.id@ && a@.kind == a.kind && a@.reason == text::opt_text(a.reason)
            && a@.audit_action == a.audit_action@,
        c@.id == c.id@ && c@.kind == c.kind && c@.reason == text::opt_text(c.reason),
        m@.scope == m.scope@ && m@.memory_tier == m.memory_tier@ && m@.kind == m.kind@,
        m@.body == m.body@ && m@.tags == text::texts(m.tags@) && m@.status == m.status,
        m@.source == text::opt_text(m.source) && m@.status_reason == text::opt_text(
            m.status_reason,
        ) && m@.allow_sensitive == m.allow_sensitive,
        k@.name == k.name@ && k@.state == k.state && k@.detail == k.detail@,
        e@.id == e.id@ && e@.action == e.action@ && e@.detail == e.detail@,
{
}

/// A value of JSON is what it holds: its text, its number, its values in their order, and its
/// fields by their names.
pub proof fn values_are_what_they_hold(v: Json, i: int)
    ensures
        v matches Json::Text(s) ==> v@ == JsonView::Text(s@),
        v matches Json::Number(n) ==> v@ == JsonView::Number(n),
        v matches Json::Bool(b) ==> v@ == JsonView::Bool(b),
        v matches Json::Array(values) ==> v@ is Array && v@->Array_0.len() == values@.len() && (0
            <= i < values@.len() ==> v@->Array_0[i] == values@[i]@),
        v matches Json::Object(fields) ==> v@ is Object && v@->Object_0.len() == fields@.len() && (0
            <= i < fields@.len() ==> v@->Object_0[i] == (fields@[i].0@, fields@[i].1@)),
{
    reveal_with_fuel(crate::json::json_view, 2);
}

/// A dump that was read is what it holds: each map under its own name.
pub proof fn dumps_are_what_they_hold(g: LsifGraph)
    ensures
        g@.documents == g.documents@,
        g@.range_documents == g.range_documents@,
        g@.range_result_sets == g.range_result_sets@,
        g@.result_definitions == g.result_definitions@,
        g@.result_references == g.result_references@,
        g@.result_monikers == g.result_monikers@,
        g@.monikers == g.monikers@,
{
}

/// What stays when only the selection and the display change is the project, its filters, its data,
/// what is told of it and its revision; what stays when data are loaded is all that is shown of it.
pub proof fn states_keep_what_they_are_to_keep(a: ViewerState, b: ViewerState)
    ensures
        viewer::same_data(a, b) ==> a.project_id == b.project_id && a.filters == b.filters && a.data
            == b.data && a.notes == b.notes && a.data_revision == b.data_revision,
        viewer_refresh::same_view(a, b) ==> a.project_id == b.project_id && a.history == b.history
            && a.filters == b.filters && a.display == b.display && a.pinned == b.pinned
            && a.fit_requested == b.fit_requested,
{
}

/// The words for what a check found.
pub proof fn states_have_their_words()
    ensures
        readiness::state_word(ReadinessState::Ready) == "ok"@,
        readiness::state_word(ReadinessState::Fail) == "fail"@,
        readiness::state_word(ReadinessState::Skip) == "skip"@,
{
}

/// Texts of strings, nodes, edges and paths are taken in their order.
pub proof fn lists_are_taken_in_their_order(
    texts: Seq<String>,
    nodes: Seq<GraphNode>,
    edges: Seq<GraphEdge>,
    found: Seq<ExplainablePath>,
    i: int,
)
    ensures
        text::texts(texts).len() == texts.len(),
        graph::node_views(nodes).len() == nodes.len(),
        graph::edge_views(edges).len() == edges.len(),
        paths::path_views(found).len() == found.len(),
        0 <= i < texts.len() ==> text::texts(texts)[i] == texts[i]@,
        0 <= i < nodes.len() ==> graph::node_views(nodes)[i] == nodes[i]@,
        0 <= i < edges.len() ==> graph::edge_views(edges)[i] == edges[i]@,
        0 <= i < found.len() ==> paths::path_views(found)[i] == found[i]@,
{
}

/// An argument of the agent stands on a line of its own, with its markup escaped, and its logs
/// below the home of the user.
pub proof fn arguments_stand_on_their_lines(args: Seq<Seq<char>>, arg: Seq<char>)
    ensures
        launchd_maintenance::argument_line(arg) == "    <string>"@
            + launchd_maintenance::xml_escaped(arg) + "</string>"@,
        args.len() > 0 ==> launchd_maintenance::argument_lines(args.push(arg))
            == launchd_maintenance::argument_lines(args) + "\n"@
            + launchd_maintenance::argument_line(arg),
{
    if args.len() > 0 {
        let f = |a: Seq<char>| launchd_maintenance::argument_line(a);
        let all = args.push(arg).map_values(f);
        assert(all.drop_last() =~= args.map_values(f));
        assert(all.last() == launchd_maintenance::argument_line(arg));
    }
}

} // verus!
