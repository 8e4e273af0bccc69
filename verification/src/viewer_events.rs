//! What clicks and background work do to the viewer, and the words it shows.
use vstd::prelude::*;
use crate::graph::{EdgeView, GraphEdge, GraphModel, GraphNode, GraphNodeKind, ModelView, NodeView};
use crate::overview::{overview_navigation_target, GraphViewMode};
use crate::records::StatusFilter;
use crate::text::{cat2, cat4, cat6, decimal, has_prefix, owned, trim};
use crate::viewer::{ViewerNotes, ViewerState};
use crate::viewer_refresh::MemoryRequest;
use crate::{filter, graph, overview, paths, text, viewer};

verus! {

// ---------------------------------------------------------------------------
// Clicks
// ---------------------------------------------------------------------------

/// What the pointer did to something.
#[derive(Debug, Clone, Copy, PartialEq, Eq, Structural)]
pub struct PointerEvent {
    pub dragged: bool,
    pub double_clicked: bool,
    pub clicked: bool,
}

/// What follows for a node.
#[derive(Debug, Clone, Copy, PartialEq, Eq, Structural)]
pub enum NodeAction {
    /// The node moves with the pointer and is pinned.
    Drag,
    /// The view that the node leads to is opened.
    OpenArea,
    /// What is behind the node is shown.
    ExpandCluster,
    /// The node is selected.
    Select,
    /// Nothing.
    Ignore,
}

/// What follows for a node: a drag goes before a double click, and that before a click.
pub open spec fn node_action(
    view_mode: GraphViewMode,
    id: Seq<char>,
    kind: GraphNodeKind,
    event: PointerEvent,
) -> NodeAction {
    if event.dragged {
        NodeAction::Drag
    } else if event.double_clicked && view_mode == GraphViewMode::Overview
        && overview::navigation_target(id) is Some {
        NodeAction::OpenArea
    } else if event.double_clicked && view_mode == GraphViewMode::Clusters && kind
        == GraphNodeKind::Cluster {
        NodeAction::ExpandCluster
    } else if event.clicked {
        NodeAction::Select
    } else {
        NodeAction::Ignore
    }
}

/// Decides what follows for a node.
pub fn decide_node_action(view_mode: GraphViewMode, node: &GraphNode, event: PointerEvent) -> (r:
    NodeAction)
    ensures
        r == node_action(view_mode, node.id@, node.kind, event),
{
    if event.dragged {
        NodeAction::Drag
    } else if event.double_clicked && view_mode == GraphViewMode::Overview
        && overview_navigation_target(node.id.as_str()).is_some() {
        NodeAction::OpenArea
    } else if event.double_clicked && view_mode == GraphViewMode::Clusters && node.kind
        == GraphNodeKind::Cluster {
        NodeAction::ExpandCluster
    } else if event.clicked {
        NodeAction::Select
    } else {
        NodeAction::Ignore
    }
}

/// What follows for the background.
#[derive(Debug, Clone, Copy, PartialEq, Eq, Structural)]
pub struct BackgroundAction {
    pub pan: bool,
    pub fit: bool,
    pub select_overview: bool,
}

/// What follows for the background, unless the pointer was on a node: a drag moves the view, a
/// double click fits the graph, a click selects the whole.
pub open spec fn background_action(
    event: PointerEvent,
    node_dragged: bool,
    node_interacted: bool,
) -> BackgroundAction {
    let fit = event.double_clicked && !node_interacted;
    BackgroundAction {
        pan: event.dragged && !node_dragged && !node_interacted,
        fit,
        select_overview: !fit && event.clicked && !event.dragged && !node_interacted,
    }
}

/// Decides what follows for the background.
pub fn decide_background_action(
    event: PointerEvent,
    node_dragged: bool,
    node_interacted: bool,
) -> (r: BackgroundAction)
    ensures
        r == background_action(event, node_dragged, node_interacted),
{
    let fit: bool = event.double_clicked && !node_interacted;
    BackgroundAction {
        pan: event.dragged && !node_dragged && !node_interacted,
        fit,
        select_overview: !fit && event.clicked && !event.dragged && !node_interacted,
    }
}

// ---------------------------------------------------------------------------
// Extraction of a graph
// ---------------------------------------------------------------------------

/// What an extraction proposed.
#[derive(Debug, Clone, Copy, PartialEq, Eq, Structural)]
pub struct ExtractSummary {
    pub apply: bool,
    pub proposals: usize,
    pub proposed_entities: usize,
    pub proposed_facts: usize,
    pub proposed_edges: usize,
}

/// An extraction of a graph from memories in the background.
#[derive(Debug)]
pub struct ExtractState {
    pub query: String,
    pub limit: usize,
    pub apply: bool,
    pub running: bool,
    pub report: Option<ExtractSummary>,
}

/// What a background extraction is asked for.
#[derive(Debug)]
pub struct ExtractRequest {
    pub query: String,
    pub limit: usize,
    pub status: StatusFilter,
    pub kind: Option<String>,
    pub apply: bool,
}

/// What became of a background extraction.
#[derive(Debug)]
pub enum ExtractOutcome {
    Finished(ExtractSummary),
    Failed(String),
    Pending,
    Lost,
}

impl ExtractRequest {
    /// The memories to extract from: all of a status and kind, or those that the query finds.
    pub fn memory_request(self) -> (r: MemoryRequest)
        ensures
            r == (if self.query@.len() == 0 {
                MemoryRequest::List { limit: self.limit, status: self.status, kind: self.kind }
            } else {
                MemoryRequest::Search {
                    query: self.query,
                    limit: self.limit,
                    status: self.status,
                    kind: self.kind,
                }
            }),
    {
        if self.query.as_str().is_empty() {
            MemoryRequest::List { limit: self.limit, status: self.status, kind: self.kind }
        } else {
            MemoryRequest::Search {
                query: self.query,
                limit: self.limit,
                status: self.status,
                kind: self.kind,
            }
        }
    }
}

impl ExtractState {
    /// No extraction yet.
    pub fn new() -> (r: Self)
        ensures
            r.query@.len() == 0,
            r.limit == 20,
            !r.apply,
            !r.running,
            r.report is None,
    {
        ExtractState {
            query: String::new(),
            limit: 20,
            apply: false,
            running: false,
            report: None,
        }
    }

    /// Starts an extraction, unless one is running.
    pub fn start(&mut self, state: &mut ViewerState, apply: bool) -> (r: Option<ExtractRequest>)
        ensures
            r is None <==> old(self).running,
            r is None ==> *final(self) == *old(self) && *final(state) == *old(state),
            r matches Some(request) ==> {
                &&& request.query@ == text::trimmed(old(self).query@)
                &&& request.limit == filter::clamped(old(self).limit as int, 1, 100)
                &&& request.status == old(state).filters.status.admitted()
                &&& text::opt_text(request.kind) == viewer::filled(old(state).filters.kind@)
                &&& request.apply == apply
                &&& *final(self) == (ExtractState {
                    apply,
                    running: true,
                    report: None,
                    ..*old(self)
                })
                &&& *final(state) == (ViewerState {
                    notes: (ViewerNotes { error: None, ..old(state).notes }),
                    ..*old(state)
                })
            },
    {
        if self.running {
            return None;
        }
        self.apply = apply;
        self.running = true;
        self.report = None;
        state.notes.error = None;
        Some(
            ExtractRequest {
                query: trim(self.query.as_str()),
                limit: if self.limit < 1 {
                    1
                } else if self.limit > 100 {
                    100
                } else {
                    self.limit
                },
                status: state.filters.status.filter(),
                kind: state.filters.normalized_kind(),
                apply,
            },
        )
    }

    /// Takes what became of an extraction; the project is to be loaded anew where its graph was
    /// changed.
    pub fn poll(&mut self, state: &mut ViewerState, outcome: ExtractOutcome) -> (refresh: bool)
        ensures
            refresh == (outcome matches ExtractOutcome::Finished(report) && report.apply),
            final(self).query == old(self).query,
            final(self).limit == old(self).limit,
            final(self).apply == old(self).apply,
            outcome is Pending ==> *final(self) == *old(self) && *final(state) == *old(state),
            !(outcome is Pending) ==> !final(self).running,
            final(self).report == (match outcome {
                ExtractOutcome::Finished(report) => Some(report),
                _ => old(self).report,
            }),
            final(state).project_id == old(state).project_id,
            final(state).history == old(state).history,
            final(state).filters == old(state).filters,
            final(state).display == old(state).display,
            final(state).pinned == old(state).pinned,
            final(state).fit_requested == old(state).fit_requested,
            final(state).data == old(state).data,
            final(state).data_revision == old(state).data_revision,
            final(state).notes.graph_note == old(state).notes.graph_note,
            final(state).notes.code_note == old(state).notes.code_note,
            outcome matches ExtractOutcome::Finished(report) ==> {
                &&& final(state).notes.error is None
                &&& final(state).notes.last_refresh@ == "извлечение графа: "@ + text::decimal_text(
                    report.proposed_entities as nat,
                ) + " сущн., "@ + text::decimal_text(report.proposed_facts as nat) + " фактов, "@
                    + text::decimal_text(report.proposed_edges as nat) + " связей"@
            },
            outcome matches ExtractOutcome::Failed(error) ==> {
                &&& text::opt_text(final(state).notes.error) == Some(
                    "извлечение графа не удалось: "@ + error@,
                )
                &&& final(state).notes.last_refresh == old(state).notes.last_refresh
            },
            outcome is Lost ==> {
                &&& text::opt_text(final(state).notes.error) == Some(
                    "извлечение графа остановилось без результата"@,
                )
                &&& final(state).notes.last_refresh == old(state).notes.last_refresh
            },
    {
        match outcome {
            ExtractOutcome::Finished(report) => {
                self.running = false;
                let entities = decimal(report.proposed_entities as u64);
                let facts = decimal(report.proposed_facts as u64);
                let edges = decimal(report.proposed_edges as u64);
                let front = cat6(
                    "извлечение графа: ",
                    entities.as_str(),
                    " сущн., ",
                    facts.as_str(),
                    " фактов, ",
                    edges.as_str(),
                );
                state.notes.last_refresh = cat2(front.as_str(), " связей");
                self.report = Some(report);
                state.notes.error = None;
                report.apply
            },
            ExtractOutcome::Failed(error) => {
                self.running = false;
                state.notes.error = Some(cat2("извлечение графа не удалось: ", error.as_str()));
                false
            },
            ExtractOutcome::Pending => false,
            ExtractOutcome::Lost => {
                self.running = false;
                state.notes.error = Some(owned("извлечение графа остановилось без результата"));
                false
            },
        }
    }

    /// Whether what was proposed can still be applied: it was not, and there is something.
    pub fn can_apply_report(&self) -> (r: bool)
        ensures
            r == (self.report matches Some(report) && !report.apply && report.proposals > 0),
    {
        match &self.report {
            Some(report) => !report.apply && report.proposals > 0,
            None => false,
        }
    }
}

// ---------------------------------------------------------------------------
// Words
// ---------------------------------------------------------------------------

/// The words over a node: its label and detail, and what a double click does.
pub open spec fn hover_text(n: NodeView, view_mode: GraphViewMode) -> Seq<char> {
    n.label + "\n"@ + n.detail + (if text::begins_with(n.id, "overview:"@) {
        "\nДвойной клик: открыть область"@
    } else if view_mode == GraphViewMode::Clusters && n.kind == GraphNodeKind::Cluster {
        "\nДвойной клик: открыть кластер"@
    } else {
        ""@
    })
}

/// The words over a node.
pub fn node_hover_text(node: &GraphNode, view_mode: GraphViewMode) -> (r: String)
    ensures
        r@ == hover_text(node@, view_mode),
{
    let action: &str = if has_prefix(node.id.as_str(), "overview:") {
        "\nДвойной клик: открыть область"
    } else if view_mode == GraphViewMode::Clusters && node.kind == GraphNodeKind::Cluster {
        "\nДвойной клик: открыть кластер"
    } else {
        ""
    };
    cat4(node.label.as_str(), "\n", node.detail.as_str(), action)
}

/// Edges at a node, or all where none is given.
pub open spec fn at_node(node: Option<Seq<char>>) -> spec_fn(EdgeView) -> bool {
    |e: EdgeView| node matches Some(id) ==> e.from == id || e.to == id
}

/// The first forty edges at a node, or of all where none is given.
pub open spec fn linked_edges(m: ModelView, node: Option<Seq<char>>) -> Seq<EdgeView> {
    let all = m.edges.filter(at_node(node));
    if all.len() <= 40 {
        all
    } else {
        all.take(40)
    }
}

/// The first forty edges at a node, or of all where none is given.
pub fn related_edges(model: &GraphModel, node_id: Option<&str>) -> (r: Vec<GraphEdge>)
    ensures
        graph::edge_views(r@) == linked_edges(
            model@,
            match node_id {
                Some(id) => Some(id@),
                None => None,
            },
        ),
{
    let ghost node = match node_id {
        Some(id) => Some(id@),
        None => None,
    };
    let ghost p = at_node(node);
    let ghost views = graph::edge_views(model.edges@);
    let mut r: Vec<GraphEdge> = Vec::new();
    let mut i: usize = 0;
    proof {
        reveal(Seq::filter);
        assert(views.take(0) =~= Seq::<EdgeView>::empty());
        assert(graph::edge_views(r@) =~= Seq::<EdgeView>::empty());
    }
    while i < model.edges.len()
        invariant
            i <= model.edges.len(),
            views == graph::edge_views(model.edges@),
            node == (match node_id {
                Some(id) => Some(id@),
                None => None,
            }),
            p == at_node(node),
            graph::edge_views(r@) == views.take(i as int).filter(p),
        decreases model.edges.len() - i,
    {
        proof {
            views.take(i as int).lemma_filter_push(views[i as int], p);
            assert(views.take(i + 1) =~= views.take(i as int).push(views[i as int]));
        }
        let wanted: bool = match node_id {
            Some(id) => text::same_text(model.edges[i].from.as_str(), id) || text::same_text(
                model.edges[i].to.as_str(),
                id,
            ),
            None => true,
        };
        if wanted {
            let ghost before = r@;
            r.push(model.edges[i].clone());
            assert(graph::edge_views(r@) =~= graph::edge_views(before).push(views[i as int]));
        }
        i += 1;
    }
    assert(views.take(i as int) =~= views);
    let ghost all = r@;
    r.truncate(40);
    assert(graph::edge_views(all).len() == all.len());
    proof {
        if all.len() > 40 {
            assert(graph::edge_views(r@) =~= graph::edge_views(all).take(40));
        }
    }
    r
}

/// What the edges at a node weigh together, each one at least.
pub open spec fn relation_weight(edges: Seq<EdgeView>, id: Seq<char>) -> nat
    decreases edges.len(),
{
    if edges.len() == 0 {
        0
    } else {
        let e = edges.last();
        relation_weight(edges.drop_last(), id) + if e.from == id || e.to == id {
            paths::weight_of(e)
        } else {
            0
        }
    }
}

/// The first edges at a node weigh no more than all.
proof fn lemma_relation_weight_of_prefix(edges: Seq<EdgeView>, id: Seq<char>, n: int)
    requires
        0 <= n <= edges.len(),
    ensures
        relation_weight(edges.take(n), id) <= relation_weight(edges, id),
    decreases edges.len() - n,
{
    if n < edges.len() {
        lemma_relation_weight_of_prefix(edges, id, n + 1);
        assert(edges.take(n + 1).drop_last() =~= edges.take(n));
    } else {
        assert(edges.take(n) =~= edges);
    }
}

/// What the edges at a node weigh together; none where it does not fit.
pub fn relation_count(model: &GraphModel, id: &str) -> (r: Option<usize>)
    ensures
        match r {
            Some(n) => n == relation_weight(model@.edges, id@),
            None => relation_weight(model@.edges, id@) > usize::MAX,
        },
{
    let ghost views = model@.edges;
    let mut r: usize = 0;
    let mut i: usize = 0;
    assert(views.take(0) =~= Seq::<EdgeView>::empty());
    while i < model.edges.len()
        invariant
            i <= model.edges.len(),
            views == graph::edge_views(model.edges@),
            r == relation_weight(views.take(i as int), id@),
        decreases model.edges.len() - i,
    {
        proof {
            lemma_relation_weight_of_prefix(views, id@, i + 1);
            assert(views.take(i + 1).drop_last() =~= views.take(i as int));
            assert(views.take(i + 1).last() == model.edges@[i as int]@);
        }
        if text::same_text(model.edges[i].from.as_str(), id) || text::same_text(
            model.edges[i].to.as_str(),
            id,
        ) {
            let weight: usize = if model.edges[i].weight < 1 {
                1
            } else {
                model.edges[i].weight
            };
            r = match r.checked_add(weight) {
                Some(sum) => sum,
                None => return None,
            };
        }
        i += 1;
    }
    assert(views.take(i as int) =~= views);
    Some(r)
}

} // verus!
