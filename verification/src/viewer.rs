//! The state of the graph viewer and how it answers what the user does.
use vstd::prelude::*;
use crate::bridge::{build_bridge_cluster_model, build_bridge_model};
use crate::code_graph::{
    build_code_directory_model, build_code_file_model, build_code_kind_model,
    build_code_symbol_model, CodeGrouping,
};
use crate::drilldown::{
    build_bridge_cluster_drilldown_model, build_code_cluster_drilldown_model,
    build_memory_cluster_drilldown_model,
};
use crate::filter::{filter_relationship_model, RelationshipFilterOptions};
use crate::graph::{GraphEdgeKind, GraphModel, GraphSelection, ModelView, SelectionView};
use crate::memory_graph::{build_memory_cluster_model, build_relationship_model, build_type_model};
use crate::order::TextSet;
use crate::overview::{
    build_project_overview_model, overview_navigation_target, GraphDomain, GraphViewMode,
};
use crate::records::{
    empty_graph, CodeRelation, CodeSymbol, Memory, MemoryGraph, MemoryStatus, StatusFilter,
};
use crate::text::{cat3, contains_text, is_blank, lowercase, owned, same_text, trim};
use crate::{bridge, code_graph, drilldown, filter, graph, memory_graph, overview, text};

verus! {

// ---------------------------------------------------------------------------
// Statuses
// ---------------------------------------------------------------------------

/// The choice of a memory status.
#[derive(Debug, Clone, Copy, PartialEq, Eq, Structural)]
pub enum MemoryStatusChoice {
    Any,
    Pending,
    Active,
    Superseded,
    Archived,
}

impl MemoryStatusChoice {
    /// The choice that a word names.
    pub open spec fn named(value: Seq<char>) -> Option<MemoryStatusChoice> {
        if value == "any"@ {
            Some(MemoryStatusChoice::Any)
        } else if value == "pending"@ {
            Some(MemoryStatusChoice::Pending)
        } else if value == "active"@ {
            Some(MemoryStatusChoice::Active)
        } else if value == "superseded"@ {
            Some(MemoryStatusChoice::Superseded)
        } else if value == "archived"@ {
            Some(MemoryStatusChoice::Archived)
        } else {
            None
        }
    }

    /// Reads a choice; another word is refused with a message that names it.
    pub fn parse(value: &str) -> (r: Result<Self, String>)
        ensures
            r is Ok <==> Self::named(value@) is Some,
            r matches Ok(choice) ==> Some(choice) == Self::named(value@),
            r matches Err(message) ==> message@ == "invalid memory status `"@ + value@
                + "`; use any, pending, active, superseded, or archived"@,
    {
        if same_text(value, "any") {
            Ok(MemoryStatusChoice::Any)
        } else if same_text(value, "pending") {
            Ok(MemoryStatusChoice::Pending)
        } else if same_text(value, "active") {
            Ok(MemoryStatusChoice::Active)
        } else if same_text(value, "superseded") {
            Ok(MemoryStatusChoice::Superseded)
        } else if same_text(value, "archived") {
            Ok(MemoryStatusChoice::Archived)
        } else {
            Err(
                cat3(
                    "invalid memory status `",
                    value,
                    "`; use any, pending, active, superseded, or archived",
                ),
            )
        }
    }

    /// All choices.
    pub fn all() -> (r: [Self; 5])
        ensures
            r@ == seq![
                MemoryStatusChoice::Any,
                MemoryStatusChoice::Pending,
                MemoryStatusChoice::Active,
                MemoryStatusChoice::Superseded,
                MemoryStatusChoice::Archived,
            ],
    {
        [
            MemoryStatusChoice::Any,
            MemoryStatusChoice::Pending,
            MemoryStatusChoice::Active,
            MemoryStatusChoice::Superseded,
            MemoryStatusChoice::Archived,
        ]
    }

    /// The words for a choice.
    pub open spec fn label_text(self) -> Seq<char> {
        match self {
            MemoryStatusChoice::Any => "все"@,
            MemoryStatusChoice::Pending => "на проверке"@,
            MemoryStatusChoice::Active => "активные"@,
            MemoryStatusChoice::Superseded => "замененные"@,
            MemoryStatusChoice::Archived => "архив"@,
        }
    }

    /// The words for a choice.
    pub fn label(self) -> (r: &'static str)
        ensures
            r@ == self.label_text(),
    {
        match self {
            MemoryStatusChoice::Any => "все",
            MemoryStatusChoice::Pending => "на проверке",
            MemoryStatusChoice::Active => "активные",
            MemoryStatusChoice::Superseded => "замененные",
            MemoryStatusChoice::Archived => "архив",
        }
    }

    /// The statuses that a choice admits.
    pub open spec fn admitted(self) -> StatusFilter {
        match self {
            MemoryStatusChoice::Any => StatusFilter::Any,
            MemoryStatusChoice::Pending => StatusFilter::One(MemoryStatus::Pending),
            MemoryStatusChoice::Active => StatusFilter::One(MemoryStatus::Active),
            MemoryStatusChoice::Superseded => StatusFilter::One(MemoryStatus::Superseded),
            MemoryStatusChoice::Archived => StatusFilter::One(MemoryStatus::Archived),
        }
    }

    /// The statuses that a choice admits.
    pub fn filter(self) -> (r: StatusFilter)
        ensures
            r == self.admitted(),
    {
        match self {
            MemoryStatusChoice::Any => StatusFilter::Any,
            MemoryStatusChoice::Pending => StatusFilter::One(MemoryStatus::Pending),
            MemoryStatusChoice::Active => StatusFilter::One(MemoryStatus::Active),
            MemoryStatusChoice::Superseded => StatusFilter::One(MemoryStatus::Superseded),
            MemoryStatusChoice::Archived => StatusFilter::One(MemoryStatus::Archived),
        }
    }
}

// ---------------------------------------------------------------------------
// The history of selections
// ---------------------------------------------------------------------------

/// The selection with those before it and those that were left by going back.
#[derive(Debug)]
pub struct SelectionHistory {
    pub selected: GraphSelection,
    pub back: Vec<GraphSelection>,
    pub forward: Vec<GraphSelection>,
}

/// A history by its texts.
#[verifier::ext_equal]
pub struct HistoryView {
    pub selected: SelectionView,
    pub back: Seq<SelectionView>,
    pub forward: Seq<SelectionView>,
}

/// The views of selections.
pub open spec fn selection_views(s: Seq<GraphSelection>) -> Seq<SelectionView> {
    s.map_values(|x: GraphSelection| x@)
}

impl View for SelectionHistory {
    type V = HistoryView;

    open spec fn view(&self) -> HistoryView {
        HistoryView {
            selected: self.selected@,
            back: selection_views(self.back@),
            forward: selection_views(self.forward@),
        }
    }
}

impl HistoryView {
    /// Nothing selected, nothing before, nothing left.
    pub open spec fn start() -> HistoryView {
        HistoryView {
            selected: SelectionView::Overview,
            back: Seq::empty(),
            forward: Seq::empty(),
        }
    }

    /// With another selection: the old one can be gone back to.
    pub open spec fn selecting(self, selection: SelectionView) -> HistoryView {
        if self.selected == selection {
            self
        } else {
            HistoryView {
                selected: selection,
                back: self.back.push(self.selected),
                forward: Seq::empty(),
            }
        }
    }

    /// One selection back, where there is one.
    pub open spec fn going_back(self) -> HistoryView {
        if self.back.len() == 0 {
            self
        } else {
            HistoryView {
                selected: self.back.last(),
                back: self.back.drop_last(),
                forward: self.forward.push(self.selected),
            }
        }
    }

    /// One selection forward, where there is one.
    pub open spec fn going_forward(self) -> HistoryView {
        if self.forward.len() == 0 {
            self
        } else {
            HistoryView {
                selected: self.forward.last(),
                back: self.back.push(self.selected),
                forward: self.forward.drop_last(),
            }
        }
    }

    /// Going back undoes a selection of something else.
    pub proof fn back_undoes_select(self, selection: SelectionView)
        requires
            selection != self.selected,
        ensures
            self.selecting(selection).going_back().selected == self.selected,
            self.selecting(selection).going_back().back == self.back,
    {
        assert(self.back.push(self.selected).drop_last() =~= self.back);
    }

    /// Going forward undoes going back.
    pub proof fn forward_undoes_back(self)
        requires
            self.back.len() > 0,
        ensures
            self.going_back().going_forward() == self,
    {
        assert(self.back.drop_last().push(self.back.last()) =~= self.back);
        assert(self.forward.push(self.selected).drop_last() =~= self.forward);
    }

    /// Going back undoes going forward.
    pub proof fn back_undoes_forward(self)
        requires
            self.forward.len() > 0,
        ensures
            self.going_forward().going_back() == self,
    {
        assert(self.forward.drop_last().push(self.forward.last()) =~= self.forward);
        assert(self.back.push(self.selected).drop_last() =~= self.back);
    }

    /// To select what is selected changes nothing.
    pub proof fn select_is_idempotent(self, selection: SelectionView)
        ensures
            self.selecting(selection).selecting(selection) == self.selecting(selection),
    {
    }
}

/// Whether two selections are the same.
fn same_selection(a: &GraphSelection, b: &GraphSelection) -> (r: bool)
    ensures
        r == (a@ == b@),
{
    match a {
        GraphSelection::Overview => match b {
            GraphSelection::Overview => true,
            _ => false,
        },
        GraphSelection::Node(x) => match b {
            GraphSelection::Node(y) => *x == *y,
            _ => false,
        },
        GraphSelection::Edge(x) => match b {
            GraphSelection::Edge(y) => *x == *y,
            _ => false,
        },
    }
}

impl SelectionHistory {
    /// Nothing selected, nothing before, nothing left.
    pub fn new() -> (r: Self)
        ensures
            r@ == HistoryView::start(),
    {
        let r = SelectionHistory {
            selected: GraphSelection::Overview,
            back: Vec::new(),
            forward: Vec::new(),
        };
        assert(r@ =~= HistoryView::start());
        r
    }

    /// Selects something.
    pub fn select(&mut self, selection: GraphSelection)
        ensures
            final(self)@ == old(self)@.selecting(selection@),
    {
        if same_selection(&self.selected, &selection) {
            return ;
        }
        let ghost back = self.back@;
        self.back.push(self.selected.clone());
        self.forward = Vec::new();
        self.selected = selection;
        assert(selection_views(self.back@) =~= selection_views(back).push(old(self)@.selected));
        assert(selection_views(self.forward@) =~= Seq::<SelectionView>::empty());
    }

    /// Goes one selection back, where there is one.
    pub fn go_back(&mut self)
        ensures
            final(self)@ == old(self)@.going_back(),
    {
        let ghost back = self.back@;
        let ghost forward = self.forward@;
        if let Some(previous) = self.back.pop() {
            self.forward.push(self.selected.clone());
            self.selected = previous;
            assert(selection_views(self.back@) =~= selection_views(back).drop_last());
            assert(selection_views(self.forward@) =~= selection_views(forward).push(
                old(self)@.selected,
            ));
            assert(selection_views(back).last() == previous@);
        }
    }

    /// Goes one selection forward, where there is one.
    pub fn go_forward(&mut self)
        ensures
            final(self)@ == old(self)@.going_forward(),
    {
        let ghost back = self.back@;
        let ghost forward = self.forward@;
        if let Some(next) = self.forward.pop() {
            self.back.push(self.selected.clone());
            self.selected = next;
            assert(selection_views(self.forward@) =~= selection_views(forward).drop_last());
            assert(selection_views(self.back@) =~= selection_views(back).push(
                old(self)@.selected,
            ));
            assert(selection_views(forward).last() == next@);
        }
    }
}

// ---------------------------------------------------------------------------
// The state
// ---------------------------------------------------------------------------

/// What the user searches and filters by.
#[derive(Debug)]
pub struct ViewerFilters {
    pub status: MemoryStatusChoice,
    pub kind: String,
    pub query: String,
    pub node_filter: String,
    pub relation_filter: String,
    pub code_kind_filter: String,
    pub code_file_filter: String,
    pub limit: usize,
}

/// What is displayed.
#[derive(Debug)]
pub struct ViewerDisplay {
    pub domain: GraphDomain,
    pub view_mode: GraphViewMode,
    pub expanded_cluster: Option<String>,
    pub show_facts: bool,
    pub show_evidence: bool,
    pub focus_selected: bool,
    pub max_visible_nodes: usize,
}

/// What was loaded of the project.
#[derive(Debug)]
pub struct ViewerData {
    pub memories: Vec<Memory>,
    pub graph: MemoryGraph,
    pub code_symbols: Vec<CodeSymbol>,
    pub code_relations: Vec<CodeRelation>,
}

/// What the user is told.
#[derive(Debug)]
pub struct ViewerNotes {
    pub error: Option<String>,
    pub graph_note: Option<String>,
    pub code_note: Option<String>,
    pub last_refresh: String,
}

/// The state of the viewer.
pub struct ViewerState {
    pub project_id: String,
    pub history: SelectionHistory,
    pub filters: ViewerFilters,
    pub display: ViewerDisplay,
    pub pinned: TextSet,
    pub fit_requested: bool,
    pub data: ViewerData,
    pub notes: ViewerNotes,
    pub data_revision: u64,
}

/// What a change of the state asks of the drawing side: to put the camera back, to forget where
/// nodes were dragged, to forget cached graphs, to keep the view of the project, to load the
/// project anew.
#[derive(Debug, Clone, Copy, PartialEq, Eq, Structural)]
pub struct ViewEffect {
    pub reset_camera: bool,
    pub clear_offsets: bool,
    pub drop_caches: bool,
    pub keep_view: bool,
    pub refresh: bool,
}

impl ViewEffect {
    /// Nothing is asked.
    pub open spec fn none() -> ViewEffect {
        ViewEffect {
            reset_camera: false,
            clear_offsets: false,
            drop_caches: false,
            keep_view: false,
            refresh: false,
        }
    }
}

/// What the state keeps when only the selection, the pins and the display change.
pub open spec fn same_data(a: ViewerState, b: ViewerState) -> bool {
    &&& a.project_id == b.project_id
    &&& a.filters == b.filters
    &&& a.data == b.data
    &&& a.notes == b.notes
    &&& a.data_revision == b.data_revision
}

impl ViewerState {
    /// The invariant of the state.
    pub open spec fn wf(&self) -> bool {
        &&& self.pinned.wf()
        &&& self.display.max_visible_nodes <= 250
    }

    /// The state of a viewer that was just opened.
    pub fn new(project_id: String, status: MemoryStatusChoice, kind: String, limit: usize) -> (r:
        Self)
        ensures
            r.wf(),
            r.project_id == project_id,
            r.history@ == HistoryView::start(),
            r.filters.status == status,
            r.filters.kind == kind,
            r.filters.limit == filter::clamped(limit as int, 1, 500),
            r.filters.query@.len() == 0,
            r.filters.node_filter@.len() == 0,
            r.filters.relation_filter@.len() == 0,
            r.filters.code_kind_filter@.len() == 0,
            r.filters.code_file_filter@.len() == 0,
            r.display == (ViewerDisplay {
                domain: GraphDomain::Memory,
                view_mode: GraphViewMode::Overview,
                expanded_cluster: None,
                show_facts: false,
                show_evidence: false,
                focus_selected: true,
                max_visible_nodes: 80,
            }),
            r.pinned@ == Set::<Seq<char>>::empty(),
            r.fit_requested,
            r.data.is_empty(),
            r.notes.is_clear(),
            r.data_revision == 0,
    {
        ViewerState {
            project_id,
            history: SelectionHistory::new(),
            filters: ViewerFilters {
                status,
                kind,
                query: String::new(),
                node_filter: String::new(),
                relation_filter: String::new(),
                code_kind_filter: String::new(),
                code_file_filter: String::new(),
                limit: if limit < 1 {
                    1
                } else if limit > 500 {
                    500
                } else {
                    limit
                },
            },
            display: ViewerDisplay {
                domain: GraphDomain::Memory,
                view_mode: GraphViewMode::Overview,
                expanded_cluster: None,
                show_facts: false,
                show_evidence: false,
                focus_selected: true,
                max_visible_nodes: 80,
            },
            pinned: TextSet::new(),
            fit_requested: true,
            data: ViewerData::new(),
            notes: ViewerNotes::new(),
            data_revision: 0,
        }
    }

    /// Forgets the selection, the pins and what was dragged, and asks for the graph to be fitted.
    fn start_over(&mut self)
        requires
            old(self).wf(),
        ensures
            final(self).wf(),
            final(self).history@ == HistoryView::start(),
            final(self).pinned@ == Set::<Seq<char>>::empty(),
            final(self).fit_requested,
            final(self).display == old(self).display,
            same_data(*final(self), *old(self)),
    {
        self.history = SelectionHistory::new();
        self.pinned = TextSet::new();
        self.fit_requested = true;
    }

    /// Opens a view of the project.
    pub fn open_graph_view(&mut self, domain: GraphDomain, view_mode: GraphViewMode) -> (e:
        ViewEffect)
        requires
            old(self).wf(),
        ensures
            final(self).wf(),
            final(self).history@ == HistoryView::start(),
            final(self).pinned@ == Set::<Seq<char>>::empty(),
            final(self).fit_requested,
            final(self).display == (ViewerDisplay {
                domain,
                view_mode,
                expanded_cluster: None,
                ..old(self).display
            }),
            same_data(*final(self), *old(self)),
            e == (ViewEffect {
                clear_offsets: true,
                drop_caches: true,
                keep_view: true,
                ..ViewEffect::none()
            }),
    {
        self.start_over();
        self.display.domain = domain;
        self.display.view_mode = view_mode;
        self.display.expanded_cluster = None;
        ViewEffect {
            reset_camera: false,
            clear_offsets: true,
            drop_caches: true,
            keep_view: true,
            refresh: false,
        }
    }

    /// Opens the view that a node of the overview leads to; another node opens none.
    pub fn open_overview_area(&mut self, node_id: &str) -> (e: Option<ViewEffect>)
        requires
            old(self).wf(),
        ensures
            final(self).wf(),
            e is Some <==> overview::navigation_target(node_id@) is Some,
            e is None ==> *final(self) == *old(self),
            overview::navigation_target(node_id@) matches Some(target) ==> {
                &&& final(self).history@ == HistoryView::start()
                &&& final(self).pinned@ == Set::<Seq<char>>::empty()
                &&& final(self).fit_requested
                &&& final(self).display == (ViewerDisplay {
                    domain: target.domain,
                    view_mode: target.view_mode,
                    expanded_cluster: None,
                    show_facts: old(self).display.show_facts || target.show_facts,
                    ..old(self).display
                })
                &&& same_data(*final(self), *old(self))
                &&& e == Some(
                    (ViewEffect {
                        clear_offsets: true,
                        drop_caches: true,
                        keep_view: true,
                        ..ViewEffect::none()
                    }),
                )
            },
    {
        match overview_navigation_target(node_id) {
            Some(target) => {
                if target.show_facts {
                    self.display.show_facts = true;
                }
                Some(self.open_graph_view(target.domain, target.view_mode))
            },
            None => None,
        }
    }

    /// Puts the view back to the whole graph.
    pub fn center_selection(&mut self) -> (e: ViewEffect)
        requires
            old(self).wf(),
        ensures
            final(self).wf(),
            final(self).history@ == old(self).history@.selecting(SelectionView::Overview),
            final(self).pinned == old(self).pinned,
            final(self).fit_requested,
            final(self).display == (ViewerDisplay { expanded_cluster: None, ..old(self).display }),
            same_data(*final(self), *old(self)),
            e == (ViewEffect { reset_camera: true, ..ViewEffect::none() }),
    {
        self.fit_requested = true;
        self.display.expanded_cluster = None;
        self.history.select(GraphSelection::Overview);
        ViewEffect {
            reset_camera: true,
            clear_offsets: false,
            drop_caches: false,
            keep_view: false,
            refresh: false,
        }
    }

    /// Shows what is behind a cluster.
    pub fn expand_cluster(&mut self, node_id: String) -> (e: ViewEffect)
        requires
            old(self).wf(),
        ensures
            final(self).wf(),
            final(self).history@ == HistoryView::start(),
            final(self).pinned@ == Set::<Seq<char>>::empty(),
            final(self).fit_requested,
            final(self).display == (ViewerDisplay {
                expanded_cluster: Some(node_id),
                ..old(self).display
            }),
            same_data(*final(self), *old(self)),
            e == (ViewEffect {
                reset_camera: true,
                clear_offsets: true,
                drop_caches: true,
                ..ViewEffect::none()
            }),
    {
        self.start_over();
        self.display.expanded_cluster = Some(node_id);
        ViewEffect {
            reset_camera: true,
            clear_offsets: true,
            drop_caches: true,
            keep_view: false,
            refresh: false,
        }
    }

    /// Goes back from what is behind a cluster, where one is open.
    pub fn collapse_cluster(&mut self) -> (e: ViewEffect)
        requires
            old(self).wf(),
        ensures
            final(self).wf(),
            old(self).display.expanded_cluster is None ==> *final(self) == *old(self) && e
                == ViewEffect::none(),
            old(self).display.expanded_cluster is Some ==> {
                &&& final(self).history@ == HistoryView::start()
                &&& final(self).pinned@ == Set::<Seq<char>>::empty()
                &&& final(self).fit_requested
                &&& final(self).display == (ViewerDisplay {
                    expanded_cluster: None,
                    ..old(self).display
                })
                &&& same_data(*final(self), *old(self))
                &&& e == (ViewEffect {
                    reset_camera: true,
                    clear_offsets: true,
                    drop_caches: true,
                    ..ViewEffect::none()
                })
            },
    {
        if self.display.expanded_cluster.is_none() {
            return ViewEffect {
                reset_camera: false,
                clear_offsets: false,
                drop_caches: false,
                keep_view: false,
                refresh: false,
            };
        }
        self.start_over();
        self.display.expanded_cluster = None;
        ViewEffect {
            reset_camera: true,
            clear_offsets: true,
            drop_caches: true,
            keep_view: false,
            refresh: false,
        }
    }

    /// Pins a node where it is, or lets it go.
    pub fn toggle_pin(&mut self, node_id: &str) -> (pinned: bool)
        requires
            old(self).wf(),
        ensures
            final(self).wf(),
            pinned == !old(self).pinned@.contains(node_id@),
            pinned ==> final(self).pinned@ == old(self).pinned@.insert(node_id@),
            !pinned ==> final(self).pinned@ == old(self).pinned@.remove(node_id@),
            final(self).history == old(self).history,
            final(self).display == old(self).display,
            final(self).fit_requested == old(self).fit_requested,
            same_data(*final(self), *old(self)),
    {
        let id = owned(node_id);
        if self.pinned.contains(&id) {
            self.pinned.remove(&id);
            false
        } else {
            self.pinned.insert(id);
            true
        }
    }

    /// Lets all nodes go.
    pub fn clear_pins(&mut self) -> (e: ViewEffect)
        requires
            old(self).wf(),
        ensures
            final(self).wf(),
            final(self).pinned@ == Set::<Seq<char>>::empty(),
            final(self).fit_requested,
            final(self).history == old(self).history,
            final(self).display == old(self).display,
            same_data(*final(self), *old(self)),
            e == (ViewEffect { clear_offsets: true, keep_view: true, ..ViewEffect::none() }),
    {
        self.pinned = TextSet::new();
        self.fit_requested = true;
        ViewEffect {
            reset_camera: false,
            clear_offsets: true,
            drop_caches: false,
            keep_view: true,
            refresh: false,
        }
    }

    /// Files are a view of code only: elsewhere the view of types stands in for it.
    pub fn normalize_view(&mut self)
        ensures
            final(self).display == (ViewerDisplay {
                view_mode: if old(self).display.domain != GraphDomain::Code && old(
                    self,
                ).display.view_mode == GraphViewMode::Files {
                    GraphViewMode::Types
                } else {
                    old(self).display.view_mode
                },
                ..old(self).display
            }),
            final(self).history == old(self).history,
            final(self).pinned == old(self).pinned,
            final(self).fit_requested == old(self).fit_requested,
            same_data(*final(self), *old(self)),
    {
        if self.display.domain != GraphDomain::Code && self.display.view_mode
            == GraphViewMode::Files {
            self.display.view_mode = GraphViewMode::Types;
        }
    }

    /// What follows where the user has chosen another domain or view than before.
    pub fn view_chosen(&mut self, previous_domain: GraphDomain, previous_view: GraphViewMode) -> (e:
        ViewEffect)
        requires
            old(self).wf(),
        ensures
            final(self).wf(),
            old(self).display.domain == previous_domain && old(self).display.view_mode
                == previous_view ==> *final(self) == *old(self) && e == ViewEffect::none(),
            old(self).display.domain != previous_domain || old(self).display.view_mode
                != previous_view ==> {
                &&& final(self).history@ == HistoryView::start()
                &&& final(self).pinned@ == Set::<Seq<char>>::empty()
                &&& final(self).fit_requested
                &&& final(self).display == (ViewerDisplay {
                    expanded_cluster: None,
                    ..old(self).display
                })
                &&& same_data(*final(self), *old(self))
                &&& e == (ViewEffect {
                    clear_offsets: true,
                    drop_caches: true,
                    ..ViewEffect::none()
                })
            },
    {
        if self.display.domain != previous_domain || self.display.view_mode != previous_view {
            self.start_over();
            self.display.expanded_cluster = None;
            ViewEffect {
                reset_camera: false,
                clear_offsets: true,
                drop_caches: true,
                keep_view: false,
                refresh: false,
            }
        } else {
            ViewEffect {
                reset_camera: false,
                clear_offsets: false,
                drop_caches: false,
                keep_view: false,
                refresh: false,
            }
        }
    }

    /// Clears all filters and puts the view back to the whole graph.
    pub fn reset_filters(&mut self) -> (e: ViewEffect)
        requires
            old(self).wf(),
        ensures
            final(self).wf(),
            final(self).filters.kind@.len() == 0,
            final(self).filters.query@.len() == 0,
            final(self).filters.node_filter@.len() == 0,
            final(self).filters.relation_filter@.len() == 0,
            final(self).filters.code_kind_filter@.len() == 0,
            final(self).filters.code_file_filter@.len() == 0,
            !final(self).filters.active(),
            final(self).filters.status == MemoryStatusChoice::Active,
            final(self).filters.limit == old(self).filters.limit,
            final(self).history@ == old(self).history@.selecting(SelectionView::Overview),
            final(self).pinned == old(self).pinned,
            final(self).fit_requested,
            final(self).display == (ViewerDisplay { expanded_cluster: None, ..old(self).display }),
            final(self).project_id == old(self).project_id,
            final(self).data == old(self).data,
            final(self).notes == old(self).notes,
            final(self).data_revision == old(self).data_revision,
            e == (ViewEffect { reset_camera: true, refresh: true, ..ViewEffect::none() }),
    {
        self.filters = ViewerFilters {
            status: MemoryStatusChoice::Active,
            kind: String::new(),
            query: String::new(),
            node_filter: String::new(),
            relation_filter: String::new(),
            code_kind_filter: String::new(),
            code_file_filter: String::new(),
            limit: self.filters.limit,
        };
        let _ = self.center_selection();
        ViewEffect {
            reset_camera: true,
            clear_offsets: false,
            drop_caches: false,
            keep_view: false,
            refresh: true,
        }
    }
}

impl ViewerFilters {
    /// Whether anything is searched or filtered by.
    pub open spec fn active(&self) -> bool {
        ||| text::trimmed(self.query@).len() > 0
        ||| text::trimmed(self.node_filter@).len() > 0
        ||| text::trimmed(self.relation_filter@).len() > 0
        ||| text::trimmed(self.kind@).len() > 0
        ||| text::trimmed(self.code_kind_filter@).len() > 0
        ||| text::trimmed(self.code_file_filter@).len() > 0
    }

    /// Whether anything is searched or filtered by.
    pub fn any_active(&self) -> (r: bool)
        ensures
            r == self.active(),
    {
        !is_blank(self.query.as_str()) || !is_blank(self.node_filter.as_str()) || !is_blank(
            self.relation_filter.as_str(),
        ) || !is_blank(self.kind.as_str()) || !is_blank(self.code_kind_filter.as_str())
            || !is_blank(self.code_file_filter.as_str())
    }
}

/// What a field holds, where it is more than white space.
pub open spec fn filled(field: Seq<char>) -> Option<Seq<char>> {
    if text::trimmed(field).len() == 0 {
        None
    } else {
        Some(text::trimmed(field))
    }
}

/// What a field holds, where it is more than white space.
fn field_value(field: &str) -> (r: Option<String>)
    ensures
        text::opt_text(r) == filled(field@),
{
    let value = trim(field);
    if value.as_str().is_empty() {
        None
    } else {
        Some(value)
    }
}

impl ViewerFilters {
    /// The kind of memories wanted.
    pub fn normalized_kind(&self) -> (r: Option<String>)
        ensures
            text::opt_text(r) == filled(self.kind@),
    {
        field_value(self.kind.as_str())
    }

    /// The kind of symbols wanted.
    pub fn normalized_code_kind(&self) -> (r: Option<String>)
        ensures
            text::opt_text(r) == filled(self.code_kind_filter@),
    {
        field_value(self.code_kind_filter.as_str())
    }

    /// The words wanted in the path of a symbol's file, in small letters.
    pub open spec fn file_words(&self) -> Option<Seq<char>> {
        match filled(self.code_file_filter@) {
            Some(words) => Some(text::lowered(words)),
            None => None,
        }
    }

    /// The words wanted in the path of a symbol's file, in small letters.
    pub fn normalized_code_file(&self) -> (r: Option<String>)
        ensures
            text::opt_text(r) == self.file_words(),
    {
        match field_value(self.code_file_filter.as_str()) {
            Some(words) => Some(lowercase(words.as_str())),
            None => None,
        }
    }

    /// Whether a symbol passes the filters on code; with a query, its kind was searched for.
    pub open spec fn admits(&self, symbol: CodeSymbol) -> bool {
        &&& text::trimmed(self.query@).len() == 0 ==> (filled(self.code_kind_filter@) matches Some(
            kind,
        ) ==> symbol.kind@ == kind)
        &&& self.file_words() matches Some(words) ==> text::occurs_in(
            words,
            text::lowered(symbol.file_path@),
        )
    }

    /// Whether a symbol passes the filters on code.
    pub fn admits_symbol(&self, symbol: &CodeSymbol) -> (r: bool)
        ensures
            r == self.admits(*symbol),
    {
        if is_blank(self.query.as_str()) {
            if let Some(kind) = self.normalized_code_kind() {
                if symbol.kind != kind {
                    return false;
                }
            }
        }
        if let Some(words) = self.normalized_code_file() {
            let path = lowercase(symbol.file_path.as_str());
            return contains_text(path.as_str(), words.as_str());
        }
        true
    }

    /// The symbols that pass the filters on code.
    pub open spec fn admitted(&self) -> spec_fn(CodeSymbol) -> bool {
        |s: CodeSymbol| self.admits(s)
    }

    /// Keeps the symbols that pass the filters on code.
    pub fn apply_code_filters(&self, symbols: Vec<CodeSymbol>) -> (r: Vec<CodeSymbol>)
        ensures
            r@ == symbols@.filter(self.admitted()),
    {
        let ghost all = symbols@;
        let ghost p = self.admitted();
        let mut r: Vec<CodeSymbol> = Vec::new();
        proof {
            reveal(Seq::filter);
            assert(all.take(0) =~= Seq::<CodeSymbol>::empty());
        }
        for symbol in it: symbols.into_iter()
            invariant
                it.seq() == all,
                p == self.admitted(),
                r@ == all.take(it.index()).filter(p),
        {
            proof {
                let i = it.index();
                all.take(i).lemma_filter_push(all[i], p);
                assert(all.take(i + 1) =~= all.take(i).push(all[i]));
            }
            if self.admits_symbol(&symbol) {
                r.push(symbol);
            }
        }
        assert(all.take(all.len() as int) =~= all);
        r
    }
}

impl ViewerData {
    /// Nothing is loaded.
    pub open spec fn is_empty(&self) -> bool {
        &&& self.memories@.len() == 0
        &&& self.graph.entities@.len() == 0
        &&& self.graph.facts@.len() == 0
        &&& self.graph.edges@.len() == 0
        &&& self.code_symbols@.len() == 0
        &&& self.code_relations@.len() == 0
    }

    /// Nothing loaded.
    pub fn new() -> (r: Self)
        ensures
            r.is_empty(),
    {
        ViewerData {
            memories: Vec::new(),
            graph: empty_graph(),
            code_symbols: Vec::new(),
            code_relations: Vec::new(),
        }
    }
}

impl ViewerNotes {
    /// Nothing is told.
    pub open spec fn is_clear(&self) -> bool {
        &&& self.error is None
        &&& self.graph_note is None
        &&& self.code_note is None
        &&& self.last_refresh@.len() == 0
    }

    /// Nothing told.
    pub fn new() -> (r: Self)
        ensures
            r.is_clear(),
    {
        ViewerNotes {
            error: None,
            graph_note: None,
            code_note: None,
            last_refresh: String::new(),
        }
    }
}

// ---------------------------------------------------------------------------
// The graph shown
// ---------------------------------------------------------------------------

/// The graph behind the open cluster, where one is open and has a graph.
pub open spec fn cluster_model(data: ViewerData, display: ViewerDisplay) -> Option<ModelView> {
    match display.expanded_cluster {
        Some(id) => match display.domain {
            GraphDomain::Memory => drilldown::memory_cluster_drilldown(
                data.memories@,
                data.graph,
                id@,
            ),
            GraphDomain::Code => drilldown::code_cluster_drilldown(
                data.code_symbols@,
                data.code_relations@,
                id@,
            ),
            GraphDomain::Bridge => drilldown::bridge_cluster_drilldown(
                data.memories@,
                data.graph,
                data.code_symbols@,
                id@,
            ),
        },
        None => None,
    }
}

/// A graph, or another where there is none.
pub open spec fn model_or(model: Option<ModelView>, other: ModelView) -> ModelView {
    match model {
        Some(m) => m,
        None => other,
    }
}

/// The graph of a domain and a view, before anything is filtered.
pub open spec fn base_model(data: ViewerData, display: ViewerDisplay) -> ModelView {
    let memories = data.memories@;
    let symbols = data.code_symbols@;
    let relations = data.code_relations@;
    match display.view_mode {
        GraphViewMode::Overview => overview::overview_model(
            memories,
            data.graph,
            symbols,
            relations,
        ),
        GraphViewMode::Entities => match display.domain {
            GraphDomain::Memory => memory_graph::relationship_model(memories, data.graph),
            GraphDomain::Code => code_graph::code_symbol_model(symbols, relations),
            GraphDomain::Bridge => bridge::bridge_model(memories, data.graph, symbols),
        },
        GraphViewMode::Types => match display.domain {
            GraphDomain::Memory => memory_graph::type_model(data.graph),
            GraphDomain::Code => code_graph::code_group_model(
                CodeGrouping::Kind,
                symbols,
                relations,
            ),
            GraphDomain::Bridge => bridge::bridge_model(memories, data.graph, symbols),
        },
        GraphViewMode::Clusters => model_or(
            cluster_model(data, display),
            match display.domain {
                GraphDomain::Memory => memory_graph::memory_cluster_model(data.graph),
                GraphDomain::Code => code_graph::code_group_model(
                    CodeGrouping::Directory,
                    symbols,
                    relations,
                ),
                GraphDomain::Bridge => bridge::bridge_cluster_model(memories, data.graph, symbols),
            },
        ),
        GraphViewMode::Files => match display.domain {
            GraphDomain::Memory => memory_graph::type_model(data.graph),
            GraphDomain::Code => code_graph::code_group_model(
                CodeGrouping::File,
                symbols,
                relations,
            ),
            GraphDomain::Bridge => bridge::bridge_model(memories, data.graph, symbols),
        },
    }
}

impl ViewerState {
    /// Whether facts are shown: where they are switched on, and in the overview, whose nodes are
    /// the areas of the project.
    pub open spec fn facts_shown(&self) -> bool {
        self.display.show_facts || self.display.view_mode == GraphViewMode::Overview
    }

    /// Whether memories and what rests on them are shown: where they are switched on, in the
    /// overview, whose nodes are the areas of the project, and between memories and code, where
    /// a memory is one end of what is shown. The switch holds where memories only stand behind
    /// entities, as their evidence.
    pub open spec fn evidence_shown(&self) -> bool {
        self.display.show_evidence || self.display.view_mode == GraphViewMode::Overview
            || self.display.domain == GraphDomain::Bridge
    }

    /// What is filtered by.
    pub open spec fn filter_view(&self, selection: SelectionView) -> filter::FilterView {
        filter::FilterView {
            selection,
            show_facts: self.facts_shown(),
            show_evidence: self.evidence_shown(),
            focus_selected: self.display.focus_selected,
            max_visible_nodes: self.display.max_visible_nodes as int,
            node_filter: self.filters.node_filter@,
            relation_filter: self.filters.relation_filter@,
        }
    }

    /// The graph shown under a selection.
    pub open spec fn shown(&self, selection: SelectionView) -> ModelView {
        filter::filtered(base_model(self.data, self.display), self.filter_view(selection))
    }

    /// The graph behind the open cluster.
    fn expanded_cluster_model(&self) -> (r: Option<GraphModel>)
        ensures
            filter::opt_model(r) == cluster_model(self.data, self.display),
    {
        match &self.display.expanded_cluster {
            Some(id) => match self.display.domain {
                GraphDomain::Memory => build_memory_cluster_drilldown_model(
                    self.data.memories.as_slice(),
                    &self.data.graph,
                    id.as_str(),
                ),
                GraphDomain::Code => build_code_cluster_drilldown_model(
                    self.data.code_symbols.as_slice(),
                    self.data.code_relations.as_slice(),
                    id.as_str(),
                ),
                GraphDomain::Bridge => build_bridge_cluster_drilldown_model(
                    self.data.memories.as_slice(),
                    &self.data.graph,
                    self.data.code_symbols.as_slice(),
                    id.as_str(),
                ),
            },
            None => None,
        }
    }

    /// The graph of the domain and the view, before anything is filtered.
    fn unfiltered_model(&self) -> (r: GraphModel)
        ensures
            r@ == base_model(self.data, self.display),
    {
        let memories = self.data.memories.as_slice();
        let graph = &self.data.graph;
        let symbols = self.data.code_symbols.as_slice();
        let relations = self.data.code_relations.as_slice();
        match self.display.view_mode {
            GraphViewMode::Overview => build_project_overview_model(
                memories,
                graph,
                symbols,
                relations,
            ),
            GraphViewMode::Entities => match self.display.domain {
                GraphDomain::Memory => build_relationship_model(memories, graph),
                GraphDomain::Code => build_code_symbol_model(symbols, relations),
                GraphDomain::Bridge => build_bridge_model(memories, graph, symbols),
            },
            GraphViewMode::Types => match self.display.domain {
                GraphDomain::Memory => build_type_model(graph),
                GraphDomain::Code => build_code_kind_model(symbols, relations),
                GraphDomain::Bridge => build_bridge_model(memories, graph, symbols),
            },
            GraphViewMode::Clusters => match self.expanded_cluster_model() {
                Some(model) => model,
                None => match self.display.domain {
                    GraphDomain::Memory => build_memory_cluster_model(graph),
                    GraphDomain::Code => build_code_directory_model(symbols, relations),
                    GraphDomain::Bridge => build_bridge_cluster_model(memories, graph, symbols),
                },
            },
            GraphViewMode::Files => match self.display.domain {
                GraphDomain::Memory => build_type_model(graph),
                GraphDomain::Code => build_code_file_model(symbols, relations),
                GraphDomain::Bridge => build_bridge_model(memories, graph, symbols),
            },
        }
    }

    /// The graph shown.
    pub fn relationship_model(&self) -> (r: GraphModel)
        requires
            self.wf(),
        ensures
            r@ == self.shown(self.history@.selected),
    {
        let model = self.unfiltered_model();
        let overview: bool = self.display.view_mode == GraphViewMode::Overview;
        let bridge: bool = self.display.domain == GraphDomain::Bridge;
        let options = RelationshipFilterOptions {
            selection: &self.history.selected,
            show_facts: self.display.show_facts || overview,
            show_evidence: self.display.show_evidence || overview || bridge,
            focus_selected: self.display.focus_selected,
            max_visible_nodes: self.display.max_visible_nodes,
            node_filter: self.filters.node_filter.as_str(),
            relation_filter: self.filters.relation_filter.as_str(),
        };
        filter_relationship_model(&model, &options)
    }

    /// The graph shown, after a selection of something that is not in it has been dropped.
    pub fn validated_model(&mut self) -> (r: GraphModel)
        requires
            old(self).wf(),
        ensures
            final(self).wf(),
            final(self).history@ == (HistoryView {
                selected: if old(self).shown(old(self).history@.selected).has_selection(
                    old(self).history@.selected,
                ) {
                    old(self).history@.selected
                } else {
                    SelectionView::Overview
                },
                ..old(self).history@
            }),
            final(self).display == old(self).display,
            final(self).pinned == old(self).pinned,
            final(self).fit_requested == old(self).fit_requested,
            same_data(*final(self), *old(self)),
            r@ == final(self).shown(final(self).history@.selected),
            r@.has_selection(final(self).history@.selected),
    {
        let model = self.relationship_model();
        if model.contains_selection(&self.history.selected) {
            model
        } else {
            self.history.selected = GraphSelection::Overview;
            self.relationship_model()
        }
    }
}

/// Whatever the state, the graph shown is within its limits, and each of its edges joins two
/// nodes of it.
pub proof fn shown_graph_is_whole(state: ViewerState, selection: SelectionView)
    ensures
        state.shown(selection).closed(),
        state.shown(selection).nodes.len() <= 250,
        state.shown(selection).edges.len() <= 700,
{
    crate::filter_laws::shown_graph_is_closed_part(
        base_model(state.data, state.display),
        state.filter_view(selection),
    );
}

/// The overview shows all areas of the project, whatever is switched off: with blank filters and
/// nothing selected the graph shown is the whole overview. It has the area of memories exactly
/// where there are memories, and so for entities, facts, relations and code.
pub proof fn overview_shows_its_areas(state: ViewerState)
    requires
        state.display.view_mode == GraphViewMode::Overview,
        text::trimmed(state.filters.node_filter@).len() == 0,
        text::trimmed(state.filters.relation_filter@).len() == 0,
    ensures
        ({
            let shown = state.shown(SelectionView::Overview);
            &&& shown == base_model(state.data, state.display)
            &&& shown.has_node("overview:memory"@) <==> state.data.memories@.len() > 0
            &&& shown.has_node("overview:entities"@) <==> state.data.graph.entities@.len() > 0
            &&& shown.has_node("overview:facts"@) <==> state.data.graph.facts@.len() > 0
            &&& shown.has_node("overview:relations"@) <==> state.data.graph.edges@.len() > 0
            &&& shown.has_node("overview:code"@) <==> state.data.code_symbols@.len() > 0
            &&& shown.has_node("overview:files"@) <==> state.data.code_symbols@.len() > 0
        }),
{
    let memories = state.data.memories@;
    let symbols = state.data.code_symbols@;
    let relations = state.data.code_relations@;
    crate::overview_laws::overview_is_whole(memories, state.data.graph, symbols, relations);
    crate::overview_laws::overview_has_its_areas(memories, state.data.graph, symbols, relations);
    crate::filter_laws::what_is_small_is_shown_whole(
        base_model(state.data, state.display),
        state.filter_view(SelectionView::Overview),
    );
}

/// Between memories and code, every memory is shown, whatever is switched off: with blank filters
/// and nothing selected, where the limit on nodes leaves none out. Where the limit on edges leaves
/// none out either, every edge is shown that joins two of the nodes, but for facts that are
/// switched off.
pub proof fn bridge_shows_its_memories(state: ViewerState)
    requires
        state.display.domain == GraphDomain::Bridge,
        state.display.view_mode != GraphViewMode::Overview,
        state.display.view_mode != GraphViewMode::Clusters,
        text::trimmed(state.filters.node_filter@).len() == 0,
        text::trimmed(state.filters.relation_filter@).len() == 0,
        base_model(state.data, state.display).nodes.len() <= filter::node_limit(
            state.display.max_visible_nodes as int,
        ),
    ensures
        ({
            let base = base_model(state.data, state.display);
            let shown = state.shown(SelectionView::Overview);
            &&& shown.nodes == base.nodes
            &&& forall|i: int|
                0 <= i < state.data.memories@.len() ==> shown.has_node(
                    "memory:"@ + (#[trigger] state.data.memories@[i]).id@,
                )
            &&& base.edges.len() <= filter::edge_limit(
                state.display.max_visible_nodes as int,
            ) ==> forall|i: int|
                0 <= i < base.edges.len() && base.has_node((#[trigger] base.edges[i]).from)
                    && base.has_node(base.edges[i].to) && (state.display.show_facts
                    || base.edges[i].kind != GraphEdgeKind::Fact) ==> shown.edges.contains(
                    base.edges[i],
                )
        }),
{
    let memories = state.data.memories@;
    let symbols = state.data.code_symbols@;
    let base = base_model(state.data, state.display);
    let shown = state.shown(SelectionView::Overview);
    crate::model_laws::bridge_model_is_whole(memories, state.data.graph, symbols);
    crate::model_laws::bridge_has_no_fact_nodes(memories, state.data.graph, symbols);
    crate::filter_laws::nodes_of_shown_kinds_stay(
        base,
        state.filter_view(SelectionView::Overview),
    );
    assert forall|i: int| 0 <= i < memories.len() implies shown.has_node(
        "memory:"@ + (#[trigger] memories[i]).id@,
    ) by {
        assert(base.has_node("memory:"@ + memories[i].id@));
        let k = choose|k: int|
            0 <= k < base.nodes.len() && (#[trigger] base.nodes[k]).id == "memory:"@
                + memories[i].id@;
        assert(shown.nodes[k].id == base.nodes[k].id);
    }
    let ep = filter::shown_edge(state.display.show_facts, true, filter::ids_of(base.nodes));
    assert forall|i: int|
        0 <= i < base.edges.len() && base.has_node((#[trigger] base.edges[i]).from)
            && base.has_node(base.edges[i].to) && (state.display.show_facts || base.edges[i].kind
            != GraphEdgeKind::Fact) implies base.edges.filter(ep).contains(base.edges[i]) by {
        crate::filter_laws::nodes_are_among_their_ids(base, base.edges[i].from);
        crate::filter_laws::nodes_are_among_their_ids(base, base.edges[i].to);
        base.edges.lemma_filter_contains(ep, i);
    }
}

} // verus!
