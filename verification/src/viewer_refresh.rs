//! How the viewer loads a project: what it asks for, and what it makes of each answer.
use vstd::prelude::*;
use crate::overview::{GraphDomain, GraphViewMode};
use crate::order::TextSet;
use crate::records::{empty_graph, CodeRelation, CodeSymbol, Memory, MemoryGraph, StatusFilter};
use crate::text::{cat2, cat4, decimal, trim};
use crate::viewer::{
    HistoryView, SelectionHistory, ViewEffect, ViewerData, ViewerDisplay, ViewerNotes, ViewerState,
};
use crate::{filter, order, text, viewer};

verus! {

// ---------------------------------------------------------------------------
// Loading
// ---------------------------------------------------------------------------

/// What memories are asked for.
#[derive(Debug)]
pub enum MemoryRequest {
    List { limit: usize, status: StatusFilter, kind: Option<String> },
    Search { query: String, limit: usize, status: StatusFilter, kind: Option<String> },
}

/// What symbols are asked for.
#[derive(Debug)]
pub enum CodeRequest {
    All,
    Search { query: String, limit: usize, kind: Option<String> },
}

/// Symbols that were found, and whose relations are asked for.
#[derive(Debug)]
pub struct CodeGraphRequest {
    pub symbols: Vec<CodeSymbol>,
    pub seed_ids: Vec<String>,
    pub limit: usize,
}

/// How many symbols are loaded at most.
pub open spec fn code_limit(limit: usize) -> int {
    filter::clamped(limit as int, 1, 500)
}

/// A note with what went wrong.
pub open spec fn note_of(words: Seq<char>, error: Seq<char>) -> Seq<char> {
    words + error
}

/// The first symbols of a list, no more than the limit.
pub open spec fn first_symbols(symbols: Seq<CodeSymbol>, limit: int) -> Seq<CodeSymbol> {
    if symbols.len() <= limit {
        symbols
    } else {
        symbols.take(limit)
    }
}

/// The symbols that the viewer keeps of those found.
pub open spec fn kept_symbols(state: ViewerState, symbols: Seq<CodeSymbol>) -> Seq<CodeSymbol> {
    first_symbols(symbols.filter(state.filters.admitted()), code_limit(state.filters.limit))
}

/// What the state keeps while data is loaded.
pub open spec fn same_view(a: ViewerState, b: ViewerState) -> bool {
    &&& a.project_id == b.project_id
    &&& a.history == b.history
    &&& a.filters == b.filters
    &&& a.display == b.display
    &&& a.pinned == b.pinned
    &&& a.fit_requested == b.fit_requested
}

/// A number moved into the range of one to five hundred.
fn clamp_limit(limit: usize) -> (r: usize)
    ensures
        r == code_limit(limit),
{
    if limit < 1 {
        1
    } else if limit > 500 {
        500
    } else {
        limit
    }
}

impl ViewerState {
    /// The memories to ask for: all of a status and kind, or those that a query finds.
    pub fn memory_request(&self) -> (r: MemoryRequest)
        ensures
            text::trimmed(self.filters.query@).len() == 0 ==> (r matches MemoryRequest::List {
                limit,
                status,
                kind,
            } && limit == self.filters.limit && status == self.filters.status.admitted()
                && text::opt_text(kind) == viewer::filled(self.filters.kind@)),
            text::trimmed(self.filters.query@).len() > 0 ==> (r matches MemoryRequest::Search {
                query,
                limit,
                status,
                kind,
            } && query@ == text::trimmed(self.filters.query@) && limit == self.filters.limit
                && status == self.filters.status.admitted() && text::opt_text(kind)
                == viewer::filled(self.filters.kind@)),
    {
        let kind = self.filters.normalized_kind();
        let status = self.filters.status.filter();
        let query = trim(self.filters.query.as_str());
        if query.as_str().is_empty() {
            MemoryRequest::List { limit: self.filters.limit, status, kind }
        } else {
            MemoryRequest::Search { query, limit: self.filters.limit, status, kind }
        }
    }

    /// Takes the memories, or the error that ends the loading; the rest of the data stays.
    pub fn accept_memories(&mut self, result: Result<Vec<Memory>, String>) -> (go_on: bool)
        ensures
            go_on == (result is Ok),
            same_view(*final(self), *old(self)),
            final(self).data_revision == old(self).data_revision,
            result matches Ok(memories) ==> final(self).data == (ViewerData {
                memories,
                ..old(self).data
            }) && final(self).notes == (ViewerNotes { error: None, ..old(self).notes }),
            result matches Err(error) ==> final(self).data == old(self).data
                && final(self).notes == (ViewerNotes { error: Some(error), ..old(self).notes }),
    {
        match result {
            Ok(memories) => {
                self.data.memories = memories;
                self.notes.error = None;
                true
            },
            Err(error) => {
                self.notes.error = Some(error);
                false
            },
        }
    }

    /// The query for the memory graph, with its limit.
    pub fn graph_request(&self) -> (r: (String, usize))
        ensures
            r.0@ == text::trimmed(self.filters.query@),
            r.1 == self.filters.limit,
    {
        (trim(self.filters.query.as_str()), self.filters.limit)
    }

    /// Takes the memory graph; without one, an empty graph and a note stand in.
    pub fn accept_graph(&mut self, result: Result<MemoryGraph, String>)
        ensures
            same_view(*final(self), *old(self)),
            final(self).data_revision == old(self).data_revision,
            final(self).data.memories == old(self).data.memories,
            final(self).data.code_symbols == old(self).data.code_symbols,
            final(self).data.code_relations == old(self).data.code_relations,
            final(self).notes.error == old(self).notes.error,
            final(self).notes.code_note == old(self).notes.code_note,
            final(self).notes.last_refresh == old(self).notes.last_refresh,
            result matches Ok(graph) ==> final(self).data.graph == graph
                && final(self).notes.graph_note is None,
            result matches Err(error) ==> {
                &&& final(self).data.graph.entities@.len() == 0
                &&& final(self).data.graph.facts@.len() == 0
                &&& final(self).data.graph.edges@.len() == 0
                &&& text::opt_text(final(self).notes.graph_note) == Some(
                    note_of("графовые связи не загрузились: "@, error@),
                )
            },
    {
        match result {
            Ok(graph) => {
                self.data.graph = graph;
                self.notes.graph_note = None;
            },
            Err(error) => {
                self.data.graph = empty_graph();
                self.notes.graph_note = Some(
                    cat2("графовые связи не загрузились: ", error.as_str()),
                );
            },
        }
    }

    /// The symbols to ask for: all, or those that a query finds.
    pub fn code_request(&self) -> (r: CodeRequest)
        ensures
            text::trimmed(self.filters.query@).len() == 0 ==> r is All,
            text::trimmed(self.filters.query@).len() > 0 ==> (r matches CodeRequest::Search {
                query,
                limit,
                kind,
            } && query@ == text::trimmed(self.filters.query@) && limit == code_limit(
                self.filters.limit,
            ) && text::opt_text(kind) == viewer::filled(self.filters.code_kind_filter@)),
    {
        let query = trim(self.filters.query.as_str());
        if query.as_str().is_empty() {
            CodeRequest::All
        } else {
            CodeRequest::Search {
                query,
                limit: clamp_limit(self.filters.limit),
                kind: self.filters.normalized_code_kind(),
            }
        }
    }

    /// Takes the symbols and says whose relations to ask for; without any, the code is dropped
    /// and a note stands in.
    pub fn accept_code_symbols(&mut self, result: Result<Vec<CodeSymbol>, String>) -> (r: Option<
        CodeGraphRequest,
    >)
        ensures
            same_view(*final(self), *old(self)),
            final(self).data_revision == old(self).data_revision,
            r is Some <==> result is Ok,
            result matches Ok(symbols) ==> {
                &&& final(self).data == old(self).data
                &&& final(self).notes == old(self).notes
                &&& r->0.symbols@ == kept_symbols(*old(self), symbols@)
                &&& text::texts(r->0.seed_ids@) == r->0.symbols@.map_values(
                    |s: CodeSymbol| s.id@,
                )
                &&& r->0.limit == code_limit(old(self).filters.limit)
            },
            result matches Err(error) ==> {
                &&& final(self).data.memories == old(self).data.memories
                &&& final(self).data.graph == old(self).data.graph
                &&& final(self).data.code_symbols@.len() == 0
                &&& final(self).data.code_relations@.len() == 0
                &&& final(self).notes.error == old(self).notes.error
                &&& final(self).notes.graph_note == old(self).notes.graph_note
                &&& final(self).notes.last_refresh == old(self).notes.last_refresh
                &&& text::opt_text(final(self).notes.code_note) == Some(
                    note_of("граф кода не загрузился: "@, error@),
                )
            },
    {
        match result {
            Ok(all) => {
                let mut symbols = self.filters.apply_code_filters(all);
                let limit = clamp_limit(self.filters.limit);
                let ghost filtered = symbols@;
                symbols.truncate(limit);
                assert(symbols@ =~= first_symbols(filtered, limit as int));
                let mut seed_ids: Vec<String> = Vec::new();
                let mut i: usize = 0;
                while i < symbols.len()
                    invariant
                        i <= symbols.len(),
                        seed_ids.len() == i,
                        forall|j: int| 0 <= j < i ==> (#[trigger] seed_ids@[j])@ == symbols@[j].id@,
                    decreases symbols.len() - i,
                {
                    seed_ids.push(symbols[i].id.clone());
                    i += 1;
                }
                assert(text::texts(seed_ids@) =~= symbols@.map_values(|s: CodeSymbol| s.id@));
                Some(CodeGraphRequest { symbols, seed_ids, limit })
            },
            Err(error) => {
                self.data.code_symbols = Vec::new();
                self.data.code_relations = Vec::new();
                self.notes.code_note = Some(cat2("граф кода не загрузился: ", error.as_str()));
                None
            },
        }
    }

    /// Takes the relations of the symbols that were found. The symbols that come with them are
    /// shown, or those found where none come; without relations a note stands in.
    pub fn accept_code_graph(
        &mut self,
        symbols: Vec<CodeSymbol>,
        result: Result<(Vec<CodeSymbol>, Vec<CodeRelation>), String>,
    )
        ensures
            same_view(*final(self), *old(self)),
            final(self).data_revision == old(self).data_revision,
            final(self).data.memories == old(self).data.memories,
            final(self).data.graph == old(self).data.graph,
            final(self).notes.error == old(self).notes.error,
            final(self).notes.graph_note == old(self).notes.graph_note,
            final(self).notes.last_refresh == old(self).notes.last_refresh,
            result matches Ok(found) ==> {
                &&& final(self).data.code_symbols == (if found.0@.len() == 0 {
                    symbols
                } else {
                    found.0
                })
                &&& final(self).data.code_relations == found.1
                &&& final(self).notes.code_note is None
            },
            result matches Err(error) ==> {
                &&& final(self).data.code_symbols == symbols
                &&& final(self).data.code_relations@.len() == 0
                &&& text::opt_text(final(self).notes.code_note) == Some(
                    note_of("связи кода не загрузились: "@, error@),
                )
            },
    {
        match result {
            Ok((related, relations)) => {
                self.data.code_symbols = if related.len() == 0 {
                    symbols
                } else {
                    related
                };
                self.data.code_relations = relations;
                self.notes.code_note = None;
            },
            Err(error) => {
                self.data.code_symbols = symbols;
                self.data.code_relations = Vec::new();
                self.notes.code_note = Some(cat2("связи кода не загрузились: ", error.as_str()));
            },
        }
    }

    /// Ends the loading: says how much was loaded, takes an error of the project's status, and
    /// counts one more revision of the data.
    pub fn finish_refresh(&mut self, status_error: Option<String>) -> (e: ViewEffect)
        ensures
            same_view(*final(self), *old(self)),
            final(self).data == old(self).data,
            final(self).notes.last_refresh@ == "память "@ + text::decimal_text(
                old(self).data.memories@.len(),
            ) + ", код "@ + text::decimal_text(old(self).data.code_symbols@.len()),
            final(self).notes.error == (if status_error is Some {
                status_error
            } else {
                old(self).notes.error
            }),
            final(self).notes.graph_note == old(self).notes.graph_note,
            final(self).notes.code_note == old(self).notes.code_note,
            final(self).data_revision == (if old(self).data_revision == u64::MAX {
                0
            } else {
                old(self).data_revision + 1
            }),
            e == (ViewEffect { drop_caches: true, ..ViewEffect::none() }),
    {
        let memories = decimal(self.data.memories.len() as u64);
        let symbols = decimal(self.data.code_symbols.len() as u64);
        self.notes.last_refresh = cat4("память ", memories.as_str(), ", код ", symbols.as_str());
        if status_error.is_some() {
            self.notes.error = status_error;
        }
        self.data_revision = self.data_revision.wrapping_add(1);
        ViewEffect {
            reset_camera: false,
            clear_offsets: false,
            drop_caches: true,
            keep_view: false,
            refresh: false,
        }
    }
}

// ---------------------------------------------------------------------------
// Saved views
// ---------------------------------------------------------------------------

/// How a project was last viewed.
#[derive(Debug)]
pub struct SavedView {
    pub pinned_nodes: Vec<String>,
    pub domain: GraphDomain,
    pub view_mode: GraphViewMode,
    pub show_facts: bool,
    pub show_evidence: bool,
    pub focus_selected: bool,
    pub max_visible_nodes: usize,
    pub expanded_cluster: Option<String>,
}

/// How the viewer was last set.
#[derive(Debug)]
pub struct ViewerSettings {
    pub node_filter: String,
    pub relation_filter: String,
    pub code_kind_filter: String,
    pub code_file_filter: String,
    pub domain: GraphDomain,
    pub view_mode: GraphViewMode,
    pub show_facts: bool,
    pub show_evidence: bool,
    pub focus_selected: bool,
    pub max_visible_nodes: usize,
}

/// What a saved view makes of the display.
pub open spec fn restored_display(saved: SavedView) -> ViewerDisplay {
    ViewerDisplay {
        domain: saved.domain,
        view_mode: saved.view_mode,
        expanded_cluster: saved.expanded_cluster,
        show_facts: saved.show_facts,
        show_evidence: saved.show_evidence,
        focus_selected: saved.focus_selected,
        max_visible_nodes: filter::node_limit(saved.max_visible_nodes as int) as usize,
    }
}

/// A number moved into the range of twenty to two hundred and fifty.
fn clamp_nodes(n: usize) -> (r: usize)
    ensures
        r == filter::node_limit(n as int),
{
    if n < 20 {
        20
    } else if n > 250 {
        250
    } else {
        n
    }
}

impl ViewerState {
    /// How the project is viewed now.
    pub fn saved_view(&self) -> (r: SavedView)
        requires
            self.wf(),
        ensures
            order::texts_ascend(text::texts(r.pinned_nodes@)),
            text::texts(r.pinned_nodes@).to_set() == self.pinned@,
            r.domain == self.display.domain,
            r.view_mode == self.display.view_mode,
            r.show_facts == self.display.show_facts,
            r.show_evidence == self.display.show_evidence,
            r.focus_selected == self.display.focus_selected,
            r.max_visible_nodes == self.display.max_visible_nodes,
            r.expanded_cluster == self.display.expanded_cluster,
    {
        SavedView {
            pinned_nodes: self.pinned.to_list(),
            domain: self.display.domain,
            view_mode: self.display.view_mode,
            show_facts: self.display.show_facts,
            show_evidence: self.display.show_evidence,
            focus_selected: self.display.focus_selected,
            max_visible_nodes: self.display.max_visible_nodes,
            expanded_cluster: match &self.display.expanded_cluster {
                Some(id) => Some(id.clone()),
                None => None,
            },
        }
    }

    /// Views the project as it was saved, or from the start where it was not.
    pub fn restore_view(&mut self, saved: Option<SavedView>) -> (e: ViewEffect)
        requires
            old(self).wf(),
        ensures
            final(self).wf(),
            final(self).history == old(self).history,
            viewer::same_data(*final(self), *old(self)),
            saved is None ==> {
                &&& final(self).pinned@ == Set::<Seq<char>>::empty()
                &&& final(self).display == (ViewerDisplay {
                    expanded_cluster: None,
                    ..old(self).display
                })
                &&& final(self).fit_requested
                &&& e == (ViewEffect { reset_camera: true, ..ViewEffect::none() })
            },
            saved matches Some(view) ==> {
                &&& final(self).pinned@ == text::texts(view.pinned_nodes@).to_set()
                &&& final(self).display == restored_display(view)
                &&& !final(self).fit_requested
                &&& e == (ViewEffect { drop_caches: true, ..ViewEffect::none() })
            },
    {
        match saved {
            Some(view) => {
                self.pinned = TextSet::from_list(&view.pinned_nodes);
                self.display = ViewerDisplay {
                    domain: view.domain,
                    view_mode: view.view_mode,
                    expanded_cluster: view.expanded_cluster,
                    show_facts: view.show_facts,
                    show_evidence: view.show_evidence,
                    focus_selected: view.focus_selected,
                    max_visible_nodes: clamp_nodes(view.max_visible_nodes),
                };
                self.fit_requested = false;
                ViewEffect {
                    reset_camera: false,
                    clear_offsets: false,
                    drop_caches: true,
                    keep_view: false,
                    refresh: false,
                }
            },
            None => {
                self.fit_requested = true;
                self.pinned = TextSet::new();
                self.display.expanded_cluster = None;
                ViewEffect {
                    reset_camera: true,
                    clear_offsets: false,
                    drop_caches: false,
                    keep_view: false,
                    refresh: false,
                }
            },
        }
    }

    /// Sets the viewer as it was last set, then views the project as it was saved.
    pub fn apply_settings(&mut self, settings: ViewerSettings, saved: Option<SavedView>) -> (e:
        ViewEffect)
        requires
            old(self).wf(),
        ensures
            final(self).wf(),
            final(self).history == old(self).history,
            final(self).project_id == old(self).project_id,
            final(self).data == old(self).data,
            final(self).notes == old(self).notes,
            final(self).data_revision == old(self).data_revision,
            final(self).filters.node_filter == settings.node_filter,
            final(self).filters.relation_filter == settings.relation_filter,
            final(self).filters.code_kind_filter == settings.code_kind_filter,
            final(self).filters.code_file_filter == settings.code_file_filter,
            final(self).filters.status == old(self).filters.status,
            final(self).filters.kind == old(self).filters.kind,
            final(self).filters.query == old(self).filters.query,
            final(self).filters.limit == old(self).filters.limit,
            e == (if saved is None {
                ViewEffect { reset_camera: true, ..ViewEffect::none() }
            } else {
                ViewEffect { drop_caches: true, ..ViewEffect::none() }
            }),
            saved is None ==> {
                &&& final(self).pinned@ == Set::<Seq<char>>::empty()
                &&& final(self).fit_requested
                &&& final(self).display == (ViewerDisplay {
                    domain: settings.domain,
                    view_mode: settings.view_mode,
                    expanded_cluster: None,
                    show_facts: settings.show_facts,
                    show_evidence: settings.show_evidence,
                    focus_selected: settings.focus_selected,
                    max_visible_nodes: filter::node_limit(
                        settings.max_visible_nodes as int,
                    ) as usize,
                })
            },
            saved matches Some(view) ==> {
                &&& final(self).pinned@ == text::texts(view.pinned_nodes@).to_set()
                &&& !final(self).fit_requested
                &&& final(self).display == restored_display(view)
            },
    {
        self.filters.node_filter = settings.node_filter;
        self.filters.relation_filter = settings.relation_filter;
        self.filters.code_kind_filter = settings.code_kind_filter;
        self.filters.code_file_filter = settings.code_file_filter;
        self.display.domain = settings.domain;
        self.display.view_mode = settings.view_mode;
        self.display.show_facts = settings.show_facts;
        self.display.show_evidence = settings.show_evidence;
        self.display.focus_selected = settings.focus_selected;
        self.display.max_visible_nodes = clamp_nodes(settings.max_visible_nodes);
        self.restore_view(saved)
    }

    /// Turns to another project: everything loaded and selected is dropped, and the project is
    /// viewed as it was saved. To turn to the same project changes nothing.
    pub fn switch_project(&mut self, project_id: String, saved: Option<SavedView>) -> (e: Option<
        ViewEffect,
    >)
        requires
            old(self).wf(),
        ensures
            final(self).wf(),
            e is None <==> old(self).project_id@ == project_id@,
            e is None ==> *final(self) == *old(self),
            e is Some ==> {
                &&& final(self).project_id == project_id
                &&& final(self).history@ == HistoryView::start()
                &&& final(self).filters == old(self).filters
                &&& final(self).data.is_empty()
                &&& final(self).notes.is_clear()
                &&& final(self).data_revision == (if old(self).data_revision == u64::MAX {
                    0
                } else {
                    old(self).data_revision + 1
                })
                &&& saved is None ==> final(self).pinned@ == Set::<Seq<char>>::empty()
                    && final(self).fit_requested && final(self).display == (ViewerDisplay {
                    expanded_cluster: None,
                    ..old(self).display
                })
                &&& saved matches Some(view) ==> final(self).pinned@ == text::texts(
                    view.pinned_nodes@,
                ).to_set() && !final(self).fit_requested && final(self).display
                    == restored_display(view)
                &&& e == Some(
                    (ViewEffect {
                        reset_camera: true,
                        clear_offsets: true,
                        drop_caches: true,
                        keep_view: false,
                        refresh: true,
                    }),
                )
            },
    {
        if self.project_id == project_id {
            return None;
        }
        self.project_id = project_id;
        self.data = ViewerData::new();
        self.notes = ViewerNotes::new();
        self.history = SelectionHistory::new();
        self.pinned = TextSet::new();
        self.fit_requested = true;
        self.display.expanded_cluster = None;
        self.data_revision = self.data_revision.wrapping_add(1);
        let _ = self.restore_view(saved);
        Some(
            ViewEffect {
                reset_camera: true,
                clear_offsets: true,
                drop_caches: true,
                keep_view: false,
                refresh: true,
            },
        )
    }
}

/// A view that was saved and restored is the view it was.
pub proof fn saved_view_is_restored(state: ViewerState, saved: SavedView)
    requires
        20 <= state.display.max_visible_nodes <= 250,
        saved.domain == state.display.domain,
        saved.view_mode == state.display.view_mode,
        saved.show_facts == state.display.show_facts,
        saved.show_evidence == state.display.show_evidence,
        saved.focus_selected == state.display.focus_selected,
        saved.max_visible_nodes == state.display.max_visible_nodes,
        saved.expanded_cluster == state.display.expanded_cluster,
    ensures
        restored_display(saved) == state.display,
{
}

} // verus!
