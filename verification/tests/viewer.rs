use dukememory::filter::{filter_relationship_model, RelationshipFilterOptions};
use dukememory::graph::{
    GraphEdge, GraphEdgeKind, GraphModel, GraphNode, GraphNodeKind, GraphSelection,
};
use dukememory::layout_plan::{
    collision_iterations, is_project_overview_model, layout_fixed_node_id, layout_iterations,
    layout_repulsion_stride, node_kind_priority, radial_order,
};
use dukememory::overview::{GraphDomain, GraphViewMode};
use dukememory::records::{CodeSymbol, Memory, MemoryEntity, MemoryFact, StatusFilter};
use dukememory::viewer::{MemoryStatusChoice, SelectionHistory, ViewerState};
use dukememory::viewer_events::{
    decide_background_action, decide_node_action, node_hover_text, related_edges,
    relation_count, ExtractOutcome, ExtractState, ExtractSummary, NodeAction, PointerEvent,
};
use dukememory::viewer_refresh::{CodeRequest, MemoryRequest, SavedView};

fn node(id: &str, kind: GraphNodeKind) -> GraphNode {
    GraphNode {
        id: id.to_string(),
        label: id.to_string(),
        detail: String::new(),
        kind,
    }
}

fn edge(id: &str, from: &str, to: &str) -> GraphEdge {
    GraphEdge {
        id: id.to_string(),
        from: from.to_string(),
        to: to.to_string(),
        label: "uses".to_string(),
        kind: GraphEdgeKind::Explicit,
        weight: 1,
    }
}

fn chain(n: usize) -> GraphModel {
    GraphModel {
        nodes: (0..n)
            .map(|i| node(&format!("entity:{i}"), GraphNodeKind::Entity))
            .collect(),
        edges: (1..n)
            .map(|i| edge(&format!("edge:{i}"), &format!("entity:{}", i - 1), &format!("entity:{i}")))
            .collect(),
        fallback: false,
    }
}

fn state() -> ViewerState {
    ViewerState::new(
        "game".to_string(),
        MemoryStatusChoice::Active,
        String::new(),
        1000,
    )
}

fn select(id: &str) -> GraphSelection {
    GraphSelection::Node(id.to_string())
}

#[test]
fn going_back_and_forward_undo_each_other() {
    let mut history = SelectionHistory::new();
    history.select(select("a"));
    history.select(select("b"));
    history.select(select("b"));
    assert_eq!(history.back.len(), 2);
    history.go_back();
    assert_eq!(history.selected, select("a"));
    history.go_forward();
    assert_eq!(history.selected, select("b"));
    history.go_forward();
    assert_eq!(history.selected, select("b"));
    history.go_back();
    history.go_back();
    assert_eq!(history.selected, GraphSelection::Overview);
    history.go_back();
    assert_eq!(history.selected, GraphSelection::Overview);
    assert_eq!(history.forward.len(), 2);
    history.select(select("c"));
    assert!(history.forward.is_empty());
}

#[test]
fn a_viewer_opens_on_the_overview() {
    let state = state();
    assert_eq!(state.filters.limit, 500);
    assert_eq!(state.display.view_mode, GraphViewMode::Overview);
    assert_eq!(state.display.max_visible_nodes, 80);
    assert!(state.fit_requested);
}

#[test]
fn overview_areas_open_their_views() {
    let mut state = state();
    let effect = state.open_overview_area("overview:facts").unwrap();
    assert!(state.display.show_facts);
    assert_eq!(state.display.view_mode, GraphViewMode::Entities);
    assert!(effect.keep_view && effect.drop_caches && effect.clear_offsets);
    assert!(state.open_overview_area("entity:1").is_none());
}

#[test]
fn clusters_open_and_close() {
    let mut state = state();
    state.toggle_pin("n");
    state.expand_cluster("cluster".to_string());
    assert_eq!(state.display.expanded_cluster.as_deref(), Some("cluster"));
    assert!(state.pinned.is_empty());
    assert!(state.collapse_cluster().reset_camera);
    assert!(state.display.expanded_cluster.is_none());
    assert!(!state.collapse_cluster().reset_camera);
}

#[test]
fn pins_toggle() {
    let mut state = state();
    assert!(state.toggle_pin("a"));
    assert!(!state.toggle_pin("a"));
    assert!(state.toggle_pin("b"));
    assert!(state.clear_pins().clear_offsets);
    assert!(state.pinned.is_empty());
}

#[test]
fn files_are_a_view_of_code() {
    let mut state = state();
    state.display.view_mode = GraphViewMode::Files;
    state.normalize_view();
    assert_eq!(state.display.view_mode, GraphViewMode::Types);
    state.display.domain = GraphDomain::Code;
    state.display.view_mode = GraphViewMode::Files;
    state.normalize_view();
    assert_eq!(state.display.view_mode, GraphViewMode::Files);
}

#[test]
fn a_saved_view_is_restored() {
    let mut before = state();
    before.open_graph_view(GraphDomain::Code, GraphViewMode::Files);
    before.toggle_pin("b");
    before.toggle_pin("a");
    before.display.max_visible_nodes = 120;
    let saved = before.saved_view();
    assert_eq!(saved.pinned_nodes, vec!["a".to_string(), "b".to_string()]);
    let mut after = state();
    after.restore_view(Some(saved));
    assert_eq!(after.display.domain, GraphDomain::Code);
    assert_eq!(after.display.view_mode, GraphViewMode::Files);
    assert_eq!(after.display.max_visible_nodes, 120);
    assert!(after.pinned.contains(&"a".to_string()));
    assert!(!after.fit_requested);
}

#[test]
fn saved_limits_are_brought_into_bounds() {
    let mut state = state();
    state.restore_view(Some(SavedView {
        pinned_nodes: Vec::new(),
        domain: GraphDomain::Memory,
        view_mode: GraphViewMode::Entities,
        show_facts: true,
        show_evidence: false,
        focus_selected: false,
        max_visible_nodes: 9000,
        expanded_cluster: None,
    }));
    assert_eq!(state.display.max_visible_nodes, 250);
    let effect = state.restore_view(None);
    assert!(effect.reset_camera && state.fit_requested);
}

#[test]
fn requests_follow_the_filters() {
    let mut state = state();
    match state.memory_request() {
        MemoryRequest::List { limit, kind, status } => {
            assert_eq!(limit, 500);
            assert_eq!(kind, None);
            assert!(matches!(status, StatusFilter::One(_)));
        }
        other => panic!("{other:?}"),
    }
    assert!(matches!(state.code_request(), CodeRequest::All));
    state.filters.query = "  fox ".to_string();
    state.filters.kind = "decision".to_string();
    match state.memory_request() {
        MemoryRequest::Search { query, kind, .. } => {
            assert_eq!(query, "fox");
            assert_eq!(kind.as_deref(), Some("decision"));
        }
        other => panic!("{other:?}"),
    }
    assert!(matches!(state.code_request(), CodeRequest::Search { .. }));
}

#[test]
fn a_failed_load_keeps_what_is_there() {
    let mut state = state();
    assert!(!state.accept_memories(Err("offline".to_string())));
    assert_eq!(state.notes.error.as_deref(), Some("offline"));
    assert!(state.accept_memories(Ok(Vec::new())));
    assert_eq!(state.notes.error, None);
}

fn symbol(id: &str, kind: &str, file: &str) -> CodeSymbol {
    CodeSymbol {
        id: id.to_string(),
        project_id: "game".to_string(),
        file_path: file.to_string(),
        language: "rust".to_string(),
        name: id.to_string(),
        kind: kind.to_string(),
        signature: String::new(),
        body: String::new(),
        start_line: 1,
        end_line: 1,
        parent_id: None,
    }
}

#[test]
fn code_is_filtered_by_kind_and_file() {
    let mut state = state();
    state.filters.code_kind_filter = "function".to_string();
    state.filters.code_file_filter = "GUI".to_string();
    let kept = state.filters.apply_code_filters(vec![
        symbol("a", "function", "src/gui.rs"),
        symbol("b", "struct", "src/gui.rs"),
        symbol("c", "function", "src/main.rs"),
    ]);
    assert_eq!(kept.len(), 1);
    assert_eq!(kept[0].id, "a");
}

#[test]
fn statuses_are_read_and_refused() {
    assert!(MemoryStatusChoice::parse("active").is_ok());
    assert!(MemoryStatusChoice::parse("nonsense").is_err());
    assert_eq!(MemoryStatusChoice::all().len(), 5);
}

#[test]
fn pointers_decide_by_rank() {
    let event = |dragged, double_clicked, clicked| PointerEvent {
        dragged,
        double_clicked,
        clicked,
    };
    let area = node("overview:code", GraphNodeKind::CodeSymbol);
    let cluster = node("cluster:x", GraphNodeKind::Cluster);
    assert_eq!(
        decide_node_action(GraphViewMode::Overview, &area, event(true, true, true)),
        NodeAction::Drag
    );
    assert_eq!(
        decide_node_action(GraphViewMode::Overview, &area, event(false, true, true)),
        NodeAction::OpenArea
    );
    assert_eq!(
        decide_node_action(GraphViewMode::Clusters, &cluster, event(false, true, true)),
        NodeAction::ExpandCluster
    );
    assert_eq!(
        decide_node_action(GraphViewMode::Entities, &cluster, event(false, true, true)),
        NodeAction::Select
    );
    assert_eq!(
        decide_node_action(GraphViewMode::Entities, &cluster, event(false, false, false)),
        NodeAction::Ignore
    );
    let background = decide_background_action(event(false, true, true), false, false);
    assert!(background.fit && !background.select_overview && !background.pan);
    let background = decide_background_action(event(true, false, false), false, true);
    assert!(!background.pan);
}

#[test]
fn extraction_runs_one_at_a_time() {
    let mut state = state();
    let mut extract = ExtractState::new();
    assert!(!extract.can_apply_report());
    assert!(extract.start(&mut state, false).is_some());
    assert!(extract.start(&mut state, false).is_none());
    assert!(!extract.poll(&mut state, ExtractOutcome::Pending));
    assert!(extract.running);
    extract.poll(
        &mut state,
        ExtractOutcome::Finished(ExtractSummary {
            apply: false,
            proposals: 1,
            proposed_entities: 1,
            proposed_facts: 0,
            proposed_edges: 0,
        }),
    );
    assert!(!extract.running);
    assert!(extract.can_apply_report());
}

#[test]
fn an_extraction_leaves_the_notes_of_the_data() {
    let mut state = state();
    state.accept_graph(Err("no graph".to_string()));
    state.accept_code_symbols(Err("no code".to_string()));
    let notes = (state.notes.graph_note.clone(), state.notes.code_note.clone());
    assert!(notes.0.is_some() && notes.1.is_some());
    for outcome in [
        ExtractOutcome::Failed("no model".to_string()),
        ExtractOutcome::Lost,
        ExtractOutcome::Finished(ExtractSummary {
            apply: true,
            proposals: 0,
            proposed_entities: 0,
            proposed_facts: 0,
            proposed_edges: 0,
        }),
    ] {
        ExtractState::new().poll(&mut state, outcome);
        assert_eq!((state.notes.graph_note.clone(), state.notes.code_note.clone()), notes);
    }
}

#[test]
fn an_extraction_asks_for_memories() {
    let mut state = state();
    let mut extract = ExtractState::new();
    extract.query = "  ".to_string();
    let request = extract.start(&mut state, false).unwrap().memory_request();
    assert!(matches!(request, MemoryRequest::List { limit: 20, .. }));
    let mut extract = ExtractState::new();
    extract.query = " store ".to_string();
    let request = extract.start(&mut state, false).unwrap().memory_request();
    assert!(matches!(request, MemoryRequest::Search { query, limit: 20, .. } if query == "store"));
}

#[test]
fn all_filters_are_cleared() {
    let mut state = state();
    state.filters.query = "store".to_string();
    state.filters.kind = "decision".to_string();
    state.filters.node_filter = "a".to_string();
    state.filters.relation_filter = "b".to_string();
    state.filters.code_kind_filter = "fn".to_string();
    state.filters.code_file_filter = "src".to_string();
    state.reset_filters();
    for field in [
        &state.filters.query,
        &state.filters.kind,
        &state.filters.node_filter,
        &state.filters.relation_filter,
        &state.filters.code_kind_filter,
        &state.filters.code_file_filter,
    ] {
        assert_eq!(field, "");
    }
}

#[test]
fn shown_graphs_are_closed() {
    let model = chain(300);
    let selection = select("entity:10");
    let shown = filter_relationship_model(
        &model,
        &RelationshipFilterOptions {
            selection: &selection,
            show_facts: true,
            show_evidence: true,
            focus_selected: false,
            max_visible_nodes: 20,
            node_filter: "",
            relation_filter: "",
        },
    );
    assert!(shown.nodes.len() <= 20);
    assert!(shown.contains_node("entity:10"));
    for edge in &shown.edges {
        assert!(shown.contains_node(&edge.from) && shown.contains_node(&edge.to));
        assert!(model.contains_edge(&edge.id));
    }
}

#[test]
fn focus_shows_the_neighborhood() {
    let model = chain(10);
    let selection = select("entity:5");
    let shown = filter_relationship_model(
        &model,
        &RelationshipFilterOptions {
            selection: &selection,
            show_facts: true,
            show_evidence: true,
            focus_selected: true,
            max_visible_nodes: 80,
            node_filter: "",
            relation_filter: "",
        },
    );
    let mut ids = shown.nodes.iter().map(|n| n.id.clone()).collect::<Vec<_>>();
    ids.sort();
    assert_eq!(ids, vec!["entity:4", "entity:5", "entity:6"]);
}

fn memory(body: &str) -> Memory {
    Memory {
        id: "m".to_string(),
        project_id: "game".to_string(),
        scope: "project".to_string(),
        memory_tier: "archival".to_string(),
        kind: "decision".to_string(),
        body: body.to_string(),
        tags: Vec::new(),
        source: None,
        status: "active".to_string(),
        superseded_by: None,
        status_reason: None,
        usage_count: 0,
        last_used_at: None,
        created_at: "now".to_string(),
        updated_at: "now".to_string(),
    }
}

fn fact() -> MemoryFact {
    MemoryFact {
        id: "f".to_string(),
        project_id: "game".to_string(),
        entity_id: None,
        memory_id: None,
        episode_id: None,
        predicate: "uses".to_string(),
        value: "json".to_string(),
        valid_from: None,
        valid_to: None,
        invalidated_by: None,
        observed_at: "now".to_string(),
    }
}

#[test]
fn a_state_shows_a_whole_graph() {
    let mut state = state();
    state.data.memories.push(memory("Body"));
    let shown = state.relationship_model();
    assert!(shown.contains_node("overview:project"));
    state.history.select(select("gone"));
    state.validated_model();
    assert_eq!(state.history.selected, GraphSelection::Overview);
}

#[test]
fn the_overview_shows_its_areas_whatever_is_switched_off() {
    let mut state = state();
    assert!(!state.display.show_facts && !state.display.show_evidence);
    assert_eq!(state.display.view_mode, GraphViewMode::Overview);
    assert!(state.relationship_model().nodes.is_empty());

    state.data.memories.push(memory("Body"));
    let shown = state.relationship_model();
    assert!(shown.contains_node("overview:memory"));
    assert!(!shown.contains_node("overview:facts"));
    assert!(shown.contains_edge("overview-edge:project-memory"));

    state.data.graph.facts.push(fact());
    assert!(state.relationship_model().contains_node("overview:facts"));
    assert!(state.open_overview_area("overview:memory").is_some());
    assert_eq!(state.display.domain, GraphDomain::Memory);
    assert_eq!(state.display.view_mode, GraphViewMode::Entities);

    state.open_graph_view(GraphDomain::Code, GraphViewMode::Overview);
    assert!(state.relationship_model().contains_node("overview:memory"));
}

#[test]
fn the_bridge_shows_its_memories_whatever_is_switched_off() {
    let mut state = state();
    state.data.memories.push(memory("See src/game.rs"));
    state.data.code_symbols.push(symbol("s", "function", "src/game.rs"));
    state.open_graph_view(GraphDomain::Bridge, GraphViewMode::Entities);
    assert!(!state.display.show_evidence);
    let shown = state.relationship_model();
    assert!(shown.contains_node("memory:m"));
    assert!(shown.contains_node("code-file:src/game.rs"));
    assert!(shown.contains_edge("bridge-memory-code:m:code-file:src/game.rs"));
}

#[test]
fn evidence_is_switched_in_the_memory_map() {
    let mut state = state();
    state.data.memories.push(memory("Body"));
    let mut said = fact();
    said.memory_id = Some("m".to_string());
    said.entity_id = Some("e".to_string());
    state.data.graph.facts.push(said);
    state.data.graph.entities.push(MemoryEntity {
        id: "e".to_string(),
        project_id: "game".to_string(),
        entity_type: "module".to_string(),
        name: "Store".to_string(),
        aliases: Vec::new(),
        description: None,
        created_at: "now".to_string(),
        updated_at: "now".to_string(),
    });
    state.open_graph_view(GraphDomain::Memory, GraphViewMode::Entities);
    assert!(!state.relationship_model().contains_node("memory:m"));
    assert!(!state.relationship_model().contains_node("fact:f"));
    state.display.show_evidence = true;
    state.display.show_facts = true;
    assert!(state.relationship_model().contains_node("memory:m"));
    assert!(state.relationship_model().contains_node("fact:f"));
}

#[test]
fn relations_are_counted_at_both_ends() {
    let model = chain(3);
    assert_eq!(relation_count(&model, "entity:1"), Some(2));
    assert_eq!(relation_count(&model, "entity:0"), Some(1));
    assert_eq!(related_edges(&model, Some("entity:0")).len(), 1);
    assert!(!node_hover_text(&model.nodes[0], GraphViewMode::Entities).is_empty());
}

#[test]
fn larger_layouts_take_fewer_rounds() {
    let mut last = usize::MAX;
    let mut stride = 1;
    for n in [1, 10, 40, 41, 90, 120, 150, 151, 250, 1000] {
        assert!(layout_iterations(n) <= last);
        assert!(layout_repulsion_stride(n) >= stride);
        last = layout_iterations(n);
        stride = layout_repulsion_stride(n);
    }
    assert_eq!(layout_iterations(40), 70);
    assert_eq!(layout_iterations(151), 12);
    assert_eq!(layout_repulsion_stride(191), 3);
    assert_eq!(collision_iterations(30), 64);
    assert_eq!(collision_iterations(31), 84);
    assert_eq!(collision_iterations(161), 56);
}

#[test]
fn layouts_start_from_what_matters() {
    assert_eq!(node_kind_priority(GraphNodeKind::Cluster), 700);
    assert_eq!(node_kind_priority(GraphNodeKind::Fact), 360);
    let mut model = chain(3);
    assert!(!is_project_overview_model(&model));
    let selection = select("entity:2");
    assert_eq!(layout_fixed_node_id(&model, &selection), Some("entity:2"));
    assert_eq!(layout_fixed_node_id(&model, &GraphSelection::Overview), None);
    let order = radial_order(&model, &selection);
    assert_eq!(order[0].id, "entity:2");
    assert_eq!(order[1].id, "entity:1");
    model.nodes.push(node("overview:project", GraphNodeKind::Cluster));
    assert!(is_project_overview_model(&model));
    assert_eq!(
        layout_fixed_node_id(&model, &GraphSelection::Overview),
        Some("overview:project")
    );
}
