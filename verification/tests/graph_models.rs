use dukememory::bridge::{build_bridge_model, CodeTargetIndex};
use dukememory::code_graph::{build_code_file_model, build_code_kind_model};
use dukememory::drilldown::{
    build_code_cluster_drilldown_model, build_memory_cluster_drilldown_model,
};
use dukememory::graph::{
    code_dir_node_id, code_file_node_id, code_kind_node_id, code_node_id, entity_node_id,
    memory_cluster_node_id, memory_node_id, type_node_id, GraphEdge, GraphEdgeKind, GraphModel,
    GraphNode, GraphNodeKind,
};
use dukememory::memory_graph::{build_memory_cluster_model, build_type_model};
use dukememory::overview::{
    build_project_overview_model, overview_navigation_target, GraphDomain, GraphViewMode,
};
use dukememory::paths::{explainable_paths, format_explainable_path, ExplainablePath};
use dukememory::quality::{analyze_retrieval_quality, parallel_edge_offsets};
use dukememory::records::{
    empty_graph, CodeRelation, CodeSymbol, Memory, MemoryEdge, MemoryEntity, MemoryFact,
    MemoryGraph,
};

#[test]
fn type_model_aggregates_edges_by_entity_type() {
    let graph = MemoryGraph {
        entities: vec![
            entity("project-1", "project", "Dukememory"),
            entity("command-1", "command", "dukememory_prepare"),
            entity("command-2", "command", "dukememory_code_search"),
        ],
        facts: Vec::<MemoryFact>::new(),
        edges: vec![
            edge(
                "edge-1",
                "project-1",
                "Dukememory",
                "command-1",
                "dukememory_prepare",
            ),
            edge(
                "edge-2",
                "project-1",
                "Dukememory",
                "command-2",
                "dukememory_code_search",
            ),
        ],
    };

    let model = build_type_model(&graph);
    assert_eq!(model.nodes.len(), 2);
    assert_eq!(model.edges.len(), 1);
    assert_eq!(model.edges[0].from, type_node_id("project"));
    assert_eq!(model.edges[0].to, type_node_id("command"));
    assert_eq!(model.edges[0].label, "использует ×2");
    assert_eq!(model.edges[0].weight, 2);
}

#[test]
fn code_kind_model_aggregates_code_relations() {
    let symbols = vec![
        code_symbol("symbol-1", "main", "function"),
        code_symbol("symbol-2", "MemoryViewerApp", "struct"),
    ];
    let relations = vec![CodeRelation {
        id: "relation-1".to_string(),
        project_id: "project".to_string(),
        from_symbol_id: Some("symbol-1".to_string()),
        from_file_path: "src/main.rs".to_string(),
        relation_kind: "calls".to_string(),
        target_name: "MemoryViewerApp".to_string(),
        target_symbol_id: Some("symbol-2".to_string()),
    }];

    let model = build_code_kind_model(&symbols, &relations);
    assert_eq!(model.nodes.len(), 2);
    assert_eq!(model.edges.len(), 1);
    assert_eq!(model.edges[0].from, code_kind_node_id("function"));
    assert_eq!(model.edges[0].to, code_kind_node_id("struct"));
    assert_eq!(model.edges[0].label, "вызывает");
}

#[test]
fn code_file_model_aggregates_code_relations() {
    let symbols = vec![
        code_symbol_in_file("symbol-1", "main", "function", "src/main.rs"),
        code_symbol_in_file("symbol-2", "run_memory_viewer", "function", "src/gui.rs"),
    ];
    let relations = vec![CodeRelation {
        id: "relation-1".to_string(),
        project_id: "project".to_string(),
        from_symbol_id: Some("symbol-1".to_string()),
        from_file_path: "src/main.rs".to_string(),
        relation_kind: "calls".to_string(),
        target_name: "run_memory_viewer".to_string(),
        target_symbol_id: Some("symbol-2".to_string()),
    }];

    let model = build_code_file_model(&symbols, &relations);
    assert_eq!(model.nodes.len(), 2);
    assert_eq!(model.edges.len(), 1);
    assert_eq!(model.edges[0].from, code_file_node_id("src/main.rs"));
    assert_eq!(model.edges[0].to, code_file_node_id("src/gui.rs"));
    assert_eq!(model.edges[0].label, "вызывает");
}

#[test]
fn memory_cluster_model_groups_entity_types() {
    let graph = MemoryGraph {
        entities: vec![
            entity("project-1", "project", "Dukememory"),
            entity("command-1", "command", "dukememory_prepare"),
        ],
        facts: Vec::<MemoryFact>::new(),
        edges: vec![edge(
            "edge-1",
            "project-1",
            "Dukememory",
            "command-1",
            "dukememory_prepare",
        )],
    };

    let model = build_memory_cluster_model(&graph);
    assert!(model.nodes.iter().any(|node| node.label == "Проекты"));
    assert!(
        model
            .nodes
            .iter()
            .any(|node| node.label == "Код и инструменты")
    );
    assert_eq!(model.edges.len(), 1);
}

#[test]
fn memory_cluster_drilldown_expands_to_concrete_entities() {
    let graph = MemoryGraph {
        entities: vec![
            entity("project-1", "project", "Dukememory"),
            entity("command-1", "command", "dukememory_prepare"),
        ],
        facts: Vec::<MemoryFact>::new(),
        edges: vec![edge(
            "edge-1",
            "project-1",
            "Dukememory",
            "command-1",
            "dukememory_prepare",
        )],
    };

    let model =
        build_memory_cluster_drilldown_model(&[], &graph, &memory_cluster_node_id("project"))
            .expect("cluster should expand");
    assert!(
        model
            .nodes
            .iter()
            .any(|node| node.id == entity_node_id("project-1"))
    );
    assert!(
        model
            .nodes
            .iter()
            .any(|node| node.id == entity_node_id("command-1"))
    );
    assert_eq!(model.edges.len(), 1);
}

#[test]
fn code_cluster_drilldown_expands_to_files_in_directory() {
    let symbols = vec![
        code_symbol_in_file("symbol-1", "main", "function", "src/main.rs"),
        code_symbol_in_file("symbol-2", "run_memory_viewer", "function", "src/gui.rs"),
        code_symbol_in_file("symbol-3", "fixture", "function", "tests/fixture.rs"),
    ];
    let relations = vec![CodeRelation {
        id: "relation-1".to_string(),
        project_id: "project".to_string(),
        from_symbol_id: Some("symbol-1".to_string()),
        from_file_path: "src/main.rs".to_string(),
        relation_kind: "calls".to_string(),
        target_name: "run_memory_viewer".to_string(),
        target_symbol_id: Some("symbol-2".to_string()),
    }];

    let model =
        build_code_cluster_drilldown_model(&symbols, &relations, &code_dir_node_id("src"))
            .expect("cluster should expand");
    assert!(
        model
            .nodes
            .iter()
            .any(|node| node.id == code_file_node_id("src/main.rs"))
    );
    assert!(
        model
            .nodes
            .iter()
            .any(|node| node.id == code_file_node_id("src/gui.rs"))
    );
    assert!(
        !model
            .nodes
            .iter()
            .any(|node| node.id == code_file_node_id("tests/fixture.rs"))
    );
    assert_eq!(model.edges.len(), 1);
}

#[test]
fn bridge_model_links_memory_to_referenced_code_file() {
    let memories = vec![memory("memory-1", "Decision mentions src/gui.rs")];
    let graph = MemoryGraph {
        entities: Vec::new(),
        facts: Vec::new(),
        edges: Vec::new(),
    };
    let symbols = vec![code_symbol_in_file(
        "symbol-1",
        "run_memory_viewer",
        "function",
        "src/gui.rs",
    )];

    let model = build_bridge_model(&memories, &graph, &symbols);
    assert!(
        model
            .nodes
            .iter()
            .any(|node| node.id == memory_node_id("memory-1"))
    );
    assert!(
        model
            .nodes
            .iter()
            .any(|node| node.id == code_file_node_id("src/gui.rs"))
    );
    assert_eq!(model.edges.len(), 1);
}

#[test]
fn code_target_index_deduplicates_files_and_keeps_symbol_hits() {
    let symbols = vec![
        code_symbol_in_file("symbol-1", "run_memory_viewer", "function", "src/gui.rs"),
        code_symbol_in_file("symbol-2", "MemoryViewerApp", "struct", "src/gui.rs"),
    ];
    let index = CodeTargetIndex::new(&symbols);

    let targets =
        index.targets_for_text("decision mentions src/gui.rs and run_memory_viewer", 8);

    assert_eq!(
        targets
            .iter()
            .filter(|target| target.id == code_file_node_id("src/gui.rs"))
            .count(),
        1
    );
    assert!(
        targets
            .iter()
            .any(|target| target.id == code_node_id("symbol-1"))
    );
}

#[test]
fn retrieval_quality_flags_single_source_query() {
    let memories = vec![memory("memory-1", "Decision without graph evidence")];
    let graph = empty_graph();
    let model = GraphModel {
        nodes: Vec::new(),
        edges: Vec::new(),
        fallback: false,
    };

    let quality = analyze_retrieval_quality("decision", &memories, &graph, &[], &[], &model);

    assert!(quality.query_active);
    assert_eq!(quality.source_count, 1);
    assert!(quality.warning_count >= 2);
    assert!(
        quality
            .recommendations()
            .contains(&"результат держится на одном источнике")
    );
    assert!(
        quality
            .recommendations()
            .contains(&"мало графовых оснований для найденной памяти")
    );
}

#[test]
fn retrieval_quality_counts_bridge_matches_and_code_coverage() {
    let memories = vec![memory(
        "memory-1",
        "GUI decision mentions src/gui.rs and run_memory_viewer",
    )];
    let graph = MemoryGraph {
        entities: vec![entity("entity-1", "component", "GUI")],
        facts: vec![fact("fact-1", "entity-1", "memory-1")],
        edges: Vec::new(),
    };
    let symbols = vec![
        code_symbol_in_file("symbol-1", "run_memory_viewer", "function", "src/gui.rs"),
        code_symbol_in_file("symbol-2", "MemoryViewerApp", "struct", "src/gui.rs"),
    ];
    let relations = vec![CodeRelation {
        id: "relation-1".to_string(),
        project_id: "project".to_string(),
        from_symbol_id: Some("symbol-1".to_string()),
        from_file_path: "src/gui.rs".to_string(),
        relation_kind: "calls".to_string(),
        target_name: "MemoryViewerApp".to_string(),
        target_symbol_id: Some("symbol-2".to_string()),
    }];
    let model = build_bridge_model(&memories, &graph, &symbols);

    let quality =
        analyze_retrieval_quality("gui", &memories, &graph, &symbols, &relations, &model);

    assert_eq!(
        quality.memory_graph_coverage.part as f64 / quality.memory_graph_coverage.total as f64,
        1.0
    );
    assert_eq!(
        quality.code_relation_coverage.part as f64 / quality.code_relation_coverage.total as f64,
        1.0
    );
    assert!(quality.bridge_edges >= 1);
    assert!(quality.source_count >= 4);
    assert_eq!(quality.warning_count, 0);
}

#[test]
fn project_overview_model_uses_aggregated_russian_nodes() {
    let memories = vec![memory("memory-1", "Project decision")];
    let graph = MemoryGraph {
        entities: vec![
            entity("project-1", "project", "Dukememory"),
            entity("command-1", "command", "dukememory_prepare"),
        ],
        facts: Vec::new(),
        edges: vec![edge(
            "edge-1",
            "project-1",
            "Dukememory",
            "command-1",
            "dukememory_prepare",
        )],
    };
    let symbols = vec![code_symbol_in_file(
        "symbol-1",
        "run_memory_viewer",
        "function",
        "src/gui.rs",
    )];

    let model = build_project_overview_model(&memories, &graph, &symbols, &[]);

    assert!(
        model
            .nodes
            .iter()
            .any(|node| node.id == "overview:project" && node.label == "Проект")
    );
    assert!(
        model
            .nodes
            .iter()
            .any(|node| node.id == "overview:memory" && node.label == "Память")
    );
    assert!(
        model
            .nodes
            .iter()
            .all(|node| node.label != "Memory" && node.label != "Graph")
    );
    assert!(
        model
            .edges
            .iter()
            .any(|edge| edge.from == "overview:project" && edge.to == "overview:memory")
    );
}

#[test]
fn parallel_edge_offsets_separate_edges_with_same_endpoints() {
    let model = GraphModel {
        nodes: vec![
            GraphNode {
                id: "a".to_string(),
                label: "A".to_string(),
                detail: String::new(),
                kind: GraphNodeKind::Entity,
            },
            GraphNode {
                id: "b".to_string(),
                label: "B".to_string(),
                detail: String::new(),
                kind: GraphNodeKind::Entity,
            },
        ],
        edges: vec![
            GraphEdge {
                id: "edge-1".to_string(),
                from: "a".to_string(),
                to: "b".to_string(),
                label: "uses".to_string(),
                kind: GraphEdgeKind::Explicit,
                weight: 1,
            },
            GraphEdge {
                id: "edge-2".to_string(),
                from: "a".to_string(),
                to: "b".to_string(),
                label: "depends".to_string(),
                kind: GraphEdgeKind::Explicit,
                weight: 1,
            },
        ],
        fallback: false,
    };

    let offsets = parallel_edge_offsets(&model);

    assert_eq!(offsets.len(), 2);
    let of = |id: &str| offsets.iter().find(|offset| offset.0 == id).unwrap().1.steps;
    assert_ne!(of("edge-1"), of("edge-2"));
    assert_eq!(of("edge-1"), -of("edge-2"));
}

#[test]
fn overview_navigation_targets_open_expected_views() {
    let facts = overview_navigation_target("overview:facts").expect("facts target");
    assert_eq!(facts.domain, GraphDomain::Memory);
    assert_eq!(facts.view_mode, GraphViewMode::Entities);
    assert!(facts.show_facts);

    let files = overview_navigation_target("overview:files").expect("files target");
    assert_eq!(files.domain, GraphDomain::Code);
    assert_eq!(files.view_mode, GraphViewMode::Files);
    assert!(!files.show_facts);

    assert!(overview_navigation_target("entity:unknown").is_none());
}

#[test]
fn explainable_paths_find_short_memory_to_code_path() {
    let model = GraphModel {
        nodes: vec![
            GraphNode {
                id: "memory:decision".to_string(),
                label: "Решение".to_string(),
                detail: "память".to_string(),
                kind: GraphNodeKind::Memory,
            },
            GraphNode {
                id: "entity:gui".to_string(),
                label: "GUI".to_string(),
                detail: "component".to_string(),
                kind: GraphNodeKind::Entity,
            },
            GraphNode {
                id: "code-file:src/gui.rs".to_string(),
                label: "src/gui.rs".to_string(),
                detail: "12 символов".to_string(),
                kind: GraphNodeKind::CodeFile,
            },
        ],
        edges: vec![
            GraphEdge {
                id: "edge:memory-gui".to_string(),
                from: "memory:decision".to_string(),
                to: "entity:gui".to_string(),
                label: "описывает".to_string(),
                kind: GraphEdgeKind::Evidence,
                weight: 1,
            },
            GraphEdge {
                id: "edge:gui-file".to_string(),
                from: "entity:gui".to_string(),
                to: "code-file:src/gui.rs".to_string(),
                label: "реализован в".to_string(),
                kind: GraphEdgeKind::Derived,
                weight: 1,
            },
        ],
        fallback: false,
    };

    let paths = explainable_paths(&model, "memory:decision", 6);
    let path = paths
        .iter()
        .find(|path| {
            path.node_ids
                .last()
                .is_some_and(|id| id == "code-file:src/gui.rs")
        })
        .expect("code file path should be present");

    assert_eq!(
        path.node_ids,
        vec![
            "memory:decision".to_string(),
            "entity:gui".to_string(),
            "code-file:src/gui.rs".to_string()
        ]
    );
    let formatted = format_explainable_path(&model, path);
    assert!(formatted.contains("Решение -описывает→ GUI"));
    assert!(formatted.contains("GUI -реализован в→ src/gui.rs"));
}

#[test]
fn explainable_path_format_preserves_reverse_direction() {
    let model = GraphModel {
        nodes: vec![
            GraphNode {
                id: "entity:gui".to_string(),
                label: "GUI".to_string(),
                detail: "component".to_string(),
                kind: GraphNodeKind::Entity,
            },
            GraphNode {
                id: "code-file:src/gui.rs".to_string(),
                label: "src/gui.rs".to_string(),
                detail: "12 символов".to_string(),
                kind: GraphNodeKind::CodeFile,
            },
        ],
        edges: vec![GraphEdge {
            id: "edge:gui-file".to_string(),
            from: "entity:gui".to_string(),
            to: "code-file:src/gui.rs".to_string(),
            label: "реализован в".to_string(),
            kind: GraphEdgeKind::Derived,
            weight: 1,
        }],
        fallback: false,
    };
    let path = ExplainablePath {
        node_ids: vec!["code-file:src/gui.rs".to_string(), "entity:gui".to_string()],
        edge_ids: vec!["edge:gui-file".to_string()],
        score: 1,
    };

    let formatted = format_explainable_path(&model, &path);

    assert!(formatted.contains("src/gui.rs ←реализован в- GUI"));
}

fn entity(id: &str, entity_type: &str, name: &str) -> MemoryEntity {
    MemoryEntity {
        id: id.to_string(),
        project_id: "project".to_string(),
        entity_type: entity_type.to_string(),
        name: name.to_string(),
        aliases: Vec::new(),
        description: None,
        created_at: "now".to_string(),
        updated_at: "now".to_string(),
    }
}

fn edge(
    id: &str,
    from_entity_id: &str,
    from_entity_name: &str,
    to_entity_id: &str,
    to_entity_name: &str,
) -> MemoryEdge {
    MemoryEdge {
        id: id.to_string(),
        project_id: "project".to_string(),
        from_entity_id: from_entity_id.to_string(),
        from_entity_name: from_entity_name.to_string(),
        to_entity_id: to_entity_id.to_string(),
        to_entity_name: to_entity_name.to_string(),
        relation_type: "uses".to_string(),
        memory_id: None,
        episode_id: None,
        valid_from: None,
        valid_to: None,
        invalidated_by: None,
        observed_at: "now".to_string(),
    }
}

fn fact(id: &str, entity_id: &str, memory_id: &str) -> MemoryFact {
    MemoryFact {
        id: id.to_string(),
        project_id: "project".to_string(),
        entity_id: Some(entity_id.to_string()),
        memory_id: Some(memory_id.to_string()),
        episode_id: None,
        predicate: "documents".to_string(),
        value: "GUI".to_string(),
        valid_from: None,
        valid_to: None,
        invalidated_by: None,
        observed_at: "now".to_string(),
    }
}

fn code_symbol(id: &str, name: &str, kind: &str) -> CodeSymbol {
    code_symbol_in_file(id, name, kind, "src/main.rs")
}

fn memory(id: &str, body: &str) -> Memory {
    Memory {
        id: id.to_string(),
        project_id: "project".to_string(),
        scope: "project".to_string(),
        memory_tier: "archival".to_string(),
        kind: "decision".to_string(),
        body: body.to_string(),
        tags: Vec::new(),
        source: None,
        status: "active".to_string(),
        superseded_by: None,
        status_reason: None,
        usage_count: 0,
        last_used_at: None,
        created_at: "now".to_string(),
        updated_at: "now".to_string(),
    }
}

fn code_symbol_in_file(id: &str, name: &str, kind: &str, file_path: &str) -> CodeSymbol {
    CodeSymbol {
        id: id.to_string(),
        project_id: "project".to_string(),
        file_path: file_path.to_string(),
        language: "rust".to_string(),
        name: name.to_string(),
        kind: kind.to_string(),
        signature: format!("fn {name}()"),
        body: String::new(),
        start_line: 1,
        end_line: 2,
        parent_id: None,
    }
}
