use dukememory::bridge::{build_bridge_cluster_model, build_bridge_model, count_bridge_matches};
use dukememory::code_graph::{
    build_code_directory_model, build_code_file_model, build_code_symbol_model,
};
use dukememory::drilldown::{
    build_bridge_cluster_drilldown_model, build_code_cluster_drilldown_model,
};
use dukememory::file_paths::{code_directory, file_label};
use dukememory::graph::{
    aggregate_edge, compact_graph_id, display_relation, memory_cluster_for_type, node_label,
    status_label, GraphEdge, GraphEdgeKind, GraphModel, GraphNode, GraphNodeKind,
};
use dukememory::memory_graph::{build_fallback_model, build_relationship_model};
use dukememory::overview::{build_project_overview_model, overview_navigation_target};
use dukememory::filter::apply_text_filters;
use dukememory::paths::{checked_explainable_paths, explainable_paths, format_explainable_path};
use dukememory::quality::{analyze_graph_quality, analyze_retrieval_quality, parallel_edge_offsets};
use dukememory::ranking::{rank, RankKey};
use dukememory::records::{
    empty_graph, CodeRelation, CodeSymbol, Memory, MemoryEdge, MemoryEntity, MemoryFact,
    MemoryGraph,
};
use dukememory::text::{
    contains_text, decimal, lines_of, lowercase, replace_char, trim, truncate_text,
    without_prefix,
};

fn entity(id: &str, entity_type: &str) -> MemoryEntity {
    MemoryEntity {
        id: id.to_string(),
        project_id: "p".to_string(),
        entity_type: entity_type.to_string(),
        name: format!("name of {id}"),
        aliases: Vec::new(),
        description: None,
        created_at: "now".to_string(),
        updated_at: "now".to_string(),
    }
}

fn edge(id: &str, from: &str, to: &str) -> MemoryEdge {
    MemoryEdge {
        id: id.to_string(),
        project_id: "p".to_string(),
        from_entity_id: from.to_string(),
        from_entity_name: from.to_string(),
        to_entity_id: to.to_string(),
        to_entity_name: to.to_string(),
        relation_type: "uses".to_string(),
        memory_id: Some("m1".to_string()),
        episode_id: None,
        valid_from: None,
        valid_to: None,
        invalidated_by: None,
        observed_at: "now".to_string(),
    }
}

fn fact(id: &str, entity_id: &str) -> MemoryFact {
    MemoryFact {
        id: id.to_string(),
        project_id: "p".to_string(),
        entity_id: Some(entity_id.to_string()),
        memory_id: Some("m1".to_string()),
        episode_id: None,
        predicate: "is".to_string(),
        value: "so".to_string(),
        valid_from: None,
        valid_to: None,
        invalidated_by: None,
        observed_at: "now".to_string(),
    }
}

fn memory(id: &str, body: &str) -> Memory {
    Memory {
        id: id.to_string(),
        project_id: "p".to_string(),
        scope: "project".to_string(),
        memory_tier: "archival".to_string(),
        kind: "decision".to_string(),
        body: body.to_string(),
        tags: Vec::new(),
        source: None,
        status: "active".to_string(),
        superseded_by: None,
        status_reason: None,
        usage_count: 0,
        last_used_at: None,
        created_at: "now".to_string(),
        updated_at: "now".to_string(),
    }
}

fn symbol(id: &str, file: &str) -> CodeSymbol {
    CodeSymbol {
        id: id.to_string(),
        project_id: "p".to_string(),
        file_path: file.to_string(),
        language: "rust".to_string(),
        name: format!("name_of_{id}"),
        kind: "function".to_string(),
        signature: String::new(),
        body: String::new(),
        start_line: 1,
        end_line: 2,
        parent_id: None,
    }
}

fn relation(id: &str, from: &str, to: &str) -> CodeRelation {
    CodeRelation {
        id: id.to_string(),
        project_id: "p".to_string(),
        from_symbol_id: Some(from.to_string()),
        from_file_path: "src/a.rs".to_string(),
        relation_kind: "calls".to_string(),
        target_name: to.to_string(),
        target_symbol_id: Some(to.to_string()),
    }
}

fn assert_whole(model: &GraphModel) {
    for (i, node) in model.nodes.iter().enumerate() {
        assert!(model.nodes[..i].iter().all(|other| other.id != node.id));
    }
    for (i, edge) in model.edges.iter().enumerate() {
        assert!(model.contains_node(&edge.from), "{}", edge.from);
        assert!(model.contains_node(&edge.to), "{}", edge.to);
        assert!(model.edges[..i].iter().all(|other| other.id != edge.id));
    }
}

fn graph() -> MemoryGraph {
    MemoryGraph {
        entities: vec![
            entity("e1", "project"),
            entity("e2", "command"),
            entity("e3", "component"),
        ],
        facts: vec![fact("f1", "e1"), fact("f2", "e3")],
        edges: vec![edge("r1", "e1", "e2"), edge("r2", "e2", "e3")],
    }
}

fn code() -> (Vec<CodeSymbol>, Vec<CodeRelation>) {
    (
        vec![
            symbol("s1", "src/a.rs"),
            symbol("s2", "src/b.rs"),
            symbol("s3", "tests/c.rs"),
        ],
        vec![
            relation("c1", "s1", "s2"),
            relation("c2", "s2", "s3"),
            relation("c3", "s1", "s2"),
        ],
    )
}

#[test]
fn models_are_whole() {
    let memories = vec![
        memory("m1", "mentions src/a.rs and name_of_s2"),
        memory("m2", "plain"),
    ];
    let (symbols, relations) = code();
    assert_whole(&build_relationship_model(&memories, &graph()));
    assert_whole(&build_fallback_model(&memories));
    assert_whole(&build_code_symbol_model(&symbols, &relations));
    assert_whole(&build_code_directory_model(&symbols, &relations));
    assert_whole(&build_bridge_model(&memories, &graph(), &symbols));
    assert_whole(&build_bridge_cluster_model(&memories, &graph(), &symbols));
    assert_whole(&build_project_overview_model(
        &memories,
        &graph(),
        &symbols,
        &relations,
    ));
    assert!(count_bridge_matches(&memories, &graph(), &symbols) >= 1);
}

#[test]
fn overview_nodes_open_views() {
    let (symbols, relations) = code();
    let model = build_project_overview_model(
        &[memory("m1", "b")],
        &graph(),
        &symbols,
        &relations,
    );
    assert!(model.nodes.len() > 5);
    for node in &model.nodes {
        assert!(overview_navigation_target(&node.id).is_some(), "{}", node.id);
    }
    let nothing = build_project_overview_model(&[], &empty_graph(), &[], &[]);
    assert!(nothing.nodes.is_empty() && nothing.edges.is_empty());
}

#[test]
fn weights_add_up() {
    let (symbols, relations) = code();
    let model = build_code_directory_model(&symbols, &relations);
    assert_eq!(model.nodes.len(), 2);
    let across = model.edges.iter().find(|edge| edge.from != edge.to).unwrap();
    assert_eq!(across.weight, 1);
    assert_eq!(
        aggregate_edge(
            "e".to_string(),
            "a".to_string(),
            "b".to_string(),
            "calls",
            GraphEdgeKind::Aggregate,
            3
        )
        .label,
        "вызывает ×3"
    );
}

#[test]
fn drilldowns_refuse_what_is_no_cluster() {
    let (symbols, relations) = code();
    assert!(build_code_cluster_drilldown_model(&symbols, &relations, "nowhere").is_none());
    assert!(build_bridge_cluster_drilldown_model(&[], &graph(), &symbols, "nowhere").is_none());
}

fn path_model(n: usize) -> GraphModel {
    GraphModel {
        nodes: (0..n)
            .map(|i| GraphNode {
                id: format!("n{i}"),
                label: format!("N{i}"),
                detail: String::new(),
                kind: GraphNodeKind::CodeFile,
            })
            .collect(),
        edges: (1..n)
            .map(|i| GraphEdge {
                id: format!("e{i}"),
                from: format!("n{}", i - 1),
                to: format!("n{i}"),
                label: "uses".to_string(),
                kind: GraphEdgeKind::Explicit,
                weight: 1,
            })
            .collect(),
        fallback: false,
    }
}

#[test]
fn paths_lead_along_edges() {
    let model = path_model(4);
    let paths = explainable_paths(&model, "n0", 6);
    assert!(!paths.is_empty());
    for path in &paths {
        assert_eq!(path.node_ids[0], "n0");
        assert_eq!(path.node_ids.len(), path.edge_ids.len() + 1);
        for (i, id) in path.edge_ids.iter().enumerate() {
            let edge = model.edges.iter().find(|edge| edge.id == *id).unwrap();
            let ends = [path.node_ids[i].clone(), path.node_ids[i + 1].clone()];
            assert!(ends.contains(&edge.from) && ends.contains(&edge.to));
        }
        assert!(!format_explainable_path(&model, path).is_empty());
    }
    for pair in paths.windows(2) {
        assert!(pair[0].score >= pair[1].score || pair[0].edge_ids.len() <= pair[1].edge_ids.len());
    }
    assert!(explainable_paths(&model, "nowhere", 6).is_empty());
}

#[test]
fn shorter_of_equal_paths_come_first() {
    let mut model = path_model(3);
    model.nodes.push(GraphNode {
        id: "n3".to_string(),
        label: "Z".to_string(),
        detail: String::new(),
        kind: GraphNodeKind::CodeFile,
    });
    let mut edge = model.edges[0].clone();
    edge.id = "e3".to_string();
    edge.to = "n3".to_string();
    model.edges.push(edge);
    model.edges[0].weight = 4;
    model.edges[1].weight = 3;
    let paths = explainable_paths(&model, "n0", 6);
    let found = paths
        .iter()
        .map(|path| (path.node_ids.last().unwrap().as_str(), path.edge_ids.len(), path.score))
        .collect::<Vec<_>>();
    assert_eq!(found, vec![("n1", 1, 828), ("n3", 1, 789), ("n2", 2, 789)]);
}

#[test]
fn scores_of_heavy_edges_fit_up_to_the_last() {
    let mut model = path_model(2);
    // 800 for the file, six times the weight at it, then the weight of the way
    let most = (usize::MAX - 800 + 18) / 7;
    model.edges[0].weight = most;
    assert_eq!(checked_explainable_paths(&model, "n0", 6).unwrap().len(), 1);
    model.edges[0].weight = most + 1;
    assert!(checked_explainable_paths(&model, "n0", 6).is_none());
    assert!(checked_explainable_paths(&model, "nowhere", 6).unwrap().is_empty());
}

#[test]
fn text_filters_settle() {
    let ids = |m: &GraphModel| {
        let nodes = m.nodes.iter().map(|node| node.id.clone());
        nodes.chain(m.edges.iter().map(|edge| edge.id.clone())).collect::<Vec<_>>()
    };
    for (nodes, relations, left) in [
        ("n1", "uses", vec!["n0", "n1", "n2", "e1", "e2"]),
        ("N4", "", vec!["n3", "n4", "e4"]),
        ("", "calls", vec!["n3", "n4", "e4"]),
        ("n4", "uses", vec![]),
    ] {
        let mut model = path_model(5);
        model.edges[3].label = "calls".to_string();
        apply_text_filters(&mut model, nodes, relations);
        assert_eq!(ids(&model), left);
        apply_text_filters(&mut model, nodes, relations);
        assert_eq!(ids(&model), left);
    }
}

#[test]
fn metadata_stands_in_for_an_empty_graph() {
    let mut first = memory("m1", "one");
    first.tags = vec!["t".to_string()];
    let mut second = memory("m2", "two");
    second.tags = vec!["t".to_string()];
    let memories = [first, second];
    let alone = build_relationship_model(&memories, &empty_graph());
    assert!(alone.fallback);
    assert_eq!(alone.edges.len(), 1);
    assert_eq!(alone.edges[0].kind, GraphEdgeKind::Derived);
    let joined = build_relationship_model(&memories, &graph());
    assert!(!joined.fallback);
    assert!(!joined.edges.is_empty());
    assert!(joined.edges.iter().all(|edge| edge.kind != GraphEdgeKind::Derived));
}

#[test]
fn directories_are_no_more_than_files() {
    let (symbols, relations) = code();
    let files = build_code_file_model(&symbols, &relations);
    let dirs = build_code_directory_model(&symbols, &relations);
    assert!(!dirs.nodes.is_empty());
    assert!(dirs.nodes.len() <= files.nodes.len());
    assert!(dirs.edges.len() <= files.edges.len());
}

#[test]
fn parallel_edges_lie_apart() {
    let mut model = path_model(2);
    for id in ["x", "y"] {
        let mut edge = model.edges[0].clone();
        edge.id = id.to_string();
        model.edges.push(edge);
    }
    let offsets = parallel_edge_offsets(&model);
    let mut steps = offsets.iter().map(|offset| offset.1.steps).collect::<Vec<_>>();
    steps.sort();
    assert_eq!(steps.len(), 3);
    assert!(steps[0] < steps[1] && steps[1] < steps[2]);
    assert_eq!(steps.iter().sum::<i128>(), 0);
}

#[test]
fn quality_counts_what_stands_alone() {
    let mut model = path_model(3);
    model.nodes.push(GraphNode {
        id: "alone".to_string(),
        label: "Alone".to_string(),
        detail: String::new(),
        kind: GraphNodeKind::Entity,
    });
    let (symbols, relations) = code();
    let quality = analyze_graph_quality(
        &model,
        &[memory("m9", "no graph")],
        &graph(),
        &symbols,
        &relations,
        80,
    );
    assert_eq!(quality.isolated_nodes, 1);
    assert_eq!(quality.edges, 2);
    assert_eq!(quality.memories_without_graph, 1);
    assert_eq!(quality.code_symbols_without_relations, 0);
    assert!(!quality.summary().is_empty());
}

#[test]
fn each_warning_has_advice() {
    let (symbols, _) = code();
    let quality = analyze_retrieval_quality(
        "query",
        &[memory("m9", "plain")],
        &empty_graph(),
        &symbols,
        &[],
        &path_model(0),
    );
    assert_eq!(quality.recommendations().len(), quality.warning_count);
    assert_eq!(
        quality.summary(),
        format!("слабых мест: {}", quality.warning_count)
    );
}

#[test]
fn ranking_is_a_stable_sort() {
    let key = |score: i128, first: &str| RankKey {
        score,
        length: 0,
        first: first.to_string(),
        second: String::new(),
    };
    let keys = vec![key(1, "b"), key(3, "a"), key(1, "a"), key(3, "a")];
    assert_eq!(rank(&keys), vec![1, 3, 2, 0]);
}

#[test]
fn words_for_people() {
    assert_eq!(display_relation("calls"), "вызывает");
    assert_eq!(display_relation("uses"), "использует");
    assert_eq!(status_label("odd"), "odd");
    assert_eq!(memory_cluster_for_type("project").0, "project");
    assert_eq!(compact_graph_id("code:abc"), "abc");
    assert_eq!(node_label(&path_model(1), "n0"), "N0");
    assert_eq!(node_label(&path_model(1), "gone"), "gone");
}

#[test]
fn files_have_labels_and_directories() {
    for path in [
        "src/gui.rs",
        "gui.rs",
        "/",
        "src/",
        "src/.",
        "..",
        "a/..",
        "",
        "./a",
        ".",
        "/a",
        "a//b",
    ] {
        let std = std::path::Path::new(path);
        let label = std
            .file_name()
            .map(|name| name.to_string_lossy().to_string())
            .unwrap_or_else(|| path.to_string());
        assert_eq!(file_label(path), label, "{path}");
        let parent = std
            .parent()
            .map(|parent| parent.to_string_lossy().to_string())
            .filter(|parent| !parent.is_empty())
            .unwrap_or_else(|| "(root)".to_string());
        assert_eq!(code_directory(path), parent, "{path}");
    }
}

#[test]
fn texts_are_cut_and_searched() {
    assert_eq!(truncate_text("abc", 3), "abc");
    assert_eq!(truncate_text("abcd", 3), "abc...");
    assert_eq!(decimal(0), "0");
    assert_eq!(decimal(u64::MAX), u64::MAX.to_string());
    assert_eq!(trim(" \u{a0}x\u{2003}\n"), "x");
    assert_eq!(lowercase("AbÄ"), "abÄ");
    assert!(contains_text("abc", ""));
    assert!(!contains_text("abc", "ac"));
    assert_eq!(replace_char("a_b_", '_', ' '), "a b ");
    assert_eq!(without_prefix("file://x", "file://").as_deref(), Some("x"));
    assert_eq!(without_prefix("x", "file://"), None);
    for text in ["", "a", "a\n", "a\r\nb\rc\n\nd\r", "\n", "\r\n"] {
        let std = text.lines().map(str::to_string).collect::<Vec<_>>();
        assert_eq!(lines_of(text), std, "{text:?}");
    }
}
