use dukememory::eval_report::{EvalCaseReport, EvalTotals};
use dukememory::memory_writes::CompactionProposal;
use dukememory::record_listings::{
    list_code_memories, list_compaction_proposal, list_memory, list_memory_edge,
    list_memory_fact, list_project_profile, list_review_memory, list_route_hints, CodeMemory,
    CodeRouteHint, MemoryNumbers, ProjectRecord,
};
use dukememory::records::{CodeSymbol, Memory, MemoryEdge, MemoryFact};
use dukememory::report_listings::{
    list_code_assist_report, list_code_pattern_report, list_code_reason_report,
    list_eval_report, list_graph_extraction_report, list_ontology, CaseScores, CodeAssistReport,
    CodePattern, CodePatternReport, CodeReasonReport, EvalRun, GraphExtractionProposal,
    GraphExtractionReport, PreviousRun, ProposedEdge, ProposedEntity, ProposedFact, ScoredSymbol,
};

fn memory() -> Memory {
    Memory {
        id: "m1".to_string(),
        project_id: "p".to_string(),
        scope: "project".to_string(),
        memory_tier: "working".to_string(),
        kind: "decision".to_string(),
        body: "Use blake3".to_string(),
        tags: vec!["hash".to_string(), "id".to_string()],
        source: Some("chat".to_string()),
        status: "pending".to_string(),
        superseded_by: None,
        status_reason: Some("new".to_string()),
        usage_count: 0,
        last_used_at: None,
        created_at: "t1".to_string(),
        updated_at: "t2".to_string(),
    }
}

fn numbers(score: Option<&str>) -> MemoryNumbers {
    MemoryNumbers {
        importance: "0.70".to_string(),
        confidence: "0.80".to_string(),
        score: score.map(|s| s.to_string()),
    }
}

#[test]
fn memory_is_listed_with_all_it_has() {
    assert_eq!(
        list_memory(&memory(), &numbers(Some("0.1234"))),
        [
            "", "id: m1", "project: p", "scope: project", "kind: decision", "status: pending",
            "importance: 0.70", "confidence: 0.80", "score: 0.1234", "created_at: t1",
            "updated_at: t2", "tags: hash,id", "source: chat", "status_reason: new", "Use blake3",
        ]
    );
}

#[test]
fn memory_under_review_is_listed_with_its_commands() {
    let mut bare = memory();
    bare.tags.clear();
    bare.status_reason = None;
    assert_eq!(
        list_review_memory(&bare, &numbers(None)),
        [
            "", "id: m1", "scope: project", "kind: decision", "importance: 0.70",
            "confidence: 0.80", "body: Use blake3", "promote: cargo run -- promote m1",
            "archive: cargo run -- archive m1",
        ]
    );
}

#[test]
fn facts_and_relations_are_listed() {
    let fact = MemoryFact {
        id: "f1".to_string(),
        project_id: "p".to_string(),
        entity_id: Some("e1".to_string()),
        memory_id: None,
        episode_id: None,
        predicate: "uses".to_string(),
        value: "blake3".to_string(),
        valid_from: None,
        valid_to: None,
        invalidated_by: None,
        observed_at: "t3".to_string(),
    };
    assert_eq!(
        list_memory_fact(&fact, "0.90"),
        [
            "", "fact_id: f1", "project: p", "entity_id: e1", "predicate: uses",
            "value: blake3", "confidence: 0.90", "observed_at: t3",
        ]
    );
    let edge = MemoryEdge {
        id: "r1".to_string(),
        project_id: "p".to_string(),
        from_entity_id: "e1".to_string(),
        from_entity_name: "Store".to_string(),
        to_entity_id: "e2".to_string(),
        to_entity_name: "Hash".to_string(),
        relation_type: "depends_on".to_string(),
        memory_id: Some("m1".to_string()),
        episode_id: None,
        valid_from: None,
        valid_to: None,
        invalidated_by: None,
        observed_at: "t4".to_string(),
    };
    assert_eq!(
        list_memory_edge(&edge, "0.50"),
        [
            "", "edge_id: r1", "project: p", "from: Store (e1)", "relation_type: depends_on",
            "to: Hash (e2)", "memory_id: m1", "confidence: 0.50", "observed_at: t4",
        ]
    );
}

#[test]
fn proposed_summary_is_listed() {
    let proposal = CompactionProposal {
        model: "llm".to_string(),
        summary_kind: "note".to_string(),
        summary_body: "All of it".to_string(),
        tags: Vec::new(),
        reason: "many".to_string(),
        source_ids: vec!["a".to_string(), "b".to_string()],
    };
    assert_eq!(
        list_compaction_proposal(&proposal, "0.60", "0.40"),
        [
            "model: llm", "summary_kind: note", "source_memories: 2", "importance: 0.60",
            "confidence: 0.40", "reason: many", "", "All of it",
        ]
    );
}

#[test]
fn profile_names_what_is_not_set() {
    let mut profile = ProjectRecord {
        id: "p".to_string(),
        name: "P".to_string(),
        project_type: "generic".to_string(),
        root_path: None,
        description: Some("d".to_string()),
        domains: Vec::new(),
        created_at: "t1".to_string(),
        updated_at: "t2".to_string(),
    };
    assert_eq!(
        list_project_profile(&profile),
        [
            "project: p", "name: P", "project_type: generic", "root_path: <unset>",
            "description: d", "domains: <none>", "created_at: t1", "updated_at: t2",
        ]
    );
    profile.domains = vec!["a".to_string(), "b".to_string()];
    assert_eq!(list_project_profile(&profile)[5], "domains: a,b");
}

#[test]
fn code_memories_are_listed_under_their_heading() {
    assert_eq!(list_code_memories("notes:", &Vec::new()), ["notes:", "- none"]);
    let note = CodeMemory {
        id: "c1".to_string(),
        kind: "invariant".to_string(),
        status: "active".to_string(),
        link_status: "linked".to_string(),
        confidence: "1.00".to_string(),
        symbol_id: None,
        file_path: Some("src/a.rs".to_string()),
        symbol_name: Some("run".to_string()),
        symbol_kind: None,
        symbol_start_line: Some(3),
        symbol_end_line: None,
        relink_attempts: 2,
        last_relinked_at: Some("t1".to_string()),
        updated_at: "t2".to_string(),
        tags: vec!["x".to_string()],
        source: None,
        body: "never empty".to_string(),
    };
    assert_eq!(
        list_code_memories("notes:", &vec![note]),
        [
            "notes:", "", "id: c1", "kind: invariant", "status: active", "link_status: linked",
            "confidence: 1.00", "symbol_id: -", "file_path: src/a.rs", "symbol_snapshot: - run",
            "symbol_lines: 3--", "relink_attempts: 2", "last_relinked_at: t1", "updated_at: t2",
            "tags: x", "body: never empty",
        ]
    );
}

#[test]
fn routes_are_listed_under_their_heading() {
    assert_eq!(list_route_hints("routes:", &Vec::new()), ["routes:", "- none"]);
    let route = |method: Option<&str>| CodeRouteHint {
        framework: "axum".to_string(),
        route: "/x".to_string(),
        method: method.map(|m| m.to_string()),
        file_path: "src/a.rs".to_string(),
        symbol_id: "s1".to_string(),
        symbol_name: "handler".to_string(),
        evidence: "get(handler)".to_string(),
    };
    let lines = list_route_hints("routes:", &vec![route(None), route(Some("GET"))]);
    assert_eq!(lines.len(), 15);
    assert_eq!(
        lines[1..8],
        [
            "", "framework: axum", "route: /x", "method: *", "file: src/a.rs",
            "symbol: handler (s1)", "evidence: get(handler)",
        ]
    );
    assert_eq!(lines[11], "method: GET");
}

#[test]
fn answer_is_listed_without_empty_lists() {
    let report = CodeReasonReport {
        task: "risk".to_string(),
        model: "llm".to_string(),
        answer: "fine".to_string(),
        bullets: vec!["one".to_string(), "two".to_string()],
        risks: Vec::new(),
        next_steps: vec!["test".to_string()],
    };
    assert_eq!(
        list_code_reason_report(&report),
        [
            "task: risk", "model: llm", "", "fine", "", "bullets:", "- one", "- two", "",
            "next_steps:", "- test",
        ]
    );
}

#[test]
fn extraction_is_listed_with_its_proposals() {
    let mut report = GraphExtractionReport {
        project_id: "p".to_string(),
        apply: false,
        memories: 1,
        proposed_entities: 1,
        proposed_facts: 1,
        proposed_edges: 1,
        upserted_entities: 1,
        inserted_facts: 1,
        duplicate_facts: 0,
        inserted_edges: 1,
        duplicate_edges: 0,
        proposals: vec![GraphExtractionProposal {
            memory_id: "m1".to_string(),
            entities: vec![ProposedEntity {
                entity_type: "module".to_string(),
                name: "Store".to_string(),
                description: Some("keeps".to_string()),
            }],
            facts: vec![ProposedFact {
                entity_type: "module".to_string(),
                entity_name: "Store".to_string(),
                predicate: "uses".to_string(),
                value: "json".to_string(),
                confidence: "0.75".to_string(),
            }],
            edges: vec![ProposedEdge {
                from_type: "module".to_string(),
                from_name: "Store".to_string(),
                relation_type: "calls".to_string(),
                to_type: "crate".to_string(),
                to_name: "serde".to_string(),
                confidence: "0.25".to_string(),
            }],
        }],
    };
    let lines = list_graph_extraction_report(&report);
    assert_eq!(
        lines,
        [
            "project: p", "apply: false", "memories: 1", "proposed_entities: 1",
            "proposed_facts: 1", "proposed_edges: 1", "", "memory_id: m1", "entities: 1",
            "- entity Store [module]", "  description: keeps", "facts: 1",
            "- fact Store [module] uses json (0.75)", "edges: 1",
            "- edge Store [module] -calls-> serde [crate] (0.25)",
        ]
    );
    report.apply = true;
    assert_eq!(
        list_graph_extraction_report(&report)[6..11],
        [
            "upserted_entities: 1", "inserted_facts: 1", "duplicate_facts: 0",
            "inserted_edges: 1", "duplicate_edges: 0",
        ]
    );
}

#[test]
fn evaluation_is_listed_against_the_run_before() {
    let case = EvalCaseReport {
        name: "c".to_string(),
        target: "memory".to_string(),
        project_id: "p".to_string(),
        query: "q".to_string(),
        hits: 2,
        passed: true,
        expected_ids: vec!["a".to_string()],
        forbidden_ids: Vec::new(),
        matched_expected_ids: vec!["a".to_string()],
        missing_expected_ids: Vec::new(),
        matched_forbidden_ids: Vec::new(),
        ranks: None,
        latency_ms: 5,
        max_latency_ms: Some(10),
        latency_ok: true,
        estimated_tokens: 1,
        max_estimated_tokens: None,
        token_budget_ok: true,
        missing_expected: vec!["x".to_string(), "y".to_string()],
        forbidden_found: Vec::new(),
        top_ids: vec!["a".to_string(), "b".to_string()],
    };
    let scores = CaseScores {
        recall_at_k: Some("1.000".to_string()),
        precision_at_k: Some("0.500".to_string()),
    };
    let totals = EvalTotals { total_cases: 1, passed_cases: 1, failed_cases: 0 };
    let mut run = EvalRun {
        run_id: "r".to_string(),
        suite_name: Some("s".to_string()),
        suite_hash: None,
        previous_run: Some(PreviousRun {
            id: "r0".to_string(),
            created_at: "t0".to_string(),
            passed_cases: 0,
            failed_cases: 1,
        }),
    };
    let cases = vec![case];
    let scores = vec![scores];
    assert_eq!(
        list_eval_report(&run, &totals, &cases, &scores, true),
        [
            "eval_run_id: r", "eval_suite: s", "eval_total: 1", "eval_passed: 1",
            "eval_failed: 0", "previous_run_id: r0", "previous_created_at: t0",
            "previous_passed: 0", "previous_failed: 1", "passed_delta: 1", "failed_delta: -1", "",
            "case: c", "target: memory", "project: p", "query: q", "passed: true", "hits: 2",
            "latency_ms: 5", "max_latency_ms: 10", "latency_ok: true", "recall_at_k: 1.000",
            "precision_at_k: 0.500", "expected_ids: a", "matched_expected_ids: a", "top_ids: a,b",
            "missing_expected: x | y",
        ]
    );
    run.previous_run = None;
    let lines = list_eval_report(&run, &totals, &Vec::new(), &Vec::new(), true);
    assert_eq!(lines[5], "previous_run: <none>");
    assert_eq!(list_eval_report(&run, &totals, &Vec::new(), &Vec::new(), false).len(), 5);
}

fn scored(name: &str, score: &str) -> ScoredSymbol {
    ScoredSymbol {
        symbol: CodeSymbol {
            id: format!("s_{name}"),
            project_id: "p".to_string(),
            file_path: "src/a.rs".to_string(),
            language: "rust".to_string(),
            name: name.to_string(),
            kind: "function".to_string(),
            signature: format!("fn {name}()"),
            body: String::new(),
            start_line: 2,
            end_line: 4,
            parent_id: None,
        },
        score: score.to_string(),
    }
}

#[test]
fn patterns_are_listed_with_their_seeds() {
    let report = CodePatternReport {
        project_id: "p".to_string(),
        query: "q".to_string(),
        symbols: vec![scored("run", "0.9000")],
        patterns: vec![CodePattern {
            seed: scored("run", "").symbol,
            related_symbols: vec![scored("walk", "0.500")],
        }],
        affected_tests: vec!["tests/a.rs".to_string()],
        memory_suggestions: 0,
    };
    assert_eq!(
        list_code_pattern_report(&report, "[]"),
        [
            "project: p", "query: q", "symbols: 1", "", "score: 0.9000", "id: s_run",
            "file: src/a.rs:2-4", "kind: function", "name: run", "signature: fn run()",
            "patterns: 1", "- seed: function src/a.rs:run",
            "  related 0.500: function src/a.rs:walk", "affected_tests: 1", "- tests/a.rs",
            "memory_suggestions: 0", "[]",
        ]
    );
}

#[test]
fn assistance_is_listed_with_its_files() {
    let report = CodeAssistReport {
        project_id: "p".to_string(),
        query: "q".to_string(),
        actual_mode: "keyword".to_string(),
        warning: Some("no model".to_string()),
        symbols: 3,
        patterns: 0,
        duplicate_pairs: 1,
        impacted_files: vec!["a.rs".to_string(), "b.rs".to_string()],
        affected_tests: Vec::new(),
        memory_suggestions: 2,
    };
    assert_eq!(
        list_code_assist_report(&report, "{}"),
        [
            "project: p", "query: q", "actual_mode: keyword", "warning: no model", "symbols: 3",
            "patterns: 0", "duplicate_pairs: 1", "impacted_files: 2", "- a.rs", "- b.rs",
            "affected_tests: 0", "memory_suggestions: 2", "{}",
        ]
    );
}

#[test]
fn ontology_lists_kinds_and_scopes() {
    let kinds = vec!["decision".to_string()];
    let scopes = vec!["project".to_string(), "global".to_string()];
    let lines = list_ontology(&kinds, &scopes);
    assert_eq!(lines.len(), 12);
    assert_eq!(
        lines[..7],
        [
            "core_memory_kinds:", "- decision", "memory_scopes:", "- project", "- global",
            "domain_examples:",
            "- generic: decisions, constraints, workflows, setup, external services",
        ]
    );
    assert_eq!(lines[11], "- ops: environments, incidents, runbooks, deployment facts");
}
