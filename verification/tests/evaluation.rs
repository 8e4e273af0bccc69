use dukememory::commands::{
    code_memory_request, edge_end, embed_model_for_role, eval_failure, eval_suite_hash,
    eval_suite_name, impacted_files_for_relations, profile_update, search_query,
    CodeMemoryRequest, EdgeEnd, RelationFiles,
};
use dukememory::config::Config;
use dukememory::doctor::{
    check_line, deep_checks, outcome, sentinel_memory, sentinel_suite, CodexIntegrationReport,
    DoctorFindings, ProductionAuditReport, SmokeReport,
};
use dukememory::eval::{
    case_project, case_target, eval_request, memory_eval_text, observe_code, observe_context,
    observe_memories, observe_review, observe_semantic, semantic_eval_hit_count,
    semantic_eval_top_ids, EvalCase, EvalObserved, EvalRequest,
};
use dukememory::eval_report::{assess_case, eval_totals, EvalTotals};
use dukememory::json::Json;
use dukememory::readiness::{
    command_failure_detail, count_found, failure_detail, missing_roles, model_line,
    rust_analyzer_diagnostics_check, rust_analyzer_status, summarize_paths, CodeFreshnessReport,
    CommandOutcome, InstalledModel, ModelRole, ReadinessState,
};
use dukememory::records::{CodeSymbol, Memory};
use dukememory::review::{apply_review_decisions, ReviewDecisionInput};

fn texts(list: &[&str]) -> Vec<String> {
    list.iter().map(|s| s.to_string()).collect()
}

fn case() -> EvalCase {
    EvalCase {
        name: None,
        target: " Memory ".to_string(),
        project_id: None,
        query: "what".to_string(),
        semantic_action: None,
        as_of: None,
        decisions: Vec::new(),
        expected_contains: Vec::new(),
        forbidden_contains: Vec::new(),
        expected_ids: Vec::new(),
        forbidden_ids: Vec::new(),
        min_results: None,
        max_latency_ms: None,
        max_estimated_tokens: None,
    }
}

fn observed() -> EvalObserved {
    EvalObserved {
        hits: 3,
        haystack: "The Quick fox".to_string(),
        top_ids: texts(&["a", "b", "c"]),
    }
}

fn memory(id: &str, body: &str) -> Memory {
    Memory {
        id: id.to_string(),
        project_id: "project".to_string(),
        scope: "project".to_string(),
        memory_tier: "archival".to_string(),
        kind: "decision".to_string(),
        body: body.to_string(),
        tags: texts(&["x", "y"]),
        source: None,
        status: "active".to_string(),
        superseded_by: None,
        status_reason: None,
        usage_count: 0,
        last_used_at: None,
        created_at: "now".to_string(),
        updated_at: "now".to_string(),
    }
}

fn symbol(id: &str) -> CodeSymbol {
    CodeSymbol {
        id: id.to_string(),
        project_id: "project".to_string(),
        file_path: "src/lib.rs".to_string(),
        language: "rust".to_string(),
        name: "f".to_string(),
        kind: "function".to_string(),
        signature: "fn f()".to_string(),
        body: "fn f() {}".to_string(),
        start_line: 1,
        end_line: 2,
        parent_id: None,
    }
}

#[test]
fn cases_pass_where_all_holds() {
    let report = assess_case(
        &EvalCase {
            expected_contains: texts(&["QUICK"]),
            forbidden_contains: texts(&["slow"]),
            expected_ids: texts(&["c", "a"]),
            forbidden_ids: texts(&["z"]),
            min_results: Some(3),
            max_latency_ms: Some(10),
            max_estimated_tokens: Some(4),
            ..case()
        },
        0,
        "game",
        observed(),
        10,
        4,
    );
    assert!(report.passed);
    assert_eq!(report.name, "case-1");
    assert_eq!(report.target, "memory");
    assert_eq!(report.project_id, "game");
    assert_eq!(report.matched_expected_ids, texts(&["c", "a"]));
    let ranks = report.ranks.unwrap();
    assert_eq!(ranks.hit_ranks, vec![0, 2]);
    assert_eq!((ranks.matched, ranks.expected, ranks.returned), (2, 2, 3));
    assert_eq!(ranks.ideal_hits, 2);
}

#[test]
fn each_condition_can_fail_a_case() {
    let assess = |case: EvalCase| assess_case(&case, 4, "game", observed(), 10, 4);
    let missing = assess(EvalCase {
        expected_contains: texts(&["slow"]),
        ..case()
    });
    assert!(!missing.passed);
    assert_eq!(missing.missing_expected, texts(&["slow"]));
    let forbidden = assess(EvalCase {
        forbidden_contains: texts(&["FOX"]),
        ..case()
    });
    assert!(!forbidden.passed);
    assert_eq!(forbidden.forbidden_found, texts(&["FOX"]));
    let absent = assess(EvalCase {
        expected_ids: texts(&["q", "b"]),
        ..case()
    });
    assert!(!absent.passed);
    assert_eq!(absent.missing_expected_ids, texts(&["q"]));
    assert_eq!(absent.matched_expected_ids, texts(&["b"]));
    let unwanted = assess(EvalCase {
        forbidden_ids: texts(&["b"]),
        ..case()
    });
    assert!(!unwanted.passed);
    assert_eq!(unwanted.matched_forbidden_ids, texts(&["b"]));
    assert!(!assess(EvalCase { min_results: Some(4), ..case() }).passed);
    let late = assess(EvalCase { max_latency_ms: Some(9), ..case() });
    assert!(!late.passed && !late.latency_ok);
    let long = assess(EvalCase { max_estimated_tokens: Some(3), ..case() });
    assert!(!long.passed && !long.token_budget_ok);
    let plain = assess(case());
    assert!(plain.passed && plain.ranks.is_none());
    assert_eq!(plain.name, "case-5");

    let totals = eval_totals(&vec![missing, plain]);
    assert_eq!(totals.total_cases, 2);
    assert_eq!(totals.passed_cases, 1);
    assert_eq!(totals.failed_cases, 1);
}

#[test]
fn targets_say_what_is_looked_up() {
    let c = case();
    assert_eq!(case_target(&c), "memory");
    assert_eq!(case_project(&c, "game"), "game");
    assert!(matches!(eval_request(&c, "memory"), Ok(EvalRequest::Memories)));
    assert!(matches!(eval_request(&c, "code"), Ok(EvalRequest::Code)));
    assert!(matches!(
        eval_request(&c, "context"),
        Ok(EvalRequest::MemoriesAndCode)
    ));
    match eval_request(&c, "semantic") {
        Ok(EvalRequest::Semantic(action)) => assert_eq!(action, "retrieval_quality"),
        other => panic!("{other:?}"),
    }
    assert_eq!(
        eval_request(&c, "review_apply").unwrap_err(),
        "review_apply eval case requires at least one decision"
    );
    assert_eq!(
        eval_request(&c, "graph").unwrap_err(),
        "invalid eval target `graph`; use memory, code, context, review_apply, or semantic"
    );
}

#[test]
fn observations_hold_texts_and_ids() {
    assert_eq!(
        memory_eval_text(&memory("m", "Body")),
        "decision\nproject\nBody\nx y"
    );
    let seen = observe_context(&vec![memory("m", "Body")], &vec![symbol("s")]);
    assert_eq!(seen.hits, 2);
    assert_eq!(seen.top_ids, texts(&["m", "s"]));
    assert_eq!(
        seen.haystack,
        "decision\nproject\nBody\nx y\nrust\nfunction\nf\nfn f()\nfn f() {}"
    );
    assert_eq!(seen.haystack_chars(), seen.haystack.chars().count());
    assert_eq!(observe_memories(&vec![memory("m", "B")]).top_ids, texts(&["m"]));
    assert_eq!(observe_code(&vec![symbol("s")]).hits, 1);

    let decisions = vec![ReviewDecisionInput {
        id: "m1".to_string(),
        action: "keep".to_string(),
        reason: None,
    }];
    let report = apply_review_decisions("game", &decisions, true).outcome.unwrap();
    let seen = observe_review(&report, "{}".to_string());
    assert_eq!(seen.hits, 1);
    assert_eq!(seen.top_ids, texts(&["m1"]));
}

#[test]
fn semantic_reports_are_read_for_ids() {
    let text = |s: &str| Json::Text(s.to_string());
    let object = |fields: Vec<(&str, Json)>| {
        Json::Object(
            fields
                .into_iter()
                .map(|(name, value)| (name.to_string(), value))
                .collect(),
        )
    };
    let report = object(vec![
        ("top_memory_ids", Json::Array(vec![text("b"), text("a"), Json::Null])),
        ("baseline", object(vec![("memory_ids", Json::Array(vec![text("b")]))])),
        (
            "memories",
            Json::Array(vec![
                object(vec![("id", text("c"))]),
                object(vec![]),
                Json::Null,
                Json::Null,
            ]),
        ),
        ("retrieval_events", Json::Array(vec![Json::Null])),
    ]);
    assert_eq!(semantic_eval_top_ids(&report), texts(&["a", "b", "c"]));
    assert_eq!(semantic_eval_hit_count(&report), 4);
    assert_eq!(semantic_eval_hit_count(&Json::Null), 0);
    let seen = observe_semantic(&report, "text".to_string());
    assert_eq!(seen.hits, 4);
    assert_eq!(seen.haystack, "text");
}

#[test]
fn suites_are_known_by_digest_and_name() {
    assert_eq!(
        eval_suite_hash(""),
        "af1349b9f5f9a1a6a0404dea36dcc9499bcb25c9adc112b7cc9a93cae41f3262"
    );
    assert_eq!(
        eval_suite_hash("{}"),
        blake3::hash("{}".as_bytes()).to_hex().to_string()
    );
    assert_eq!(eval_suite_name(&None, "evals/core.json").as_deref(), Some("core"));
    assert_eq!(
        eval_suite_name(&Some("mine".to_string()), "evals/core.json").as_deref(),
        Some("mine")
    );
    assert_eq!(
        eval_failure("eval", 2).as_deref(),
        Some("eval failed: 2 cases failed")
    );
    assert_eq!(eval_failure("eval", 0), None);
}

fn findings() -> DoctorFindings {
    DoctorFindings {
        project_id: "game".to_string(),
        missing_roles: Vec::new(),
        smoke: Ok(SmokeReport {
            tools_count: 4,
            search_hits: 1,
            context_hits: 2,
            cross_project_hits: 0,
        }),
        audit: Ok(ProductionAuditReport {
            files_indexed: 1,
            code_symbols: 2,
            code_relations: 3,
            memory_hits: 4,
            cross_project_hits: 0,
            import_memories: 5,
        }),
        integration: Ok(CodexIntegrationReport {
            env_keys_configured: 3,
            env_keys_expected: 4,
            hook_events_configured: texts(&["start", "stop"]),
        }),
        total_memories: 1,
        memory_embeddings: 1,
        symbols: 2,
        symbol_embeddings: 2,
        relations: 1,
        resolved_relations: 1,
        freshness: CodeFreshnessReport {
            project_id: "game".to_string(),
            root_path: "/tmp/game".to_string(),
            files_seen: 1,
            indexed_files: 1,
            stale_files: Vec::new(),
            missing_files: Vec::new(),
            deleted_files: Vec::new(),
        },
        ra_references: 1,
        ra_calls: 1,
        eval: Some(Ok(EvalTotals {
            total_cases: 1,
            passed_cases: 1,
            failed_cases: 0,
        })),
        diagnostics: None,
        launchd: Some(None),
    }
}

#[test]
fn the_doctor_passes_where_nothing_failed() {
    let checks = deep_checks(&findings());
    assert_eq!(checks.len(), 13);
    assert_eq!(outcome(&checks), Ok(()));
    let lines = checks.iter().map(check_line).collect::<Vec<_>>();
    assert_eq!(
        lines,
        texts(&[
            "- model_roles: ok (all configured roles are available)",
            "- mcp_smoke: ok (4 tools, search_hits=1, context_hits=2, cross_project_hits=0)",
            "- production_audit: ok (files=1, symbols=2, relations=3, memory_hits=4, cross_project_hits=0, import_memories=5)",
            "- codex_integration: ok (mcp configured, env=3/4, hooks=start,stop, hook dry-run ok)",
            "- memory_embeddings: ok (1/1 memories embedded)",
            "- code_symbol_embeddings: ok (2/2 symbols embedded)",
            "- code_relation_targets: ok (1/1 relations resolved)",
            "- code_index_freshness: ok (1 indexed files match disk for /tmp/game)",
            "- ra_references: ok (1 rust-analyzer references imported)",
            "- ra_calls: ok (1 rust-analyzer call edges imported)",
            "- eval: ok (built-in eval passed 1/1 cases)",
            "- rust_analyzer_diagnostics: skip (skipped by --skip-rust-analyzer-diagnostics)",
            "- launchd: skip (not macOS)",
        ])
    );
}

#[test]
fn the_doctor_names_what_failed() {
    let checks = deep_checks(&DoctorFindings {
        missing_roles: texts(&["embed: x", "code: y"]),
        smoke: Err("no tools".to_string()),
        eval: Some(Ok(EvalTotals {
            total_cases: 2,
            passed_cases: 1,
            failed_cases: 1,
        })),
        ..findings()
    });
    assert_eq!(
        outcome(&checks).unwrap_err(),
        "doctor deep failed: model_roles: missing embed: x, code: y; mcp_smoke: no tools; \
         eval: built-in eval failed 1/2 cases"
    );
}

#[test]
fn the_doctor_looks_for_its_sentinel() {
    let suite = sentinel_suite();
    assert_eq!(suite.name.as_deref(), Some("doctor-readiness"));
    let memory = sentinel_memory("project", "archival");
    let seen = EvalObserved {
        hits: 1,
        haystack: memory.body.clone(),
        top_ids: texts(&["m"]),
    };
    assert!(assess_case(&suite.cases[0], 0, "p", seen, 1, 1).passed);
}

#[test]
fn models_are_listed_and_missed() {
    let roles = vec![
        ModelRole {
            role: "embed".to_string(),
            model: "e".to_string(),
            available: true,
        },
        ModelRole {
            role: "code".to_string(),
            model: "c".to_string(),
            available: false,
        },
    ];
    assert_eq!(missing_roles(&roles), texts(&["code: c"]));
    let model = InstalledModel {
        name: "e".to_string(),
        parameter_size: None,
        context_length: Some(8192),
        embedding_length: None,
        capabilities: Some(texts(&["embed", "chat"])),
    };
    assert_eq!(
        model_line(&model),
        "- e params=- context=8192 embedding=- caps=embed,chat"
    );
}

#[test]
fn commands_tell_how_they_ended() {
    assert_eq!(failure_detail("exit 1", "", ""), "command exited with exit 1");
    assert_eq!(failure_detail("exit 1", "o", ""), "command exited with exit 1: o");
    assert_eq!(failure_detail("exit 1", "", "e"), "command exited with exit 1: e");
    assert_eq!(
        command_failure_detail("exit 1", &b" o\n".to_vec(), &b"e\n".to_vec()),
        "command exited with exit 1: e; stdout: o"
    );
    let exited = |success: bool, out: &str, err: &str| CommandOutcome::Exited {
        success,
        status: "exit 2".to_string(),
        stdout: out.as_bytes().to_vec(),
        stderr: err.as_bytes().to_vec(),
    };
    assert_eq!(rust_analyzer_status(&exited(true, "ra 1.0\n", "")), "ra 1.0");
    assert_eq!(rust_analyzer_status(&exited(true, "", "")), "available");
    assert_eq!(rust_analyzer_status(&exited(false, "", "")), "unavailable (exit 2)");
    assert_eq!(rust_analyzer_status(&exited(false, "", "bad\n")), "unavailable (bad)");
    assert_eq!(
        rust_analyzer_status(&CommandOutcome::NotRun("not found".to_string())),
        "missing (not found)"
    );
    let check = rust_analyzer_diagnostics_check(&exited(true, "", "WeakWarning x WeakWarning"));
    assert_eq!(check.state, ReadinessState::Ready);
    assert_eq!(check.detail, "diagnostic scan complete with 2 weak warnings");
    let check = rust_analyzer_diagnostics_check(&exited(false, "o", ""));
    assert_eq!(check.state, ReadinessState::Fail);
    assert_eq!(count_found("aaaa", "aa"), 2);
    assert_eq!(count_found("abc", "abcd"), 0);
}

#[test]
fn paths_are_told_in_short() {
    assert_eq!(summarize_paths(&Vec::new()), "0");
    assert_eq!(summarize_paths(&texts(&["a", "b", "c"])), "a,b,c");
    assert_eq!(summarize_paths(&texts(&["a", "b", "c", "d", "e"])), "a,b,c+2");
}

#[test]
fn impact_is_the_set_of_files() {
    let files = |from: &str, target: Option<&str>| RelationFiles {
        from_file: from.to_string(),
        target_file: target.map(str::to_string),
    };
    assert_eq!(
        impacted_files_for_relations(
            &Some("src/z.rs".to_string()),
            &vec![files("src/b.rs", Some("src/a.rs")), files("src/b.rs", None)],
        ),
        texts(&["src/a.rs", "src/b.rs", "src/z.rs"])
    );
    assert!(impacted_files_for_relations(&None, &Vec::new()).is_empty());
}

#[test]
fn commands_read_their_arguments() {
    assert_eq!(
        code_memory_request("archive", Some("m".to_string())),
        Ok(CodeMemoryRequest::Archive("m".to_string()))
    );
    assert_eq!(
        code_memory_request("promote", None),
        Err("code-memory --action promote requires --id".to_string())
    );
    assert_eq!(code_memory_request("list", None), Ok(CodeMemoryRequest::Search));
    assert_eq!(
        code_memory_request("x", None),
        Err("invalid code-memory action `x`".to_string())
    );
    assert_eq!(
        edge_end(None, Some("n".to_string()), "missing"),
        Ok(EdgeEnd::Named("n".to_string()))
    );
    assert_eq!(
        edge_end(Some("i".to_string()), Some("n".to_string()), "missing"),
        Ok(EdgeEnd::Known("i".to_string()))
    );
    assert_eq!(edge_end(None, None, "missing"), Err("missing".to_string()));
    assert_eq!(search_query(&Some("  ".to_string())), None);
    assert_eq!(search_query(&Some("q".to_string())), Some("q".to_string()));
    assert!(profile_update(None, None, None, None, Vec::new()).is_none());
    let update = profile_update(None, None, None, None, texts(&["game"])).unwrap();
    assert_eq!(update.domains, Some(texts(&["game"])));
    let config = Config {
        database_url: String::new(),
        database_marker: String::new(),
        ollama_base_url: String::new(),
        ollama_embed_model: "memory-model".to_string(),
        ollama_llm_model: String::new(),
        fast_embed_model: "code-model".to_string(),
        validate_model: String::new(),
        fast_code_model: String::new(),
        deep_code_model: String::new(),
        agent_code_model: String::new(),
        experiment_model: String::new(),
    };
    assert_eq!(embed_model_for_role(&config, "embed"), Ok("memory-model".to_string()));
    assert_eq!(embed_model_for_role(&config, "code"), Ok("code-model".to_string()));
    assert!(embed_model_for_role(&config, "deep").is_err());
}
