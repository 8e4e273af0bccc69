use dukememory::config::Config;
use dukememory::json::Json;
use dukememory::listings::list_maintenance_report;
use dukememory::maintenance::{
    chosen_steps, DatabaseBackupReport, MaintenanceOptions, MaintenanceRun, MaintenanceStep,
    StepFlags, StepOutcome, ValidationAction, ValidationDecision, ValidationReport,
};
use dukememory::maintenance_steps::{
    compaction_limit, compaction_report, embedding_report, embedding_request, failed_compaction,
    feedback_limit, feedback_report, feedback_to_apply, skip_compaction, string_array_field,
    unapplied_feedback, validation_changes, validation_limit, validation_report, AuditEvent,
    FeedbackEffect,
};
use dukememory::memory_writes::{
    candidate_memory, compaction_archives, compaction_memory, summary_id, ChangeKind,
    CompactionProposal, MemoryCandidate, RememberOutcome,
};
use dukememory::records::MemoryStatus;

fn config() -> Config {
    Config {
        database_url: "postgresql://dukememory-test@localhost:55432/dukememory_test".to_string(),
        database_marker: "/tmp/marker".to_string(),
        ollama_base_url: "http://127.0.0.1:1".to_string(),
        ollama_embed_model: "test-embed".to_string(),
        ollama_llm_model: "test-llm".to_string(),
        fast_embed_model: "test-fast-embed".to_string(),
        validate_model: "test-validate".to_string(),
        fast_code_model: "test-fast-code".to_string(),
        deep_code_model: "test-deep-code".to_string(),
        agent_code_model: "test-agent-code".to_string(),
        experiment_model: "test-experiment".to_string(),
    }
}

fn options() -> MaintenanceOptions {
    MaintenanceOptions {
        apply: false,
        backup: false,
        backup_output: None,
        validate_pending: false,
        validate_limit: 20,
        compact: false,
        compact_limit: 40,
        compact_min_memories: 20,
        feedback: false,
        feedback_limit: 100,
        embed_missing: false,
        embed_limit: 50,
        embed_scope: "all".to_string(),
    }
}

fn proposal() -> CompactionProposal {
    CompactionProposal {
        model: "llm".to_string(),
        summary_kind: "summary".to_string(),
        summary_body: "All in one".to_string(),
        tags: vec!["a".to_string()],
        reason: "they repeat".to_string(),
        source_ids: vec!["m1".to_string(), "m2".to_string()],
    }
}

#[test]
fn maintenance_skips_compaction_when_not_enough_memories_without_ollama() {
    let mut run = MaintenanceRun::start(
        &config(),
        "game-a",
        MaintenanceOptions {
            compact: true,
            ..options()
        },
    );
    assert_eq!(run.next_step(), Some(MaintenanceStep::Compaction));
    let report = skip_compaction(0, run.options.compact_min_memories, run.options.apply).unwrap();
    run.accept(StepOutcome::Compaction(Ok(report))).unwrap();
    assert_eq!(run.next_step(), None);
    let compaction = run.report.compaction.expect("compaction report");
    assert_eq!(compaction.status, "skipped");
    assert_eq!(compaction.candidate_memories, 0);
}

#[test]
fn maintenance_reports_missing_embeddings_without_apply_or_ollama() {
    let mut run = MaintenanceRun::start(
        &config(),
        "game-a",
        MaintenanceOptions {
            embed_missing: true,
            embed_scope: "memories".to_string(),
            ..options()
        },
    );
    assert_eq!(run.next_step(), Some(MaintenanceStep::Embeddings));
    let request = embedding_request("memories", 50).unwrap();
    assert!(request.memories);
    assert!(!request.code);
    let report = embedding_report(&config(), "memories", 50, 1, 0, None);
    run.accept(StepOutcome::Embeddings(Ok(report))).unwrap();
    let embeddings = run.report.embeddings.expect("embedding report");
    assert_eq!(embeddings.memories_missing, 1);
    assert_eq!(embeddings.memories_embedded, 0);
    assert_eq!(embeddings.memory_model, "test-embed");
    assert_eq!(embeddings.code_model, "test-fast-embed");
    assert!(!embeddings.apply);
}

#[test]
fn a_run_takes_its_steps_in_order() {
    let mut run = MaintenanceRun::start(
        &config(),
        "game",
        MaintenanceOptions {
            backup: true,
            validate_pending: true,
            feedback: true,
            embed_missing: true,
            ..options()
        },
    );
    assert_eq!(run.next_step(), Some(MaintenanceStep::Backup));
    run.accept(StepOutcome::Backup(Ok(DatabaseBackupReport {
        output: "dump".to_string(),
        size_bytes: 9,
    })))
    .unwrap();
    assert_eq!(run.next_step(), Some(MaintenanceStep::Validation));
    run.accept(StepOutcome::Validation(Err("no model".to_string())))
        .unwrap();
    assert_eq!(run.next_step(), Some(MaintenanceStep::Feedback));
    run.accept(StepOutcome::Feedback(Err("no log".to_string())))
        .unwrap();
    assert_eq!(run.next_step(), Some(MaintenanceStep::Embeddings));
    run.accept(StepOutcome::Embeddings(Err("no vectors".to_string())))
        .unwrap();
    assert_eq!(run.next_step(), None);
    assert_eq!(
        run.report.warnings,
        vec![
            "validation step failed: no model".to_string(),
            "feedback step failed: no log".to_string(),
            "embedding step failed: no vectors".to_string(),
        ]
    );
    let validation = run.report.validation.as_ref().unwrap();
    assert_eq!(validation.status, "failed");
    assert_eq!(validation.model, "test-validate");
    assert_eq!(
        validation.error.as_deref(),
        Some("validation step failed: no model")
    );
    assert_eq!(run.report.feedback.as_ref().unwrap().status, "failed");
    assert!(run.report.embeddings.is_none());
    assert!(run.report.compaction.is_none());

    let lines = list_maintenance_report(&run.report);
    assert_eq!(
        lines[..6],
        [
            "project: game".to_string(),
            "apply: false".to_string(),
            "backup: dump".to_string(),
            "backup_size_bytes: 9".to_string(),
            "validation_status: failed".to_string(),
            "validation_model: test-validate".to_string(),
        ]
    );
    assert_eq!(
        lines.last().unwrap(),
        "warning: embedding step failed: no vectors"
    );
}

#[test]
fn backups_and_stores_that_fail_end_the_run() {
    let mut run = MaintenanceRun::start(
        &config(),
        "game",
        MaintenanceOptions {
            backup: true,
            compact: true,
            ..options()
        },
    );
    assert_eq!(
        run.accept(StepOutcome::Backup(Err("disk full".to_string()))),
        Err("disk full".to_string())
    );
    assert_eq!(
        run.accept(StepOutcome::Compaction(Err("locked".to_string()))),
        Err("locked".to_string())
    );
    assert!(run.report.backup.is_none());
    assert!(run.report.warnings.is_empty());
}

#[test]
fn a_failed_summary_is_a_warning() {
    let mut run = MaintenanceRun::start(
        &config(),
        "game",
        MaintenanceOptions {
            compact: true,
            ..options()
        },
    );
    let report = failed_compaction(30, 20, false, "model is down".to_string());
    assert_eq!(report.status, "failed");
    run.accept(StepOutcome::Compaction(Ok(report))).unwrap();
    assert_eq!(
        run.report.warnings,
        vec!["compaction step failed: model is down".to_string()]
    );
}

#[test]
fn without_flags_pending_memories_are_validated_and_compacted() {
    let none = StepFlags {
        all: false,
        backup: false,
        validate_pending: false,
        compact: false,
        feedback: false,
        embed_missing: false,
    };
    let steps = chosen_steps(none);
    assert!(steps.validate_pending && steps.compact);
    assert!(!steps.backup && !steps.feedback && !steps.embed_missing);

    let steps = chosen_steps(StepFlags {
        feedback: true,
        ..none
    });
    assert!(steps.feedback && !steps.validate_pending && !steps.compact);

    let steps = chosen_steps(StepFlags { all: true, ..none });
    assert!(
        steps.backup
            && steps.validate_pending
            && steps.compact
            && steps.feedback
            && steps.embed_missing
    );
}

#[test]
fn limits_are_brought_into_bounds() {
    assert_eq!(validation_limit(0), 1);
    assert_eq!(validation_limit(501), 500);
    assert_eq!(compaction_limit(1), 2);
    assert_eq!(compaction_limit(44), 44);
    assert_eq!(feedback_limit(9999), 500);
}

#[test]
fn validation_counts_and_changes() {
    let decision = |id: &str, action| ValidationDecision {
        id: id.to_string(),
        action,
        reason: format!("because {id}"),
    };
    let decisions = vec![
        decision("a", ValidationAction::Promote),
        decision("b", ValidationAction::Keep),
        decision("c", ValidationAction::Archive),
        decision("d", ValidationAction::Promote),
    ];
    assert!(validation_changes(&decisions, false).is_empty());
    let changes = validation_changes(&decisions, true);
    let seen = changes
        .iter()
        .map(|change| (change.id.as_str(), change.kind, change.reason.as_deref()))
        .collect::<Vec<_>>();
    assert_eq!(
        seen,
        vec![
            ("a", ChangeKind::Promote, Some("because a")),
            ("c", ChangeKind::Archive, Some("because c")),
            ("d", ChangeKind::Promote, Some("because d")),
        ]
    );
    let report = validation_report(
        7,
        true,
        ValidationReport {
            model: "judge".to_string(),
            decisions,
        },
    );
    assert_eq!(report.status, "ok");
    assert_eq!((report.promote, report.archive, report.keep), (2, 1, 1));
    assert_eq!(report.pending, 7);
    assert_eq!(report.model, "judge");
}

#[test]
fn compaction_archives_what_it_sums_up() {
    let outcome = RememberOutcome {
        id: "new".to_string(),
        inserted: false,
        duplicate_of: Some("old".to_string()),
    };
    assert_eq!(summary_id(&outcome), "old");
    let archives = compaction_archives(&proposal(), "old");
    assert_eq!(
        archives
            .iter()
            .map(|change| (change.id.as_str(), change.kind, change.reason.as_deref()))
            .collect::<Vec<_>>(),
        vec![
            ("m1", ChangeKind::Archive, Some("compacted into old")),
            ("m2", ChangeKind::Archive, Some("compacted into old")),
        ]
    );
    let report = compaction_report(25, 20, proposal(), Some(&outcome));
    assert_eq!(report.status, "applied");
    let application = report.application.unwrap();
    assert_eq!(application.summary_id, "old");
    assert_eq!(application.archived_source_memories, 2);
    assert!(!application.inserted);

    let report = compaction_report(25, 20, proposal(), None);
    assert_eq!(report.status, "prepared");
    assert!(report.application.is_none());
    assert!(!report.apply);
}

#[test]
fn compaction_needs_two_memories_at_least() {
    assert!(skip_compaction(1, 0, true).is_some());
    assert!(skip_compaction(2, 0, true).is_none());
    assert!(skip_compaction(499, 1000, true).is_some());
    assert!(skip_compaction(500, 1000, true).is_none());
}

#[test]
fn summaries_and_candidates_are_stored_by_their_kind() {
    let memory = compaction_memory(&proposal(), "project", "archival", "dukememory_compact");
    assert_eq!(memory.status, MemoryStatus::Active);
    assert_eq!(memory.kind, "summary");
    assert_eq!(memory.source.as_deref(), Some("dukememory_compact"));
    assert_eq!(memory.status_reason.as_deref(), Some("they repeat"));

    let candidate = MemoryCandidate {
        kind: "fact".to_string(),
        body: "It rains".to_string(),
        tags: Vec::new(),
        reason: None,
    };
    let memory = candidate_memory(&candidate, "project", "archival", "chat");
    assert_eq!(memory.status, MemoryStatus::Pending);
    assert_eq!(memory.body, "It rains");
    assert!(!memory.allow_sensitive);
}

fn event(id: &str, action: &str, detail: Json) -> AuditEvent {
    AuditEvent {
        id: id.to_string(),
        action: action.to_string(),
        detail,
    }
}

fn text(s: &str) -> Json {
    Json::Text(s.to_string())
}

fn marker(id: &str, of: &str) -> AuditEvent {
    event(
        id,
        "dukememory_feedback_apply",
        Json::Object(vec![("feedback_event_id".to_string(), text(of))]),
    )
}

#[test]
fn feedback_is_applied_once() {
    let detail = || {
        Json::Object(vec![
            (
                "helpful_ids".to_string(),
                Json::Array(vec![text("m1"), Json::Null, text("m2")]),
            ),
            ("unhelpful_ids".to_string(), text("m3")),
        ])
    };
    let mut events = vec![
        event("e1", "dukememory_feedback", detail()),
        event("e2", "dukememory_feedback", detail()),
        marker("e3", "e1"),
        event("e4", "other", Json::Null),
    ];
    assert_eq!(unapplied_feedback(&events), vec![1]);
    assert!(feedback_to_apply(&events, false).is_empty());
    let applications = feedback_to_apply(&events, true);
    assert_eq!(applications.len(), 1);
    assert_eq!(applications[0].event_id, "e2");
    assert_eq!(
        applications[0].helpful_ids,
        vec!["m1".to_string(), "m2".to_string()]
    );
    assert!(applications[0].unhelpful_ids.is_empty());

    let effects = vec![FeedbackEffect {
        helpful_memories_updated: 2,
        unhelpful_memories_updated: 1,
    }];
    let report = feedback_report(&events, true, &effects);
    assert_eq!(report.status, "applied");
    assert_eq!(report.considered_events, 4);
    assert_eq!(report.unapplied_events, 1);
    assert_eq!(report.applied_events, 1);
    assert_eq!(report.helpful_memories_updated, 2);
    assert_eq!(report.unhelpful_memories_updated, 1);
    assert_eq!(feedback_report(&events, false, &Vec::new()).status, "dry_run");

    events.push(marker("e5", "e2"));
    assert!(unapplied_feedback(&events).is_empty());
}

#[test]
fn arrays_are_read_for_their_texts() {
    let value = Json::Object(vec![(
        "ids".to_string(),
        Json::Array(vec![text("a"), Json::Bool(true), Json::Number(Some(1)), text("b")]),
    )]);
    assert_eq!(
        string_array_field(&value, "ids"),
        vec!["a".to_string(), "b".to_string()]
    );
    assert!(string_array_field(&value, "other").is_empty());
    assert!(string_array_field(&Json::Null, "ids").is_empty());
}

#[test]
fn embeddings_know_their_scopes() {
    let all = embedding_request("all", 0).unwrap();
    assert!(all.memories && all.code);
    assert_eq!(all.limit, 1);
    assert!(embedding_request("code_symbols", 5).unwrap().code);
    assert_eq!(
        embedding_request("everything", 5).unwrap_err(),
        "invalid embed scope `everything`; use all, memories, or code"
    );
    let report = embedding_report(&config(), "all", 900, 3, 4, Some((1, 2)));
    assert!(report.apply);
    assert_eq!(report.limit, 500);
    assert_eq!((report.memories_embedded, report.code_symbols_embedded), (1, 2));
}
