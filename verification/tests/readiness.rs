use dukememory::readiness::{
    code_index_freshness_readiness_check, code_relation_readiness_check,
    embedding_readiness_checks, launchd_output_readiness_check, ra_call_readiness_check,
    ra_reference_readiness_check, CodeFreshnessReport, ReadinessState,
};

#[test]
fn embedding_readiness_fails_on_missing_vectors() {
    let checks = embedding_readiness_checks(3, 2, 10, 10);
    assert_eq!(checks[0].state, ReadinessState::Fail);
    assert_eq!(checks[1].state, ReadinessState::Ready);

    let checks = embedding_readiness_checks(3, 3, 10, 9);
    assert_eq!(checks[0].state, ReadinessState::Ready);
    assert_eq!(checks[1].state, ReadinessState::Fail);
}

#[test]
fn embedding_readiness_skips_code_when_no_symbols_are_indexed() {
    let checks = embedding_readiness_checks(0, 0, 0, 0);
    assert_eq!(checks[0].state, ReadinessState::Ready);
    assert_eq!(checks[1].state, ReadinessState::Skip);
}

#[test]
fn code_relation_readiness_requires_some_resolved_targets_when_relations_exist() {
    assert_eq!(
        code_relation_readiness_check(0, 0).state,
        ReadinessState::Skip
    );
    assert_eq!(
        code_relation_readiness_check(10, 0).state,
        ReadinessState::Fail
    );
    assert_eq!(
        code_relation_readiness_check(10, 4).state,
        ReadinessState::Ready
    );
}

#[test]
fn code_index_freshness_readiness_reports_stale_files() {
    let fresh = CodeFreshnessReport {
        project_id: "game".to_string(),
        root_path: "/tmp/game".to_string(),
        files_seen: 2,
        indexed_files: 2,
        stale_files: Vec::new(),
        missing_files: Vec::new(),
        deleted_files: Vec::new(),
    };
    assert_eq!(
        code_index_freshness_readiness_check(&fresh).state,
        ReadinessState::Ready
    );

    let stale = CodeFreshnessReport {
        stale_files: vec!["src/lib.rs".to_string()],
        missing_files: vec!["src/new.rs".to_string()],
        deleted_files: vec!["Cargo.toml".to_string()],
        ..fresh
    };
    let check = code_index_freshness_readiness_check(&stale);
    assert_eq!(check.state, ReadinessState::Fail);
    assert!(check.detail.contains("run code-index"));
}

#[test]
fn ra_reference_readiness_requires_lsif_import_when_code_is_indexed() {
    assert_eq!(
        ra_reference_readiness_check(0, 0).state,
        ReadinessState::Skip
    );
    assert_eq!(
        ra_reference_readiness_check(10, 0).state,
        ReadinessState::Fail
    );
    assert_eq!(
        ra_reference_readiness_check(10, 4).state,
        ReadinessState::Ready
    );
}

#[test]
fn ra_call_readiness_requires_lsif_call_edges_when_references_exist() {
    assert_eq!(ra_call_readiness_check(0, 0, 0).state, ReadinessState::Skip);
    assert_eq!(
        ra_call_readiness_check(10, 0, 0).state,
        ReadinessState::Skip
    );
    assert_eq!(
        ra_call_readiness_check(10, 4, 0).state,
        ReadinessState::Fail
    );
    assert_eq!(ra_call_readiness_check(10, 4, 2).state, ReadinessState::Ready);
}

#[test]
fn launchd_readiness_requires_project_pin_and_successful_last_exit() {
    let output = r#"
gui/501/com.dukememory.maintenance = {
    arguments = {
        /tmp/dukememory
        maintenance
        --all
        --backup
        --apply
        --project
        game-a
    }
    last exit code = 0
    run interval = 21600 seconds
}
"#;
    assert_eq!(
        launchd_output_readiness_check(output, "game-a").state,
        ReadinessState::Ready
    );
    assert_eq!(
        launchd_output_readiness_check(output, "game-b").state,
        ReadinessState::Fail
    );
    assert_eq!(
        launchd_output_readiness_check(&output.replace("last exit code = 0", ""), "game-a")
            .state,
        ReadinessState::Fail
    );
}
