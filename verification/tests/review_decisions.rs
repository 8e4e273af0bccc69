use dukememory::review::{
    apply_review_decisions, load_review_decisions, parse_review_decision, ReviewDecisionInput,
    ReviewKind,
};

fn decision(id: &str, action: &str) -> ReviewDecisionInput {
    ReviewDecisionInput {
        id: id.to_string(),
        action: action.to_string(),
        reason: None,
    }
}

#[test]
fn decisions_are_read_from_texts() {
    let read = parse_review_decision("promote:m1:it is so: really").unwrap();
    assert_eq!(read.action, "promote");
    assert_eq!(read.id, "m1");
    assert_eq!(read.reason.as_deref(), Some("it is so: really"));
    assert!(parse_review_decision("keep:m2").unwrap().reason.is_none());
    assert!(parse_review_decision("keep:m2:  ").unwrap().reason.is_none());
    assert_eq!(
        parse_review_decision(" :m2").unwrap_err(),
        "review decision is missing action"
    );
    assert_eq!(
        parse_review_decision("keep").unwrap_err(),
        "review decision is missing id"
    );
    assert_eq!(
        parse_review_decision("keep: :x").unwrap_err(),
        "review decision is missing id"
    );
}

#[test]
fn decisions_are_gathered_from_file_and_texts() {
    let all = load_review_decisions(
        vec![decision("m1", "keep")],
        &vec!["archive:m2".to_string()],
    )
    .unwrap();
    assert_eq!(all.len(), 2);
    assert_eq!(all[0].id, "m1");
    assert_eq!(all[1].id, "m2");
    assert_eq!(
        load_review_decisions(Vec::new(), &Vec::new()).unwrap_err(),
        "review-apply requires --decision or --file"
    );
    assert_eq!(
        load_review_decisions(vec![decision("m1", "keep")], &vec!["bad".to_string()]).unwrap_err(),
        "review decision is missing id"
    );
}

#[test]
fn a_dry_run_foretells_the_review() {
    let decisions = vec![
        decision("a", "promote"),
        decision("b", "archive"),
        decision("c", "keep"),
        decision("d", "keep"),
    ];
    let dry = apply_review_decisions("game", &decisions, true);
    let wet = apply_review_decisions("game", &decisions, false);
    assert!(dry.actions.is_empty());
    assert_eq!(wet.actions.len(), 4);
    assert_eq!(wet.actions[0].kind, ReviewKind::Promote);
    assert_eq!(wet.actions[0].audit_action, "review_promote");
    assert_eq!(wet.actions[1].audit_action, "review_archive");
    assert_eq!(wet.actions[2].audit_action, "review_keep");
    let dry = dry.outcome.unwrap();
    let wet = wet.outcome.unwrap();
    assert_eq!((dry.promoted, dry.archived, dry.kept), (1, 1, 2));
    assert_eq!((wet.promoted, wet.archived, wet.kept), (1, 1, 2));
    assert!(dry.dry_run && !wet.dry_run);
    assert_eq!(dry.decisions.len(), 4);
}

#[test]
fn an_unknown_action_stops_the_review_there() {
    let decisions = vec![
        decision("a", "promote"),
        decision("b", "destroy"),
        decision("c", "keep"),
    ];
    let plan = apply_review_decisions("game", &decisions, false);
    assert_eq!(plan.actions.len(), 1);
    assert_eq!(
        plan.outcome.unwrap_err(),
        "invalid review action `destroy`; use promote, archive, or keep"
    );
}
