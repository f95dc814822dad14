use orbit_state::error::{Category, Error};
use orbit_state::schema::{
    AcType, AcceptanceCriterion, Card, CardMaturity, MemoryConsidered, Spec, SpecStatus, TaskEvent,
    TaskEventKind,
};
use orbit_state::verbs::close::{close_gates, closed_result, link_closed_spec, spec_ref};
use orbit_state::verbs::results::SpecCloseResult;

fn ac(id: &str, gate: bool, checked: bool, ac_type: AcType) -> AcceptanceCriterion {
    AcceptanceCriterion {
        id: id.into(),
        description: format!("description for {id}"),
        gate,
        checked,
        verification: None,
        ac_type,
    }
}

fn spec(id: &str, cards: Vec<String>, acs: Vec<AcceptanceCriterion>) -> Spec {
    Spec {
        id: id.into(),
        goal: "g".into(),
        cards,
        status: SpecStatus::Open,
        labels: vec![],
        acceptance_criteria: acs,
        memories_considered: vec![],
    }
}

fn card(feature: &str) -> Card {
    Card {
        id: None,
        feature: feature.into(),
        as_a: None,
        i_want: None,
        so_that: None,
        goal: "goal".into(),
        scenarios: vec![],
        maturity: CardMaturity::Planned,
        specs: vec![],
        relations: vec![],
        references: vec![],
        notes: vec![],
        park: None,
    }
}

fn event(task: &str, kind: TaskEventKind) -> TaskEvent {
    TaskEvent {
        task_id: task.into(),
        spec_id: "0001".into(),
        event: kind,
        body: None,
        labels: vec![],
        timestamp: "2026-05-07T12:00:00Z".into(),
    }
}

/// Runs the close pipeline over in-memory values: the gates, the card
/// links, and the closed result.
fn close(
    s: &Spec,
    force: bool,
    matched: &[&str],
    events: &[TaskEvent],
    cards: Vec<(String, Card)>,
) -> Result<(SpecCloseResult, Vec<(String, Card)>), Error> {
    let matched: Vec<String> = matched.iter().map(|m| m.to_string()).collect();
    let gates = close_gates(s, force, "spec.close", &matched, &events.to_vec())?;
    let (linked, changed) = link_closed_spec(&s.id, cards);
    Ok((closed_result(s.clone(), gates, changed, vec![]), linked))
}

fn one_card() -> Vec<(String, Card)> {
    vec![("0020-orbit-state".to_string(), card("orbit state"))]
}

#[test]
fn spec_close_rejects_unchecked_acs() {
    let s = spec(
        "0001",
        vec!["0020-orbit-state".into()],
        vec![
            ac("ac-01", false, true, AcType::Code),
            ac("ac-02", false, false, AcType::Code),
            ac("ac-03", false, false, AcType::Code),
        ],
    );
    let err = close(&s, false, &[], &[], one_card()).unwrap_err();
    assert!(err.rendered().starts_with("spec.close: conflict: "), "got {}", err.rendered());
    assert!(err.message.contains("ac-02"));
    assert!(err.message.contains("ac-03"));
    assert_eq!(err.message, "2 unchecked blocking AC(s) in spec '0001': ac-02, ac-03");
}

#[test]
fn spec_close_unchecked_gate_ac_flagged_in_error() {
    let s = spec(
        "0001",
        vec!["0020-orbit-state".into()],
        vec![ac("ac-01", true, false, AcType::Code), ac("ac-02", false, false, AcType::Code)],
    );
    let err = close(&s, false, &[], &[], one_card()).unwrap_err();
    assert!(err.message.contains("ac-01"));
    assert!(err.message.contains("ac-02"));
    assert!(err.message.contains("(gate: ac-01)"), "missing gate suffix in: {}", err.message);
}

#[test]
fn spec_close_force_proceeds_despite_unchecked() {
    let s = spec(
        "0001",
        vec!["0020-orbit-state".into()],
        vec![
            ac("ac-01", false, true, AcType::Code),
            ac("ac-02", false, false, AcType::Code),
            ac("ac-03", false, false, AcType::Code),
        ],
    );
    let (r, _) = close(&s, true, &[], &[], one_card()).unwrap();
    assert_eq!(r.spec.status, SpecStatus::Closed);
    assert_eq!(r.cards_updated, vec!["0020-orbit-state".to_string()]);
    assert_eq!(r.forced_unchecked, vec!["ac-02".to_string(), "ac-03".to_string()]);
    assert!(r.deferrable_open.is_empty());
}

#[test]
fn spec_close_observation_acs_do_not_block() {
    let s = spec(
        "0001",
        vec!["0020-orbit-state".into()],
        vec![
            ac("ac-01", false, true, AcType::Code),
            ac("ac-02", false, false, AcType::Observation),
            ac("ac-03", false, false, AcType::Observation),
        ],
    );
    let (r, _) = close(&s, false, &[], &[], one_card()).unwrap();
    assert_eq!(r.spec.status, SpecStatus::Closed);
    assert!(r.forced_unchecked.is_empty());
    assert_eq!(r.deferrable_open, vec!["ac-02".to_string(), "ac-03".to_string()]);
}

#[test]
fn spec_close_mixed_blocking_and_deferrable() {
    let s = spec(
        "0001",
        vec!["0020-orbit-state".into()],
        vec![ac("ac-01", false, false, AcType::Code), ac("ac-02", false, false, AcType::Observation)],
    );
    let err = close(&s, false, &[], &[], one_card()).unwrap_err();
    assert!(err.rendered().contains("blocking AC"));
    assert!(err.message.contains("ac-01"));
    assert!(!err.message.contains("ac-02"));
}

#[test]
fn spec_close_doc_ac_blocks() {
    let s = spec(
        "0001",
        vec!["0020-orbit-state".into()],
        vec![ac("ac-01", false, true, AcType::Code), ac("ac-02", false, false, AcType::Doc)],
    );
    let err = close(&s, false, &[], &[], one_card()).unwrap_err();
    assert!(err.message.contains("ac-02"));
}

#[test]
fn spec_close_ops_ac_defers() {
    let s = spec(
        "0001",
        vec!["0020-orbit-state".into()],
        vec![ac("ac-01", false, true, AcType::Code), ac("ac-02", false, false, AcType::Ops)],
    );
    let (r, _) = close(&s, false, &[], &[], one_card()).unwrap();
    assert_eq!(r.spec.status, SpecStatus::Closed);
    assert_eq!(r.deferrable_open, vec!["ac-02".to_string()]);
}

#[test]
fn spec_close_already_closed_is_conflict() {
    let mut s = spec("0001", vec![], vec![]);
    s.status = SpecStatus::Closed;
    let err = close(&s, false, &[], &[], vec![]).unwrap_err();
    assert!(err.rendered().starts_with("spec.close: conflict: "));
    assert_eq!(err.message, "spec '0001' already closed");
}

#[test]
fn spec_close_rejects_unfinished_tasks() {
    let s = spec("0001", vec![], vec![]);
    let events = vec![
        event("t-b", TaskEventKind::Open),
        event("t-a", TaskEventKind::Open),
        event("t-a", TaskEventKind::Done),
        event("t-c", TaskEventKind::Open),
    ];
    let err = close(&s, false, &[], &events, vec![]).unwrap_err();
    assert_eq!(err.category, Category::Conflict);
    assert_eq!(err.message, "2 unfinished task(s) under spec '0001': t-b, t-c");
}

#[test]
fn spec_close_force_does_not_bypass_unfinished_tasks() {
    let s = spec("0001", vec![], vec![]);
    let events = vec![event("t-a", TaskEventKind::Claim)];
    let err = close(&s, true, &[], &events, vec![]).unwrap_err();
    assert_eq!(err.message, "1 unfinished task(s) under spec '0001': t-a");
}

#[test]
fn spec_close_blocks_when_matching_memory_is_unreconciled() {
    let s = spec("0001", vec![], vec![]);
    let err = close(&s, false, &["estimate-guard"], &[], vec![]).unwrap_err();
    assert_eq!(err.category, Category::Conflict);
    assert_eq!(
        err.message,
        "1 unreconciled memory matching spec '0001': estimate-guard — reconcile via spec.memories_considered or pass --force"
    );
}

#[test]
fn spec_close_unreconciled_plural_wording() {
    let s = spec("0001", vec![], vec![]);
    let err = close(&s, false, &["a", "b"], &[], vec![]).unwrap_err();
    assert!(err.message.starts_with("2 unreconciled memories matching spec '0001': a, b"));
}

#[test]
fn spec_close_succeeds_when_matching_memory_is_reconciled() {
    let mut s = spec("0001", vec![], vec![]);
    s.memories_considered = vec![MemoryConsidered { key: "estimate-guard".into() }];
    let (r, _) = close(&s, false, &["estimate-guard"], &[], vec![]).unwrap();
    assert_eq!(r.spec.status, SpecStatus::Closed);
    assert!(r.forced_unreconciled.is_empty());
}

#[test]
fn spec_close_force_bypasses_memory_gate_and_records_forced_unreconciled() {
    let s = spec("0001", vec![], vec![]);
    let (r, _) = close(&s, true, &["estimate-guard"], &[], vec![]).unwrap();
    assert_eq!(r.forced_unreconciled, vec!["estimate-guard".to_string()]);
}

#[test]
fn spec_close_does_not_block_when_no_memories_match() {
    let s = spec("0001", vec![], vec![]);
    let (r, _) = close(&s, false, &[], &[], vec![]).unwrap();
    assert_eq!(r.spec.status, SpecStatus::Closed);
    assert!(r.forced_unreconciled.is_empty());
}

#[test]
fn spec_close_flips_status_and_appends_to_linked_cards() {
    let s = spec("0001", vec!["0020-orbit-state".into()], vec![]);
    let (r, linked) = close(&s, false, &[], &[], one_card()).unwrap();
    assert_eq!(r.spec.status, SpecStatus::Closed);
    assert_eq!(r.cards_updated, vec!["0020-orbit-state".to_string()]);
    assert_eq!(linked[0].1.specs, vec![".orbit/specs/0001/spec.yaml".to_string()]);
    assert_eq!(linked[0].1.feature, "orbit state");
}

#[test]
fn spec_close_idempotent_when_card_already_has_ref() {
    let s = spec("0001", vec!["0020-orbit-state".into()], vec![]);
    let mut c = card("orbit state");
    c.specs.push(".orbit/specs/0001/spec.yaml".into());
    let (r, linked) = close(&s, false, &[], &[], vec![("0020-orbit-state".into(), c)]).unwrap();
    assert!(r.cards_updated.is_empty());
    assert_eq!(linked[0].1.specs, vec![".orbit/specs/0001/spec.yaml".to_string()]);
}

#[test]
fn spec_ref_points_at_folder_spec_file() {
    assert_eq!(spec_ref("2026-05-01-x"), ".orbit/specs/2026-05-01-x/spec.yaml");
}

#[test]
fn spec_close_gates_meet_status_before_acs() {
    let mut s = spec("0001", vec![], vec![ac("ac-01", false, false, AcType::Code)]);
    s.status = SpecStatus::Closed;
    let err = close(&s, false, &["m"], &[], vec![]).unwrap_err();
    assert_eq!(err.message, "spec '0001' already closed");
}

#[test]
fn spec_close_gates_meet_acs_before_memories() {
    let s = spec("0001", vec![], vec![ac("ac-01", false, false, AcType::Config)]);
    let err = close(&s, false, &["m"], &[event("t", TaskEventKind::Open)], vec![]).unwrap_err();
    assert!(err.message.starts_with("1 unchecked blocking AC(s)"));
}
