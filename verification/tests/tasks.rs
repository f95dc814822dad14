use orbit_state::error::Category;
use orbit_state::schema::{TaskEvent, TaskEventKind};
use orbit_state::verbs::tasklist::{collect_task_states, task_list, task_ready};
use orbit_state::verbs::tasks::{check_lifecycle_transition, reduce_task_events, task_open_conflict, task_show, validate_state_filter};

fn ev(spec: &str, task: &str, kind: TaskEventKind, ts: &str) -> TaskEvent {
    TaskEvent {
        task_id: task.into(),
        spec_id: spec.into(),
        event: kind,
        body: None,
        labels: vec![],
        timestamp: ts.into(),
    }
}

#[test]
fn task_list_reduces_to_current_state() {
    let stream = vec![
        ev("0001", "first", TaskEventKind::Open, "2026-05-07T12:00:00Z"),
        ev("0001", "second", TaskEventKind::Open, "2026-05-07T12:00:00Z"),
        ev("0001", "first", TaskEventKind::Claim, "2026-05-07T12:00:01Z"),
    ];
    let r = task_list("task.list", &None, &vec![stream]).unwrap();
    assert_eq!(r.tasks.len(), 2);
    assert_eq!(r.tasks[0].task_id, "first");
    assert_eq!(r.tasks[0].state, "claim");
    assert_eq!(r.tasks[0].event_count, 2);
    assert_eq!(r.tasks[1].task_id, "second");
    assert_eq!(r.tasks[1].state, "open");
}

#[test]
fn task_ready_excludes_claimed_and_done() {
    let stream = vec![
        ev("0001", "ready1", TaskEventKind::Open, "2026-05-07T12:00:00Z"),
        ev("0001", "claimed", TaskEventKind::Open, "2026-05-07T12:00:00Z"),
        ev("0001", "done", TaskEventKind::Open, "2026-05-07T12:00:00Z"),
        ev("0001", "claimed", TaskEventKind::Claim, "2026-05-07T12:00:01Z"),
        ev("0001", "done", TaskEventKind::Done, "2026-05-07T12:00:02Z"),
    ];
    let r = task_ready(&vec![stream]);
    assert_eq!(r.tasks.len(), 1);
    assert_eq!(r.tasks[0].task_id, "ready1");
}

#[test]
fn task_ready_matches_task_list_open_filter() {
    let streams = vec![
        vec![
            ev("0002", "b", TaskEventKind::Open, "t1"),
            ev("0002", "a", TaskEventKind::Open, "t1"),
            ev("0002", "b", TaskEventKind::Done, "t2"),
        ],
        vec![ev("0001", "z", TaskEventKind::Open, "t1")],
    ];
    let ready = task_ready(&streams);
    let listed = task_list("task.list", &Some("open".into()), &streams).unwrap();
    assert_eq!(ready.tasks, listed.tasks);
}

#[test]
fn collect_task_states_orders_by_spec_then_task() {
    let streams = vec![
        vec![ev("0002", "b", TaskEventKind::Open, "t1"), ev("0002", "a", TaskEventKind::Open, "t1")],
        vec![ev("0001", "z", TaskEventKind::Open, "t1"), ev("0001", "c", TaskEventKind::Update, "t1")],
    ];
    let states = collect_task_states(&streams);
    let keys: Vec<(String, String)> =
        states.iter().map(|s| (s.spec_id.clone(), s.task_id.clone())).collect();
    assert_eq!(
        keys,
        vec![
            ("0001".to_string(), "c".to_string()),
            ("0001".to_string(), "z".to_string()),
            ("0002".to_string(), "a".to_string()),
            ("0002".to_string(), "b".to_string()),
        ]
    );
    assert_eq!(states[0].state, "update");
}

#[test]
fn collect_task_states_empty_streams() {
    assert!(collect_task_states(&vec![]).is_empty());
    assert!(collect_task_states(&vec![vec![]]).is_empty());
}

#[test]
fn task_list_unknown_state_is_malformed() {
    let err = task_list("task.list", &Some("bogus".into()), &vec![]).unwrap_err();
    assert_eq!(err.category, Category::Malformed);
    assert_eq!(err.rendered(), "task.list: malformed: state must be one of open|claim|update|done, got 'bogus'");
    assert!(validate_state_filter("task.list", &Some("done".into())).is_ok());
}

#[test]
fn reduce_task_events_takes_last_event_and_counts() {
    assert!(reduce_task_events(&vec![]).is_none());
    let evs = vec![
        ev("0001", "t", TaskEventKind::Open, "t1"),
        ev("0001", "t", TaskEventKind::Update, "t2"),
    ];
    let s = reduce_task_events(&evs).unwrap();
    assert_eq!(s.state, "update");
    assert_eq!(s.timestamp, "t2");
    assert_eq!(s.event_count, 2);
}

#[test]
fn task_show_unknown_task_is_not_found() {
    let evs = vec![ev("0001", "t", TaskEventKind::Open, "t1")];
    let err = task_show("task.show", "0001", "nope", &evs).unwrap_err();
    assert!(err.rendered().starts_with("task.show: not-found: "));
}

#[test]
fn task_show_returns_full_event_history() {
    let evs = vec![
        ev("0001", "t", TaskEventKind::Open, "2026-05-07T12:00:00Z"),
        ev("0001", "other", TaskEventKind::Open, "2026-05-07T12:00:00Z"),
        ev("0001", "t", TaskEventKind::Update, "2026-05-07T12:00:02Z"),
    ];
    let r = task_show("task.show", "0001", "t", &evs).unwrap();
    assert_eq!(r.events.len(), 2);
    assert_eq!(r.state.state, "update");
}

#[test]
fn task_claim_rejects_non_open_state() {
    let evs = vec![
        ev("0001", "t", TaskEventKind::Open, "2026-05-07T12:00:00Z"),
        ev("0001", "t", TaskEventKind::Claim, "2026-05-07T12:00:01Z"),
    ];
    let err = check_lifecycle_transition("task.claim", "0001", "t", TaskEventKind::Claim, &evs).unwrap_err();
    assert!(err.rendered().starts_with("task.claim: conflict: "));
}

#[test]
fn task_update_after_done_is_conflict() {
    let evs = vec![
        ev("0001", "t", TaskEventKind::Open, "2026-05-07T12:00:00Z"),
        ev("0001", "t", TaskEventKind::Done, "2026-05-07T12:00:01Z"),
    ];
    let err = check_lifecycle_transition("task.update", "0001", "t", TaskEventKind::Update, &evs).unwrap_err();
    assert!(err.rendered().starts_with("task.update: conflict: "));
    assert!(check_lifecycle_transition("task.done", "0001", "t", TaskEventKind::Done, &evs).is_err());
}

#[test]
fn task_transition_on_missing_task_is_not_found() {
    let err = check_lifecycle_transition("task.claim", "0001", "ghost", TaskEventKind::Claim, &vec![]).unwrap_err();
    assert_eq!(err.category, Category::NotFound);
}

#[test]
fn task_open_duplicate_id_is_conflict() {
    let evs = vec![ev("0001", "first", TaskEventKind::Open, "2026-05-07T12:00:00Z")];
    let err = task_open_conflict("task.open", "0001", "first", &evs).unwrap_err();
    assert!(err.rendered().starts_with("task.open: conflict: "));
    assert!(task_open_conflict("task.open", "0001", "again", &evs).is_ok());
}
