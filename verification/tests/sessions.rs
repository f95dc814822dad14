use orbit_state::error::Category;
use orbit_state::verbs::sessions::{card_arg, distilled_session, session_distill_id, session_start_id};

#[test]
fn session_start_with_id_arg_uses_verbatim() {
    let id = session_start_id("session.start", &Some("fixture-session-42".into())).unwrap();
    assert_eq!(id.as_deref(), Some("fixture-session-42"));
    // Without an id the caller generates one.
    assert_eq!(session_start_id("session.start", &None).unwrap(), None);
}

#[test]
fn session_start_id_refuses_newlines() {
    let e = session_start_id("session.start", &Some("a\nb".into())).unwrap_err();
    assert_eq!(e.category, Category::Malformed);
    assert_eq!(e.message, "id must not contain newline characters");
}

#[test]
fn session_distill_first_call_creates_file() {
    let id = session_distill_id("session.distill", &Some("sess-A".into())).unwrap().unwrap();
    let now = "2026-05-19T10:00:00Z".to_string();
    let s = distilled_session("session.distill", id, None, now.clone(), "first reflection".into(), None, vec![])
        .unwrap();
    assert_eq!(s.id, "sess-A");
    assert_eq!(s.distillate, "first reflection");
    assert_eq!(s.started_at, s.ended_at.as_deref().unwrap_or(""));
}

#[test]
fn session_distill_is_idempotent() {
    let first = distilled_session(
        "session.distill",
        "sess-B".into(),
        None,
        "2026-05-19T10:00:00Z".into(),
        "v1".into(),
        None,
        vec![],
    )
    .unwrap();
    let started = first.started_at.clone();
    let second = distilled_session(
        "session.distill",
        "sess-B".into(),
        Some(first.started_at),
        "2026-05-19T10:00:01Z".into(),
        "v2".into(),
        None,
        vec![],
    )
    .unwrap();
    assert_eq!(second.started_at, started);
    assert_ne!(second.ended_at.as_deref(), Some(started.as_str()));
    assert_eq!(second.distillate, "v2");
}

#[test]
fn session_distill_refuses_empty_distillate_and_blank_id() {
    let e = distilled_session("session.distill", "s".into(), None, "t".into(), "".into(), None, vec![]).unwrap_err();
    assert_eq!(e.message, "distillate must not be empty");
    let e = session_distill_id("session.distill", &Some("   ".into())).unwrap_err();
    assert_eq!(e.message, "session_id must not be empty");
}

#[test]
fn session_distill_card_id_none_when_no_arg_and_no_file() {
    assert_eq!(card_arg(&None), None);
    assert_eq!(card_arg(&Some("  ".into())), None);
    assert_eq!(card_arg(&Some(" 0042-x ".into())).as_deref(), Some("0042-x"));
}
