use orbit_state::schema::{Choice, ChoiceStatus, Session, Spec, SpecStatus};
use orbit_state::verbs::catalog::{choice_list, choice_search};
use orbit_state::verbs::sessions::pick_handover;
use orbit_state::verbs::specs::spec_list;

fn choice(slug: &str, title: &str, body: &str, status: ChoiceStatus) -> Choice {
    let id = slug.split('-').next().unwrap_or(slug).to_string();
    Choice {
        id,
        title: title.into(),
        status,
        date_created: "2026-05-07".into(),
        date_modified: None,
        body: body.into(),
        references: vec![],
    }
}

fn spec(id: &str, goal: &str, status: SpecStatus) -> Spec {
    Spec {
        id: id.into(),
        goal: goal.into(),
        cards: vec![],
        status,
        labels: vec![],
        acceptance_criteria: vec![],
        memories_considered: vec![],
    }
}

#[test]
fn spec_list_returns_empty_when_no_specs() {
    assert!(spec_list("spec.list", &vec![], &None).unwrap().is_empty());
}

#[test]
fn spec_list_returns_specs_sorted_by_id() {
    let specs = vec![spec("0002", "second", SpecStatus::Open), spec("0001", "first", SpecStatus::Open)];
    let r = spec_list("spec.list", &specs, &None).unwrap();
    let ids: Vec<&str> = r.iter().map(|s| s.id.as_str()).collect();
    assert_eq!(ids, vec!["0001", "0002"]);
}

#[test]
fn spec_list_status_filter_open_excludes_closed() {
    let specs = vec![spec("0001", "first", SpecStatus::Open), spec("0002", "second", SpecStatus::Closed)];
    let r = spec_list("spec.list", &specs, &Some("open".into())).unwrap();
    assert_eq!(r.len(), 1);
    assert_eq!(r[0].id, "0001");
}

#[test]
fn spec_list_invalid_status_filter_is_malformed() {
    let err = spec_list("spec.list", &vec![], &Some("nope".into())).unwrap_err();
    assert_eq!(err.rendered(), "spec.list: malformed: status must be 'open' or 'closed', got 'nope'");
}

#[test]
fn choice_list_filters_by_status() {
    let choices = vec![
        choice("0015-a", "first", "b", ChoiceStatus::Accepted),
        choice("0016-b", "second", "b", ChoiceStatus::Proposed),
    ];
    let r = choice_list("choice.list", &choices, &Some("accepted".into())).unwrap();
    assert_eq!(r.len(), 1);
    assert_eq!(r[0].id, "0015");
}

#[test]
fn choice_list_unknown_status_is_malformed() {
    let err = choice_list("choice.list", &vec![], &Some("maybe".into())).unwrap_err();
    assert_eq!(
        err.rendered(),
        "choice.list: malformed: status must be proposed|accepted|rejected|deprecated|superseded, got 'maybe'"
    );
}

#[test]
fn choice_search_hits_title_or_body() {
    let choices = vec![
        choice("0015-atomic", "Atomic writes", "trade-off discussion", ChoiceStatus::Accepted),
        choice("0016-other", "Other", "irrelevant", ChoiceStatus::Accepted),
    ];
    let r = choice_search("choice.search", "TRADE", &choices).unwrap();
    assert_eq!(r.len(), 1);
    assert_eq!(r[0].id, "0015");
    assert!(choice_search("choice.search", "", &choices).is_err());
}

fn session(slug: &str, started: &str, card: Option<&str>) -> Session {
    Session {
        id: slug.into(),
        started_at: started.into(),
        ended_at: Some(started.into()),
        distillate: format!("hi from {slug}"),
        card_id: card.map(String::from),
        labels: vec![],
    }
}

#[test]
fn session_handover_returns_null_when_no_sessions() {
    assert!(pick_handover(&vec![], &None, &None).is_none());
}

#[test]
fn session_handover_global_latest_across_cards() {
    let sessions = vec![
        session("sess-1", "2026-05-15T10:00:00Z", Some("0001-card-a")),
        session("sess-2", "2026-05-15T11:00:00Z", None),
        session("sess-3", "2026-05-15T12:00:00Z", Some("0036-session-handover")),
    ];
    let h = pick_handover(&sessions, &None, &None).expect("expected a handover");
    assert_eq!(h.session_id, "sess-3");
}

#[test]
fn session_handover_filters_by_card_and_since() {
    let sessions = vec![
        session("sess-new", "2026-05-15T12:00:00Z", Some("0036-session-handover")),
        session("sess-old", "2026-05-10T10:00:00Z", Some("0036-session-handover")),
        session("sess-other", "2026-05-15T13:00:00Z", Some("0001-other-card")),
    ];
    let card = Some("0036-session-handover".to_string());
    let h = pick_handover(&sessions, &card, &None).expect("expected match");
    assert_eq!(h.session_id, "sess-new");
    let h = pick_handover(&sessions, &card, &Some("2026-05-12T00:00:00Z".into())).expect("expected match");
    assert_eq!(h.session_id, "sess-new");
    assert!(pick_handover(&sessions, &card, &Some("2026-05-16T00:00:00Z".into())).is_none());
}
