use orbit_state::error::Category;
use orbit_state::verbs::resolve::{resolve_spec, validate_card_arg, BoundCardSource, OpenSpec};
use orbit_state::verbs::results::SpecResolveResult;

fn open(id: &str, goal: &str, cards: &[&str]) -> OpenSpec {
    OpenSpec { id: id.into(), goal: goal.into(), cards: cards.iter().map(|c| c.to_string()).collect() }
}

#[test]
fn spec_resolve_ac01_uses_bound_card_when_card_has_single_open_spec() {
    let specs = vec![open("2026-05-01-a", "goal a", &["0001-card-a"]), open("2026-05-02-b", "goal b", &["0002-card-b"])];
    match resolve_spec("spec.resolve", &None, Some(BoundCardSource::Session), &Some("0001-card-a".into()), &specs).unwrap() {
        SpecResolveResult::Resolved { id, source } => {
            assert_eq!(id, "2026-05-01-a");
            assert_eq!(source, "bound_card");
        }
        other => panic!("expected Resolved variant, got {other:?}"),
    }
}

#[test]
fn spec_resolve_ac01_falls_back_to_single_open_when_unbound() {
    let specs = vec![open("2026-05-01-only", "lone goal", &[])];
    match resolve_spec("spec.resolve", &None, None, &None, &specs).unwrap() {
        SpecResolveResult::Resolved { id, source } => {
            assert_eq!(id, "2026-05-01-only");
            assert_eq!(source, "single_open");
        }
        other => panic!("expected Resolved variant, got {other:?}"),
    }
}

#[test]
fn spec_resolve_ac02_prompts_when_unbound_and_multiple_open() {
    let specs = vec![
        open("2026-05-02-b", "second spec goal", &[]),
        open("2026-05-01-a", "first goal line\nsecond line should not appear", &[]),
    ];
    match resolve_spec("spec.resolve", &None, None, &None, &specs).unwrap() {
        SpecResolveResult::Prompt { candidates, source } => {
            assert_eq!(source, "unbound");
            assert_eq!(candidates.len(), 2);
            assert_eq!(candidates[0].id, "2026-05-01-a");
            assert_eq!(candidates[0].goal_first_line, "first goal line");
            assert_eq!(candidates[1].id, "2026-05-02-b");
            assert_eq!(candidates[1].goal_first_line, "second spec goal");
        }
        other => panic!("expected Prompt variant, got {other:?}"),
    }
}

#[test]
fn spec_resolve_ac02_prompts_when_bound_card_has_multiple_open_specs() {
    let specs = vec![
        open("2026-05-01-a1", "card-a goal 1", &["0001-card-a"]),
        open("2026-05-02-a2", "card-a goal 2", &["0001-card-a"]),
        open("2026-05-03-b1", "card-b goal — must not appear", &["0002-card-b"]),
    ];
    match resolve_spec("spec.resolve", &None, Some(BoundCardSource::Session), &Some("0001-card-a".into()), &specs).unwrap() {
        SpecResolveResult::Prompt { candidates, source } => {
            assert_eq!(source, "bound_card_multi");
            let ids: Vec<&str> = candidates.iter().map(|c| c.id.as_str()).collect();
            assert_eq!(ids, vec!["2026-05-01-a1", "2026-05-02-a2"]);
        }
        other => panic!("expected Prompt variant, got {other:?}"),
    }
}

#[test]
fn spec_resolve_ac03_halts_terminal_when_unbound_and_no_open_specs() {
    let err = resolve_spec("spec.resolve", &Some("implement".into()), None, &None, &vec![]).unwrap_err();
    assert_eq!(err.category, Category::Unavailable);
    assert_eq!(err.verb, "spec.resolve");
    assert_eq!(
        err.message,
        "no spec to act on for /orb:implement — both fallbacks failed (.session-card is unbound and no open specs exist). Create one with /orb:spec."
    );
}

#[test]
fn spec_resolve_ac03_halts_recoverable_when_bound_card_has_no_open_specs() {
    // The only spec under the card is closed, so none is offered.
    let err = resolve_spec("spec.resolve", &Some("review-spec".into()), Some(BoundCardSource::Session), &Some("0001-card-a".into()), &vec![])
        .unwrap_err();
    assert_eq!(err.category, Category::Unavailable);
    assert_eq!(
        err.message,
        "no open spec under the bound card 0001-card-a. Create one with /orb:spec, or rebind with orbit session set-card <id>."
    );
}

#[test]
fn spec_resolve_card_arg_overrides_session_card() {
    let specs = vec![open("2026-05-01-a", "card-a spec", &["0001-card-a"]), open("2026-05-02-b", "card-b spec", &["0002-card-b"])];
    match resolve_spec("spec.resolve", &None, Some(BoundCardSource::Arg), &Some("0002-card-b".into()), &specs).unwrap() {
        SpecResolveResult::Resolved { id, source } => {
            assert_eq!(id, "2026-05-02-b");
            assert_eq!(source, "card_arg");
        }
        other => panic!("expected Resolved variant, got {other:?}"),
    }
}

#[test]
fn spec_resolve_omits_skill_label_uses_placeholder() {
    let err = resolve_spec("spec.resolve", &None, None, &None, &vec![]).unwrap_err();
    assert!(err.message.contains("/orb:<skill>"), "expected placeholder skill label, got {}", err.message);
}

#[test]
fn spec_resolve_rejects_path_traversal_in_card_arg() {
    for bad in ["../etc/passwd", "..", "0001/../..", "a/b", ""] {
        let err = validate_card_arg("spec.resolve", &Some(bad.into())).unwrap_err();
        assert_eq!(err.category, Category::Malformed, "for card={bad:?}");
        assert_eq!(err.verb, "spec.resolve");
    }
}
