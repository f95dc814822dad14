use orbit_state::error::Category;
use orbit_state::schema::{AcType, AcceptanceCriterion, Card, CardMaturity, Memory, Park, Spec, SpecStatus};
use orbit_state::verbs::args::{SpecCreateArgs, SpecUpdateArgs};
use orbit_state::verbs::audit::{classify_substrate_layout, conformance_findings, derive_pin_state, SubstrateLayoutState};
use orbit_state::verbs::catalog::{card_search, card_summaries};
use orbit_state::verbs::findings::{card_state_finding, undotted_substrate_finding};
use orbit_state::verbs::memory::memory_search;
use orbit_state::verbs::resolve::resolve_numeric_slug;
use orbit_state::verbs::sessions::{no_card_matching, pick_handover, set_card_arg};
use orbit_state::verbs::skills::validate_routine_author;
use orbit_state::verbs::specs::{spec_create, spec_note, spec_update};

fn card(slug: &str, maturity: CardMaturity, specs: Vec<String>, park: Option<Park>) -> Card {
    Card {
        id: Some(slug.to_string()),
        feature: format!("feature-{slug}"),
        as_a: None,
        i_want: None,
        so_that: None,
        goal: "g".into(),
        scenarios: vec![],
        maturity,
        specs,
        relations: vec![],
        references: vec![],
        notes: vec![],
        park,
    }
}

fn spec(id: &str, goal: &str) -> Spec {
    Spec {
        id: id.into(),
        goal: goal.into(),
        cards: vec![],
        status: SpecStatus::Open,
        labels: vec![],
        acceptance_criteria: vec![],
        memories_considered: vec![],
    }
}

#[test]
fn spec_note_empty_body_is_malformed() {
    let err = spec_note("spec.note", "0001".into(), String::new(), vec![], "2026-05-07T12:00:00Z".into()).unwrap_err();
    assert_eq!(err.rendered(), "spec.note: malformed: body must not be empty");
}

#[test]
fn spec_note_path_traversal_id_is_malformed() {
    let err = spec_note("spec.note", "../etc/passwd".into(), "x".into(), vec![], "2026-05-07T12:00:00Z".into()).unwrap_err();
    assert!(err.rendered().starts_with("spec.note: malformed: "));
}

#[test]
fn spec_note_event_carries_its_fields() {
    let n = spec_note("spec.note", "0001".into(), "first note".into(), vec!["l".into()], "2026-05-07T12:00:00Z".into()).unwrap();
    assert_eq!(n.spec_id, "0001");
    assert_eq!(n.body, "first note");
    assert_eq!(n.labels, vec!["l".to_string()]);
    assert_eq!(n.timestamp, "2026-05-07T12:00:00Z");
}

#[test]
fn spec_create_empty_goal_is_malformed() {
    let args = SpecCreateArgs { id: "0001".into(), goal: String::new(), cards: vec![], labels: vec![], acceptance_criteria: vec![] };
    let err = spec_create("spec.create", args).unwrap_err();
    assert_eq!(err.rendered(), "spec.create: malformed: goal must not be empty");
}

#[test]
fn spec_create_builds_open_spec() {
    let args = SpecCreateArgs { id: "0001".into(), goal: "ship".into(), cards: vec!["c".into()], labels: vec![], acceptance_criteria: vec![] };
    let s = spec_create("spec.create", args).unwrap();
    assert_eq!(s.status, SpecStatus::Open);
    assert_eq!(s.goal, "ship");
    assert!(s.memories_considered.is_empty());
}

#[test]
fn spec_update_rejects_empty_goal() {
    let args = SpecUpdateArgs { id: "0001".into(), goal: Some(String::new()), ..Default::default() };
    let err = spec_update("spec.update", spec("0001", "g"), args).unwrap_err();
    assert_eq!(err.rendered(), "spec.update: malformed: goal must not be empty");
}

#[test]
fn spec_update_replaces_specified_fields_only() {
    let mut original = spec("0001", "original");
    original.cards = vec!["c1".into()];
    original.labels = vec!["spec".into()];
    original.acceptance_criteria = vec![AcceptanceCriterion {
        id: "ac-01".into(),
        description: "first".into(),
        gate: false,
        checked: false,
        verification: None,
        ac_type: AcType::Code,
    }];
    let args = SpecUpdateArgs { id: "0001".into(), goal: Some("new goal".into()), ..Default::default() };
    let s = spec_update("spec.update", original.clone(), args).unwrap();
    assert_eq!(s.goal, "new goal");
    assert_eq!(s.cards, original.cards);
    assert_eq!(s.labels, original.labels);
    assert_eq!(s.acceptance_criteria, original.acceptance_criteria);
}

fn memory(key: &str, body: &str) -> Memory {
    Memory { key: key.into(), body: body.into(), timestamp: "2026-05-07T12:00:00Z".into(), labels: vec![] }
}

#[test]
fn memory_search_substring_case_insensitive_over_body_and_labels() {
    let ms = vec![
        memory("k1", "Recut at Agent-pace"),
        memory("k2", "atomic writes for substrate"),
        memory("k3", "completely unrelated"),
    ];
    let r = memory_search("memory.search", "AGENT", ms).unwrap();
    assert_eq!(r.len(), 1);
    assert_eq!(r[0].key, "k1");
}

#[test]
fn memory_search_matches_labels_and_refuses_empty_query() {
    let mut m = memory("k1", "body");
    m.labels = vec!["Topology".into()];
    let r = memory_search("memory.search", "topo", vec![m.clone()]).unwrap();
    assert_eq!(r.len(), 1);
    assert!(memory_search("memory.search", "", vec![m]).is_err());
}

#[test]
fn card_search_hits_feature_or_goal() {
    let cards = vec![
        ("0020-orbit-state".to_string(), card("0020-orbit-state", CardMaturity::Planned, vec![], None)),
        ("0021-tasks".to_string(), card("0021-tasks", CardMaturity::Planned, vec![], None)),
    ];
    let r = card_search("card.search", "TASKS", card_summaries(&cards)).unwrap();
    assert_eq!(r.len(), 1);
    assert_eq!(r[0].slug, "0021-tasks");
}

#[test]
fn session_set_card_resolves_bare_numeric() {
    let names = Some(vec!["0036-session-handover.yaml".to_string()]);
    for raw in ["36", "0036"] {
        let arg = set_card_arg("session.set-card", raw).unwrap();
        let slug = resolve_numeric_slug("session.set-card", ".orbit/cards", &names, &arg).unwrap();
        assert_eq!(slug, Some("0036-session-handover".to_string()));
    }
}

#[test]
fn session_set_card_unknown_card_returns_not_found() {
    let e = no_card_matching("session.set-card", "9999", ".orbit/cards/9999.yaml");
    assert_eq!(e.category, Category::NotFound);
    assert_eq!(e.message, "no card matching `9999` (looked for .orbit/cards/9999.yaml)");
    assert!(set_card_arg("session.set-card", "  ").is_err());
}

#[test]
fn session_handover_null_when_card_has_no_sessions() {
    assert!(pick_handover(&vec![], &Some("0036-session-handover".into()), &None).is_none());
}

#[test]
fn conformance_card_state_park_irrelevant_when_emerging() {
    let c = card("0099-parked-emerging", CardMaturity::Emerging, vec![], Some(Park { reason: "r".into(), until: None }));
    assert!(card_state_finding(&c, "0099-parked-emerging").is_none());
}

#[test]
fn conformance_card_state_park_irrelevant_with_specs() {
    let c = card("0099-parked-with-specs", CardMaturity::Planned, vec![".orbit/specs/foo/spec.yaml".into()], Some(Park { reason: "r".into(), until: None }));
    assert!(card_state_finding(&c, "0099-parked-with-specs").is_none());
}

#[test]
fn conformance_pin_unpinned_when_field_absent() {
    let pin = derive_pin_state(None, "0.1.0".into());
    assert_eq!(pin.status, "unpinned");
    assert!(pin.pinned.is_none());
    let f = conformance_findings(None, &pin, vec![], vec![], vec![], vec![], vec![]);
    assert!(f.iter().all(|f| f.state != "pin_behind" && f.state != "pin_ahead"));
}

#[test]
fn conformance_pin_matches_when_field_equals_current() {
    let pin = derive_pin_state(Some("0.1.0".into()), "0.1.0".into());
    assert_eq!(pin.status, "matches");
    let f = conformance_findings(None, &pin, vec![], vec![], vec![], vec![], vec![]);
    assert!(f.is_empty());
}

#[test]
fn conformance_clean_repo_zero_findings() {
    let pin = derive_pin_state(None, "0.1.0".into());
    let f = conformance_findings(None, &pin, vec![], vec![], vec![], vec![], vec![]);
    assert!(f.is_empty(), "expected zero findings, got {f:?}");
    assert_eq!(pin.status, "unpinned");
}

#[test]
fn conformance_pin_behind_leads_and_suppresses_canonical_family() {
    let pin = derive_pin_state(Some("0.0.1".into()), "0.1.0".into());
    let canonical = vec![card_state_finding(&card("0001-x", CardMaturity::Planned, vec![], None), "0001-x").unwrap()];
    let f = conformance_findings(None, &pin, vec![], vec![], canonical, vec![], vec![]);
    assert_eq!(f.len(), 1);
    assert_eq!(f[0].state, "pin_behind");
    assert_eq!(f[0].severity, "medium");
    assert_eq!(f[0].remediation.verb, "orbit setup --bump-pin");
}

#[test]
fn undotted_finding_absent_on_greenfield() {
    assert!(undotted_substrate_finding(false, &vec![None, None, None, None]).is_none());
}

#[test]
fn undotted_finding_fires_when_orbit_present_and_dotted_absent() {
    let f = undotted_substrate_finding(false, &vec![Some(2), None, Some(0), None]).unwrap();
    assert_eq!(f.state, "undotted_substrate");
    assert_eq!(f.severity, "high");
    assert!(undotted_substrate_finding(true, &vec![Some(2), None, None, None]).is_none());
}

#[test]
fn substrate_classify_verb_returns_greenfield_for_empty_tree() {
    assert_eq!(classify_substrate_layout(false, false, false), SubstrateLayoutState::Greenfield);
}

#[test]
fn routine_ac_04_rejects_short_chain() {
    let err = validate_routine_author("routine.author", &vec!["/orb:only-one".into()], "x").unwrap_err();
    assert_eq!(err.category, Category::Malformed);
    assert!(err.message.contains("≥ 2"));
}
