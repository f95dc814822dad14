use orbit_state::schema::{Card, CardMaturity, Park};
use orbit_state::verbs::audit::{classify_substrate_layout, compare_versions, derive_pin_state, SubstrateLayoutState, VersionOrder};
use orbit_state::verbs::findings::{card_state_finding, memo_staleness_finding, extract_orb_refs};

#[test]
fn classifier_returns_greenfield_for_empty_tree() {
    assert_eq!(classify_substrate_layout(false, false, false), SubstrateLayoutState::Greenfield);
}

#[test]
fn classifier_returns_idempotent_for_dotted_only() {
    assert_eq!(classify_substrate_layout(true, false, false), SubstrateLayoutState::Idempotent);
}

#[test]
fn classifier_returns_wrapped_undotted_for_bare_orbit_dir() {
    assert_eq!(classify_substrate_layout(false, true, false), SubstrateLayoutState::WrappedUndotted);
}

#[test]
fn classifier_returns_brownfield_bare_for_root_bare_dirs() {
    assert_eq!(classify_substrate_layout(false, false, true), SubstrateLayoutState::BrownfieldBare);
}

#[test]
fn classifier_returns_mixed_bare_when_dotted_and_bare_coexist() {
    assert_eq!(classify_substrate_layout(true, false, true), SubstrateLayoutState::MixedBare);
}

#[test]
fn classifier_returns_mixed_undotted_when_dotted_and_orbit_coexist() {
    assert_eq!(classify_substrate_layout(true, true, false), SubstrateLayoutState::MixedUndotted);
}

#[test]
fn classifier_collision_orbit_present_dominates_bare() {
    assert_eq!(classify_substrate_layout(false, true, true), SubstrateLayoutState::WrappedUndotted);
    assert_eq!(classify_substrate_layout(true, true, true), SubstrateLayoutState::MixedUndotted);
}

#[test]
fn compare_versions_numeric_parts() {
    assert_eq!(compare_versions("0.9.0", "0.10.0"), VersionOrder::Less);
    assert_eq!(compare_versions("1.2", "1.2.0"), VersionOrder::Equal);
    assert_eq!(compare_versions("2.0.1", "2.0.0"), VersionOrder::Greater);
    assert_eq!(compare_versions("1.0.0-beta", "1.0.0-alpha"), VersionOrder::Greater);
}

#[test]
fn compare_versions_is_antisymmetric_on_examples() {
    for (a, b) in [("0.1", "0.2"), ("1.10", "1.9"), ("x", "y"), ("3", "3.0.0")] {
        let ab = compare_versions(a, b);
        let ba = compare_versions(b, a);
        let flipped = match ab {
            VersionOrder::Less => VersionOrder::Greater,
            VersionOrder::Greater => VersionOrder::Less,
            VersionOrder::Equal => VersionOrder::Equal,
        };
        assert_eq!(ba, flipped, "{a} vs {b}");
    }
}

#[test]
fn conformance_pin_states() {
    assert_eq!(derive_pin_state(None, "1.2.3".into()).status, "unpinned");
    assert_eq!(derive_pin_state(Some("1.2.3".into()), "1.2.3".into()).status, "matches");
    assert_eq!(derive_pin_state(Some("0.0.1".into()), "1.2.3".into()).status, "pin_behind");
    assert_eq!(derive_pin_state(Some("99.99.99".into()), "1.2.3".into()).status, "pin_ahead");
    assert_eq!(derive_pin_state(Some("1.2".into()), "1.2.0".into()).status, "matches");
}

fn planned_card() -> Card {
    Card {
        id: Some("0099-planned-empty".into()),
        feature: "f".into(),
        as_a: None,
        i_want: None,
        so_that: None,
        goal: "g".into(),
        scenarios: vec![],
        maturity: CardMaturity::Planned,
        specs: vec![],
        relations: vec![],
        references: vec![],
        notes: vec![],
        park: None,
    }
}

#[test]
fn conformance_card_state_fires_on_planned_empty_specs() {
    let f = card_state_finding(&planned_card(), "0099-planned-empty").unwrap();
    assert_eq!(f.subsystem, "cards");
    assert_eq!(f.state, "ready_for_tabletop");
    assert_eq!(f.severity, "medium");
    assert_eq!(f.subject, "0099-planned-empty");
    assert_eq!(f.remediation.verb, "/orb:tabletop 99");
}

#[test]
fn conformance_card_state_skips_planned_with_specs() {
    let mut c = planned_card();
    c.specs.push(".orbit/specs/foo/spec.yaml".into());
    assert!(card_state_finding(&c, "0099-planned-non-empty").is_none());
}

#[test]
fn conformance_card_state_skips_emerging_maturity() {
    let mut c = planned_card();
    c.maturity = CardMaturity::Emerging;
    assert!(card_state_finding(&c, "0099-emerging").is_none());
}

#[test]
fn conformance_card_state_skips_parked_card() {
    let mut c = planned_card();
    c.park = Some(Park { reason: "later".into(), until: None });
    assert!(card_state_finding(&c, "0099-parked").is_none());
}

#[test]
fn conformance_memo_stale_fires_at_eight_days() {
    // 2026-05-19 is day 2461180 of the Julian day count.
    let today = 2461180;
    let f = memo_staleness_finding("2026-05-11-old.md", ".orbit/memos/2026-05-11-old.md", today).unwrap();
    assert_eq!(f.subsystem, "memos");
    assert_eq!(f.state, "stale");
    assert!(memo_staleness_finding("2026-05-12-recent.md", "x", today).is_none());
    assert!(memo_staleness_finding("2026-05-13-fresh.md", "x", today).is_none());
}

#[test]
fn conformance_memo_malformed_filename_no_panic() {
    assert!(memo_staleness_finding("notes.md", "x", 2461180).is_none());
    assert!(memo_staleness_finding("2026-99-99-bad.md", "x", 2461180).is_none());
}

#[test]
fn extract_orb_refs_in_order_without_duplicates() {
    let r = extract_orb_refs("Run /orb:tabletop then /orb:spec, and /orb:tabletop again.");
    assert_eq!(r, vec!["/orb:tabletop", "/orb:spec"]);
}
