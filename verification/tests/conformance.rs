use orbit_state::verbs::catalog::card_list;
use orbit_state::verbs::findings::{
    canonical_file_finding, decisions_md_finding, memo_staleness_finding, routine_broken_refs_finding,
    routine_stale_finding, OperatorCopy,
};
use orbit_state::verbs::results::CardSummary;

// 2026-05-19 and 2026-05-22 as Julian day numbers.
const MAY_19: i32 = 2461180;
const MAY_22: i32 = 2461183;

const CANONICAL_METHOD: &str = "# Method\n\nThe canonical method text.\n";
const CANONICAL_STYLE: &str = "# Style\n\nThe canonical style text.\n";

#[test]
fn conformance_memo_no_finding_at_seven_days_strict() {
    // 2026-05-19 - 2026-05-12 = 7 days; strict > means no finding.
    assert!(memo_staleness_finding("2026-05-12-recent.md", ".orbit/memos/2026-05-12-recent.md", MAY_19).is_none());
}

#[test]
fn conformance_memo_no_finding_at_six_days() {
    assert!(memo_staleness_finding("2026-05-13-fresh.md", ".orbit/memos/2026-05-13-fresh.md", MAY_19).is_none());
}

#[test]
fn conformance_byte_drift_fires_when_method_md_differs() {
    let f = canonical_file_finding(
        ".orbit/METHOD.md",
        CANONICAL_METHOD,
        &OperatorCopy::Present("hand-edited\n".into()),
    )
    .unwrap();
    assert_eq!(f.subsystem, "setup");
    assert_eq!(f.state, "byte_drift");
    assert_eq!(f.subject, ".orbit/METHOD.md");
    assert_eq!(f.remediation.verb, "orbit setup");
    // The style copy matches, so it adds nothing.
    assert!(canonical_file_finding(
        ".orbit/STYLE.md",
        CANONICAL_STYLE,
        &OperatorCopy::Present(CANONICAL_STYLE.into())
    )
    .is_none());
}

#[test]
fn conformance_byte_drift_fires_when_style_md_differs() {
    let f = canonical_file_finding(
        ".orbit/STYLE.md",
        CANONICAL_STYLE,
        &OperatorCopy::Present("hand-edited\n".into()),
    )
    .unwrap();
    assert_eq!(f.state, "byte_drift");
    assert_eq!(f.subject, ".orbit/STYLE.md");
    assert_eq!(f.remediation.verb, "orbit setup");
}

#[test]
fn conformance_byte_drift_silent_when_canonical_files_match() {
    assert!(canonical_file_finding(
        ".orbit/METHOD.md",
        CANONICAL_METHOD,
        &OperatorCopy::Present(CANONICAL_METHOD.into())
    )
    .is_none());
    assert!(canonical_file_finding(
        ".orbit/STYLE.md",
        CANONICAL_STYLE,
        &OperatorCopy::Present(CANONICAL_STYLE.into())
    )
    .is_none());
}

#[test]
fn conformance_missing_fires_when_method_md_absent() {
    let f = canonical_file_finding(".orbit/METHOD.md", CANONICAL_METHOD, &OperatorCopy::Missing).unwrap();
    assert_eq!(f.subsystem, "setup");
    assert_eq!(f.state, "missing");
    assert_eq!(f.subject, ".orbit/METHOD.md");
    assert!(f.evidence.is_none());
}

#[test]
fn conformance_missing_fires_when_style_md_absent() {
    let f = canonical_file_finding(".orbit/STYLE.md", CANONICAL_STYLE, &OperatorCopy::Missing).unwrap();
    assert_eq!(f.state, "missing");
    assert_eq!(f.subject, ".orbit/STYLE.md");
}

#[test]
fn canonical_file_unreadable_copy_gives_no_finding() {
    assert!(canonical_file_finding(".orbit/METHOD.md", CANONICAL_METHOD, &OperatorCopy::Unreadable).is_none());
}

#[test]
fn routine_ac_07_stale_finding_at_thirty_days() {
    let subject = ".agents/skills/stale-routine/SKILL.md";
    let f = routine_stale_finding(subject, "2026-01-01T00:00:00Z", MAY_22).unwrap();
    assert_eq!(f.subsystem, "routines");
    assert_eq!(f.state, "stale");
    assert_eq!(f.severity, "medium");
    assert!(f.remediation.verb.starts_with("orbit routine verify "));
    assert!(f.subject.contains("stale-routine"));
}

#[test]
fn routine_stale_threshold_is_strict() {
    // 2026-04-22 is exactly 30 days before 2026-05-22: not yet stale.
    assert!(routine_stale_finding("r", "2026-04-22T00:00:00Z", MAY_22).is_none());
    assert!(routine_stale_finding("r", "2026-04-21T00:00:00Z", MAY_22).is_some());
    // An unparseable timestamp never fires.
    assert!(routine_stale_finding("r", "not-a-date-at-all", MAY_22).is_none());
}

#[test]
fn routine_ac_07_broken_refs_finding() {
    let f = routine_broken_refs_finding(".agents/skills/broken-routine/SKILL.md", vec!["/orb:gone".into()]).unwrap();
    assert_eq!(f.subsystem, "routines");
    assert_eq!(f.state, "broken_refs");
    assert_eq!(f.severity, "medium");
    assert_eq!(f.remediation.verb, "archive via curator");
    assert!(routine_broken_refs_finding("r", vec![]).is_none());
}

#[test]
fn decisions_md_finding_fires_for_unconverted_file() {
    let f = decisions_md_finding(".orbit/decisions/0001-some-choice.md", ".orbit/choices/0001-some-choice.yaml");
    assert_eq!(f.subsystem, "setup");
    assert_eq!(f.state, "decisions_md_unmigrated");
    assert!(f.subject.ends_with(".orbit/decisions/0001-some-choice.md"));
    assert!(f.remediation.verb.contains("MD→YAML"));
}

fn summary(slug: &str, maturity: &str) -> CardSummary {
    CardSummary { slug: slug.into(), feature: "f".into(), goal: "g".into(), maturity: maturity.into() }
}

#[test]
fn card_list_filters_by_maturity() {
    let cards = vec![summary("0020-planned", "planned"), summary("0021-established", "established")];
    let r = card_list("card.list", cards, &Some("established".into())).unwrap();
    assert_eq!(r.len(), 1);
    assert_eq!(r[0].slug, "0021-established");
}

#[test]
fn card_list_without_filter_keeps_all_and_rejects_unknown_maturity() {
    let cards = vec![summary("0020-planned", "planned"), summary("0021-established", "established")];
    let r = card_list("card.list", cards.clone(), &None).unwrap();
    assert_eq!(r, cards);
    let e = card_list("card.list", cards, &Some("ripe".into())).unwrap_err();
    assert_eq!(e.message, "maturity must be planned|emerging|established, got 'ripe'");
}
