use orbit_state::schema::{Card, CardMaturity, Memory, Relation, RelationKind};
use orbit_state::verbs::graph::graph;
use orbit_state::verbs::overview::overview;
use orbit_state::verbs::resolve::resolve_numeric_slug;
use orbit_state::verbs::results::SpecSummary;
use orbit_state::dates::days_since_iso;

fn card(feature: &str, maturity: CardMaturity, specs: &[&str], rels: &[(&str, RelationKind)]) -> Card {
    Card {
        id: None,
        feature: feature.into(),
        as_a: None,
        i_want: None,
        so_that: None,
        goal: "g".into(),
        scenarios: vec![],
        maturity,
        specs: specs.iter().map(|s| s.to_string()).collect(),
        relations: rels.iter().map(|(c, k)| Relation { card: c.to_string(), kind: *k, reason: "r".into() }).collect(),
        references: vec![],
        notes: vec![],
        park: None,
    }
}

fn deck() -> Vec<(String, Card)> {
    vec![
        ("0001-a".into(), card("Alpha \"one\"", CardMaturity::Planned, &[".orbit/specs/2026-05-01-x/spec.yaml"], &[("0002-b", RelationKind::Feeds)])),
        ("0002-b".into(), card("Beta", CardMaturity::Emerging, &[], &[])),
        ("0003-c".into(), card("Gamma", CardMaturity::Established, &[], &[])),
    ]
}

#[test]
fn graph_renders_mermaid_for_whole_deck() {
    let r = graph(deck(), &None, 1, false);
    assert_eq!(r.format, "mermaid");
    assert_eq!(
        r.text,
        "graph LR\n  c_0001_a[\"0001-a: Alpha 'one'\"]\n  c_0002_b[\"0002-b: Beta\"]\n  c_0003_c[\"0003-c: Gamma\"]\n  s_2026_05_01_x([\"2026-05-01-x\"])\n  c_0001_a -->|feeds| c_0002_b\n  c_0001_a -.-> s_2026_05_01_x\n"
    );
}

#[test]
fn graph_root_limits_scope_to_neighbourhood() {
    let r = graph(deck(), &Some("0002-b".into()), 1, false);
    assert!(r.text.contains("c_0001_a"));
    assert!(r.text.contains("c_0002_b"));
    assert!(!r.text.contains("c_0003_c"));
}

#[test]
fn graph_graphviz_format_label() {
    let r = graph(deck(), &None, 1, true);
    assert_eq!(r.format, "graphviz");
    assert!(r.text.starts_with("digraph"));
}

#[test]
fn overview_counts_and_caps() {
    let specs = vec![
        SpecSummary { id: "0003".into(), goal: "g".into(), status: "open".into(), cards: vec![], labels: vec![] },
        SpecSummary { id: "0001".into(), goal: "g".into(), status: "open".into(), cards: vec![], labels: vec![] },
        SpecSummary { id: "0002".into(), goal: "g".into(), status: "closed".into(), cards: vec![], labels: vec![] },
    ];
    let memories = vec![
        Memory { key: "old".into(), body: "b".into(), timestamp: "2026-05-01T00:00:00Z".into(), labels: vec![] },
        Memory { key: "new".into(), body: "b".into(), timestamp: "2026-05-02T00:00:00Z".into(), labels: vec![] },
    ];
    let r = overview(&specs, &deck(), &memories, Some(1));
    assert_eq!(r.open_spec_count, 2);
    assert_eq!(r.recent_open_spec_ids, vec!["0003".to_string()]);
    assert_eq!(r.spec_overflow, 1);
    assert_eq!(r.cards_by_maturity.planned, 1);
    assert_eq!(r.cards_by_maturity.emerging, 1);
    assert_eq!(r.cards_by_maturity.established, 1);
    assert_eq!(r.memories.len(), 1);
    assert_eq!(r.memories[0].key, "new");
    let m = r.most_connected_card.expect("a card with relations");
    assert_eq!(m.slug, "0001-a");
    assert_eq!(m.degree, 1);
    assert_eq!(r.orphans, vec!["0003-c".to_string()]);
    assert_eq!(r.orphan_overflow, 0);
}

#[test]
fn card_show_bare_numeric_ambiguous_errors() {
    let names = Some(vec!["0020-foo.yaml".to_string(), "0020-bar.yaml".to_string()]);
    let err = resolve_numeric_slug("card.show", ".orbit/cards", &names, "20").unwrap_err();
    assert!(err.message.contains("ambiguous"), "got {}", err.message);
    assert_eq!(err.message, "ambiguous: `20` matches 2 entries: 0020-bar, 0020-foo");
}

#[test]
fn resolve_numeric_slug_unique_and_missing() {
    let names = Some(vec!["0020-foo.yaml".to_string(), "0021-bar.yaml".to_string()]);
    assert_eq!(resolve_numeric_slug("card.show", ".orbit/cards", &names, "20").unwrap(), Some("0020-foo".to_string()));
    assert_eq!(resolve_numeric_slug("card.show", ".orbit/cards", &names, "0020-foo").unwrap(), None);
    let err = resolve_numeric_slug("card.show", ".orbit/cards", &names, "99").unwrap_err();
    assert_eq!(err.rendered(), "card.show: not-found: no entry matching `0099-*` in .orbit/cards");
}

#[test]
fn days_since_iso_counts_calendar_days() {
    // 2026-05-19 is Julian day 2461180.
    assert_eq!(days_since_iso("2026-05-11T09:00:00Z", 2461180), Some(8));
    assert_eq!(days_since_iso("2025-05-19", 2461180), Some(365));
    assert_eq!(days_since_iso("short", 2461180), None);
    assert_eq!(days_since_iso("2026-13-40T00:00:00Z", 2461180), None);
}
