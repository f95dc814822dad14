use orbit_state::schema::Memory;
use orbit_state::verbs::prime::session_prime;
use orbit_state::verbs::results::{AuditTopologyResult, HandoverSummary, SpecSummary, TopologyDriftEntry};

fn summary(id: &str, status: &str, labels: &[&str]) -> SpecSummary {
    SpecSummary {
        id: id.into(),
        goal: format!("goal {id}"),
        status: status.into(),
        cards: vec![],
        labels: labels.iter().map(|l| l.to_string()).collect(),
    }
}

fn memory(key: &str, ts: &str, labels: &[&str]) -> Memory {
    Memory {
        key: key.into(),
        body: format!("body {key}"),
        timestamp: ts.into(),
        labels: labels.iter().map(|l| l.to_string()).collect(),
    }
}

fn unconfigured() -> AuditTopologyResult {
    AuditTopologyResult { configured: false, topology_drift: vec![] }
}

const BASE: &str = "Run `orbit overview` for a single-screen project synthesis (open specs, cards-by-maturity, recent memories, most-connected card, orphans).";

fn stamped(key: &str, body: &str) -> Memory {
    Memory { key: key.into(), body: body.into(), timestamp: "2026-05-07T12:00:00Z".into(), labels: vec![] }
}

#[test]
fn session_prime_returns_open_specs_and_capped_memories() {
    let specs = vec![summary("0001", "open", &[]), summary("0002", "closed", &[]), summary("0003", "open", &[])];
    let memories: Vec<Memory> = (0..15).map(|i| stamped(&format!("k{i:02}"), &format!("memory body {i}"))).collect();
    let r = session_prime(specs, memories, None, None, unconfigured());
    assert_eq!(r.open_specs.len(), 2);
    assert!(r.open_specs.iter().all(|s| s.status == "open"));
    assert_eq!(r.memories.len(), 10);
    assert_eq!(r.item_bound, 54);
}

#[test]
fn session_prime_includes_global_latest_handover_and_bumps_bound() {
    let specs = vec![summary("0001", "open", &[])];
    let h = HandoverSummary {
        session_id: "sess-X".into(),
        card_id: Some("0036-session-handover".into()),
        started_at: "2026-05-15T12:00:00Z".into(),
        ended_at: Some("2026-05-15T13:00:00Z".into()),
        distillate: "what I tried, what worked".into(),
    };
    let r = session_prime(specs, vec![], Some(h), None, unconfigured());
    let h = r.handover.expect("handover should be Some");
    assert_eq!(h.session_id, "sess-X");
    assert_eq!(r.item_bound, 53);
    assert!(r.next_step.starts_with("Read the handover above before any other action. "));
    assert_eq!(r.next_step, format!("Read the handover above before any other action. {BASE}"));
}

#[test]
fn session_prime_handover_absent_keeps_next_step_unchanged() {
    let specs = vec![summary("0001", "open", &[])];
    let r = session_prime(specs, vec![], None, None, unconfigured());
    assert!(r.handover.is_none());
    assert_eq!(r.item_bound, 52);
    assert!(!r.next_step.starts_with("Read the handover above"));
    assert_eq!(r.next_step, BASE);
}

#[test]
fn session_prime_respects_custom_memory_cap() {
    let memories: Vec<Memory> = (0..5).map(|i| stamped(&format!("k{i}"), &format!("body {i}"))).collect();
    let r = session_prime(vec![], memories, None, Some(3), unconfigured());
    assert_eq!(r.memories.len(), 3);
}

#[test]
fn session_prime_orders_memories_newest_first_within_cap() {
    let memories: Vec<Memory> = (0..5).map(|i| memory(&format!("m{i}"), &format!("2026-05-0{}T00:00:00Z", i + 1), &[])).collect();
    let r = session_prime(vec![], memories, None, Some(2), unconfigured());
    assert_eq!(r.memories.len(), 2);
    assert_eq!(r.memories[0].key, "m4");
    assert_eq!(r.memories[1].key, "m3");
    assert_eq!(r.item_bound, 42);
}

#[test]
fn session_prime_prefers_label_overlap_memories() {
    let specs = vec![summary("0010", "open", &["foo", "bar"])];
    let memories = vec![
        Memory { key: "newer-unrelated".into(), body: "no overlap".into(), timestamp: "2026-05-14T00:00:00Z".into(), labels: vec!["unrelated".into()] },
        Memory { key: "older-overlap".into(), body: "matches foo".into(), timestamp: "2026-05-01T00:00:00Z".into(), labels: vec!["foo".into()] },
    ];
    let r = session_prime(specs, memories, None, None, unconfigured());
    let keys: Vec<&str> = r.memories.iter().map(|m| m.key.as_str()).collect();
    assert_eq!(keys, vec!["older-overlap", "newer-unrelated"]);
}

#[test]
fn session_prime_falls_back_to_recency_when_no_overlap() {
    let specs = vec![summary("0011", "open", &["xyz"])];
    let memories = vec![
        Memory { key: "newer".into(), body: "x".into(), timestamp: "2026-05-14T00:00:00Z".into(), labels: vec!["b".into()] },
        Memory { key: "older".into(), body: "x".into(), timestamp: "2026-05-01T00:00:00Z".into(), labels: vec!["a".into()] },
    ];
    let r = session_prime(specs, memories, None, None, unconfigured());
    let keys: Vec<&str> = r.memories.iter().map(|m| m.key.as_str()).collect();
    assert_eq!(keys, vec!["newer", "older"]);
}

#[test]
fn session_prime_unchanged_when_no_spec_labels() {
    let specs = vec![summary("0012", "open", &[])];
    let memories = vec![
        Memory { key: "newer".into(), body: "x".into(), timestamp: "2026-05-14T00:00:00Z".into(), labels: vec!["bar".into()] },
        Memory { key: "older".into(), body: "x".into(), timestamp: "2026-05-01T00:00:00Z".into(), labels: vec!["foo".into()] },
    ];
    let r = session_prime(specs, memories, None, None, unconfigured());
    let keys: Vec<&str> = r.memories.iter().map(|m| m.key.as_str()).collect();
    assert_eq!(keys, vec!["newer", "older"]);
}

#[test]
fn session_prime_ranks_by_overlap_count_then_recency() {
    let specs = vec![summary("0001", "open", &["gates", "memory"])];
    let memories = vec![
        memory("newest", "2026-05-09T00:00:00Z", &[]),
        memory("one-label", "2026-05-01T00:00:00Z", &["gates"]),
        memory("two-labels", "2026-05-02T00:00:00Z", &["memory", "gates"]),
    ];
    let r = session_prime(specs, memories, None, None, unconfigured());
    let keys: Vec<&str> = r.memories.iter().map(|m| m.key.as_str()).collect();
    assert_eq!(keys, vec!["two-labels", "one-label", "newest"]);
}

#[test]
fn session_prime_closed_spec_labels_do_not_count() {
    let specs = vec![summary("0001", "closed", &["x"])];
    let memories = vec![
        memory("labelled-old", "2026-05-01T00:00:00Z", &["x"]),
        memory("new", "2026-05-09T00:00:00Z", &[]),
    ];
    let r = session_prime(specs, memories, None, None, unconfigured());
    assert_eq!(r.memories[0].key, "new");
}

#[test]
fn session_prime_topology_drift_some_when_configured() {
    let clean = AuditTopologyResult { configured: true, topology_drift: vec![] };
    let r = session_prime(vec![], vec![], None, None, clean);
    assert_eq!(r.topology_drift, Some(vec![]));
    let entry = TopologyDriftEntry { subsystem: "s".into(), drift_kind: "k".into(), detail: "d".into() };
    let dirty = AuditTopologyResult { configured: true, topology_drift: vec![entry.clone()] };
    let r = session_prime(vec![], vec![], None, None, dirty);
    assert_eq!(r.topology_drift, Some(vec![entry]));
}
