use orbit_state::verbs::args::MemoryRememberArgs;
use orbit_state::verbs::memory::{detect_state_shape, memory_remember, MEMORY_SHAPE_WARNING, TOPOLOGY_NUDGE};
use orbit_state::verbs::topology::compute_topology_warnings;

fn spec_yaml(id: &str, goal: &str) -> String {
    format!("id: '{id}'\ngoal: {goal}\ncards: []\nstatus: open\n")
}

fn warnings(subsystems: &[&str], sidecars: Vec<String>) -> Vec<String> {
    let subs: Vec<String> = subsystems.iter().map(|s| s.to_string()).collect();
    compute_topology_warnings(&subs, &sidecars).into_iter().map(|w| w.subsystem).collect()
}

#[test]
fn spec_close_topology_warnings_populated_on_word_boundary_match() {
    let w = warnings(&["session-prime"], vec![spec_yaml("0001", "Adding a topology_drift field to session-prime envelope.")]);
    assert!(w.iter().any(|s| s == "session-prime"), "got {w:?}");
}

#[test]
fn spec_close_topology_warnings_empty_on_substring_only() {
    let w = warnings(&["session-prime"], vec![spec_yaml("0002", "Spec touches the session-primer module which is unrelated.")]);
    assert!(!w.iter().any(|s| s == "session-prime"), "substring should not match: {w:?}");
}

#[test]
fn spec_close_topology_warnings_excludes_short_subsystem_names() {
    let w = warnings(&["memo"], vec![spec_yaml("0003", "We propagate memo handling across the new layer.")]);
    assert!(!w.iter().any(|s| s == "memo"), "4-char subsystem must be filtered out: {w:?}");
}

#[test]
fn spec_close_topology_warnings_match_in_tabletop_note_only() {
    let w = warnings(
        &["session-prime"],
        vec![
            spec_yaml("0004", "Goal text mentions nothing relevant."),
            "# Interview\n\nNo subsystem names here.\n".to_string(),
            "# Design Note\n\nThis pinned approach extends session-prime.\n".to_string(),
        ],
    );
    assert!(w.iter().any(|s| s == "session-prime"), "tabletop-note.md must be scanned: {w:?}");
}

#[test]
fn spec_close_topology_warnings_empty_when_not_configured() {
    let w = warnings(&[], vec![spec_yaml("0007", "session_prime mentioned but topology not configured.")]);
    assert!(w.is_empty());
}

#[test]
fn topology_warnings_escape_metacharacters() {
    // A dot in the name matches a dot, not any character.
    let w = warnings(&["web.api"], vec!["we ship webXapi today".to_string()]);
    assert!(w.is_empty(), "got {w:?}");
    let w = warnings(&["web.api"], vec!["the web.api layer".to_string()]);
    assert_eq!(w, vec!["web.api".to_string()]);
}

fn remember(key: &str, body: &str, labels: &[&str], no_nudge: bool, no_warn: bool) -> MemoryRememberArgs {
    MemoryRememberArgs {
        key: key.into(),
        body: body.into(),
        labels: labels.iter().map(|l| l.to_string()).collect(),
        timestamp: None,
        no_nudge,
        no_warn,
    }
}

#[test]
fn memory_remember_topology_label_emits_nudge() {
    let r = memory_remember("memory.remember", remember("k-with-topology", "body", &["topology"], false, false), "2026-05-18T00:00:00Z".into()).unwrap();
    assert_eq!(r.nudge.as_deref(), Some(TOPOLOGY_NUDGE));
    assert_eq!(r.memory.timestamp, "2026-05-18T00:00:00Z");
}

#[test]
fn memory_remember_without_topology_label_emits_no_nudge() {
    let r = memory_remember("memory.remember", remember("k-no-label", "body", &["unrelated"], false, false), "2026-05-18T00:00:00Z".into()).unwrap();
    assert!(r.nudge.is_none());
}

#[test]
fn memory_remember_no_nudge_flag_suppresses_nudge() {
    let r = memory_remember("memory.remember", remember("k-suppressed", "body", &["topology"], true, false), "2026-05-18T00:00:00Z".into()).unwrap();
    assert!(r.nudge.is_none());
}

#[test]
fn memory_remember_warns_on_state_shape_body() {
    let r = memory_remember("memory.remember", remember("state-shape", "the problem is recency bias", &[], false, false), "2026-05-19T00:00:00Z".into()).unwrap();
    assert_eq!(r.shape_warning.as_deref(), Some(MEMORY_SHAPE_WARNING));
}

#[test]
fn memory_remember_no_warning_on_mechanism_shape() {
    let r = memory_remember("memory.remember", remember("mechanism", "use orbit memory match before /orb:tabletop", &[], false, false), "2026-05-19T00:00:00Z".into()).unwrap();
    assert!(r.shape_warning.is_none());
}

#[test]
fn memory_remember_no_warn_flag_suppresses_warning() {
    let r = memory_remember("memory.remember", remember("state-shape", "the problem is recency bias", &[], false, true), "2026-05-19T00:00:00Z".into()).unwrap();
    assert!(r.shape_warning.is_none());
}

#[test]
fn memory_remember_no_false_positive_on_is_classifier() {
    assert!(!detect_state_shape("FineType is uv-based with cargo-style lockfiles"));
    assert!(detect_state_shape("the problem is recency bias"));
}

#[test]
fn memory_remember_refuses_empty_key_and_body() {
    let err = memory_remember("memory.remember", remember("", "b", &[], false, false), "t".into()).unwrap_err();
    assert!(err.rendered().starts_with("memory.remember: malformed: "));
    let err = memory_remember("memory.remember", remember("k", "", &[], false, false), "t".into()).unwrap_err();
    assert!(err.rendered().starts_with("memory.remember: malformed: "));
}

#[test]
fn subsystem_names_skip_hidden_and_build_dirs() {
    let found: Vec<String> = ["web", ".git", "target", "api", "node_modules", "web"].iter().map(|s| s.to_string()).collect();
    let names = orbit_state::verbs::topology::subsystem_names(&found);
    assert_eq!(names, vec!["api".to_string(), "web".to_string()]);
}
