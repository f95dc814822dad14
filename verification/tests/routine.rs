use orbit_state::routine::{detect_recurring_chains, SessionChain};

fn chain(session_id: &str, steps: &[&str]) -> SessionChain {
    SessionChain {
        session_id: session_id.to_string(),
        chain: steps.iter().map(|s| s.to_string()).collect(),
    }
}

#[test]
fn routine_ac_02_exact_match_length_two() {
    let chains = vec![chain("s1", &["a", "b"]), chain("s2", &["a", "b"])];
    let recurring = detect_recurring_chains(&chains);
    assert_eq!(recurring.len(), 1);
    assert_eq!(recurring[0].chain, vec!["a", "b"]);
    assert_eq!(recurring[0].occurrences, 2);
}

#[test]
fn routine_ac_02_length_three_allows_one_skipped_step() {
    let chains = vec![chain("s1", &["a", "b", "c"]), chain("s2", &["a", "b", "x", "c"])];
    let recurring = detect_recurring_chains(&chains);
    let abc = recurring
        .iter()
        .find(|r| r.chain == vec!["a".to_string(), "b".to_string(), "c".to_string()]);
    assert!(abc.is_some(), "a-b-c should match with one skip: {recurring:?}");
    assert_eq!(abc.unwrap().occurrences, 2);
}

#[test]
fn routine_ac_02_longest_chain_wins() {
    let chains = vec![chain("s1", &["a", "b", "c", "d"]), chain("s2", &["a", "b", "c", "d"])];
    let recurring = detect_recurring_chains(&chains);
    assert_eq!(recurring.len(), 1);
    assert_eq!(recurring[0].chain, vec!["a", "b", "c", "d"]);
}

#[test]
fn routine_ac_02_single_session_does_not_trigger() {
    let chains = vec![chain("only", &["a", "b", "c"])];
    let recurring = detect_recurring_chains(&chains);
    assert!(recurring.is_empty(), "below threshold must not surface");
}

#[test]
fn routine_ac_05_fan_out_pattern_does_not_trigger_authoring() {
    let chains = vec![
        chain("s1", &["rally", "drive-a", "drive-b"]),
        chain("s2", &["rally", "drive-b", "drive-a"]),
    ];
    let recurring = detect_recurring_chains(&chains);
    assert!(recurring.is_empty(), "fan-out must not surface as a routine: {recurring:?}");
}

fn invocation(skill: &str, session: &str, ts: &str) -> orbit_state::schema::SkillInvocation {
    orbit_state::schema::SkillInvocation {
        skill_id: skill.into(),
        session_id: session.into(),
        outcome: orbit_state::schema::InvocationOutcome::Worked,
        correction: None,
        timestamp: ts.into(),
    }
}

#[test]
fn routine_ac_01_chain_reconstruction_via_aggregator() {
    // The streams are read skill by skill, so the invocations arrive out of
    // session and time order.
    let invs = vec![
        invocation("implement", "s1", "2026-05-21T10:02:00Z"),
        invocation("implement", "s2", "2026-05-22T09:02:00Z"),
        invocation("spec", "s1", "2026-05-21T10:01:00Z"),
        invocation("spec", "s2", "2026-05-22T09:01:00Z"),
        invocation("tabletop", "s1", "2026-05-21T10:00:00Z"),
        invocation("tabletop", "s2", "2026-05-22T09:00:00Z"),
    ];
    let chains = orbit_state::chains::session_chains(&invs);
    assert_eq!(chains.len(), 2);
    for c in &chains {
        assert_eq!(c.chain, vec!["tabletop", "spec", "implement"]);
    }
    assert_eq!(chains[0].session_id, "s1");
    assert_eq!(chains[1].session_id, "s2");
}

#[test]
fn session_chains_empty_without_invocations() {
    assert!(orbit_state::chains::session_chains(&vec![]).is_empty());
}
