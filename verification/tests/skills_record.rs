use orbit_state::error::Category;
use orbit_state::schema::{InvocationOutcome, SkillInvocation};
use orbit_state::verbs::skills::{bucket_invocations, parse_invocation_outcome, skill_invocation};

fn inv(outcome: &str, correction: Option<&str>, session: &str, ts: &str) -> SkillInvocation {
    skill_invocation("skill.record-invocation", "tabletop".into(), outcome, correction.map(String::from), session.into(), ts.into())
        .unwrap()
}

#[test]
fn skill_recurrence_returns_per_outcome_counts() {
    let invs = vec![
        inv("worked", None, "s1", "2026-05-15T10:00:00Z"),
        inv("worked", None, "s2", "2026-05-15T11:00:00Z"),
        inv("partial", None, "s1", "2026-05-15T12:00:00Z"),
        inv("incorrect", None, "s2", "2026-05-15T13:00:00Z"),
    ];
    let (by, total) = bucket_invocations(invs, &None);
    assert_eq!(total, 4);
    assert_eq!(by.worked.count, 2);
    assert_eq!(by.partial.count, 1);
    assert_eq!(by.didnt_apply.count, 0);
    assert_eq!(by.incorrect.count, 1);
}

#[test]
fn skill_recurrence_returns_corrections() {
    let invs = vec![inv("incorrect", Some("missed the cold-fork contract"), "s1", "2026-05-15T10:00:00Z")];
    let (by, _) = bucket_invocations(invs, &None);
    assert_eq!(by.incorrect.invocations.len(), 1);
    assert_eq!(by.incorrect.invocations[0].correction.as_deref(), Some("missed the cold-fork contract"));
}

#[test]
fn skill_recurrence_filters_by_since() {
    let invs = vec![
        inv("worked", None, "s1", "2026-05-10T00:00:00Z"),
        inv("worked", None, "s1", "2026-05-15T00:00:00Z"),
    ];
    let (by, total) = bucket_invocations(invs, &Some("2026-05-12T00:00:00Z".into()));
    assert_eq!(total, 1);
    assert_eq!(by.worked.count, 1);
}

#[test]
fn skill_recurrence_empty_when_no_file() {
    let (by, total) = bucket_invocations(vec![], &None);
    assert_eq!(total, 0);
    assert_eq!(by.worked.count, 0);
    assert_eq!(by.partial.count, 0);
    assert_eq!(by.didnt_apply.count, 0);
    assert_eq!(by.incorrect.count, 0);
}

#[test]
fn skill_record_invocation_rejects_bad_outcome() {
    let err = skill_invocation("skill.record-invocation", "tabletop".into(), "meh", None, "s1".into(), "t".into()).unwrap_err();
    assert_eq!(err.category, Category::Malformed);
    assert!(parse_invocation_outcome("v", "didnt-apply").is_ok());
    assert_eq!(parse_invocation_outcome("v", "partial").unwrap(), InvocationOutcome::Partial);
}

#[test]
fn skill_record_invocation_drops_empty_correction() {
    let i = inv("worked", Some(""), "s1", "t");
    assert!(i.correction.is_none());
}
