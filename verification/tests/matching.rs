use orbit_state::error::Category;
use orbit_state::schema::Memory;
use orbit_state::verbs::matching::{label_set, match_counts, match_reason, tokenise, validate_match_args};

#[test]
fn tokenise_lowercases_splits_and_drops_stop_words() {
    let t = tokenise("The Decision-moment surfacing of memories, at design time!");
    assert_eq!(t, vec!["decision", "design", "memories", "moment", "surfacing", "time"]);
}

#[test]
fn tokenise_drops_single_byte_tokens_and_dedups() {
    assert_eq!(tokenise("a b cc cc x9 9"), vec!["cc", "x9"]);
    assert!(tokenise("").is_empty());
    // A single non-ASCII letter takes two bytes and is kept.
    assert_eq!(tokenise("é"), vec!["é"]);
}

#[test]
fn label_set_lowercases_and_dedups() {
    let s = label_set(&vec!["Foo".into(), "bar".into(), "FOO".into()]);
    assert_eq!(s, vec!["bar", "foo"]);
}

#[test]
fn match_counts_body_and_label_overlap() {
    let topic = tokenise("decision-moment surfacing of memories at design time");
    let labels = label_set(&vec!["0037-memory-gates".into()]);
    let m = Memory {
        key: "body-match".into(),
        body: "decision-moment surfacing of memories".into(),
        timestamp: "2026-05-19T00:00:00Z".into(),
        labels: vec!["other".into(), "0037-MEMORY-GATES".into()],
    };
    let c = match_counts(&topic, &labels, &m);
    assert_eq!(c.body_overlap, 4);
    assert_eq!(c.body_tokens, 4);
    assert_eq!(c.label_overlap, 1);
    assert_eq!(c.memory_labels, 2);
}

#[test]
fn match_reason_wording() {
    assert_eq!(match_reason(2, 3), "label overlap (2) + body token overlap (3)");
    assert_eq!(match_reason(1, 0), "label overlap (1)");
    assert_eq!(match_reason(0, 4), "body token overlap (4)");
}

#[test]
fn memory_match_rejects_empty_topic_and_labels() {
    let err = validate_match_args("memory.match", "", &vec![]).unwrap_err();
    assert_eq!(err.category, Category::Malformed);
    assert_eq!(err.message, "at least one of topic or labels must be non-empty");
    assert!(validate_match_args("memory.match", "", &vec!["x".into()]).is_ok());
    assert!(validate_match_args("memory.match", "t", &vec![]).is_ok());
}
