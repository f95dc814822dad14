use orbit_state::error::Category;
use orbit_state::verbs::ids::{validate_card_slug, validate_spec_id, validate_task_id};
use orbit_state::verbs::names::{card_slug_from_id, first_line, mermaid_id, numeric_prefix, spec_id_from_listed_path};

#[test]
fn spec_show_empty_id_is_malformed() {
    let err = validate_spec_id("spec.show", "").unwrap_err();
    assert_eq!(err.rendered(), "spec.show: malformed: id must not be empty");
}

#[test]
fn spec_show_path_traversal_id_is_malformed() {
    for bad in ["../etc/passwd", "0001/../..", "a/b"] {
        let err = validate_spec_id("spec.show", bad).unwrap_err();
        assert!(err.rendered().starts_with("spec.show: malformed: "), "expected malformed for id={bad:?}, got {}", err.rendered());
    }
    assert!(validate_spec_id("spec.show", "2026-05-01-ok").is_ok());
}

#[test]
fn id_refusals_name_their_label() {
    let err = validate_card_slug("card.show", "a\\b").unwrap_err();
    assert_eq!(err.category, Category::Malformed);
    assert!(err.message.contains("'a\\b'"));
    assert!(validate_task_id("task.show", "").is_err());
}

#[test]
fn numeric_prefix_reads_leading_number() {
    assert_eq!(numeric_prefix("0033-see-the-tree"), 33);
    assert_eq!(numeric_prefix("7"), 7);
    assert_eq!(numeric_prefix("no-number"), u32::MAX);
    assert_eq!(numeric_prefix("99999999999-big"), u32::MAX);
}

#[test]
fn spec_id_from_listed_path_both_layouts() {
    assert_eq!(spec_id_from_listed_path(".orbit/specs/2026-05-01-x/spec.yaml"), "2026-05-01-x");
    assert_eq!(spec_id_from_listed_path(".orbit/specs/2026-05-01-y.yaml"), "2026-05-01-y");
}

#[test]
fn mermaid_id_replaces_non_alphanumerics() {
    assert_eq!(mermaid_id('c', "0033-see-the-tree"), "c_0033_see_the_tree");
    assert_eq!(mermaid_id('s', "2026.05/x"), "s_2026_05_x");
}

#[test]
fn first_line_stops_at_newline() {
    assert_eq!(first_line("first goal line\nsecond line should not appear"), "first goal line");
    assert_eq!(first_line("crlf\r\nnext"), "crlf");
    assert_eq!(first_line(""), "");
    assert_eq!(first_line("single"), "single");
}

#[test]
fn card_slug_from_id_strips_number() {
    assert_eq!(card_slug_from_id("0036-session-handover"), "session-handover");
    assert_eq!(card_slug_from_id("36-short"), "36-short");
}
