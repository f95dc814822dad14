use orbit_state::verbs::skills::split_off_body;

#[test]
fn split_off_body_returns_text_after_front_matter() {
    let md = "---\nname: x\nchain: []\n---\n# Body\ntext\n";
    assert_eq!(split_off_body(md), Some("# Body\ntext\n".to_string()));
}

#[test]
fn split_off_body_skips_byte_order_marks() {
    let md = "\u{feff}---\na: 1\n---\nbody";
    assert_eq!(split_off_body(md), Some("body".to_string()));
}

#[test]
fn split_off_body_without_markers_is_none() {
    assert_eq!(split_off_body("no front matter"), None);
    assert_eq!(split_off_body("---\nnever closed"), None);
}

#[test]
fn split_off_body_closing_marker_at_end() {
    assert_eq!(split_off_body("---\na: 1\n---"), Some(String::new()));
    // Only the first closing marker ends the block.
    assert_eq!(split_off_body("---\na\n---\nb\n---\nc"), Some("b\n---\nc".to_string()));
}
