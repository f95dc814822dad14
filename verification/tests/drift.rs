use orbit_state::verbs::drift::{audit_drift, drift_entries, scan_file, DriftSource};
use orbit_state::yaml::YamlTop;

fn known(fields: &[&str]) -> Vec<String> {
    fields.iter().map(|f| f.to_string()).collect()
}

#[test]
fn drift_reports_unknown_top_level_keys_in_order() {
    let text = "key: k\nbody: b\nextra: 1\ntimestamp: t\nlabels: []\nweird: x\n".to_string();
    let r = scan_file(&".orbit/memories/k.yaml".into(), &"memory".into(), &known(&["key", "body", "timestamp", "labels"]), &text);
    let fields: Vec<&str> = r.iter().map(|e| e.field.as_str()).collect();
    assert_eq!(fields, vec!["extra", "weird"]);
    assert!(r.iter().all(|e| e.disposition == "quarantine" && e.kind == "memory" && e.path == ".orbit/memories/k.yaml"));
}

#[test]
fn drift_clean_file_has_no_entries() {
    let text = "key: k\nbody: b\n".to_string();
    let r = scan_file(&"p".into(), &"memory".into(), &known(&["key", "body"]), &text);
    assert!(r.is_empty());
}

#[test]
fn drift_root_not_mapping_is_one_entry() {
    let r = scan_file(&"p".into(), &"card".into(), &known(&["feature"]), &"- a\n- b\n".to_string());
    assert_eq!(r.len(), 1);
    assert_eq!(r[0].field, "<root-not-mapping>");
}

#[test]
fn drift_parse_failure_is_one_entry() {
    let r = scan_file(&"p".into(), &"spec".into(), &known(&["id"]), &"a: [unclosed\n".to_string());
    assert_eq!(r.len(), 1);
    assert!(r[0].field.starts_with("<parse-failed: "), "got {}", r[0].field);
    assert!(r[0].field.ends_with('>'));
}

#[test]
fn drift_entries_skip_non_string_keys() {
    let top = YamlTop::Mapping(vec![Some("id".into()), None, Some("odd".into())]);
    let r = drift_entries(&"p".into(), &"spec".into(), &known(&["id"]), &top);
    assert_eq!(r.len(), 1);
    assert_eq!(r[0].field, "odd");
}

#[test]
fn audit_drift_concatenates_sources_in_order() {
    let sources = vec![
        DriftSource { path: "c".into(), kind: "card".into(), known: known(&["feature"]), text: "feature: f\nx: 1\n".into() },
        DriftSource { path: "s".into(), kind: "spec".into(), known: known(&["id"]), text: "id: 1\ny: 2\nz: 3\n".into() },
    ];
    let r = audit_drift(&sources);
    let got: Vec<(&str, &str)> = r.drift.iter().map(|e| (e.path.as_str(), e.field.as_str())).collect();
    assert_eq!(got, vec![("c", "x"), ("s", "y"), ("s", "z")]);
}
