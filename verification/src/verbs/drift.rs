//! `audit.drift`: the top-level fields of substrate files that the schema
//! does not know, each proposed for quarantine.

use vstd::prelude::*;
use crate::text::{cat, owned};
use crate::order::{views, member, has_string};
use crate::yaml::{YamlTop, YamlTopView, yaml_top_level, parse_yaml_top, key_views};
use crate::verbs::results::{AuditDriftResult, DriftEntry};

verus! {

/// The disposition proposed for every drifted field.
pub open spec fn quarantine() -> Seq<char> {
    "quarantine"@
}

/// The string keys of `keys` that `known` does not hold, in order.
pub open spec fn unknown_keys(keys: Seq<Option<Seq<char>>>, known: Seq<Seq<char>>) -> Seq<Seq<char>>
    decreases keys.len(),
{
    if keys.len() == 0 {
        Seq::empty()
    } else {
        let rest = unknown_keys(keys.drop_last(), known);
        match keys.last() {
            Some(k) => if member(k, known) { rest } else { rest.push(k) },
            None => rest,
        }
    }
}

/// The drifted field names reported for one file: a marker carrying the
/// parse error, a marker for a root that is not a mapping, or the unknown
/// keys of the root mapping.
pub open spec fn drift_fields(top: YamlTopView, known: Seq<Seq<char>>) -> Seq<Seq<char>> {
    match top {
        YamlTopView::Unparsable(m) => seq!["<parse-failed: "@ + m + ">"@],
        YamlTopView::NotMapping => seq!["<root-not-mapping>"@],
        YamlTopView::Mapping(keys) => unknown_keys(keys, known),
    }
}

/// `entries` reports exactly `fields`, in order, for the file at `path` of
/// kind `kind`, each proposed for quarantine.
pub open spec fn reports(entries: Seq<DriftEntry>, path: Seq<char>, kind: Seq<char>, fields: Seq<Seq<char>>) -> bool {
    &&& entries.len() == fields.len()
    &&& forall|i: int| 0 <= i < entries.len() ==> {
        &&& (#[trigger] entries[i]).path@ == path
        &&& entries[i].kind@ == kind
        &&& entries[i].field@ == fields[i]
        &&& entries[i].disposition@ == quarantine()
    }
}

fn entry(path: &String, kind: &String, field: String) -> (e: DriftEntry)
    ensures
        e.path@ == path@,
        e.kind@ == kind@,
        e.field@ == field@,
        e.disposition@ == quarantine(),
{
    DriftEntry { path: path.clone(), kind: kind.clone(), field, disposition: owned("quarantine") }
}

/// The drift entries for one file of kind `kind` at `path`, from what its
/// top level holds and the fields its schema knows.
pub fn drift_entries(path: &String, kind: &String, known: &Vec<String>, top: &YamlTop) -> (r: Vec<DriftEntry>)
    ensures
        reports(r@, path@, kind@, drift_fields(top@, views(known@))),
{
    let mut out: Vec<DriftEntry> = Vec::new();
    match top {
        YamlTop::Unparsable(m) => {
            let field = cat(cat(owned("<parse-failed: "), m.as_str()), ">");
            out.push(entry(path, kind, field));
        },
        YamlTop::NotMapping => {
            out.push(entry(path, kind, owned("<root-not-mapping>")));
        },
        YamlTop::Mapping(keys) => {
            let ghost kv = key_views(keys@);
            let mut i: usize = 0;
            while i < keys.len()
                invariant
                    i <= keys.len(),
                    kv == key_views(keys@),
                    reports(out@, path@, kind@, unknown_keys(kv.subrange(0, i as int), views(known@))),
                decreases keys.len() - i,
            {
                assert(kv.subrange(0, i + 1).drop_last() == kv.subrange(0, i as int));
                match &keys[i] {
                    Some(k) => {
                        if !has_string(known, k.as_str()) {
                            out.push(entry(path, kind, k.clone()));
                        }
                    },
                    None => {},
                }
                i = i + 1;
            }
            assert(kv.subrange(0, keys.len() as int) == kv);
        },
    }
    out
}

/// The drift entries for the file at `path` of kind `kind` whose text is
/// `text`: its top level as `serde_yaml` reads it, against `known`.
pub fn scan_file(path: &String, kind: &String, known: &Vec<String>, text: &String) -> (r: Vec<DriftEntry>)
    ensures
        reports(r@, path@, kind@, drift_fields(yaml_top_level(text@), views(known@))),
{
    let top = parse_yaml_top(text.as_str());
    drift_entries(path, kind, known, &top)
}

/// One substrate file the drift audit walks: where it is (as displayed),
/// its kind, the top-level fields its schema knows, and its text.
pub struct DriftSource {
    pub path: String,
    pub kind: String,
    pub known: Vec<String>,
    pub text: String,
}

/// `entries` reports, source by source and in order, the drift of each of
/// `sources`.
pub open spec fn reports_all(entries: Seq<DriftEntry>, sources: Seq<DriftSource>) -> bool
    decreases sources.len(),
{
    if sources.len() == 0 {
        entries.len() == 0
    } else {
        let s = sources.last();
        let n = drift_fields(yaml_top_level(s.text@), views(s.known@)).len();
        &&& n <= entries.len()
        &&& reports_all(entries.subrange(0, entries.len() - n), sources.drop_last())
        &&& reports(entries.subrange(entries.len() - n, entries.len() as int), s.path@, s.kind@,
            drift_fields(yaml_top_level(s.text@), views(s.known@)))
    }
}

/// `audit.drift` over the files read from the substrate (cards, specs,
/// choices and memories, in the order the caller walked them).
pub fn audit_drift(sources: &Vec<DriftSource>) -> (r: AuditDriftResult)
    ensures
        reports_all(r.drift@, sources@),
{
    let mut drift: Vec<DriftEntry> = Vec::new();
    let mut i: usize = 0;
    while i < sources.len()
        invariant
            i <= sources.len(),
            reports_all(drift@, sources@.subrange(0, i as int)),
        decreases sources.len() - i,
    {
        let s = &sources[i];
        let mut more = scan_file(&s.path, &s.kind, &s.known, &s.text);
        let ghost before = drift@;
        let ghost added = more@;
        drift.append(&mut more);
        proof {
            let srcs = sources@.subrange(0, i + 1);
            assert(srcs.drop_last() == sources@.subrange(0, i as int));
            assert(srcs.last() == sources@[i as int]);
            assert(drift@.subrange(0, before.len() as int) == before);
            assert(drift@.subrange(before.len() as int, drift@.len() as int) == added);
        }
        i = i + 1;
    }
    assert(sources@.subrange(0, sources.len() as int) == sources@);
    AuditDriftResult { drift }
}

} // verus!
