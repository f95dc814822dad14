//! Substrate-wide hygiene check: every canonical file must parse and
//! re-serialise byte-identically (topology entries must also validate),
//! and the index must rebuild from the files alone.
//!
//! The files are read, parsed and re-serialised by the surrounding
//! program; this module decides, from what that produced, which files
//! fail and why, and whether the whole check fails.

use vstd::prelude::*;
use crate::schema::TopologyEntry;
use crate::text::{cat, owned, str_eq};

verus! {

/// Why a file failed the round-trip check.
#[derive(Debug)]
pub enum RoundTripFailureKind {
    /// The file could not be read or parsed against its schema; the message
    /// says why.
    ParseFailed(String),
    /// The file parsed and re-serialised, but not to the same bytes.
    NotByteIdentical,
}

/// A file that failed the round-trip check.
#[derive(Debug)]
pub struct RoundTripFailure {
    pub path: String,
    pub kind: RoundTripFailureKind,
}

/// Aggregate result of the hygiene check: empty lists mean it passed.
#[derive(Debug)]
pub struct VerifyOutcome {
    pub round_trip_failures: Vec<RoundTripFailure>,
    pub index_drift: Vec<String>,
}

impl VerifyOutcome {
    /// The check failed: some file failed to round-trip, or the index
    /// drifted.
    pub open spec fn spec_has_failures(&self) -> bool {
        self.round_trip_failures.len() > 0 || self.index_drift.len() > 0
    }

    /// Whether the check failed.
    pub fn has_failures(&self) -> (r: bool)
        ensures
            r == self.spec_has_failures(),
    {
        self.round_trip_failures.len() > 0 || self.index_drift.len() > 0
    }
}

/// What reading, parsing and re-serialising one file gave.
pub enum RoundTrip {
    /// Reading failed, with the reader's message.
    Unreadable(String),
    /// Parsing (or re-serialising) failed, with the parser's message.
    Unparsed(String),
    /// The file's text and its re-serialisation.
    Reserialised { original: String, reserialised: String },
}

/// For a topology entry that round-tripped: the entry parsed again for
/// validation, or why re-reading or re-parsing it failed (the message
/// already says which).
pub type TopologyRecheck = std::result::Result<TopologyEntry, String>;

/// One file put through the check.
pub struct CheckedFile {
    pub path: String,
    pub round_trip: RoundTrip,
    /// Present for topology entries only.
    pub topology: Option<TopologyRecheck>,
}

/// What became of the index rebuild.
pub enum IndexCheck {
    Rebuilt,
    OpenFailed(String),
    RebuildFailed(String),
}

/// The failure one file contributes, as (kind is parse-failed, message);
/// `None` when the file passes.
pub open spec fn file_failure(f: CheckedFile) -> Option<(bool, Seq<char>)> {
    match f.round_trip {
        RoundTrip::Unreadable(m) => Some((true, "read failed: "@ + m@)),
        RoundTrip::Unparsed(m) => Some((true, m@)),
        RoundTrip::Reserialised { original, reserialised } => if original@ != reserialised@ {
            Some((false, Seq::empty()))
        } else {
            match f.topology {
                None => None,
                Some(Err(m)) => Some((true, m@)),
                Some(Ok(e)) => if e.spec_valid() {
                    None
                } else {
                    Some((true, "validate failed: "@ + e.validate_message()))
                },
            }
        },
    }
}

/// `x` reports the failure `want` of the file at `path`.
pub open spec fn reports(x: RoundTripFailure, path: Seq<char>, want: (bool, Seq<char>)) -> bool {
    &&& x.path@ == path
    &&& if want.0 {
        x.kind matches RoundTripFailureKind::ParseFailed(m) && m@ == want.1
    } else {
        x.kind matches RoundTripFailureKind::NotByteIdentical
    }
}

/// The failures of the files checked so far, in order.
pub open spec fn failures(files: Seq<CheckedFile>) -> Seq<(Seq<char>, (bool, Seq<char>))>
    decreases files.len(),
{
    if files.len() == 0 {
        Seq::empty()
    } else {
        let rest = failures(files.drop_last());
        match file_failure(files.last()) {
            Some(w) => rest.push((files.last().path@, w)),
            None => rest,
        }
    }
}

/// The drift message of an index check.
pub open spec fn index_message(i: IndexCheck) -> Option<Seq<char>> {
    match i {
        IndexCheck::Rebuilt => None,
        IndexCheck::OpenFailed(e) => Some("index open failed: "@ + e@),
        IndexCheck::RebuildFailed(e) => Some("index rebuild failed: "@ + e@),
    }
}

fn check_file(f: CheckedFile) -> (r: Option<RoundTripFailure>)
    ensures
        match file_failure(f) {
            None => r is None,
            Some(w) => r matches Some(x) && reports(x, f.path@, w),
        },
{
    let ghost g = f;
    let path = f.path;
    match f.round_trip {
        RoundTrip::Unreadable(m) => Some(RoundTripFailure {
            path,
            kind: RoundTripFailureKind::ParseFailed(cat(owned("read failed: "), m.as_str())),
        }),
        RoundTrip::Unparsed(m) => Some(RoundTripFailure { path, kind: RoundTripFailureKind::ParseFailed(m) }),
        RoundTrip::Reserialised { original, reserialised } => {
            if !str_eq(original.as_str(), reserialised.as_str()) {
                return Some(RoundTripFailure { path, kind: RoundTripFailureKind::NotByteIdentical });
            }
            match f.topology {
                None => None,
                Some(Err(m)) => Some(RoundTripFailure { path, kind: RoundTripFailureKind::ParseFailed(m) }),
                Some(Ok(e)) => match e.validate() {
                    Ok(()) => None,
                    Err(msg) => Some(RoundTripFailure {
                        path,
                        kind: RoundTripFailureKind::ParseFailed(cat(owned("validate failed: "), msg.as_str())),
                    }),
                },
            }
        },
    }
}

/// The hygiene check over the files put through it (schema version,
/// specs, cards, choices, memories, sessions, config, topology entries,
/// in that order) and the index rebuild: one round-trip failure per
/// failing file, in order, and the index drift, if any.
pub fn verify_all(files: Vec<CheckedFile>, index: IndexCheck) -> (r: VerifyOutcome)
    ensures
        r.round_trip_failures.len() == failures(files@).len(),
        forall|i: int| 0 <= i < r.round_trip_failures.len() ==>
            reports(#[trigger] r.round_trip_failures@[i], failures(files@)[i].0, failures(files@)[i].1),
        match index_message(index) {
            None => r.index_drift.len() == 0,
            Some(m) => r.index_drift.len() == 1 && r.index_drift@[0]@ == m,
        },
        r.spec_has_failures() <==> (failures(files@).len() > 0 || index_message(index) is Some),
{
    let ghost all = files@;
    let mut files = files;
    assert(all.len() == files.len());
    let mut out: Vec<RoundTripFailure> = Vec::new();
    let mut done: usize = 0;
    while files.len() > 0
        invariant
            files@ == all.subrange(done as int, all.len() as int),
            done <= all.len(),
            all.len() <= usize::MAX,
            out.len() == failures(all.subrange(0, done as int)).len(),
            forall|i: int| 0 <= i < out.len() ==>
                reports(#[trigger] out@[i], failures(all.subrange(0, done as int))[i].0,
                    failures(all.subrange(0, done as int))[i].1),
        decreases files.len(),
    {
        let ghost before_files = files@;
        let f = files.remove(0);
        proof {
            assert(all[done as int] == f);
            assert(files@ =~= all.subrange(done + 1, all.len() as int));
            assert(all.subrange(0, done + 1).drop_last() =~= all.subrange(0, done as int));
            assert(all.subrange(0, done + 1).last() == f);
        }
        let ghost before_out = out@;
        match check_file(f) {
            Some(x) => {
                out.push(x);
                proof {
                    assert forall|i: int| 0 <= i < out.len() implies
                        reports(#[trigger] out@[i], failures(all.subrange(0, done + 1))[i].0,
                            failures(all.subrange(0, done + 1))[i].1) by {
                        if i < before_out.len() { assert(out@[i] == before_out[i]); }
                    }
                }
            },
            None => {},
        }
        done = done + 1;
    }
    assert(all.subrange(0, all.len() as int) =~= all);
    let mut drift: Vec<String> = Vec::new();
    match index {
        IndexCheck::Rebuilt => {},
        IndexCheck::OpenFailed(e) => drift.push(cat(owned("index open failed: "), e.as_str())),
        IndexCheck::RebuildFailed(e) => drift.push(cat(owned("index rebuild failed: "), e.as_str())),
    }
    VerifyOutcome { round_trip_failures: out, index_drift: drift }
}

} // verus!
