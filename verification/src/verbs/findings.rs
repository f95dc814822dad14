//! The workflow-conformance finding families, each decided from values the
//! audit has read: cards ready for a tabletop pass, stale memos, drifted
//! canonical files, an undotted substrate, unmigrated decision records,
//! and stale or broken routines.

use vstd::prelude::*;
use crate::schema::{Card, CardMaturity};
use crate::text::{cat, owned, str_eq, chars_of, string_from_chars, ascii_alnum, is_ascii_alnum, occurs_at, occurs_at_vec};
use crate::order::{views, member};
use crate::dates::{days_since, days_since_iso, date_prefix, parse_ymd_day, ymd_day, byte_len, byte_prefix, ten_bytes_sliceable};
use crate::verbs::audit::{finding_is, text_evidence, number_evidence};
use crate::verbs::names::{numeric_id, numeric_id_from_card_id};
use crate::verbs::results::{ConformanceFinding, EvidenceEntry, EvidenceValue, Remediation};

verus! {

/// Days a memo may stay undistilled.
pub const MEMO_STALENESS_THRESHOLD_DAYS: i64 = 7;

/// Days a routine may go without re-verification.
pub const ROUTINE_STALENESS_THRESHOLD_DAYS: i64 = 30;

fn text_entry(key: &str, value: &str) -> (e: EvidenceEntry)
    ensures
        text_evidence(e, key@, value@),
{
    EvidenceEntry { key: owned(key), value: EvidenceValue::Text(owned(value)) }
}

fn number_entry(key: &str, n: i64) -> (e: EvidenceEntry)
    ensures
        number_evidence(e, key@, n),
{
    EvidenceEntry { key: owned(key), value: EvidenceValue::Number(n) }
}

fn finding(severity: &str, subsystem: &str, subject: &str, state: &str, evidence: Option<Vec<EvidenceEntry>>,
    verb: String, rationale: &str) -> (f: ConformanceFinding)
    ensures
        finding_is(f, severity@, subsystem@, subject@, state@, verb@, rationale@),
        f.evidence == evidence,
{
    ConformanceFinding {
        severity: owned(severity),
        subsystem: owned(subsystem),
        subject: owned(subject),
        state: owned(state),
        evidence,
        remediation: Remediation { verb, rationale: Some(owned(rationale)) },
    }
}

/// The id a card is known by: its own `id`, else its file stem.
pub open spec fn card_id_of(card: Card, stem: Seq<char>) -> Seq<char> {
    match card.id {
        Some(id) => id@,
        None => stem,
    }
}

/// A card is ready for a tabletop pass: planned, addressed by no spec,
/// not parked, and with an id.
pub open spec fn ready_for_tabletop(card: Card, stem: Seq<char>) -> bool {
    &&& card.maturity == CardMaturity::Planned
    &&& card.specs.len() == 0
    &&& card.park is None
    &&& card_id_of(card, stem).len() > 0
}

/// The card-state finding for a card read from the file with stem `stem`:
/// present exactly when the card is ready for a tabletop pass, pointing at
/// `/orb:tabletop <card number>`.
pub fn card_state_finding(card: &Card, stem: &str) -> (r: Option<ConformanceFinding>)
    ensures
        r is Some <==> ready_for_tabletop(*card, stem@),
        r matches Some(f) ==> {
            let id = card_id_of(*card, stem@);
            &&& finding_is(f, "medium"@, "cards"@, id, "ready_for_tabletop"@, "/orb:tabletop "@ + numeric_id(id),
                "card has scenarios but no tabletop pass"@)
            &&& f.evidence matches Some(ev) && ev.len() == 2
                && text_evidence(ev@[0], "maturity"@, "planned"@) && number_evidence(ev@[1], "specs_count"@, 0)
        },
{
    let planned = match card.maturity {
        CardMaturity::Planned => true,
        _ => false,
    };
    if !planned || card.specs.len() > 0 || card.park.is_some() {
        return None;
    }
    let id = match &card.id {
        Some(i) => i.clone(),
        None => owned(stem),
    };
    if id.unicode_len() == 0 {
        return None;
    }
    let n = numeric_id_from_card_id(id.as_str());
    let mut evidence: Vec<EvidenceEntry> = Vec::new();
    evidence.push(text_entry("maturity", "planned"));
    evidence.push(number_entry("specs_count", 0));
    Some(finding("medium", "cards", id.as_str(), "ready_for_tabletop", Some(evidence),
        cat(owned("/orb:tabletop "), n.as_str()), "card has scenarios but no tabletop pass"))
}

/// How old a dated memo file is, in days, when its name starts with a
/// `YYYY-MM-DD` date.
pub open spec fn memo_age(filename: Seq<char>, today: i32) -> Option<i64> {
    days_since(filename, today)
}

/// The staleness finding for the memo file named `filename` (at
/// `subject`, relative to the repository): present when its name starts
/// with a date more than `MEMO_STALENESS_THRESHOLD_DAYS` days before the
/// day numbered `today`.
pub fn memo_staleness_finding(filename: &str, subject: &str, today: i32) -> (r: Option<ConformanceFinding>)
    requires
        ten_bytes_sliceable(filename@),
    ensures
        r is Some <==> (memo_age(filename@, today) matches Some(d) && d > MEMO_STALENESS_THRESHOLD_DAYS),
        r matches Some(f) ==> {
            &&& finding_is(f, "medium"@, "memos"@, subject@, "stale"@, "/orb:distill "@ + subject@,
                "memo undistilled past 7-day threshold"@)
            &&& f.evidence matches Some(ev) && ev.len() == 2
                && text_evidence(ev@[0], "filename_date"@, byte_prefix(filename@, 10))
                && (memo_age(filename@, today) matches Some(d) && number_evidence(ev@[1], "days_old"@, d))
        },
{
    let date = match date_prefix(filename) {
        Some(d) => d,
        None => return None,
    };
    let days = match parse_ymd_day(date) {
        Some(d) => today as i64 - d as i64,
        None => return None,
    };
    if days <= MEMO_STALENESS_THRESHOLD_DAYS {
        return None;
    }
    let mut evidence: Vec<EvidenceEntry> = Vec::new();
    evidence.push(text_entry("filename_date", date));
    evidence.push(number_entry("days_old", days));
    Some(finding("medium", "memos", subject, "stale", Some(evidence), cat(owned("/orb:distill "), subject),
        "memo undistilled past 7-day threshold"))
}

/// What the audit found of an operator's copy of a canonical file.
pub enum OperatorCopy {
    Missing,
    Unreadable,
    Present(String),
}

/// The drift finding for the operator's copy of the canonical file at
/// `rel`: `missing` when the copy is absent, `byte_drift` (with both sizes
/// in bytes) when it differs from `canonical`, none when it is equal or
/// could not be read.
pub fn canonical_file_finding(rel: &str, canonical: &str, operator: &OperatorCopy) -> (r: Option<ConformanceFinding>)
    requires
        byte_len(canonical@) <= i64::MAX && byte_len(canonical@) <= usize::MAX,
        operator matches OperatorCopy::Present(o) ==> byte_len(o@) <= i64::MAX && byte_len(o@) <= usize::MAX,
    ensures
        match *operator {
            OperatorCopy::Missing => (r matches Some(f)
                && finding_is(f, "medium"@, "setup"@, rel@, "missing"@, "orbit setup"@,
                    "re-run setup to overwrite with canonical"@)
                && f.evidence is None),
            OperatorCopy::Unreadable => r is None,
            OperatorCopy::Present(o) => if o@ == canonical@ {
                r is None
            } else {
                r matches Some(f)
                    && finding_is(f, "medium"@, "setup"@, rel@, "byte_drift"@, "orbit setup"@,
                        "re-run setup to overwrite with canonical"@)
                    && (f.evidence matches Some(ev) && ev.len() == 2
                    && number_evidence(ev@[0], "canonical_size"@, byte_len(canonical@) as i64)
                    && number_evidence(ev@[1], "operator_size"@, byte_len(o@) as i64))
            },
        },
{
    match operator {
        OperatorCopy::Missing => {
            let f = finding("medium", "setup", rel, "missing", None, owned("orbit setup"),
                "re-run setup to overwrite with canonical");
            assert(f.evidence is None);
            assert(finding_is(f, "medium"@, "setup"@, rel@, "missing"@, "orbit setup"@,
                "re-run setup to overwrite with canonical"@));
            Some(f)
        },
        OperatorCopy::Unreadable => None,
        OperatorCopy::Present(o) => {
            if str_eq(o.as_str(), canonical) {
                return None;
            }
            let mut evidence: Vec<EvidenceEntry> = Vec::new();
            evidence.push(number_entry("canonical_size", canonical.len() as i64));
            evidence.push(number_entry("operator_size", o.as_str().len() as i64));
            Some(finding("medium", "setup", rel, "byte_drift", Some(evidence), owned("orbit setup"),
                "re-run setup to overwrite with canonical"))
        },
    }
}

/// The subdirectories of `orbit/` whose presence signals a wrapped,
/// undotted substrate, in evidence order.
pub open spec fn undotted_subdirs() -> Seq<Seq<char>> {
    seq!["cards"@, "choices"@, "specs"@, "memos"@]
}

/// The rationale of the undotted-substrate finding.
pub open spec fn undotted_rationale() -> Seq<char> {
    "substrate lives at orbit/ but canonical layout is .orbit/ — run setup's wrapped-undotted migration before anything else (downstream findings against .orbit/ are misleading until the rename lands)"@
}

/// The undotted-substrate finding. `dotted_cards` says whether
/// `.orbit/cards/` is a directory; `entries` gives, for each of
/// `orbit/{cards,choices,specs,memos}/`, its number of entries when it is a
/// directory. The finding fires when `.orbit/cards/` is absent and any of
/// those directories exists; each count is evidence (0 for a missing one).
pub fn undotted_substrate_finding(dotted_cards: bool, entries: &Vec<Option<i64>>) -> (r: Option<ConformanceFinding>)
    requires
        entries.len() == 4,
    ensures
        r is Some <==> (!dotted_cards && exists|i: int| 0 <= i < 4 && (#[trigger] entries@[i]) is Some),
        r matches Some(f) ==> {
            &&& finding_is(f, "high"@, "setup"@, "orbit/"@, "undotted_substrate"@, "orbit setup"@, undotted_rationale())
            &&& f.evidence matches Some(ev) && ev.len() == 4 && forall|i: int| 0 <= i < 4 ==>
                number_evidence(#[trigger] ev@[i], undotted_subdirs()[i] + "_count"@,
                    match entries@[i] { Some(n) => n, None => 0 })
        },
{
    if dotted_cards {
        return None;
    }
    if entries[0].is_none() && entries[1].is_none() && entries[2].is_none() && entries[3].is_none() {
        return None;
    }
    let keys: [&str; 4] = ["cards_count", "choices_count", "specs_count", "memos_count"];
    proof {
        reveal_strlit("cards_count");
        reveal_strlit("choices_count");
        reveal_strlit("specs_count");
        reveal_strlit("memos_count");
        reveal_strlit("cards");
        reveal_strlit("choices");
        reveal_strlit("specs");
        reveal_strlit("memos");
        reveal_strlit("_count");
        assert(keys@[0]@ =~= undotted_subdirs()[0] + "_count"@);
        assert(keys@[1]@ =~= undotted_subdirs()[1] + "_count"@);
        assert(keys@[2]@ =~= undotted_subdirs()[2] + "_count"@);
        assert(keys@[3]@ =~= undotted_subdirs()[3] + "_count"@);
    }
    let mut evidence: Vec<EvidenceEntry> = Vec::new();
    let mut i: usize = 0;
    while i < 4
        invariant
            i <= 4,
            entries.len() == 4,
            forall|k: int| 0 <= k < 4 ==> (#[trigger] keys@[k])@ == undotted_subdirs()[k] + "_count"@,
            evidence.len() == i,
            forall|k: int| 0 <= k < i ==> number_evidence(#[trigger] evidence@[k], undotted_subdirs()[k] + "_count"@,
                match entries@[k] { Some(n) => n, None => 0 }),
        decreases 4 - i,
    {
        let n = match entries[i] {
            Some(n) => n,
            None => 0,
        };
        evidence.push(number_entry(keys[i], n));
        i = i + 1;
    }
    Some(finding("high", "setup", "orbit/", "undotted_substrate", Some(evidence), owned("orbit setup"),
        "substrate lives at orbit/ but canonical layout is .orbit/ — run setup's wrapped-undotted migration before anything else (downstream findings against .orbit/ are misleading until the rename lands)"))
}

/// The finding for a decision record still in markdown at `source` (its
/// choice yaml `target` does not exist yet).
pub fn decisions_md_finding(source: &str, target: &str) -> (f: ConformanceFinding)
    ensures
        finding_is(f, "medium"@, "setup"@, source@, "decisions_md_unmigrated"@,
            "manual MD→YAML conversion needed: "@ + source@ + " → "@ + target@,
            "brownfield migration renames decisions/ verbatim; the MADR markdown needs hand-conversion to the canonical Choice yaml shape (no auto-converter)"@),
        f.evidence matches Some(ev) && ev.len() == 2
            && text_evidence(ev@[0], "source_md"@, source@) && text_evidence(ev@[1], "target_yaml"@, target@),
{
    let mut evidence: Vec<EvidenceEntry> = Vec::new();
    evidence.push(text_entry("source_md", source));
    evidence.push(text_entry("target_yaml", target));
    let verb = cat(owned("manual MD→YAML conversion needed: "), source);
    let verb = cat(verb, " → ");
    let verb = cat(verb, target);
    finding("medium", "setup", source, "decisions_md_unmigrated", Some(evidence), verb,
        "brownfield migration renames decisions/ verbatim; the MADR markdown needs hand-conversion to the canonical Choice yaml shape (no auto-converter)")
}

/// The staleness finding for an agent-authored routine at `subject` whose
/// `last_verified` stamp is more than `ROUTINE_STALENESS_THRESHOLD_DAYS`
/// days before the day numbered `today`. An unreadable stamp fires
/// nothing.
pub fn routine_stale_finding(subject: &str, last_verified: &str, today: i32) -> (r: Option<ConformanceFinding>)
    requires
        ten_bytes_sliceable(last_verified@),
    ensures
        r is Some <==> (days_since(last_verified@, today) matches Some(d) && d > ROUTINE_STALENESS_THRESHOLD_DAYS),
        r matches Some(f) ==> {
            &&& finding_is(f, "medium"@, "routines"@, subject@, "stale"@, "orbit routine verify "@ + subject@,
                "last_verified is older than the 30-day routine freshness threshold"@)
            &&& f.evidence matches Some(ev) && ev.len() == 2
                && text_evidence(ev@[0], "last_verified"@, last_verified@)
                && (days_since(last_verified@, today) matches Some(d) && number_evidence(ev@[1], "days_since_verified"@, d))
        },
{
    let days = match days_since_iso(last_verified, today) {
        Some(d) => d,
        None => return None,
    };
    if days <= ROUTINE_STALENESS_THRESHOLD_DAYS {
        return None;
    }
    let mut evidence: Vec<EvidenceEntry> = Vec::new();
    evidence.push(text_entry("last_verified", last_verified));
    evidence.push(number_entry("days_since_verified", days));
    Some(finding("medium", "routines", subject, "stale", Some(evidence), cat(owned("orbit routine verify "), subject),
        "last_verified is older than the 30-day routine freshness threshold"))
}

/// The broken-reference finding for the routine at `subject`, listing the
/// `/orb:<verb>` references that resolve to no skill; none when every
/// reference resolves.
pub fn routine_broken_refs_finding(subject: &str, broken: Vec<String>) -> (r: Option<ConformanceFinding>)
    ensures
        r is Some <==> broken.len() > 0,
        r matches Some(f) ==> {
            &&& finding_is(f, "medium"@, "routines"@, subject@, "broken_refs"@, "archive via curator"@,
                "one or more /orb:<verb> references no longer resolve to a live skill"@)
            &&& f.evidence matches Some(ev) && ev.len() == 1 && ev@[0].key@ == "broken_refs"@
                && ev@[0].value == EvidenceValue::List(broken)
        },
{
    if broken.len() == 0 {
        return None;
    }
    let mut evidence: Vec<EvidenceEntry> = Vec::new();
    evidence.push(EvidenceEntry { key: owned("broken_refs"), value: EvidenceValue::List(broken) });
    Some(finding("medium", "routines", subject, "broken_refs", Some(evidence), owned("archive via curator"),
        "one or more /orb:<verb> references no longer resolve to a live skill"))
}

/// A character a skill verb may hold: ASCII letter or digit, `-`, `_`.
pub open spec fn verb_char(c: char) -> bool {
    ascii_alnum(c) || c == '-' || c == '_'
}

/// Length of the run of verb characters of `s` from `k`.
pub open spec fn verb_run(s: Seq<char>, k: int) -> nat
    decreases s.len() - k,
{
    if 0 <= k < s.len() && verb_char(s[k]) { 1 + verb_run(s, k + 1) } else { 0 }
}

/// A skill reference starts at `p`: `/orb:` followed by at least one verb
/// character.
pub open spec fn ref_at(body: Seq<char>, p: int) -> bool {
    occurs_at(body, "/orb:"@, p) && verb_run(body, p + 5) > 0
}

/// The reference starting at `p`.
pub open spec fn ref_text(body: Seq<char>, p: int) -> Seq<char> {
    body.subrange(p, p + 5 + verb_run(body, p + 5))
}

/// The distinct skill references starting before position `n`, in order
/// of first appearance.
pub open spec fn refs_before(body: Seq<char>, n: int) -> Seq<Seq<char>>
    decreases n,
{
    if n <= 0 {
        Seq::empty()
    } else {
        let rest = refs_before(body, n - 1);
        if ref_at(body, n - 1) && !member(ref_text(body, n - 1), rest) {
            rest.push(ref_text(body, n - 1))
        } else {
            rest
        }
    }
}

proof fn lemma_verb_run_facts(s: Seq<char>, k: int)
    requires
        0 <= k <= s.len(),
    ensures
        k + verb_run(s, k) <= s.len(),
        forall|j: int| k <= j < k + verb_run(s, k) ==> verb_char(#[trigger] s[j]),
        k + verb_run(s, k) < s.len() ==> !verb_char(s[k + verb_run(s, k)]),
    decreases s.len() - k,
{
    if k < s.len() && verb_char(s[k]) {
        lemma_verb_run_facts(s, k + 1);
    }
}

proof fn lemma_verb_run_exact(s: Seq<char>, k: int, e: int)
    requires
        0 <= k <= e <= s.len(),
        forall|j: int| k <= j < e ==> verb_char(#[trigger] s[j]),
        e < s.len() ==> !verb_char(s[e]),
    ensures
        verb_run(s, k) == e - k,
    decreases e - k,
{
    if k < e {
        lemma_verb_run_exact(s, k + 1, e);
    }
}

/// The skill references (`/orb:<verb>`) in a routine body, each once, in
/// order of first appearance.
pub fn extract_orb_refs(body: &str) -> (r: Vec<String>)
    ensures
        views(r@) == refs_before(body@, body@.len() as int),
{
    let v = chars_of(body);
    let pat = chars_of("/orb:");
    proof { reveal_strlit("/orb:"); }
    let mut out: Vec<String> = Vec::new();
    let mut p: usize = 0;
    while p < v.len()
        invariant
            v@ == body@,
            pat@ == "/orb:"@,
            pat@.len() == 5,
            p <= v.len(),
            views(out@) == refs_before(body@, p as int),
        decreases v.len() - p,
    {
        let ghost before = views(out@);
        if occurs_at_vec(&v, &pat, p) {
            assert(pat@.len() == 5);
            assert(p + 5 <= v.len());
            let mut e: usize = p + 5;
            while e < v.len() && (is_ascii_alnum(v[e]) || v[e] == '-' || v[e] == '_')
                invariant
                    v@ == body@,
                    p + 5 <= e <= v.len(),
                    forall|j: int| p + 5 <= j < e ==> verb_char(#[trigger] v@[j]),
                decreases v.len() - e,
            {
                e = e + 1;
            }
            proof { lemma_verb_run_exact(body@, p + 5, e as int); }
            if e > p + 5 {
                let r = string_from_chars(vstd::slice::slice_subrange(v.as_slice(), p, e));
                assert(r@ == ref_text(body@, p as int));
                if !crate::order::has_string(&out, r.as_str()) {
                    out.push(r);
                    assert(views(out@) =~= before.push(ref_text(body@, p as int)));
                }
            }
        }
        p = p + 1;
    }
    out
}

} // verus!
