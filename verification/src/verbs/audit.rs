//! Audits of the substrate: layout classification, version pinning and the
//! workflow-conformance aggregation with its dominance rules.

use vstd::prelude::*;
use crate::order::{lex_le, lemma_lex_antisym, lemma_lex_total, lemma_lex_refl};
use crate::text::{cat, owned, str_eq, chars_of, string_from_chars, ascii_digit, is_ascii_digit};
use crate::order::str_le;
use crate::verbs::results::{ConformanceFinding, EvidenceEntry, EvidenceValue, PinState, Remediation};

verus! {

/// Layout of a repository with respect to the substrate, from three
/// observations: a `.orbit/` directory, an `orbit/` directory, and any bare
/// artefact directory (`cards`, `specs`, `decisions`, `discovery`) at the
/// repository root.
#[derive(Debug, Clone, Copy, PartialEq, Eq, Structural)]
pub enum SubstrateLayoutState {
    /// Nothing present.
    Greenfield,
    /// Only `.orbit/`.
    Idempotent,
    /// Only bare artefact directories.
    BrownfieldBare,
    /// `orbit/` without `.orbit/`.
    WrappedUndotted,
    /// `.orbit/` together with bare artefact directories (no `orbit/`).
    MixedBare,
    /// `.orbit/` together with `orbit/`.
    MixedUndotted,
}

/// The layout state of the three observations.
pub open spec fn layout_state(dotted: bool, undotted: bool, bare_present: bool) -> SubstrateLayoutState {
    if dotted && undotted {
        SubstrateLayoutState::MixedUndotted
    } else if dotted && bare_present {
        SubstrateLayoutState::MixedBare
    } else if dotted {
        SubstrateLayoutState::Idempotent
    } else if undotted {
        SubstrateLayoutState::WrappedUndotted
    } else if bare_present {
        SubstrateLayoutState::BrownfieldBare
    } else {
        SubstrateLayoutState::Greenfield
    }
}

/// Classifies a repository from whether `.orbit/` is a directory
/// (`dotted`), whether `orbit/` is (`undotted`), and whether any bare
/// artefact directory is (`bare_present`). An `orbit/` beside `.orbit/`
/// dominates: it is reported as the undotted collision whatever else is
/// there.
pub fn classify_substrate_layout(dotted: bool, undotted: bool, bare_present: bool) -> (r: SubstrateLayoutState)
    ensures
        r == layout_state(dotted, undotted, bare_present),
{
    match (dotted, undotted, bare_present) {
        (true, true, _) => SubstrateLayoutState::MixedUndotted,
        (true, false, true) => SubstrateLayoutState::MixedBare,
        (true, false, false) => SubstrateLayoutState::Idempotent,
        (false, true, _) => SubstrateLayoutState::WrappedUndotted,
        (false, false, true) => SubstrateLayoutState::BrownfieldBare,
        (false, false, false) => SubstrateLayoutState::Greenfield,
    }
}

/// Every combination of observations has exactly one state, and each of
/// the six states is reachable.
pub proof fn lemma_layout_states_exhaustive()
    ensures
        layout_state(false, false, false) == SubstrateLayoutState::Greenfield,
        layout_state(true, false, false) == SubstrateLayoutState::Idempotent,
        layout_state(false, false, true) == SubstrateLayoutState::BrownfieldBare,
        layout_state(false, true, false) == SubstrateLayoutState::WrappedUndotted,
        layout_state(true, false, true) == SubstrateLayoutState::MixedBare,
        layout_state(true, true, false) == SubstrateLayoutState::MixedUndotted,
        forall|b: bool| layout_state(true, true, b) == SubstrateLayoutState::MixedUndotted,
        forall|b: bool| layout_state(false, true, b) == SubstrateLayoutState::WrappedUndotted,
{
}

/// The order of two version strings.
#[derive(Debug, Clone, Copy, PartialEq, Eq, Structural)]
pub enum VersionOrder {
    Less,
    Equal,
    Greater,
}

/// The order with its two sides swapped.
pub open spec fn flipped(o: VersionOrder) -> VersionOrder {
    match o {
        VersionOrder::Less => VersionOrder::Greater,
        VersionOrder::Equal => VersionOrder::Equal,
        VersionOrder::Greater => VersionOrder::Less,
    }
}

/// `s` split at every `.` (as `str::split('.')` splits it).
pub open spec fn dot_parts(s: Seq<char>) -> Seq<Seq<char>>
    decreases s.len(),
{
    if s.len() == 0 {
        seq![Seq::empty()]
    } else {
        let rest = dot_parts(s.drop_last());
        if s.last() == '.' {
            rest.push(Seq::empty())
        } else {
            rest.update(rest.len() - 1, rest.last().push(s.last()))
        }
    }
}

/// Every string of digits is a number.
pub open spec fn all_digits(s: Seq<char>) -> bool {
    forall|i: int| 0 <= i < s.len() ==> ascii_digit(#[trigger] s[i])
}

/// The value of a string of decimal digits.
pub open spec fn digits_value(s: Seq<char>) -> nat
    decreases s.len(),
{
    if s.len() == 0 { 0 } else { digits_value(s.drop_last()) * 10 + ((s.last() as nat) - ('0' as nat)) as nat }
}

/// What `u64::from_str` gives for `s`: an optional `+` then at least one
/// digit, with a value that fits in a `u64`.
pub open spec fn parse_u64(s: Seq<char>) -> Option<u64> {
    let digits = if s.len() > 0 && s[0] == '+' { s.drop_first() } else { s };
    if digits.len() > 0 && all_digits(digits) && digits_value(digits) <= u64::MAX {
        Some(digits_value(digits) as u64)
    } else {
        None
    }
}

/// The `i`-th part, `"0"` past the end.
pub open spec fn part(parts: Seq<Seq<char>>, i: int) -> Seq<char> {
    if i < parts.len() { parts[i] } else { seq!['0'] }
}

/// Order of two parts: numerically when both are numbers, else by text.
pub open spec fn part_order(a: Seq<char>, b: Seq<char>) -> VersionOrder {
    match (parse_u64(a), parse_u64(b)) {
        (Some(x), Some(y)) => if x < y { VersionOrder::Less } else if x > y { VersionOrder::Greater } else { VersionOrder::Equal },
        _ => if a == b { VersionOrder::Equal } else if lex_le(a, b) { VersionOrder::Less } else { VersionOrder::Greater },
    }
}

/// Order of the versions from part `i` on.
pub open spec fn order_from(ap: Seq<Seq<char>>, bp: Seq<Seq<char>>, i: nat) -> VersionOrder
    decreases (if ap.len() > bp.len() { ap.len() } else { bp.len() }) - i,
{
    let n = if ap.len() > bp.len() { ap.len() } else { bp.len() };
    if i >= n {
        VersionOrder::Equal
    } else {
        let o = part_order(part(ap, i as int), part(bp, i as int));
        if o != VersionOrder::Equal { o } else { order_from(ap, bp, i + 1) }
    }
}

/// The order of two dotted version strings.
pub open spec fn version_order(a: Seq<char>, b: Seq<char>) -> VersionOrder {
    order_from(dot_parts(a), dot_parts(b), 0)
}

fn split_dots(s: &str) -> (r: Vec<String>)
    ensures
        crate::order::views(r@) == dot_parts(s@),
{
    let v = chars_of(s);
    let mut parts: Vec<String> = Vec::new();
    let mut cur: Vec<char> = Vec::new();
    let mut i: usize = 0;
    while i < v.len()
        invariant
            v@ == s@,
            i <= v.len(),
            crate::order::views(parts@).push(cur@) == dot_parts(s@.subrange(0, i as int)),
        decreases v.len() - i,
    {
        let ghost pre = s@.subrange(0, i + 1);
        assert(pre.drop_last() =~= s@.subrange(0, i as int));
        let ghost old_parts = crate::order::views(parts@);
        let ghost old_cur = cur@;
        if v[i] == '.' {
            let piece = string_from_chars(cur.as_slice());
            parts.push(piece);
            cur = Vec::new();
            assert(crate::order::views(parts@) =~= old_parts.push(old_cur));
            assert(crate::order::views(parts@).push(cur@) =~= old_parts.push(old_cur).push(Seq::empty()));
        } else {
            cur.push(v[i]);
            assert(crate::order::views(parts@).push(cur@) =~= old_parts.push(old_cur).update(old_parts.len() as int, old_cur.push(v@[i as int])));
        }
        i = i + 1;
    }
    assert(s@.subrange(0, v.len() as int) =~= s@);
    let ghost old_parts = crate::order::views(parts@);
    let last = string_from_chars(cur.as_slice());
    parts.push(last);
    assert(crate::order::views(parts@) =~= old_parts.push(cur@));
    parts
}

fn parse_u64_exec(s: &str) -> (r: Option<u64>)
    ensures
        r == parse_u64(s@),
{
    let v = chars_of(s);
    let start: usize = if v.len() > 0 && v[0] == '+' { 1 } else { 0 };
    let ghost digits = if s@.len() > 0 && s@[0] == '+' { s@.drop_first() } else { s@ };
    assert(digits =~= s@.subrange(start as int, s@.len() as int));
    if start == v.len() {
        return None;
    }
    let mut acc: u64 = 0;
    let mut i: usize = start;
    while i < v.len()
        invariant
            v@ == s@,
            start <= i <= v.len(),
            digits == s@.subrange(start as int, s@.len() as int),
            digits == (if s@.len() > 0 && s@[0] == '+' { s@.drop_first() } else { s@ }),
            all_digits(s@.subrange(start as int, i as int)),
            acc == digits_value(s@.subrange(start as int, i as int)),
        decreases v.len() - i,
    {
        let ghost prev = s@.subrange(start as int, i as int);
        assert(s@.subrange(start as int, i + 1) =~= prev.push(v@[i as int]));
        assert(prev.push(v@[i as int]).drop_last() =~= prev);
        assert(digits[i - start] == v@[i as int]);
        if !is_ascii_digit(v[i]) {
            assert(!ascii_digit(digits[i - start]));
            assert(!all_digits(digits));
            return None;
        }
        let d = (v[i] as u64) - ('0' as u64);
        let next = match acc.checked_mul(10) {
            Some(m) => m.checked_add(d),
            None => None,
        };
        match next {
            Some(n) => { acc = n; },
            None => {
                proof { lemma_value_exceeds(s@, start as int, i as int); }
                return None;
            },
        }
        i = i + 1;
    }
    assert(s@.subrange(start as int, v.len() as int) =~= digits);
    Some(acc)
}

proof fn lemma_value_mono(s: Seq<char>, j: int)
    requires
        0 <= j <= s.len(),
        all_digits(s),
    ensures
        digits_value(s.subrange(0, j)) <= digits_value(s),
    decreases s.len() - j,
{
    if j < s.len() {
        lemma_value_mono(s, j + 1);
        let t = s.subrange(0, j + 1);
        assert(t.drop_last() =~= s.subrange(0, j));
        assert(ascii_digit(s[j]));
    } else {
        assert(s.subrange(0, j) =~= s);
    }
}

proof fn lemma_value_exceeds(s: Seq<char>, start: int, i: int)
    requires
        0 <= start <= i < s.len(),
        all_digits(s.subrange(start, i)),
        ascii_digit(s[i]),
        digits_value(s.subrange(start, i)) * 10 + ((s[i] as nat) - ('0' as nat)) > u64::MAX,
    ensures
        !(all_digits(s.subrange(start, s.len() as int)) && digits_value(s.subrange(start, s.len() as int)) <= u64::MAX),
{
    let full = s.subrange(start, s.len() as int);
    if all_digits(full) {
        let pre = full.subrange(0, i + 1 - start);
        assert(pre =~= s.subrange(start, i + 1));
        assert(pre.drop_last() =~= s.subrange(start, i));
        lemma_value_mono(full, i + 1 - start);
    }
}

fn part_at(parts: &Vec<String>, i: usize) -> (r: String)
    ensures
        r@ == part(crate::order::views(parts@), i as int),
{
    if i < parts.len() {
        parts[i].clone()
    } else {
        let mut z: Vec<char> = Vec::new();
        z.push('0');
        assert(z@ =~= seq!['0']);
        string_from_chars(z.as_slice())
    }
}

fn part_order_exec(a: &str, b: &str) -> (r: VersionOrder)
    ensures
        r == part_order(a@, b@),
{
    match (parse_u64_exec(a), parse_u64_exec(b)) {
        (Some(x), Some(y)) => if x < y { VersionOrder::Less } else if x > y { VersionOrder::Greater } else { VersionOrder::Equal },
        _ => if str_eq(a, b) { VersionOrder::Equal } else if str_le(a, b) { VersionOrder::Less } else { VersionOrder::Greater },
    }
}

/// Compares two dotted version strings part by part: numerically where
/// both parts are numbers, as text otherwise; a missing part counts as
/// `0`. The first differing part decides.
pub fn compare_versions(a: &str, b: &str) -> (r: VersionOrder)
    ensures
        r == version_order(a@, b@),
{
    let ap = split_dots(a);
    let bp = split_dots(b);
    let n = if ap.len() > bp.len() { ap.len() } else { bp.len() };
    let ghost av = crate::order::views(ap@);
    let ghost bv = crate::order::views(bp@);
    let mut i: usize = 0;
    while i < n
        invariant
            av == crate::order::views(ap@),
            bv == crate::order::views(bp@),
            av == dot_parts(a@),
            bv == dot_parts(b@),
            n == (if ap.len() > bp.len() { ap.len() } else { bp.len() }),
            i <= n,
            order_from(av, bv, 0) == order_from(av, bv, i as nat),
        decreases n - i,
    {
        let pa = part_at(&ap, i);
        let pb = part_at(&bp, i);
        let o = part_order_exec(pa.as_str(), pb.as_str());
        match o {
            VersionOrder::Equal => {},
            _ => { return o; },
        }
        i = i + 1;
    }
    VersionOrder::Equal
}

proof fn lemma_part_order_flip(a: Seq<char>, b: Seq<char>)
    ensures
        part_order(b, a) == flipped(part_order(a, b)),
{
    if !(parse_u64(a) is Some && parse_u64(b) is Some) && a != b {
        lemma_lex_total(a, b);
        if lex_le(a, b) && lex_le(b, a) {
            lemma_lex_antisym(a, b);
        }
    }
}

proof fn lemma_order_from_flip(ap: Seq<Seq<char>>, bp: Seq<Seq<char>>, i: nat)
    ensures
        order_from(bp, ap, i) == flipped(order_from(ap, bp, i)),
    decreases (if ap.len() > bp.len() { ap.len() } else { bp.len() }) - i,
{
    let n = if ap.len() > bp.len() { ap.len() } else { bp.len() };
    if i < n {
        lemma_part_order_flip(part(ap, i as int), part(bp, i as int));
        lemma_order_from_flip(ap, bp, i + 1);
    }
}

proof fn lemma_order_from_refl(ap: Seq<Seq<char>>, i: nat)
    ensures
        order_from(ap, ap, i) == VersionOrder::Equal,
    decreases ap.len() - i,
{
    if i < ap.len() {
        lemma_order_from_refl(ap, i + 1);
    }
}

/// A version compares equal to itself.
pub proof fn lemma_version_order_refl(a: Seq<char>)
    ensures
        version_order(a, a) == VersionOrder::Equal,
{
    lemma_order_from_refl(dot_parts(a), 0);
}

/// Swapping the versions swaps the order.
pub proof fn lemma_version_order_antisym(a: Seq<char>, b: Seq<char>)
    ensures
        version_order(b, a) == flipped(version_order(a, b)),
{
    lemma_order_from_flip(dot_parts(a), dot_parts(b), 0);
}

/// The pin status of a pinned version against the installed one.
pub open spec fn pin_status(pinned: Option<Seq<char>>, current: Seq<char>) -> Seq<char> {
    match pinned {
        None => "unpinned"@,
        Some(p) => if p == current {
            "matches"@
        } else {
            match version_order(p, current) {
                VersionOrder::Less => "pin_behind"@,
                VersionOrder::Greater => "pin_ahead"@,
                VersionOrder::Equal => "matches"@,
            }
        },
    }
}

/// The pin state of the project: the version pinned in its config (if
/// any) against `current`, the installed version.
pub fn derive_pin_state(pinned: Option<String>, current: String) -> (r: PinState)
    ensures
        r.pinned == pinned,
        r.current == current,
        r.status@ == pin_status(match pinned { Some(p) => Some(p@), None => None }, current@),
{
    let status = match &pinned {
        None => "unpinned",
        Some(p) => if str_eq(p.as_str(), current.as_str()) {
            "matches"
        } else {
            match compare_versions(p.as_str(), current.as_str()) {
                VersionOrder::Less => "pin_behind",
                VersionOrder::Greater => "pin_ahead",
                VersionOrder::Equal => "matches",
            }
        },
    };
    PinState { pinned, current, status: owned(status) }
}

/// A pin that names the installed version matches it.
pub proof fn lemma_same_version_matches(v: Seq<char>)
    ensures
        pin_status(Some(v), v) == "matches"@,
{
}

/// A pin behind the installed version is reported behind, and the same
/// pair the other way round is reported ahead.
pub proof fn lemma_pin_direction(p: Seq<char>, c: Seq<char>)
    requires
        p != c,
        version_order(p, c) == VersionOrder::Less,
    ensures
        pin_status(Some(p), c) == "pin_behind"@,
        pin_status(Some(c), p) == "pin_ahead"@,
{
    lemma_version_order_antisym(p, c);
}

/// A pin status that suppresses the per-file canonical findings.
pub open spec fn pin_dominant(status: Seq<char>) -> bool {
    status == "pin_behind"@ || status == "pin_ahead"@
}

/// `e` is the text evidence `key: value`.
pub open spec fn text_evidence(e: EvidenceEntry, key: Seq<char>, value: Seq<char>) -> bool {
    e.key@ == key && (e.value matches EvidenceValue::Text(t) && t@ == value)
}

/// `e` is the numeric evidence `key: n`.
pub open spec fn number_evidence(e: EvidenceEntry, key: Seq<char>, n: i64) -> bool {
    e.key@ == key && e.value == EvidenceValue::Number(n)
}

fn text_entry(key: &str, value: &str) -> (e: EvidenceEntry)
    ensures
        text_evidence(e, key@, value@),
{
    EvidenceEntry { key: owned(key), value: EvidenceValue::Text(owned(value)) }
}

fn number_entry(key: &str, n: i64) -> (e: EvidenceEntry)
    ensures
        number_evidence(e, key@, n),
{
    EvidenceEntry { key: owned(key), value: EvidenceValue::Number(n) }
}

/// `f` carries the given fixed fields.
pub open spec fn finding_is(f: ConformanceFinding, severity: Seq<char>, subsystem: Seq<char>, subject: Seq<char>,
    state: Seq<char>, verb: Seq<char>, rationale: Seq<char>) -> bool {
    &&& f.severity@ == severity
    &&& f.subsystem@ == subsystem
    &&& f.subject@ == subject
    &&& f.state@ == state
    &&& f.remediation.verb@ == verb
    &&& f.remediation.rationale matches Some(r) && r@ == rationale
}

fn finding(severity: &str, subsystem: &str, subject: &str, state: &str, evidence: Option<Vec<EvidenceEntry>>,
    verb: String, rationale: &str) -> (f: ConformanceFinding)
    ensures
        finding_is(f, severity@, subsystem@, subject@, state@, verb@, rationale@),
        f.evidence == evidence,
{
    ConformanceFinding {
        severity: owned(severity),
        subsystem: owned(subsystem),
        subject: owned(subject),
        state: owned(state),
        evidence,
        remediation: Remediation { verb, rationale: Some(owned(rationale)) },
    }
}

/// `f` is the finding for a pin that is behind or ahead of the installed
/// version.
pub open spec fn is_pin_finding(f: ConformanceFinding, pin: PinState) -> bool {
    let ahead = pin.status@ == "pin_ahead"@;
    &&& finding_is(f, if ahead { "high"@ } else { "medium"@ }, "setup"@, ".orbit/config.yaml"@, pin.status@,
        "orbit setup --bump-pin"@,
        if ahead {
            "installed plugin is older than pinned version — install matching plugin or rewrite pin"@
        } else {
            "installed plugin is ahead of pinned version — bump or re-run setup"@
        })
    &&& f.evidence matches Some(ev) && match pin.pinned {
        Some(p) => ev.len() == 2 && text_evidence(ev@[0], "pinned"@, p@) && text_evidence(ev@[1], "current"@, pin.current@),
        None => ev.len() == 1 && text_evidence(ev@[0], "current"@, pin.current@),
    }
}

/// The finding for a pin that is behind (medium) or ahead (high) of the
/// installed version, with the pinned and installed versions as evidence.
pub fn pin_finding(pin: &PinState) -> (f: ConformanceFinding)
    ensures
        is_pin_finding(f, *pin),
{
    proof { reveal_strlit("pin_ahead"); }
    let ahead = str_eq(pin.status.as_str(), "pin_ahead");
    let (severity, rationale) = if ahead {
        ("high", "installed plugin is older than pinned version — install matching plugin or rewrite pin")
    } else {
        ("medium", "installed plugin is ahead of pinned version — bump or re-run setup")
    };
    let mut evidence: Vec<EvidenceEntry> = Vec::new();
    if let Some(p) = &pin.pinned {
        evidence.push(text_entry("pinned", p.as_str()));
    }
    evidence.push(text_entry("current", pin.current.as_str()));
    finding(severity, "setup", ".orbit/config.yaml", pin.status.as_str(), Some(evidence),
        owned("orbit setup --bump-pin"), rationale)
}

/// The conformance findings in the order the audit reports them. When the
/// substrate sits undotted at `orbit/`, that finding stands alone (with
/// the routine findings, which do not read the substrate); otherwise a
/// dominant pin finding comes first and suppresses the per-file
/// canonical findings.
pub fn conformance_findings(
    undotted: Option<ConformanceFinding>,
    pin: &PinState,
    cards: Vec<ConformanceFinding>,
    memos: Vec<ConformanceFinding>,
    canonical: Vec<ConformanceFinding>,
    decisions: Vec<ConformanceFinding>,
    routines: Vec<ConformanceFinding>,
) -> (r: Vec<ConformanceFinding>)
    ensures
        undotted matches Some(u) ==> r@ == seq![u] + routines@,
        undotted is None && pin_dominant(pin.status@) ==> r.len() >= 1 && is_pin_finding(r@[0], *pin)
            && r@.drop_first() == cards@ + memos@ + decisions@ + routines@,
        undotted is None && !pin_dominant(pin.status@) ==>
            r@ == cards@ + memos@ + canonical@ + decisions@ + routines@,
{
    let ghost c0 = cards@;
    let ghost m0 = memos@;
    let ghost k0 = canonical@;
    let ghost d0 = decisions@;
    let ghost r0 = routines@;
    let mut out: Vec<ConformanceFinding> = Vec::new();
    let mut routines = routines;
    match undotted {
        Some(u) => {
            out.push(u);
            out.append(&mut routines);
        },
        None => {
            proof {
                reveal_strlit("pin_behind");
                reveal_strlit("pin_ahead");
            }
            let dominant = str_eq(pin.status.as_str(), "pin_behind") || str_eq(pin.status.as_str(), "pin_ahead");
            if dominant {
                out.push(pin_finding(pin));
            }
            let ghost head = out@;
            let mut cards = cards;
            let mut memos = memos;
            let mut canonical = canonical;
            let mut decisions = decisions;
            out.append(&mut cards);
            out.append(&mut memos);
            if !dominant {
                out.append(&mut canonical);
            }
            out.append(&mut decisions);
            out.append(&mut routines);
            proof {
                if dominant {
                    assert(out@.drop_first() =~= c0 + m0 + d0 + r0);
                } else {
                    assert(out@ =~= c0 + m0 + k0 + d0 + r0);
                }
            }
        },
    }
    out
}

} // verus!
