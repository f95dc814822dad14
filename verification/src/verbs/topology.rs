//! The topology substrate (`.orbit/topology/<subsystem>.yaml`): the seed
//! entries `topology.setup` writes, the config cleanup it performs, and
//! the drift `audit.topology` reports once the entries are loaded and
//! their pointers checked on disk.

use vstd::prelude::*;
use crate::error::{Error, Category};
use crate::schema::{Config, TopologyEntry, MIN_SUBSYSTEM_LEN, slug_shaped};
use crate::text::{cat, owned, str_eq, starts_with_str, is_prefix, to_lowercase, lowercase};
use crate::patterns::{regex_compiles, regex_finds};
use crate::order::{views, member, sorted, distinct, sort_strings};
use crate::verbs::graph::push_new;
use crate::verbs::results::{AuditTopologyResult, TopologyDriftEntry};

verus! {

/// The README `topology.setup` writes into `.orbit/topology/` outside the
/// plugin's own repository.
pub const TOPOLOGY_NON_PLUGIN_README: &'static str = "# .orbit/topology/

This directory holds per-subsystem topology entries — pointer-only
substrate that names each subsystem's canonical code, decision record,
operational doc, and test surface.

Run `/orb:topology` to author your first entry.
";

/// The subsystems of the seed entries, in the order they are written.
pub open spec fn seed_subsystems() -> Seq<Seq<char>> {
    seq!["cards"@, "choices"@, "memories"@, "specs-substrate"@, "topology"@]
}

/// The decision records the seed entries point at.
pub open spec fn seed_decisions() -> Seq<Seq<char>> {
    seq!["0016"@, "0016"@, "0015"@, "0021"@, "0025"@]
}

/// The operational docs the seed entries point at.
pub open spec fn seed_docs() -> Seq<Seq<char>> {
    seq![
        "plugins/orb/skills/card/SKILL.md"@,
        "plugins/orb/skills/tabletop/SKILL.md"@,
        "plugins/orb/skills/memo/SKILL.md"@,
        "plugins/orb/skills/spec/SKILL.md"@,
        "plugins/orb/skills/topology/SKILL.md"@,
    ]
}

/// The schema source every seed entry names as its code and test surface.
pub open spec fn seed_code() -> Seq<char> {
    "orbit-state/crates/core/src/schema.rs"@
}

fn one(s: &str) -> (r: Vec<String>)
    ensures
        r.len() == 1,
        r@[0]@ == s@,
{
    let mut r: Vec<String> = Vec::new();
    r.push(owned(s));
    r
}

fn seed(subsystem: &str, decision: &str, doc: &str) -> (e: TopologyEntry)
    ensures
        e.subsystem@ == subsystem@,
        e.canonical_code.len() == 1 && e.canonical_code@[0]@ == seed_code(),
        e.decision_record.len() == 1 && e.decision_record@[0]@ == decision@,
        e.operational_doc.len() == 1 && e.operational_doc@[0]@ == doc@,
        e.test_surface.len() == 1 && e.test_surface@[0]@ == seed_code(),
{
    let code = "orbit-state/crates/core/src/schema.rs";
    proof { reveal_strlit("orbit-state/crates/core/src/schema.rs"); }
    TopologyEntry {
        subsystem: owned(subsystem),
        canonical_code: one(code),
        decision_record: one(decision),
        operational_doc: one(doc),
        test_surface: one(code),
    }
}

/// The self-describing seed entries `topology.setup` writes in the
/// plugin's own repository: one per substrate entity type (cards, choices,
/// memories, specs, topology), each pointing at the schema source. Every
/// seed passes `TopologyEntry::validate`.
pub fn topology_setup_seeds() -> (r: Vec<TopologyEntry>)
    ensures
        r.len() == 5,
        forall|i: int| 0 <= i < 5 ==> {
            &&& (#[trigger] r@[i]).subsystem@ == seed_subsystems()[i]
            &&& r@[i].canonical_code.len() == 1 && r@[i].canonical_code@[0]@ == seed_code()
            &&& r@[i].decision_record.len() == 1 && r@[i].decision_record@[0]@ == seed_decisions()[i]
            &&& r@[i].operational_doc.len() == 1 && r@[i].operational_doc@[0]@ == seed_docs()[i]
            &&& r@[i].test_surface.len() == 1 && r@[i].test_surface@[0]@ == seed_code()
            &&& r@[i].spec_valid()
        },
{
    proof {
        reveal_strlit("cards");
        reveal_strlit("choices");
        reveal_strlit("memories");
        reveal_strlit("specs-substrate");
        reveal_strlit("topology");
    }
    let mut r: Vec<TopologyEntry> = Vec::new();
    r.push(seed("cards", "0016", "plugins/orb/skills/card/SKILL.md"));
    r.push(seed("choices", "0016", "plugins/orb/skills/tabletop/SKILL.md"));
    r.push(seed("memories", "0015", "plugins/orb/skills/memo/SKILL.md"));
    r.push(seed("specs-substrate", "0021", "plugins/orb/skills/spec/SKILL.md"));
    r.push(seed("topology", "0025", "plugins/orb/skills/topology/SKILL.md"));
    proof {
        assert(slug_shaped("cards"@));
        assert(slug_shaped("choices"@));
        assert(slug_shaped("memories"@));
        assert(slug_shaped("specs-substrate"@));
        assert(slug_shaped("topology"@));
    }
    r
}

/// The scripted answers that decline `topology.setup`.
pub open spec fn declines(answer: Option<String>) -> bool {
    answer matches Some(a) && (a@ == "n"@ || a@ == "N"@ || a@ == "no"@)
}

/// Whether the scripted answer declines the setup (`n`, `N` or `no`).
pub fn setup_declined(answer: &Option<String>) -> (r: bool)
    ensures
        r == declines(*answer),
{
    proof {
        reveal_strlit("n");
        reveal_strlit("N");
        reveal_strlit("no");
    }
    match answer {
        Some(a) => str_eq(a.as_str(), "n") || str_eq(a.as_str(), "N") || str_eq(a.as_str(), "no"),
        None => false,
    }
}

/// Drops the legacy `docs.topology` pointer from the project config, and
/// with it a `docs` block left empty. Returns whether a pointer was
/// dropped (the config must then be rewritten).
pub fn clean_config(config: &mut Config) -> (cleaned: bool)
    ensures
        cleaned == (old(config).docs matches Some(d) && d.topology is Some),
        final(config).plugin_version == old(config).plugin_version,
        final(config).plugin_repo == old(config).plugin_repo,
        final(config).docs is None,
{
    let cleaned = match &config.docs {
        Some(d) => d.topology.is_some(),
        None => false,
    };
    config.docs = None;
    cleaned
}

/// The refusal `topology.setup` gives in the plugin repository when a
/// seed's code pointer does not exist in the working tree.
pub fn seed_path_missing(verb: &str, subsystem: &str, code_path: &str) -> (e: Error)
    ensures
        e.is(verb@, Category::NotFound, "seed `"@ + subsystem@ + "` canonical_code path does not exist: "@
            + code_path@ + " (plugin_repo: true seeds must point at extant code in the working tree)"@),
{
    let m = cat(owned("seed `"), subsystem);
    let m = cat(m, "` canonical_code path does not exist: ");
    let m = cat(m, code_path);
    Error::not_found(verb, cat(m, " (plugin_repo: true seeds must point at extant code in the working tree)"))
}

/// A drift entry as plain text: subsystem, kind, detail.
pub open spec fn drift_view(d: TopologyDriftEntry) -> (Seq<char>, Seq<char>, Seq<char>) {
    (d.subsystem@, d.drift_kind@, d.detail@)
}

/// The views of a list of drift entries.
pub open spec fn drift_views(v: Seq<TopologyDriftEntry>) -> Seq<(Seq<char>, Seq<char>, Seq<char>)> {
    v.map_values(|d: TopologyDriftEntry| drift_view(d))
}

/// The drift kind of a topology file that did not load, by the prefix of
/// its failure message.
pub open spec fn failure_kind(msg: Seq<char>) -> Seq<char> {
    if is_prefix("validate failed"@, msg) {
        "invalid_field"@
    } else if is_prefix("parse failed"@, msg) {
        "parse_failed"@
    } else {
        "shape_drift"@
    }
}

/// A loaded topology file: its stem, and the entry or why it failed.
pub type LoadedEntry = (String, std::result::Result<TopologyEntry, String>);

/// Which of an entry's pointers exist on disk, list by list.
pub struct PointerPresence {
    pub canonical_code: Vec<bool>,
    pub decision_record: Vec<bool>,
    pub operational_doc: Vec<bool>,
    pub test_surface: Vec<bool>,
}

/// The presence lists line up with the entry's pointer lists.
pub open spec fn presence_fits(loaded: LoadedEntry, p: PointerPresence) -> bool {
    loaded.1 matches Ok(e) ==> {
        &&& p.canonical_code.len() == e.canonical_code.len()
        &&& p.decision_record.len() == e.decision_record.len()
        &&& p.operational_doc.len() == e.operational_doc.len()
        &&& p.test_surface.len() == e.test_surface.len()
    }
}

/// Drift for the files that did not load, in load order.
pub open spec fn structural_drift(loaded: Seq<LoadedEntry>) -> Seq<(Seq<char>, Seq<char>, Seq<char>)>
    decreases loaded.len(),
{
    if loaded.len() == 0 {
        Seq::empty()
    } else {
        let rest = structural_drift(loaded.drop_last());
        match loaded.last().1 {
            Ok(_) => rest,
            Err(msg) => rest.push((loaded.last().0@, failure_kind(msg@), msg@)),
        }
    }
}

/// Stale-pointer drift for one pointer list labelled `label`.
pub open spec fn stale_in(sub: Seq<char>, label: Seq<char>, paths: Seq<String>, present: Seq<bool>)
    -> Seq<(Seq<char>, Seq<char>, Seq<char>)>
    decreases paths.len(),
{
    if paths.len() == 0 {
        Seq::empty()
    } else {
        let rest = stale_in(sub, label, paths.drop_last(), present.drop_last());
        if present[paths.len() - 1] {
            rest
        } else {
            rest.push((sub, "stale_pointer"@, label + ": "@ + paths.last()@))
        }
    }
}

/// Stale-pointer drift for one entry: code, decision records, operational
/// docs, then test surfaces.
pub open spec fn entry_stale(e: TopologyEntry, p: PointerPresence) -> Seq<(Seq<char>, Seq<char>, Seq<char>)> {
    stale_in(e.subsystem@, "canonical_code"@, e.canonical_code@, p.canonical_code@)
        + stale_in(e.subsystem@, "decision_record"@, e.decision_record@, p.decision_record@)
        + stale_in(e.subsystem@, "operational_doc"@, e.operational_doc@, p.operational_doc@)
        + stale_in(e.subsystem@, "test_surface"@, e.test_surface@, p.test_surface@)
}

/// Stale-pointer drift for every loaded entry, in load order.
pub open spec fn pointer_drift(loaded: Seq<LoadedEntry>, presence: Seq<PointerPresence>)
    -> Seq<(Seq<char>, Seq<char>, Seq<char>)>
    decreases loaded.len(),
{
    if loaded.len() == 0 {
        Seq::empty()
    } else {
        let rest = pointer_drift(loaded.drop_last(), presence.drop_last());
        match loaded.last().1 {
            Ok(e) => rest + entry_stale(e, presence[loaded.len() - 1]),
            Err(_) => rest,
        }
    }
}

/// Some loaded entry documents the subsystem `dir`, compared lowercased.
pub open spec fn documented(loaded: Seq<LoadedEntry>, dir: Seq<char>) -> bool {
    exists|i: int| 0 <= i < loaded.len() && ((#[trigger] loaded[i]).1 matches Ok(e)
        && lowercase(e.subsystem@) == lowercase(dir))
}

/// Drift for code subsystems no entry documents, in directory order.
pub open spec fn missing_drift(loaded: Seq<LoadedEntry>, dirs: Seq<String>) -> Seq<(Seq<char>, Seq<char>, Seq<char>)>
    decreases dirs.len(),
{
    if dirs.len() == 0 {
        Seq::empty()
    } else {
        let rest = missing_drift(loaded, dirs.drop_last());
        if documented(loaded, dirs.last()@) {
            rest
        } else {
            rest.push((dirs.last()@, "missing_entry"@, Seq::empty()))
        }
    }
}

fn drift(subsystem: String, kind: &str, detail: String) -> (d: TopologyDriftEntry)
    ensures
        drift_view(d) == (subsystem@, kind@, detail@),
{
    TopologyDriftEntry { subsystem, drift_kind: owned(kind), detail }
}

fn push_drift(out: &mut Vec<TopologyDriftEntry>, d: TopologyDriftEntry)
    ensures
        drift_views(final(out)@) == drift_views(old(out)@).push(drift_view(d)),
{
    let ghost before = out@;
    out.push(d);
    assert(drift_views(out@) =~= drift_views(before).push(drift_view(d)));
}

fn failure_kind_of(msg: &str) -> (k: &'static str)
    ensures
        k@ == failure_kind(msg@),
{
    if starts_with_str(msg, "validate failed") {
        "invalid_field"
    } else if starts_with_str(msg, "parse failed") {
        "parse_failed"
    } else {
        "shape_drift"
    }
}

fn push_stale(out: &mut Vec<TopologyDriftEntry>, sub: &str, label: &str, paths: &Vec<String>, present: &Vec<bool>)
    requires
        present.len() == paths.len(),
    ensures
        drift_views(final(out)@) == drift_views(old(out)@) + stale_in(sub@, label@, paths@, present@),
{
    let ghost start = drift_views(out@);
    let mut i: usize = 0;
    while i < paths.len()
        invariant
            i <= paths.len(),
            present.len() == paths.len(),
            drift_views(out@) == start + stale_in(sub@, label@, paths@.subrange(0, i as int), present@.subrange(0, i as int)),
        decreases paths.len() - i,
    {
        let ghost before = drift_views(out@);
        assert(paths@.subrange(0, i + 1).drop_last() =~= paths@.subrange(0, i as int));
        assert(present@.subrange(0, i + 1).drop_last() =~= present@.subrange(0, i as int));
        if !present[i] {
            let detail = cat(owned(label), ": ");
            let detail = cat(detail, paths[i].as_str());
            push_drift(out, drift(owned(sub), "stale_pointer", detail));
            assert(drift_views(out@) =~= start + stale_in(sub@, label@, paths@.subrange(0, i + 1), present@.subrange(0, i + 1)));
        }
        i = i + 1;
    }
    assert(paths@.subrange(0, paths.len() as int) =~= paths@);
    assert(present@.subrange(0, paths.len() as int) =~= present@);
}

fn is_documented(loaded: &Vec<LoadedEntry>, dir: &str) -> (r: bool)
    ensures
        r == documented(loaded@, dir@),
{
    let want = to_lowercase(dir);
    let mut i: usize = 0;
    while i < loaded.len()
        invariant
            i <= loaded.len(),
            want@ == lowercase(dir@),
            forall|j: int| 0 <= j < i ==> !((#[trigger] loaded@[j]).1 matches Ok(e)
                && lowercase(e.subsystem@) == lowercase(dir@)),
        decreases loaded.len() - i,
    {
        if let Ok(e) = &loaded[i].1 {
            let have = to_lowercase(e.subsystem.as_str());
            if str_eq(have.as_str(), want.as_str()) {
                return true;
            }
        }
        i = i + 1;
    }
    false
}

/// `audit.topology` once the topology folder is read. `dir_present` says
/// whether `.orbit/topology/` exists; `loaded` holds each file's stem and
/// parsed, validated entry (or why it failed); `presence` says, per
/// loaded entry, which of its pointers exist on disk (a decision record
/// counts as present when the choice it names, or the path it spells,
/// exists); `subsystem_dirs` are the code subsystems found under the
/// repository. The topology is configured when the folder exists and
/// holds at least one file. The drift lists, in this order: the files
/// that failed to load, the stale pointers of the loaded entries, and the
/// code subsystems no entry documents.
pub fn audit_topology(
    dir_present: bool,
    loaded: &Vec<LoadedEntry>,
    presence: &Vec<PointerPresence>,
    subsystem_dirs: &Vec<String>,
) -> (r: AuditTopologyResult)
    requires
        presence.len() == loaded.len(),
        forall|i: int| 0 <= i < loaded.len() ==> presence_fits(#[trigger] loaded@[i], presence@[i]),
    ensures
        r.configured == (dir_present && loaded.len() > 0),
        drift_views(r.topology_drift@) == if r.configured {
            structural_drift(loaded@) + pointer_drift(loaded@, presence@) + missing_drift(loaded@, subsystem_dirs@)
        } else {
            Seq::empty()
        },
{
    let mut out: Vec<TopologyDriftEntry> = Vec::new();
    if !(dir_present && loaded.len() > 0) {
        assert(drift_views(out@) =~= Seq::empty());
        return AuditTopologyResult { configured: false, topology_drift: out };
    }
    assert(drift_views(out@) =~= Seq::empty());
    let mut i: usize = 0;
    while i < loaded.len()
        invariant
            i <= loaded.len(),
            drift_views(out@) == structural_drift(loaded@.subrange(0, i as int)),
        decreases loaded.len() - i,
    {
        assert(loaded@.subrange(0, i + 1).drop_last() =~= loaded@.subrange(0, i as int));
        if let Err(msg) = &loaded[i].1 {
            let kind = failure_kind_of(msg.as_str());
            push_drift(&mut out, drift(loaded[i].0.clone(), kind, msg.clone()));
        }
        i = i + 1;
    }
    assert(loaded@.subrange(0, loaded.len() as int) =~= loaded@);
    let ghost structural = drift_views(out@);
    let mut i: usize = 0;
    while i < loaded.len()
        invariant
            i <= loaded.len(),
            presence.len() == loaded.len(),
            forall|j: int| 0 <= j < loaded.len() ==> presence_fits(#[trigger] loaded@[j], presence@[j]),
            drift_views(out@) == structural + pointer_drift(loaded@.subrange(0, i as int), presence@.subrange(0, i as int)),
        decreases loaded.len() - i,
    {
        assert(loaded@.subrange(0, i + 1).drop_last() =~= loaded@.subrange(0, i as int));
        assert(presence@.subrange(0, i + 1).drop_last() =~= presence@.subrange(0, i as int));
        assert(presence_fits(loaded@[i as int], presence@[i as int]));
        if let Ok(e) = &loaded[i].1 {
            let p = &presence[i];
            let ghost s0 = drift_views(out@);
            push_stale(&mut out, e.subsystem.as_str(), "canonical_code", &e.canonical_code, &p.canonical_code);
            push_stale(&mut out, e.subsystem.as_str(), "decision_record", &e.decision_record, &p.decision_record);
            push_stale(&mut out, e.subsystem.as_str(), "operational_doc", &e.operational_doc, &p.operational_doc);
            push_stale(&mut out, e.subsystem.as_str(), "test_surface", &e.test_surface, &p.test_surface);
            proof {
                reveal_strlit("canonical_code");
                reveal_strlit("decision_record");
                reveal_strlit("operational_doc");
                reveal_strlit("test_surface");
                assert(drift_views(out@) =~= s0 + entry_stale(*e, *p));
            }
        }
        i = i + 1;
    }
    assert(loaded@.subrange(0, loaded.len() as int) =~= loaded@);
    assert(presence@.subrange(0, loaded.len() as int) =~= presence@);
    let ghost with_pointers = drift_views(out@);
    let mut k: usize = 0;
    while k < subsystem_dirs.len()
        invariant
            k <= subsystem_dirs.len(),
            drift_views(out@) == with_pointers + missing_drift(loaded@, subsystem_dirs@.subrange(0, k as int)),
        decreases subsystem_dirs.len() - k,
    {
        assert(subsystem_dirs@.subrange(0, k + 1).drop_last() =~= subsystem_dirs@.subrange(0, k as int));
        if !is_documented(loaded, subsystem_dirs[k].as_str()) {
            push_drift(&mut out, drift(subsystem_dirs[k].clone(), "missing_entry", String::new()));
            assert(drift_views(out@) =~= with_pointers + missing_drift(loaded@, subsystem_dirs@.subrange(0, k + 1)));
        }
        k = k + 1;
    }
    assert(subsystem_dirs@.subrange(0, subsystem_dirs.len() as int) =~= subsystem_dirs@);
    AuditTopologyResult { configured: true, topology_drift: out }
}


/// The pattern that finds `name` as a whole word, ignoring case.
pub open spec fn word_pattern(name: Seq<char>) -> Seq<char> {
    "(?i)\\b"@ + crate::patterns::escaped(name) + "\\b"@
}

/// The sidecar texts one after another, each followed by a newline.
pub open spec fn sidecar_text(bodies: Seq<String>) -> Seq<char>
    decreases bodies.len(),
{
    if bodies.len() == 0 {
        Seq::empty()
    } else {
        sidecar_text(bodies.drop_last()) + bodies.last()@ + "\n"@
    }
}

/// The `spec_touch` warnings for the subsystems whose name is at least
/// `MIN_SUBSYSTEM_LEN` characters long and was found (`hits`).
pub open spec fn touches(subsystems: Seq<String>, hits: Seq<bool>) -> Seq<(Seq<char>, Seq<char>, Seq<char>)>
    decreases subsystems.len(),
{
    if subsystems.len() == 0 {
        Seq::empty()
    } else {
        let rest = touches(subsystems.drop_last(), hits.drop_last());
        if subsystems.last()@.len() >= MIN_SUBSYSTEM_LEN && hits[subsystems.len() - 1] {
            rest.push((subsystems.last()@, "spec_touch"@, Seq::empty()))
        } else {
            rest
        }
    }
}

/// The `spec_touch` warnings for the subsystems found in a spec's text:
/// one per subsystem, in order, whose name is long enough and was found.
pub fn spec_touch_entries(subsystems: &Vec<String>, hits: &Vec<bool>) -> (r: Vec<TopologyDriftEntry>)
    requires
        hits.len() == subsystems.len(),
    ensures
        drift_views(r@) == touches(subsystems@, hits@),
{
    let mut out: Vec<TopologyDriftEntry> = Vec::new();
    let mut i: usize = 0;
    assert(drift_views(out@) =~= Seq::empty());
    while i < subsystems.len()
        invariant
            i <= subsystems.len(),
            hits.len() == subsystems.len(),
            drift_views(out@) == touches(subsystems@.subrange(0, i as int), hits@.subrange(0, i as int)),
        decreases subsystems.len() - i,
    {
        assert(subsystems@.subrange(0, i + 1).drop_last() =~= subsystems@.subrange(0, i as int));
        assert(hits@.subrange(0, i + 1).drop_last() =~= hits@.subrange(0, i as int));
        if subsystems[i].unicode_len() >= MIN_SUBSYSTEM_LEN && hits[i] {
            let empty = String::new();
            assert(empty@ =~= Seq::<char>::empty());
            push_drift(&mut out, drift(subsystems[i].clone(), "spec_touch", empty));
        }
        i = i + 1;
    }
    assert(subsystems@.subrange(0, subsystems.len() as int) =~= subsystems@);
    assert(hits@.subrange(0, subsystems.len() as int) =~= hits@);
    out
}

/// Whether `name` is found as a whole word of `text`, ignoring case. A name
/// whose pattern does not compile is not found.
pub open spec fn mentions(name: Seq<char>, text: Seq<char>) -> bool {
    regex_compiles(word_pattern(name)) && regex_finds(word_pattern(name), text)
}

fn word_found(name: &str, text: &str) -> (r: bool)
    ensures
        r == mentions(name@, text@),
{
    let escaped = crate::patterns::regex_escape(name);
    let pattern = cat(owned("(?i)\\b"), escaped.as_str());
    let pattern = cat(pattern, "\\b");
    match crate::patterns::compile(pattern.as_str()) {
        Some(c) => crate::patterns::is_match(&c, text),
        None => false,
    }
}

/// The topology warnings `spec.close` reports: each topology subsystem of
/// at least `MIN_SUBSYSTEM_LEN` characters that occurs as a whole word,
/// ignoring case, in the spec's sidecar texts (`sidecars`, the ones that
/// could be read, each taken with a trailing newline). No sidecar, no
/// warning.
pub fn compute_topology_warnings(subsystems: &Vec<String>, sidecars: &Vec<String>) -> (r: Vec<TopologyDriftEntry>)
    ensures
        sidecars.len() == 0 ==> r.len() == 0,
        sidecars.len() > 0 ==> drift_views(r@) == touches(subsystems@,
            subsystems@.map_values(|s: String| s@.len() >= MIN_SUBSYSTEM_LEN && mentions(s@, sidecar_text(sidecars@)))),
{
    if sidecars.len() == 0 {
        return Vec::new();
    }
    let mut text = String::new();
    let mut i: usize = 0;
    while i < sidecars.len()
        invariant
            i <= sidecars.len(),
            text@ == sidecar_text(sidecars@.subrange(0, i as int)),
        decreases sidecars.len() - i,
    {
        assert(sidecars@.subrange(0, i + 1).drop_last() =~= sidecars@.subrange(0, i as int));
        text = cat(text, sidecars[i].as_str());
        text = cat(text, "\n");
        i = i + 1;
    }
    assert(sidecars@.subrange(0, sidecars.len() as int) =~= sidecars@);
    let mut hits: Vec<bool> = Vec::new();
    let mut k: usize = 0;
    while k < subsystems.len()
        invariant
            k <= subsystems.len(),
            text@ == sidecar_text(sidecars@),
            hits@ == subsystems@.subrange(0, k as int).map_values(|s: String| s@.len() >= MIN_SUBSYSTEM_LEN && mentions(s@, text@)),
        decreases subsystems.len() - k,
    {
        let found = if subsystems[k].unicode_len() >= MIN_SUBSYSTEM_LEN {
            word_found(subsystems[k].as_str(), text.as_str())
        } else {
            false
        };
        hits.push(found);
        assert(hits@ =~= subsystems@.subrange(0, k + 1).map_values(|s: String| s@.len() >= MIN_SUBSYSTEM_LEN && mentions(s@, text@)));
        k = k + 1;
    }
    assert(subsystems@.subrange(0, subsystems.len() as int) =~= subsystems@);
    spec_touch_entries(subsystems, &hits)
}

/// A directory name that can name a code subsystem: not hidden, and not a
/// build or dependency directory.
pub open spec fn subsystem_dir_name(n: Seq<char>) -> bool {
    !(n.len() > 0 && n[0] == '.') && n != "target"@ && n != "node_modules"@
}

/// The subsystem names among the directory names found under the
/// subsystem roots: each qualifying name once, ascending.
pub fn subsystem_names(found: &Vec<String>) -> (r: Vec<String>)
    ensures
        sorted(views(r@)),
        distinct(views(r@)),
        forall|x: Seq<char>| member(x, views(r@)) <==> (member(x, views(found@)) && subsystem_dir_name(x)),
{
    let mut acc: Vec<String> = Vec::new();
    let mut i: usize = 0;
    while i < found.len()
        invariant
            i <= found.len(),
            distinct(views(acc@)),
            forall|x: Seq<char>| #[trigger] member(x, views(acc@)) <==>
                (member(x, views(found@.subrange(0, i as int))) && subsystem_dir_name(x)),
        decreases found.len() - i,
    {
        let n = found[i].as_str();
        let hidden = starts_with_str(n, ".");
        proof {
            reveal_strlit(".");
        }
        let keep = !hidden && !str_eq(n, "target") && !str_eq(n, "node_modules");
        assert(keep == subsystem_dir_name(n@)) by {
            if n@.len() > 0 && n@[0] == '.' {
                assert(n@.subrange(0, 1) =~= "."@);
            }
            if hidden {
                assert(n@.subrange(0, 1) == "."@);
                assert(n@[0] == "."@[0]);
            }
        }
        let ghost before = views(acc@);
        if keep {
            push_new(&mut acc, n);
        }
        proof {
            let pre = views(found@.subrange(0, i as int));
            let now = views(found@.subrange(0, i + 1));
            assert(now =~= pre.push(found@[i as int]@));
            assert forall|x: Seq<char>| member(x, views(acc@)) <==> (member(x, now) && subsystem_dir_name(x)) by {
                if member(x, now) {
                    let j = choose|j: int| 0 <= j < now.len() && now[j] == x;
                    if j < pre.len() {
                        assert(pre[j] == x);
                    }
                }
                if member(x, pre) {
                    let j = choose|j: int| 0 <= j < pre.len() && pre[j] == x;
                    assert(now[j] == x);
                }
                if x == found@[i as int]@ {
                    assert(now[i as int] == x);
                }
            }
        }
        i = i + 1;
    }
    assert(found@.subrange(0, found.len() as int) =~= found@);
    let r = sort_strings(&acc);
    proof {
        assert forall|x: Seq<char>| member(x, views(r@)) <==> (member(x, views(found@)) && subsystem_dir_name(x)) by {
            if member(x, views(r@)) {
                let j = choose|j: int| 0 <= j < views(r@).len() && views(r@)[j] == x;
                assert(member(views(r@)[j], views(acc@)));
            }
            if member(x, views(acc@)) {
                let j = choose|j: int| 0 <= j < views(acc@).len() && views(acc@)[j] == x;
                assert(member(views(acc@)[j], views(r@)));
            }
        }
    }
    r
}

} // verus!
