//! `session.prime`: the orientation an agent reads at the start of a
//! session, assembled from what the substrate holds.

use vstd::prelude::*;
use crate::schema::Memory;
use crate::text::{str_eq, owned, cat};
use crate::order::{views, member, has_string};
use crate::verbs::overview::{DEFAULT_CAP, ranked_memories, rank_memories};
use crate::verbs::results::{AuditTopologyResult, HandoverSummary, SessionPrimeResult, SpecSummary};

verus! {

/// The specs of `specs` whose status is `open`, in order.
pub open spec fn open_only(specs: Seq<SpecSummary>) -> Seq<SpecSummary>
    decreases specs.len(),
{
    if specs.len() == 0 {
        Seq::empty()
    } else {
        let rest = open_only(specs.drop_last());
        if specs.last().status@ == "open"@ { rest.push(specs.last()) } else { rest }
    }
}

/// Every label of every spec of `specs`, in order.
pub open spec fn all_labels(specs: Seq<SpecSummary>) -> Seq<Seq<char>>
    decreases specs.len(),
{
    if specs.len() == 0 {
        Seq::empty()
    } else {
        all_labels(specs.drop_last()) + views(specs.last().labels@)
    }
}

/// How many of `labels` (counted with repeats) occur in `pool`.
pub open spec fn overlap(labels: Seq<Seq<char>>, pool: Seq<Seq<char>>) -> nat
    decreases labels.len(),
{
    if labels.len() == 0 {
        0
    } else {
        overlap(labels.drop_last(), pool) + if member(labels.last(), pool) { 1nat } else { 0nat }
    }
}

/// Each memory's label overlap with `pool`.
pub open spec fn overlaps(ms: Seq<Memory>, pool: Seq<Seq<char>>) -> Seq<u64> {
    Seq::new(ms.len(), |i: int| overlap(views(ms[i].labels@), pool) as u64)
}

proof fn lemma_overlap_bound(labels: Seq<Seq<char>>, pool: Seq<Seq<char>>)
    ensures
        overlap(labels, pool) <= labels.len(),
    decreases labels.len(),
{
    if labels.len() > 0 {
        lemma_overlap_bound(labels.drop_last(), pool);
    }
}

/// The text pointing the agent at the next action.
pub open spec fn base_next_step() -> Seq<char> {
    "Run `orbit overview` for a single-screen project synthesis (open specs, cards-by-maturity, recent memories, most-connected card, orphans)."@
}

/// What is put before the next step when a handover is surfaced.
pub open spec fn handover_prefix() -> Seq<char> {
    "Read the handover above before any other action. "@
}

fn open_specs_of(specs: Vec<SpecSummary>) -> (r: Vec<SpecSummary>)
    ensures
        r@ == open_only(specs@),
{
    let ghost all = specs@;
    let mut rest = specs;
    let mut out: Vec<SpecSummary> = Vec::new();
    let mut done: usize = 0;
    proof { reveal_strlit("open"); }
    assert(all.len() == rest.len());
    while rest.len() > 0
        invariant
            rest@ == all.subrange(done as int, all.len() as int),
            done <= all.len(),
            all.len() <= usize::MAX,
            out@ == open_only(all.subrange(0, done as int)),
        decreases rest.len(),
    {
        let s = rest.remove(0);
        proof {
            assert(all[done as int] == s);
            assert(rest@ =~= all.subrange(done + 1, all.len() as int));
            assert(all.subrange(0, done + 1).drop_last() =~= all.subrange(0, done as int));
            assert(all.subrange(0, done + 1).last() == s);
        }
        if str_eq(s.status.as_str(), "open") {
            out.push(s);
        }
        done = done + 1;
    }
    assert(all.subrange(0, all.len() as int) =~= all);
    out
}

fn labels_of(specs: &Vec<SpecSummary>) -> (r: Vec<String>)
    ensures
        views(r@) == all_labels(specs@),
{
    let mut r: Vec<String> = Vec::new();
    let mut i: usize = 0;
    while i < specs.len()
        invariant
            i <= specs.len(),
            views(r@) == all_labels(specs@.subrange(0, i as int)),
        decreases specs.len() - i,
    {
        assert(specs@.subrange(0, i + 1).drop_last() =~= specs@.subrange(0, i as int));
        let ls = &specs[i].labels;
        let ghost before = views(r@);
        let mut j: usize = 0;
        while j < ls.len()
            invariant
                j <= ls.len(),
                i < specs.len(),
                ls == specs@[i as int].labels,
                views(r@) == before + views(ls@.subrange(0, j as int)),
            decreases ls.len() - j,
        {
            let ghost prev = r@;
            r.push(ls[j].clone());
            assert(views(r@) =~= views(prev).push(ls@[j as int]@));
            assert(views(ls@.subrange(0, j + 1)) =~= views(ls@.subrange(0, j as int)).push(ls@[j as int]@));
            j = j + 1;
            assert(views(r@) =~= before + views(ls@.subrange(0, j as int)));
        }
        assert(ls@.subrange(0, ls.len() as int) =~= ls@);
        i = i + 1;
    }
    assert(specs@.subrange(0, specs.len() as int) =~= specs@);
    r
}

fn overlap_count(labels: &Vec<String>, pool: &Vec<String>) -> (n: u64)
    ensures
        n == overlap(views(labels@), views(pool@)),
{
    let mut n: u64 = 0;
    let mut i: usize = 0;
    while i < labels.len()
        invariant
            i <= labels.len(),
            n == overlap(views(labels@.subrange(0, i as int)), views(pool@)),
        decreases labels.len() - i,
    {
        proof {
            assert(views(labels@.subrange(0, i + 1)).drop_last() =~= views(labels@.subrange(0, i as int)));
            lemma_overlap_bound(views(labels@.subrange(0, i as int)), views(pool@));
        }
        if has_string(pool, labels[i].as_str()) {
            n = n + 1;
        }
        i = i + 1;
    }
    assert(labels@.subrange(0, labels.len() as int) =~= labels@);
    n
}

/// `session.prime` once the spec list (in id order), the memories, the
/// latest handover and the topology audit are read: the open specs; the
/// first `cap` memories ranked by how many of their labels the open specs
/// carry, then newest first (newest first alone when the open specs carry
/// no label); a bound on the items shown; the next step, put after the
/// handover pointer when there is a handover; and the topology drift when
/// the topology capability is configured. The cap defaults to
/// `DEFAULT_CAP`.
pub fn session_prime(specs: Vec<SpecSummary>, memories: Vec<Memory>, handover: Option<HandoverSummary>,
    memory_cap: Option<usize>, topology: AuditTopologyResult) -> (r: SessionPrimeResult)
    requires
        2 * specs.len() + 2 * DEFAULT_CAP + 41 <= usize::MAX,
    ensures
        ({
            let cap: nat = match memory_cap { Some(c) => c as nat, None => DEFAULT_CAP as nat };
            let open = open_only(specs@);
            &&& r.open_specs@ == open
            &&& ranked_memories(r.memories@, memories@, overlaps(memories@, all_labels(open)), cap)
            &&& r.item_bound == 40 + 2 * open.len() + (if cap < DEFAULT_CAP { cap } else { DEFAULT_CAP as nat })
                + (if handover is Some { 1nat } else { 0nat })
            &&& r.handover == handover
            &&& r.next_step@ == if handover is Some { handover_prefix() + base_next_step() } else { base_next_step() }
            &&& r.topology_drift == if topology.configured { Some(topology.topology_drift) } else { None }
        }),
{
    let cap = match memory_cap { Some(c) => c, None => DEFAULT_CAP };
    let open = open_specs_of(specs);
    proof { lemma_open_only_len(specs@); }
    let pool = labels_of(&open);
    let mut counts: Vec<u64> = Vec::new();
    let mut i: usize = 0;
    while i < memories.len()
        invariant
            i <= memories.len(),
            counts.len() == i,
            forall|j: int| 0 <= j < i ==> counts@[j] == #[trigger] overlaps(memories@, views(pool@))[j],
        decreases memories.len() - i,
    {
        let n = overlap_count(&memories[i].labels, &pool);
        counts.push(n);
        i = i + 1;
    }
    assert(counts@ =~= overlaps(memories@, views(pool@)));
    let ranked = rank_memories(&memories, &counts, cap);
    let shown = if cap < DEFAULT_CAP { cap } else { DEFAULT_CAP };
    let mut item_bound: usize = 40 + 2 * open.len() + shown;
    if handover.is_some() {
        item_bound = item_bound + 1;
    }
    let next_step = match handover {
        Some(_) => cat(owned("Read the handover above before any other action. "),
            "Run `orbit overview` for a single-screen project synthesis (open specs, cards-by-maturity, recent memories, most-connected card, orphans)."),
        None => owned("Run `orbit overview` for a single-screen project synthesis (open specs, cards-by-maturity, recent memories, most-connected card, orphans)."),
    };
    let topology_drift = if topology.configured { Some(topology.topology_drift) } else { None };
    SessionPrimeResult { open_specs: open, memories: ranked, handover, item_bound, next_step, topology_drift }
}

proof fn lemma_overlap_empty_pool(labels: Seq<Seq<char>>)
    ensures
        overlap(labels, Seq::empty()) == 0,
    decreases labels.len(),
{
    if labels.len() > 0 {
        lemma_overlap_empty_pool(labels.drop_last());
    }
}

/// When no open spec carries a label, `session.prime` ranks memories by
/// recency alone: every overlap is zero, the key `overview` ranks by.
pub proof fn lemma_prime_unlabelled_is_recency(specs: Seq<SpecSummary>, memories: Seq<Memory>)
    requires
        all_labels(open_only(specs)).len() == 0,
    ensures
        overlaps(memories, all_labels(open_only(specs))) == Seq::new(memories.len(), |i: int| 0u64),
{
    assert(all_labels(open_only(specs)) =~= Seq::<Seq<char>>::empty());
    assert forall|i: int| 0 <= i < memories.len() implies
        #[trigger] overlaps(memories, Seq::empty())[i] == 0u64 by {
        lemma_overlap_empty_pool(views(memories[i].labels@));
    }
    assert(overlaps(memories, all_labels(open_only(specs))) =~= Seq::new(memories.len(), |i: int| 0u64));
}

proof fn lemma_open_only_len(specs: Seq<SpecSummary>)
    ensures
        open_only(specs).len() <= specs.len(),
    decreases specs.len(),
{
    if specs.len() > 0 {
        lemma_open_only_len(specs.drop_last());
    }
}

} // verus!
