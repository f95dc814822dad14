//! The single-screen project synthesis (`overview`) and the memory
//! ordering it shares with `session.prime`.

use vstd::prelude::*;
use crate::schema::{Card, CardMaturity, Memory, Relation};
use crate::text::{owned, str_eq, clone_strings};
use crate::order::{views, member, sort_strings, sorted, distinct, drawn_from, is_permutation, ranked_down, rank_keys,
    rank_order_desc};
use crate::verbs::names::{numeric_prefix, slug_number};
use crate::verbs::results::{CardMaturityCounts, MostConnectedCard, OverviewResult, SpecSummary};

verus! {

/// How many entries an overview list holds when no cap is given.
pub const DEFAULT_CAP: usize = 10;

/// `a` holds the same memory as `b` (its labels the same strings).
pub open spec fn same_memory(a: Memory, b: Memory) -> bool {
    a.key@ == b.key@ && a.body@ == b.body@ && a.timestamp@ == b.timestamp@ && a.labels@ == b.labels@
}

fn copy_memory(m: &Memory) -> (r: Memory)
    ensures
        same_memory(r, *m),
{
    Memory { key: m.key.clone(), body: m.body.clone(), timestamp: m.timestamp.clone(), labels: clone_strings(&m.labels) }
}

/// The timestamps of a list of memories.
pub open spec fn stamps(ms: Seq<Memory>) -> Seq<String> {
    ms.map_values(|m: Memory| m.timestamp)
}

/// `out` holds the first `cap` of `ms` ranked from the highest key down,
/// keyed by `(counts[i], timestamp of ms[i])`, equal keys in their order.
pub open spec fn ranked_memories(out: Seq<Memory>, ms: Seq<Memory>, counts: Seq<u64>, cap: nat) -> bool {
    &&& out.len() == if cap < ms.len() { cap } else { ms.len() }
    &&& exists|ord: Seq<usize>| {
        &&& is_permutation(ord, ms.len())
        &&& ranked_down(ord, rank_keys(counts, stamps(ms)))
        &&& forall|i: int| 0 <= i < out.len() ==> same_memory(#[trigger] out[i], ms[ord[i] as int])
    }
}

/// The first `cap` memories ranked from the highest key down, keyed by
/// `(counts[i], timestamp)` (later timestamps first among equal counts),
/// equal keys in their given order.
pub fn rank_memories(memories: &Vec<Memory>, counts: &Vec<u64>, cap: usize) -> (r: Vec<Memory>)
    requires
        counts.len() == memories.len(),
    ensures
        ranked_memories(r@, memories@, counts@, cap as nat),
{
    let mut ts: Vec<String> = Vec::new();
    let mut i: usize = 0;
    while i < memories.len()
        invariant
            i <= memories.len(),
            ts@ == stamps(memories@).subrange(0, i as int),
        decreases memories.len() - i,
    {
        ts.push(memories[i].timestamp.clone());
        i = i + 1;
        assert(ts@ =~= stamps(memories@).subrange(0, i as int));
    }
    assert(ts@ =~= stamps(memories@));
    let ord = rank_order_desc(counts, &ts);
    let n = if cap < memories.len() { cap } else { memories.len() };
    let mut out: Vec<Memory> = Vec::new();
    let mut k: usize = 0;
    while k < n
        invariant
            k <= n,
            n <= memories.len(),
            ord.len() == memories.len(),
            is_permutation(ord@, memories.len() as nat),
            out.len() == k,
            forall|j: int| 0 <= j < k ==> same_memory(#[trigger] out@[j], memories@[ord@[j] as int]),
        decreases n - k,
    {
        let m = copy_memory(&memories[ord[k]]);
        out.push(m);
        k = k + 1;
    }
    proof {
        assert(ranked_down(ord@, rank_keys(counts@, stamps(memories@))));
    }
    out
}

/// The ids of the open specs, ascending.
pub open spec fn open_spec_ids(specs: Seq<SpecSummary>) -> Seq<Seq<char>>
    decreases specs.len(),
{
    if specs.len() == 0 {
        Seq::empty()
    } else {
        let rest = open_spec_ids(specs.drop_last());
        if specs.last().status@ == "open"@ { rest.push(specs.last().id@) } else { rest }
    }
}

/// How many relations in `rels` point at `slug`.
pub open spec fn pointing(rels: Seq<Relation>, slug: Seq<char>) -> nat
    decreases rels.len(),
{
    if rels.len() == 0 {
        0
    } else {
        pointing(rels.drop_last(), slug) + if rels.last().card@ == slug { 1nat } else { 0nat }
    }
}

/// How many relations of all cards point at `slug`.
pub open spec fn incoming(cards: Seq<(String, Card)>, slug: Seq<char>) -> nat
    decreases cards.len(),
{
    if cards.len() == 0 {
        0
    } else {
        incoming(cards.drop_last(), slug) + pointing(cards.last().1.relations@, slug)
    }
}

/// The number of relations of all cards.
pub open spec fn relation_total(cards: Seq<(String, Card)>) -> nat
    decreases cards.len(),
{
    if cards.len() == 0 { 0 } else { relation_total(cards.drop_last()) + cards.last().1.relations@.len() }
}

/// A card's degree: its own relations plus those pointing at it.
pub open spec fn degree(cards: Seq<(String, Card)>, i: int) -> nat {
    cards[i].1.relations@.len() + incoming(cards, cards[i].0@)
}

/// Card `i` ranks at least as high as card `j`: a higher degree, or the
/// same degree and a lower number, or the same of both and not later.
pub open spec fn outranks(cards: Seq<(String, Card)>, i: int, j: int) -> bool {
    ||| degree(cards, j) < degree(cards, i)
    ||| (degree(cards, j) == degree(cards, i) && slug_number(cards[j].0@) > slug_number(cards[i].0@))
    ||| (degree(cards, j) == degree(cards, i) && slug_number(cards[j].0@) == slug_number(cards[i].0@) && i <= j)
}

/// Of the first `n` cards with relations, card `i` ranks highest.
pub open spec fn best_among(cards: Seq<(String, Card)>, n: int, i: int) -> bool {
    &&& 0 <= i < n <= cards.len()
    &&& degree(cards, i) > 0
    &&& forall|j: int| 0 <= j < n && degree(cards, j) > 0 ==> #[trigger] outranks(cards, i, j)
}

/// Card `i` is the most connected: of the cards with relations, it has the
/// highest degree, then the lowest number, then comes first.
pub open spec fn most_connected_at(cards: Seq<(String, Card)>, i: int) -> bool {
    best_among(cards, cards.len() as int, i)
}

/// The orphan cards: addressed by no spec and pointed at by no relation,
/// in card order.
pub open spec fn orphans(cards: Seq<(String, Card)>, all: Seq<(String, Card)>) -> Seq<Seq<char>>
    decreases cards.len(),
{
    if cards.len() == 0 {
        Seq::empty()
    } else {
        let rest = orphans(cards.drop_last(), all);
        let c = cards.last();
        if c.1.specs.len() == 0 && incoming(all, c.0@) == 0 { rest.push(c.0@) } else { rest }
    }
}

/// Cards at a maturity.
pub open spec fn at_maturity(cards: Seq<(String, Card)>, m: CardMaturity) -> nat
    decreases cards.len(),
{
    if cards.len() == 0 {
        0
    } else {
        at_maturity(cards.drop_last(), m) + if cards.last().1.maturity == m { 1nat } else { 0nat }
    }
}

proof fn lemma_pointing_bound(rels: Seq<Relation>, slug: Seq<char>)
    ensures
        pointing(rels, slug) <= rels.len(),
    decreases rels.len(),
{
    if rels.len() > 0 {
        lemma_pointing_bound(rels.drop_last(), slug);
    }
}

proof fn lemma_incoming_bound(cards: Seq<(String, Card)>, slug: Seq<char>)
    ensures
        incoming(cards, slug) <= relation_total(cards),
    decreases cards.len(),
{
    if cards.len() > 0 {
        lemma_incoming_bound(cards.drop_last(), slug);
        lemma_pointing_bound(cards.last().1.relations@, slug);
    }
}

proof fn lemma_own_bound(cards: Seq<(String, Card)>, i: int)
    requires
        0 <= i < cards.len(),
    ensures
        cards[i].1.relations.len() <= relation_total(cards),
    decreases cards.len(),
{
    if i < cards.len() - 1 {
        lemma_own_bound(cards.drop_last(), i);
        assert(cards.drop_last()[i] == cards[i]);
    }
}

proof fn lemma_maturity_bound(cards: Seq<(String, Card)>, m: CardMaturity)
    ensures
        at_maturity(cards, m) <= cards.len(),
    decreases cards.len(),
{
    if cards.len() > 0 {
        lemma_maturity_bound(cards.drop_last(), m);
    }
}

fn count_incoming(cards: &Vec<(String, Card)>, slug: &str) -> (r: usize)
    requires
        relation_total(cards@) <= usize::MAX,
    ensures
        r == incoming(cards@, slug@),
{
    let mut total: usize = 0;
    let mut i: usize = 0;
    while i < cards.len()
        invariant
            i <= cards.len(),
            relation_total(cards@) <= usize::MAX,
            total == incoming(cards@.subrange(0, i as int), slug@),
        decreases cards.len() - i,
    {
        let rels = &cards[i].1.relations;
        let ghost pre = cards@.subrange(0, i as int);
        assert(cards@.subrange(0, i + 1).drop_last() =~= pre);
        proof {
            lemma_incoming_bound(cards@.subrange(0, i + 1), slug@);
            lemma_total_prefix(cards@, i + 1);
        }
        let mut j: usize = 0;
        let mut here: usize = 0;
        while j < rels.len()
            invariant
                j <= rels.len(),
                here == pointing(rels@.subrange(0, j as int), slug@),
                here <= j,
            decreases rels.len() - j,
        {
            assert(rels@.subrange(0, j + 1).drop_last() =~= rels@.subrange(0, j as int));
            if str_eq(rels[j].card.as_str(), slug) {
                here = here + 1;
            }
            j = j + 1;
        }
        assert(rels@.subrange(0, rels.len() as int) =~= rels@);
        total = total + here;
        i = i + 1;
    }
    assert(cards@.subrange(0, cards.len() as int) =~= cards@);
    total
}

proof fn lemma_total_prefix(cards: Seq<(String, Card)>, k: int)
    requires
        0 <= k <= cards.len(),
    ensures
        relation_total(cards.subrange(0, k)) <= relation_total(cards),
    decreases cards.len() - k,
{
    if k < cards.len() {
        lemma_total_prefix(cards.drop_last(), k);
        assert(cards.drop_last().subrange(0, k) =~= cards.subrange(0, k));
    } else {
        assert(cards.subrange(0, k) =~= cards);
    }
}

/// The overview fields computed from the cards, in card (slug) order.
pub struct CardOverview {
    pub counts: CardMaturityCounts,
    pub most_connected: Option<MostConnectedCard>,
    pub orphans: Vec<String>,
    pub orphan_overflow: usize,
}

/// The card part of `overview`: cards per maturity, the most connected
/// card, and the first `cap` orphans with how many more there are.
pub fn card_overview(cards: &Vec<(String, Card)>, cap: usize) -> (r: CardOverview)
    requires
        relation_total(cards@) * 2 <= usize::MAX,
    ensures
        r.counts.planned == at_maturity(cards@, CardMaturity::Planned),
        r.counts.emerging == at_maturity(cards@, CardMaturity::Emerging),
        r.counts.established == at_maturity(cards@, CardMaturity::Established),
        r.most_connected is None <==> forall|j: int| 0 <= j < cards.len() ==> degree(cards@, j) == 0,
        r.most_connected matches Some(m) ==> exists|i: int| most_connected_at(cards@, i)
            && m.slug@ == cards@[i].0@ && m.feature@ == cards@[i].1.feature@ && m.degree == degree(cards@, i),
        views(r.orphans@) == (if orphans(cards@, cards@).len() <= cap { orphans(cards@, cards@) }
            else { orphans(cards@, cards@).subrange(0, cap as int) }),
        r.orphan_overflow == (if orphans(cards@, cards@).len() <= cap { 0 } else { orphans(cards@, cards@).len() - cap }),
{
    let mut planned: usize = 0;
    let mut emerging: usize = 0;
    let mut established: usize = 0;
    let mut orphan_list: Vec<String> = Vec::new();
    let mut best: Option<usize> = None;
    let mut best_degree: usize = 0;
    let mut i: usize = 0;
    while i < cards.len()
        invariant
            i <= cards.len(),
            relation_total(cards@) * 2 <= usize::MAX,
            planned == at_maturity(cards@.subrange(0, i as int), CardMaturity::Planned),
            emerging == at_maturity(cards@.subrange(0, i as int), CardMaturity::Emerging),
            established == at_maturity(cards@.subrange(0, i as int), CardMaturity::Established),
            views(orphan_list@) == orphans(cards@.subrange(0, i as int), cards@),
            best is None <==> forall|j: int| 0 <= j < i ==> degree(cards@, j) == 0,
            best matches Some(b) ==> best_degree == degree(cards@, b as int) && best_among(cards@, i as int, b as int),
        decreases cards.len() - i,
    {
        let ghost pre = cards@.subrange(0, i as int);
        let ghost post = cards@.subrange(0, i + 1);
        assert(post.drop_last() =~= pre);
        proof {
            lemma_maturity_bound(pre, CardMaturity::Planned);
            lemma_maturity_bound(pre, CardMaturity::Emerging);
            lemma_maturity_bound(pre, CardMaturity::Established);
            lemma_own_bound(cards@, i as int);
            lemma_incoming_bound(cards@, cards@[i as int].0@);
        }
        let (slug, card) = (&cards[i].0, &cards[i].1);
        match card.maturity {
            CardMaturity::Planned => { planned = planned + 1; },
            CardMaturity::Emerging => { emerging = emerging + 1; },
            CardMaturity::Established => { established = established + 1; },
        }
        let inc = count_incoming(cards, slug.as_str());
        if card.specs.len() == 0 && inc == 0 {
            let ghost before = views(orphan_list@);
            orphan_list.push(slug.clone());
            assert(views(orphan_list@) =~= before.push(slug@));
        }
        assert(card.relations.len() + inc <= relation_total(cards@) * 2);
        let deg = card.relations.len() + inc;
        assert(deg == degree(cards@, i as int));
        if deg > 0 {
            let take = match best {
                None => true,
                Some(b) => deg > best_degree
                    || (deg == best_degree && numeric_prefix(slug.as_str()) < numeric_prefix(cards[b].0.as_str())),
            };
            proof {
                let ii = i as int;
                match best {
                    None => {
                        if take {
                            assert forall|j: int| 0 <= j < ii + 1 && degree(cards@, j) > 0 implies #[trigger] outranks(cards@, ii, j) by {
                                assert(j == ii);
                            }
                        }
                    },
                    Some(b) => {
                        let bb = b as int;
                        if take {
                            assert forall|j: int| 0 <= j < ii + 1 && degree(cards@, j) > 0 implies #[trigger] outranks(cards@, ii, j) by {
                                if j < ii {
                                    assert(outranks(cards@, bb, j));
                                }
                            }
                        } else {
                            assert forall|j: int| 0 <= j < ii + 1 && degree(cards@, j) > 0 implies #[trigger] outranks(cards@, bb, j) by {
                                if j < ii {
                                    assert(outranks(cards@, bb, j));
                                }
                            }
                        }
                    },
                }
            }
            if take {
                best = Some(i);
                best_degree = deg;
            }
        } else {
            proof {
                if let Some(b) = best {
                    assert forall|j: int| 0 <= j < i + 1 && degree(cards@, j) > 0 implies #[trigger] outranks(cards@, b as int, j) by {
                        if j < i { assert(outranks(cards@, b as int, j)); }
                    }
                }
            }
        }
        i = i + 1;
    }
    assert(cards@.subrange(0, cards.len() as int) =~= cards@);
    let total_orphans = orphan_list.len();
    let ghost all_orphans = views(orphan_list@);
    let mut kept: Vec<String> = Vec::new();
    let mut k: usize = 0;
    let limit = if total_orphans <= cap { total_orphans } else { cap };
    while k < limit
        invariant
            k <= limit,
            limit <= orphan_list.len(),
            views(kept@) == views(orphan_list@).subrange(0, k as int),
        decreases limit - k,
    {
        let ghost before = views(kept@);
        kept.push(orphan_list[k].clone());
        assert(views(kept@) =~= before.push(views(orphan_list@)[k as int]));
        k = k + 1;
        assert(views(kept@) =~= views(orphan_list@).subrange(0, k as int));
    }
    if total_orphans <= cap {
        assert(views(orphan_list@).subrange(0, limit as int) =~= views(orphan_list@));
    }
    let most_connected = match best {
        None => None,
        Some(b) => Some(MostConnectedCard {
            slug: cards[b].0.clone(),
            feature: cards[b].1.feature.clone(),
            degree: best_degree,
        }),
    };
    CardOverview {
        counts: CardMaturityCounts { planned, emerging, established },
        most_connected,
        orphans: kept,
        orphan_overflow: if total_orphans <= cap { 0 } else { total_orphans - cap },
    }
}


/// `recent` holds the last `cap` of `ids` in ascending order (all of them
/// when there are no more than `cap`).
pub open spec fn latest_sorted(recent: Seq<Seq<char>>, ids: Seq<Seq<char>>, cap: nat) -> bool {
    let k = if ids.len() <= cap { ids.len() } else { cap };
    &&& recent.len() == k
    &&& exists|ord: Seq<usize>| {
        &&& is_permutation(ord, ids.len())
        &&& crate::order::sorted_stably(ord, ids)
        &&& forall|i: int| 0 <= i < k ==> #[trigger] recent[i] == ids[ord[ids.len() - k + i] as int]
    }
}

fn open_ids_of(specs: &Vec<SpecSummary>) -> (r: Vec<String>)
    ensures
        views(r@) == open_spec_ids(specs@),
{
    let mut r: Vec<String> = Vec::new();
    let mut i: usize = 0;
    proof { reveal_strlit("open"); }
    while i < specs.len()
        invariant
            i <= specs.len(),
            views(r@) == open_spec_ids(specs@.subrange(0, i as int)),
        decreases specs.len() - i,
    {
        assert(specs@.subrange(0, i + 1).drop_last() =~= specs@.subrange(0, i as int));
        let ghost before = views(r@);
        if str_eq(specs[i].status.as_str(), "open") {
            r.push(specs[i].id.clone());
            assert(views(r@) =~= before.push(specs@[i as int].id@));
        }
        i = i + 1;
    }
    assert(specs@.subrange(0, specs.len() as int) =~= specs@);
    r
}

/// `overview` once the specs, cards (in slug order) and memories are read:
/// the open specs (their number, the latest `cap` ids ascending, and how
/// many more), the card synthesis, and the `cap` newest memories. The cap
/// defaults to `DEFAULT_CAP`.
pub fn overview(specs: &Vec<SpecSummary>, cards: &Vec<(String, Card)>, memories: &Vec<Memory>, memory_cap: Option<usize>)
    -> (r: OverviewResult)
    requires
        relation_total(cards@) * 2 <= usize::MAX,
    ensures
        ({
            let cap: nat = match memory_cap { Some(c) => c as nat, None => DEFAULT_CAP as nat };
            let open = open_spec_ids(specs@);
            &&& r.open_spec_count == open.len()
            &&& latest_sorted(views(r.recent_open_spec_ids@), open, cap)
            &&& r.spec_overflow == open.len() - r.recent_open_spec_ids.len()
            &&& r.cards_by_maturity.planned == at_maturity(cards@, CardMaturity::Planned)
            &&& r.cards_by_maturity.emerging == at_maturity(cards@, CardMaturity::Emerging)
            &&& r.cards_by_maturity.established == at_maturity(cards@, CardMaturity::Established)
            &&& (r.most_connected_card is None <==> forall|j: int| 0 <= j < cards.len() ==> degree(cards@, j) == 0)
            &&& (r.most_connected_card matches Some(m) ==> exists|i: int| most_connected_at(cards@, i)
                && m.slug@ == cards@[i].0@ && m.feature@ == cards@[i].1.feature@ && m.degree == degree(cards@, i))
            &&& views(r.orphans@) == (if orphans(cards@, cards@).len() <= cap { orphans(cards@, cards@) }
                else { orphans(cards@, cards@).subrange(0, cap as int) })
            &&& r.orphan_overflow == (if orphans(cards@, cards@).len() <= cap { 0 } else { orphans(cards@, cards@).len() - cap })
            &&& ranked_memories(r.memories@, memories@, Seq::new(memories.len() as nat, |i: int| 0u64), cap)
        }),
{
    let cap = match memory_cap { Some(c) => c, None => DEFAULT_CAP };
    let ids = open_ids_of(specs);
    let ord = crate::order::sort_order(&ids);
    let n = ids.len();
    let k = if n <= cap { n } else { cap };
    let mut recent: Vec<String> = Vec::new();
    let mut j: usize = 0;
    while j < k
        invariant
            j <= k,
            k <= n,
            n == ids.len(),
            ord.len() == n,
            is_permutation(ord@, n as nat),
            recent.len() == j,
            forall|i: int| 0 <= i < j ==> #[trigger] views(recent@)[i] == views(ids@)[ord@[n - k + i] as int],
        decreases k - j,
    {
        let ghost before = recent@;
        assert(forall|i: int| 0 <= i < j ==> #[trigger] views(before)[i] == views(ids@)[ord@[n - k + i] as int]);
        recent.push(ids[ord[n - k + j]].clone());
        proof {
            assert forall|i: int| 0 <= i < j + 1 implies #[trigger] views(recent@)[i] == views(ids@)[ord@[n - k + i] as int] by {
                if i < j {
                    assert(recent@[i] == before[i]);
                    assert(views(before)[i] == views(ids@)[ord@[n - k + i] as int]);
                } else {
                    assert(recent@[i] == ids@[ord@[n - k + j] as int]);
                }
            }
        }
        j = j + 1;
    }
    proof {
        assert(crate::order::sorted_stably(ord@, views(ids@)));
    }
    let c = card_overview(cards, cap);
    let mut zeros: Vec<u64> = Vec::new();
    while zeros.len() < memories.len()
        invariant
            zeros.len() <= memories.len(),
            forall|i: int| 0 <= i < zeros.len() ==> zeros@[i] == 0,
        decreases memories.len() - zeros.len(),
    {
        zeros.push(0);
    }
    assert(zeros@ =~= Seq::new(memories.len() as nat, |i: int| 0u64));
    let ranked = rank_memories(memories, &zeros, cap);
    OverviewResult {
        open_spec_count: n,
        recent_open_spec_ids: recent,
        spec_overflow: n - k,
        cards_by_maturity: c.counts,
        memories: ranked,
        most_connected_card: c.most_connected,
        orphans: c.orphans,
        orphan_overflow: c.orphan_overflow,
    }
}

} // verus!
