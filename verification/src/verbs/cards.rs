//! The card graph: relation labels and the two-way link health between a
//! card and the specs that address it.

use vstd::prelude::*;
use crate::schema::{Card, RelationKind};
use crate::text::{owned, str_eq};
use crate::order::{views, member, sort_strings, sorted, distinct, lex_lt};
use crate::verbs::names::{listed_spec_id, spec_id_from_listed_path};
use crate::verbs::results::CardSpecsEntry;

verus! {

/// Wire spelling of a relation kind.
pub open spec fn relation_name(kind: RelationKind) -> Seq<char> {
    match kind {
        RelationKind::DependsOn => "depends-on"@,
        RelationKind::Feeds => "feeds"@,
        RelationKind::Supersedes => "supersedes"@,
        RelationKind::SupersededBy => "superseded-by"@,
    }
}

/// Wire spelling of a relation kind: `depends-on`, `feeds`, `supersedes`,
/// `superseded-by`.
pub fn relation_kind_str(kind: &RelationKind) -> (s: &'static str)
    ensures
        s@ == relation_name(*kind),
{
    match kind {
        RelationKind::DependsOn => "depends-on",
        RelationKind::Feeds => "feeds",
        RelationKind::Supersedes => "supersedes",
        RelationKind::SupersededBy => "superseded-by",
    }
}

/// A spec as `card.specs` found it on disk: its id (folder name), its path
/// for display, the cards it lists, and its status (`open`, `closed`, or
/// `missing` / `parse-failed` when it could not be read or parsed, in
/// which case `parsed` is false and `cards` is empty).
pub struct DiskSpec {
    pub id: String,
    pub path: String,
    pub cards: Vec<String>,
    pub status: String,
    pub parsed: bool,
}

/// Index of the last disk spec with id `id`.
pub open spec fn last_disk(disk: Seq<DiskSpec>, id: Seq<char>) -> Option<int>
    decreases disk.len(),
{
    if disk.len() == 0 {
        None
    } else if disk.last().id@ == id {
        Some(disk.len() - 1)
    } else {
        last_disk(disk.drop_last(), id)
    }
}

/// Index of the last path on the card naming spec `id`.
pub open spec fn last_listed(listed: Seq<String>, id: Seq<char>) -> Option<int>
    decreases listed.len(),
{
    if listed.len() == 0 {
        None
    } else if listed_spec_id(listed.last()@) == id {
        Some(listed.len() - 1)
    } else {
        last_listed(listed.drop_last(), id)
    }
}

/// The spec read from disk lists the card `slug`.
pub open spec fn back_refs(d: DiskSpec, slug: Seq<char>) -> bool {
    d.parsed && member(slug, views(d.cards@))
}

/// Spec `id` is linked to the card in at least one direction.
pub open spec fn linked_spec(listed: Seq<String>, disk: Seq<DiskSpec>, slug: Seq<char>, id: Seq<char>) -> bool {
    last_listed(listed, id) is Some || (last_disk(disk, id) matches Some(k) && back_refs(disk[k], slug))
}

/// `e` reports the link between the card and spec `id`.
pub open spec fn reports(e: CardSpecsEntry, listed: Seq<String>, disk: Seq<DiskSpec>, slug: Seq<char>, id: Seq<char>) -> bool {
    &&& e.spec_id@ == id
    &&& e.listed_on_card == (last_listed(listed, id) is Some)
    &&& e.back_referenced_by_spec == (last_disk(disk, id) matches Some(k) && back_refs(disk[k], slug))
    &&& e.spec_path@ == match last_disk(disk, id) {
        Some(k) => disk[k].path@,
        None => listed[last_listed(listed, id)->0]@,
    }
    &&& e.status@ == match last_disk(disk, id) {
        Some(k) => disk[k].status@,
        None => "missing"@,
    }
}

fn find_last_disk(disk: &Vec<DiskSpec>, id: &str) -> (r: Option<usize>)
    ensures
        match last_disk(disk@, id@) {
            Some(k) => r == Some(k as usize),
            None => r is None,
        },
{
    let mut i: usize = disk.len();
    assert(disk@.subrange(0, i as int) =~= disk@);
    while i > 0
        invariant
            i <= disk.len(),
            last_disk(disk@, id@) == last_disk(disk@.subrange(0, i as int), id@),
        decreases i,
    {
        assert(disk@.subrange(0, i as int).drop_last() =~= disk@.subrange(0, i - 1));
        if str_eq(disk[i - 1].id.as_str(), id) {
            return Some(i - 1);
        }
        i = i - 1;
    }
    None
}

fn find_last_listed(listed: &Vec<String>, id: &str) -> (r: Option<usize>)
    ensures
        match last_listed(listed@, id@) {
            Some(k) => r == Some(k as usize),
            None => r is None,
        },
{
    let mut i: usize = listed.len();
    assert(listed@.subrange(0, i as int) =~= listed@);
    while i > 0
        invariant
            i <= listed.len(),
            last_listed(listed@, id@) == last_listed(listed@.subrange(0, i as int), id@),
        decreases i,
    {
        assert(listed@.subrange(0, i as int).drop_last() =~= listed@.subrange(0, i - 1));
        let sid = spec_id_from_listed_path(listed[i - 1].as_str());
        if str_eq(sid.as_str(), id) {
            return Some(i - 1);
        }
        i = i - 1;
    }
    None
}

fn lists_card(d: &DiskSpec, slug: &str) -> (r: bool)
    ensures
        r == back_refs(*d, slug@),
{
    if !d.parsed {
        return false;
    }
    let mut i: usize = 0;
    while i < d.cards.len()
        invariant
            d.parsed,
            i <= d.cards.len(),
            forall|j: int| 0 <= j < i ==> (#[trigger] d.cards@[j])@ != slug@,
        decreases d.cards.len() - i,
    {
        if str_eq(d.cards[i].as_str(), slug) {
            assert(views(d.cards@)[i as int] == slug@);
            return true;
        }
        i = i + 1;
    }
    assert forall|j: int| 0 <= j < views(d.cards@).len() implies views(d.cards@)[j] != slug@ by {
        assert(d.cards@[j]@ != slug@);
    }
    false
}

proof fn lemma_last_disk_some(disk: Seq<DiskSpec>, id: Seq<char>, k: int)
    requires
        0 <= k < disk.len(),
        disk[k].id@ == id,
    ensures
        last_disk(disk, id) is Some,
    decreases disk.len(),
{
    if disk.last().id@ != id {
        assert(k < disk.len() - 1);
        assert(disk.drop_last()[k] == disk[k]);
        lemma_last_disk_some(disk.drop_last(), id, k);
    }
}

proof fn lemma_last_disk_index(disk: Seq<DiskSpec>, id: Seq<char>)
    ensures
        last_disk(disk, id) matches Some(k) ==> 0 <= k < disk.len() && disk[k].id@ == id,
    decreases disk.len(),
{
    if disk.len() > 0 && disk.last().id@ != id {
        lemma_last_disk_index(disk.drop_last(), id);
    }
}

proof fn lemma_last_listed_index(listed: Seq<String>, id: Seq<char>)
    ensures
        last_listed(listed, id) matches Some(k) ==> 0 <= k < listed.len() && listed_spec_id(listed[k]@) == id,
    decreases listed.len(),
{
    if listed.len() > 0 && listed_spec_id(listed.last()@) != id {
        lemma_last_listed_index(listed.drop_last(), id);
    }
}

proof fn lemma_last_listed_some(listed: Seq<String>, id: Seq<char>, k: int)
    requires
        0 <= k < listed.len(),
        listed_spec_id(listed[k]@) == id,
    ensures
        last_listed(listed, id) is Some,
    decreases listed.len(),
{
    if listed_spec_id(listed.last()@) != id {
        assert(listed.drop_last()[k] == listed[k]);
        lemma_last_listed_some(listed.drop_last(), id, k);
    }
}

/// `card.specs` once the card and the specs on disk are read: one entry per
/// spec linked to the card (`slug`) in either direction — listed in the
/// card's `specs`, or listing the card in its own `cards` — sorted by spec
/// id. Each entry says whether the card lists the spec, whether the spec
/// (parsed) lists the card back, where the spec is and its status
/// (`missing` for a listed spec not on disk).
pub fn card_specs(slug: &str, card: &Card, disk: &Vec<DiskSpec>) -> (r: Vec<CardSpecsEntry>)
    ensures
        sorted(r@.map_values(|e: CardSpecsEntry| e.spec_id@)),
        distinct(r@.map_values(|e: CardSpecsEntry| e.spec_id@)),
        forall|i: int| 0 <= i < r.len() ==>
            reports(#[trigger] r@[i], card.specs@, disk@, slug@, r@[i].spec_id@)
            && linked_spec(card.specs@, disk@, slug@, r@[i].spec_id@),
        forall|id: Seq<char>| linked_spec(card.specs@, disk@, slug@, id) ==>
            exists|i: int| 0 <= i < r.len() && (#[trigger] r@[i]).spec_id@ == id,
{
    // The ids of every linked spec, each once.
    let mut ids: Vec<String> = Vec::new();
    let mut i: usize = 0;
    while i < card.specs.len()
        invariant
            i <= card.specs.len(),
            distinct(views(ids@)),
            forall|j: int| 0 <= j < ids.len() ==> linked_spec(card.specs@, disk@, slug@, #[trigger] views(ids@)[j]),
            forall|k: int| 0 <= k < i ==> member(listed_spec_id(#[trigger] card.specs@[k]@), views(ids@)),
        decreases card.specs.len() - i,
    {
        let sid = spec_id_from_listed_path(card.specs[i].as_str());
        proof { lemma_last_listed_some(card.specs@, sid@, i as int); }
        if !crate::order::has_string(&ids, sid.as_str()) {
            let ghost before = views(ids@);
            ids.push(sid);
            proof {
                assert(views(ids@) =~= before.push(listed_spec_id(card.specs@[i as int]@)));
                assert forall|k: int| 0 <= k < i + 1 implies member(listed_spec_id(#[trigger] card.specs@[k]@), views(ids@)) by {
                    if k < i {
                        let j = choose|j: int| 0 <= j < before.len() && before[j] == listed_spec_id(card.specs@[k]@);
                        assert(views(ids@)[j] == before[j]);
                    } else {
                        assert(views(ids@)[before.len() as int] == listed_spec_id(card.specs@[k]@));
                    }
                }
            }
        }
        i = i + 1;
    }
    let mut k: usize = 0;
    while k < disk.len()
        invariant
            k <= disk.len(),
            distinct(views(ids@)),
            forall|j: int| 0 <= j < ids.len() ==> linked_spec(card.specs@, disk@, slug@, #[trigger] views(ids@)[j]),
            forall|m: int| 0 <= m < card.specs.len() ==> member(listed_spec_id(#[trigger] card.specs@[m]@), views(ids@)),
            forall|m: int| 0 <= m < k && back_refs(disk@[m], slug@) && last_disk(disk@, disk@[m].id@) == Some(m)
                ==> member((#[trigger] disk@[m]).id@, views(ids@)),
        decreases disk.len() - k,
    {
        if lists_card(&disk[k], slug) {
            proof { lemma_last_disk_index(disk@, disk@[k as int].id@); }
            let last = find_last_disk(disk, disk[k].id.as_str());
            if last == Some(k) && !crate::order::has_string(&ids, disk[k].id.as_str()) {
                let ghost before = views(ids@);
                ids.push(disk[k].id.clone());
                proof {
                    assert(views(ids@) =~= before.push(disk@[k as int].id@));
                    assert(linked_spec(card.specs@, disk@, slug@, disk@[k as int].id@));
                    assert forall|j: int| 0 <= j < ids.len() implies linked_spec(card.specs@, disk@, slug@, #[trigger] views(ids@)[j]) by {
                        if j < before.len() { assert(views(ids@)[j] == before[j]); }
                    }
                    assert forall|m: int| 0 <= m < card.specs.len() implies member(listed_spec_id(#[trigger] card.specs@[m]@), views(ids@)) by {
                        let j = choose|j: int| 0 <= j < before.len() && before[j] == listed_spec_id(card.specs@[m]@);
                        assert(views(ids@)[j] == before[j]);
                    }
                    assert forall|m: int| 0 <= m < k + 1 && back_refs(disk@[m], slug@) && last_disk(disk@, disk@[m].id@) == Some(m)
                        implies member((#[trigger] disk@[m]).id@, views(ids@)) by {
                        if m < k {
                            let j = choose|j: int| 0 <= j < before.len() && before[j] == disk@[m].id@;
                            assert(views(ids@)[j] == before[j]);
                        } else {
                            assert(views(ids@)[before.len() as int] == disk@[m].id@);
                        }
                    }
                }
            }
        }
        k = k + 1;
    }
    let sorted_ids = sort_strings(&ids);
    proof {
        assert forall|j: int| 0 <= j < sorted_ids.len() implies linked_spec(card.specs@, disk@, slug@, #[trigger] views(sorted_ids@)[j]) by {
            assert(member(views(sorted_ids@)[j], views(ids@)));
        }
    }
    let mut out: Vec<CardSpecsEntry> = Vec::new();
    let mut n: usize = 0;
    while n < sorted_ids.len()
        invariant
            n <= sorted_ids.len(),
            out.len() == n,
            forall|j: int| 0 <= j < sorted_ids.len() ==> linked_spec(card.specs@, disk@, slug@, #[trigger] views(sorted_ids@)[j]),
            forall|j: int| 0 <= j < n ==> (#[trigger] out@[j]).spec_id@ == sorted_ids@[j]@
                && reports(out@[j], card.specs@, disk@, slug@, out@[j].spec_id@),
        decreases sorted_ids.len() - n,
    {
        let id = sorted_ids[n].as_str();
        proof {
            assert(linked_spec(card.specs@, disk@, slug@, views(sorted_ids@)[n as int]));
            lemma_last_disk_index(disk@, id@);
            lemma_last_listed_index(card.specs@, id@);
        }
        let d = find_last_disk(disk, id);
        let listed = find_last_listed(&card.specs, id);
        let entry = match d {
            Some(x) => {
                proof {
                    assert(last_disk(disk@, id@) is Some);
                    let kk = last_disk(disk@, id@)->0;
                    assert(0 <= kk < disk.len());
                    assert(kk as usize == x);
                }
                assert(last_disk(disk@, id@) == Some(x as int));
                let e = CardSpecsEntry {
                    spec_id: owned(id),
                    spec_path: disk[x].path.clone(),
                    listed_on_card: listed.is_some(),
                    back_referenced_by_spec: lists_card(&disk[x], slug),
                    status: disk[x].status.clone(),
                };
                assert(reports(e, card.specs@, disk@, slug@, id@));
                e
            },
            None => {
                let l = match listed {
                    Some(l) => l,
                    None => { proof { assert(false); } 0 },
                };
                proof {
                    assert(last_listed(card.specs@, id@) is Some);
                    let kk = last_listed(card.specs@, id@)->0;
                    assert(0 <= kk < card.specs.len());
                    assert(kk as usize == l);
                }
                assert(last_listed(card.specs@, id@) == Some(l as int));
                let e = CardSpecsEntry {
                    spec_id: owned(id),
                    spec_path: card.specs[l].clone(),
                    listed_on_card: true,
                    back_referenced_by_spec: false,
                    status: owned("missing"),
                };
                assert(reports(e, card.specs@, disk@, slug@, id@));
                e
            },
        };
        let ghost before = out@;
        out.push(entry);
        proof {
            assert forall|j: int| 0 <= j < n + 1 implies (#[trigger] out@[j]).spec_id@ == sorted_ids@[j]@
                && reports(out@[j], card.specs@, disk@, slug@, out@[j].spec_id@) by {
                if j < n { assert(out@[j] == before[j]); }
            }
        }
        n = n + 1;
    }
    proof {
        let ev = out@.map_values(|e: CardSpecsEntry| e.spec_id@);
        assert(ev =~= views(sorted_ids@));
        assert forall|i: int| 0 <= i < out.len() implies linked_spec(card.specs@, disk@, slug@, (#[trigger] out@[i]).spec_id@) by {
            assert(views(sorted_ids@)[i] == sorted_ids@[i]@);
        }
        assert forall|id: Seq<char>| linked_spec(card.specs@, disk@, slug@, id) implies
            exists|i: int| 0 <= i < out.len() && (#[trigger] out@[i]).spec_id@ == id by {
            let in_ids = member(id, views(ids@));
            if last_listed(card.specs@, id) is Some {
                lemma_last_listed_index(card.specs@, id);
                let l = last_listed(card.specs@, id)->0;
                assert(member(listed_spec_id(card.specs@[l]@), views(ids@)));
            } else {
                lemma_last_disk_index(disk@, id);
                let m = last_disk(disk@, id)->0;
                assert(last_disk(disk@, disk@[m].id@) == Some(m));
                assert(member(disk@[m].id@, views(ids@)));
            }
            let j = choose|j: int| 0 <= j < views(ids@).len() && views(ids@)[j] == id;
            assert(member(views(ids@)[j], views(sorted_ids@)));
            let i = choose|i: int| 0 <= i < views(sorted_ids@).len() && views(sorted_ids@)[i] == id;
            assert(out@[i].spec_id@ == id);
        }
    }
    out
}

} // verus!
