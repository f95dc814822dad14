//! `card.tree`: the subgraph around a card, relations followed outward and
//! inward up to a depth, a card already on the current path cut short.

use vstd::prelude::*;
use crate::schema::{Card, Relation};
use crate::error::{Error, Category, Result};
use crate::text::{cat, owned, str_eq, clone_strings};
use crate::order::{views, member, has_string};
use crate::verbs::cards::{relation_name, relation_kind_str};
use crate::verbs::results::{CardTreeEdge, CardTreeNode, CardTreeResult};

verus! {

/// An edge as `(other card, relation kind, reason)`.
pub type EdgeView = (Seq<char>, Seq<char>, Seq<char>);

/// Index of the last card with slug `s`.
pub open spec fn card_at(cards: Seq<(String, Card)>, s: Seq<char>) -> Option<int>
    decreases cards.len(),
{
    if cards.len() == 0 {
        None
    } else if cards.last().0@ == s {
        Some(cards.len() - 1)
    } else {
        card_at(cards.drop_last(), s)
    }
}

proof fn lemma_card_at(cards: Seq<(String, Card)>, s: Seq<char>)
    ensures
        card_at(cards, s) matches Some(i) ==> 0 <= i < cards.len() && cards[i].0@ == s,
    decreases cards.len(),
{
    if cards.len() > 0 {
        lemma_card_at(cards.drop_last(), s);
    }
}

/// The feature of the card with slug `s`, empty when there is none.
pub open spec fn feature_of(cards: Seq<(String, Card)>, s: Seq<char>) -> Seq<char> {
    match card_at(cards, s) {
        Some(i) => cards[i].1.feature@,
        None => Seq::empty(),
    }
}

pub open spec fn edge_of(r: Relation) -> EdgeView {
    (r.card@, relation_name(r.kind), r.reason@)
}

/// The relations of the card with slug `s`, in its order.
pub open spec fn forward_edges(cards: Seq<(String, Card)>, s: Seq<char>) -> Seq<EdgeView> {
    match card_at(cards, s) {
        Some(i) => cards[i].1.relations@.map_values(|r: Relation| edge_of(r)),
        None => Seq::empty(),
    }
}

/// The relations of `rels` (held by card `source`) that point at `t`,
/// each as an edge back to `source`.
pub open spec fn pointing_edges(source: Seq<char>, rels: Seq<Relation>, t: Seq<char>) -> Seq<EdgeView>
    decreases rels.len(),
{
    if rels.len() == 0 {
        Seq::empty()
    } else {
        let rest = pointing_edges(source, rels.drop_last(), t);
        let r = rels.last();
        if r.card@ == t { rest.push((source, relation_name(r.kind), r.reason@)) } else { rest }
    }
}

/// The relations that point at `t`, card by card in order, each as an
/// edge to the card that holds it.
pub open spec fn incoming_edges(cards: Seq<(String, Card)>, t: Seq<char>) -> Seq<EdgeView>
    decreases cards.len(),
{
    if cards.len() == 0 {
        Seq::empty()
    } else {
        incoming_edges(cards.drop_last(), t) + pointing_edges(cards.last().0@, cards.last().1.relations@, t)
    }
}

/// `e` carries the kind and reason of `v`.
pub open spec fn edge_is(e: CardTreeEdge, v: EdgeView) -> bool {
    e.kind@ == v.1 && e.reason@ == v.2
}

/// `node` is the expansion of `slug` to `depth` hops, `path` holding the
/// slugs being expanded above it: a truncated leaf when `slug` is on the
/// path or no hop is left; else every outgoing and incoming edge of the
/// card, in order, each leading to the expansion of the card at its other
/// end one hop shallower, with `slug` added to the path.
pub open spec fn is_tree(node: CardTreeNode, cards: Seq<(String, Card)>, slug: Seq<char>, depth: nat,
    path: Seq<Seq<char>>) -> bool
    decreases depth,
{
    &&& node.slug@ == slug
    &&& node.feature@ == feature_of(cards, slug)
    &&& if member(slug, path) || depth == 0 {
        &&& node.truncated
        &&& node.outgoing.len() == 0
        &&& node.incoming.len() == 0
    } else {
        let inner = path.push(slug);
        let fw = forward_edges(cards, slug);
        let bw = incoming_edges(cards, slug);
        &&& !node.truncated
        &&& node.outgoing.len() == fw.len()
        &&& node.incoming.len() == bw.len()
        &&& forall|i: int| 0 <= i < fw.len() ==> edge_is(#[trigger] node.outgoing@[i], fw[i])
            && is_tree(node.outgoing@[i].target, cards, fw[i].0, (depth - 1) as nat, inner)
        &&& forall|i: int| 0 <= i < bw.len() ==> edge_is(#[trigger] node.incoming@[i], bw[i])
            && is_tree(node.incoming@[i].target, cards, bw[i].0, (depth - 1) as nat, inner)
    }
}

/// Incoming relations are followed as far as outgoing ones: in a tree of
/// depth two or more, a neighbour reached by either kind of edge that is
/// not on the path is itself expanded, with all of its own outgoing and
/// incoming edges.
pub proof fn lemma_neighbours_expanded_alike(node: CardTreeNode, cards: Seq<(String, Card)>, slug: Seq<char>,
    depth: nat, path: Seq<Seq<char>>, i: int)
    requires
        is_tree(node, cards, slug, depth, path),
        !member(slug, path),
        depth >= 2,
    ensures
        0 <= i < node.incoming.len() && !member(node.incoming@[i].target.slug@, path.push(slug)) ==> {
            let n = node.incoming@[i].target;
            &&& !n.truncated
            &&& n.outgoing.len() == forward_edges(cards, n.slug@).len()
            &&& n.incoming.len() == incoming_edges(cards, n.slug@).len()
        },
        0 <= i < node.outgoing.len() && !member(node.outgoing@[i].target.slug@, path.push(slug)) ==> {
            let n = node.outgoing@[i].target;
            &&& !n.truncated
            &&& n.outgoing.len() == forward_edges(cards, n.slug@).len()
            &&& n.incoming.len() == incoming_edges(cards, n.slug@).len()
        },
{
    reveal_with_fuel(is_tree, 2);
    let bw = incoming_edges(cards, slug);
    let fw = forward_edges(cards, slug);
    if 0 <= i < node.incoming.len() {
        assert(edge_is(node.incoming@[i], bw[i]));
    }
    if 0 <= i < node.outgoing.len() {
        assert(edge_is(node.outgoing@[i], fw[i]));
    }
}

/// Each incoming edge of an expanded card leads to a card that holds a
/// relation pointing at it, and the expansion of that card is one hop
/// shallower, like that of an outgoing edge's target.
pub proof fn lemma_incoming_depth(node: CardTreeNode, cards: Seq<(String, Card)>, slug: Seq<char>,
    depth: nat, path: Seq<Seq<char>>, i: int)
    requires
        is_tree(node, cards, slug, depth, path),
        !member(slug, path),
        depth >= 1,
        0 <= i < node.incoming.len(),
    ensures
        is_tree(node.incoming@[i].target, cards, node.incoming@[i].target.slug@, (depth - 1) as nat, path.push(slug)),
{
    reveal_with_fuel(is_tree, 2);
    let bw = incoming_edges(cards, slug);
    assert(edge_is(node.incoming@[i], bw[i]));
    assert(node.incoming@[i].target.slug@ == bw[i].0);
}

pub open spec fn edge_views(v: Seq<(String, String, String)>) -> Seq<EdgeView> {
    v.map_values(|e: (String, String, String)| (e.0@, e.1@, e.2@))
}

fn find_card(cards: &Vec<(String, Card)>, s: &str) -> (r: Option<usize>)
    ensures
        r matches Some(k) ==> card_at(cards@, s@) == Some(k as int),
        r is None ==> card_at(cards@, s@) is None,
{
    let mut i: usize = cards.len();
    assert(cards@.subrange(0, i as int) =~= cards@);
    while i > 0
        invariant
            i <= cards.len(),
            card_at(cards@, s@) == card_at(cards@.subrange(0, i as int), s@),
        decreases i,
    {
        let ghost pre = cards@.subrange(0, i as int);
        assert(pre.drop_last() =~= cards@.subrange(0, i - 1));
        assert(pre.last() == cards@[i - 1]);
        if str_eq(cards[i - 1].0.as_str(), s) {
            return Some(i - 1);
        }
        i = i - 1;
    }
    None
}

fn forward_of(cards: &Vec<(String, Card)>, s: &str) -> (r: Vec<(String, String, String)>)
    ensures
        edge_views(r@) == forward_edges(cards@, s@),
{
    let mut r: Vec<(String, String, String)> = Vec::new();
    proof { lemma_card_at(cards@, s@); }
    match find_card(cards, s) {
        None => {
            assert(edge_views(r@) =~= Seq::<EdgeView>::empty());
        },
        Some(k) => {
            let rels = &cards[k].1.relations;
            let mut j: usize = 0;
            while j < rels.len()
                invariant
                    j <= rels.len(),
                    edge_views(r@) == rels@.subrange(0, j as int).map_values(|x: Relation| edge_of(x)),
                decreases rels.len() - j,
            {
                let rel = &rels[j];
                let ghost prev = r@;
                r.push((rel.card.clone(), owned(relation_kind_str(&rel.kind)), rel.reason.clone()));
                assert(edge_views(r@) =~= edge_views(prev).push(edge_of(rels@[j as int])));
                assert(rels@.subrange(0, j + 1).map_values(|x: Relation| edge_of(x))
                    =~= rels@.subrange(0, j as int).map_values(|x: Relation| edge_of(x)).push(edge_of(rels@[j as int])));
                j = j + 1;
            }
            assert(rels@.subrange(0, rels.len() as int) =~= rels@);
        },
    }
    r
}

fn incoming_of(cards: &Vec<(String, Card)>, t: &str) -> (r: Vec<(String, String, String)>)
    ensures
        edge_views(r@) == incoming_edges(cards@, t@),
{
    let mut r: Vec<(String, String, String)> = Vec::new();
    let mut i: usize = 0;
    while i < cards.len()
        invariant
            i <= cards.len(),
            edge_views(r@) == incoming_edges(cards@.subrange(0, i as int), t@),
        decreases cards.len() - i,
    {
        assert(cards@.subrange(0, i + 1).drop_last() =~= cards@.subrange(0, i as int));
        let source = &cards[i].0;
        let rels = &cards[i].1.relations;
        let ghost before = edge_views(r@);
        let mut j: usize = 0;
        while j < rels.len()
            invariant
                j <= rels.len(),
                i < cards.len(),
                source == cards@[i as int].0,
                rels == cards@[i as int].1.relations,
                edge_views(r@) == before + pointing_edges(source@, rels@.subrange(0, j as int), t@),
            decreases rels.len() - j,
        {
            assert(rels@.subrange(0, j + 1).drop_last() =~= rels@.subrange(0, j as int));
            let rel = &rels[j];
            if str_eq(rel.card.as_str(), t) {
                let ghost prev = r@;
                r.push((source.clone(), owned(relation_kind_str(&rel.kind)), rel.reason.clone()));
                assert(edge_views(r@) =~= edge_views(prev).push((source@, relation_name(rel.kind), rel.reason@)));
            }
            j = j + 1;
        }
        assert(rels@.subrange(0, rels.len() as int) =~= rels@);
        i = i + 1;
    }
    assert(cards@.subrange(0, cards.len() as int) =~= cards@);
    r
}

fn feature_for(cards: &Vec<(String, Card)>, s: &str) -> (f: String)
    ensures
        f@ == feature_of(cards@, s@),
{
    proof { lemma_card_at(cards@, s@); }
    match find_card(cards, s) {
        Some(k) => {
            assert(card_at(cards@, s@) == Some(k as int));
            cards[k].1.feature.clone()
        },
        None => {
            let e = String::new();
            assert(e@ == Seq::<char>::empty());
            e
        },
    }
}

fn expand_edges(edges: &Vec<(String, String, String)>, cards: &Vec<(String, Card)>, depth: u32,
    path: &Vec<String>) -> (r: Vec<CardTreeEdge>)
    ensures
        r.len() == edges.len(),
        forall|i: int| 0 <= i < edges.len() ==> edge_is(#[trigger] r@[i], edge_views(edges@)[i])
            && is_tree(r@[i].target, cards@, edges@[i].0@, depth as nat, views(path@)),
    decreases depth, 1nat,
{
    let mut r: Vec<CardTreeEdge> = Vec::new();
    let mut i: usize = 0;
    while i < edges.len()
        invariant
            i <= edges.len(),
            r.len() == i,
            forall|j: int| 0 <= j < i ==> edge_is(#[trigger] r@[j], edge_views(edges@)[j])
                && is_tree(r@[j].target, cards@, edges@[j].0@, depth as nat, views(path@)),
        decreases edges.len() - i,
    {
        let target = expand_card_node(edges[i].0.as_str(), cards, depth, path);
        r.push(CardTreeEdge { kind: edges[i].1.clone(), reason: edges[i].2.clone(), target });
        i = i + 1;
    }
    r
}

/// The expansion of `slug` to `depth` hops, `path` holding the slugs being
/// expanded above it.
pub fn expand_card_node(slug: &str, cards: &Vec<(String, Card)>, depth: u32, path: &Vec<String>)
    -> (node: CardTreeNode)
    ensures
        is_tree(node, cards@, slug@, depth as nat, views(path@)),
    decreases depth, 0nat,
{
    let feature = feature_for(cards, slug);
    if has_string(path, slug) || depth == 0 {
        return CardTreeNode { slug: owned(slug), feature, outgoing: Vec::new(), incoming: Vec::new(), truncated: true };
    }
    let mut inner = clone_strings(path);
    inner.push(owned(slug));
    assert(views(inner@) =~= views(path@).push(slug@));
    let fw = forward_of(cards, slug);
    let bw = incoming_of(cards, slug);
    let outgoing = expand_edges(&fw, cards, depth - 1, &inner);
    let incoming = expand_edges(&bw, cards, depth - 1, &inner);
    let node = CardTreeNode { slug: owned(slug), feature, outgoing, incoming, truncated: false };
    proof {
        let fwv = forward_edges(cards@, slug@);
        let bwv = incoming_edges(cards@, slug@);
        assert forall|i: int| 0 <= i < fwv.len() implies edge_is(#[trigger] node.outgoing@[i], fwv[i])
            && is_tree(node.outgoing@[i].target, cards@, fwv[i].0, (depth - 1) as nat, views(path@).push(slug@)) by {
            assert(edge_views(fw@)[i] == fwv[i]);
        }
        assert forall|i: int| 0 <= i < bwv.len() implies edge_is(#[trigger] node.incoming@[i], bwv[i])
            && is_tree(node.incoming@[i].target, cards@, bwv[i].0, (depth - 1) as nat, views(path@).push(slug@)) by {
            assert(edge_views(bw@)[i] == bwv[i]);
        }
    }
    node
}

/// `card.tree` once the root slug is resolved and the cards are read (in
/// slug order): the expansion of the root to `depth` hops. A root that is
/// not among the cards is not found.
pub fn card_tree(verb: &str, resolved: String, cards: &Vec<(String, Card)>, depth: u32) -> (r: Result<CardTreeResult>)
    ensures
        card_at(cards@, resolved@) is None <==> r is Err,
        r matches Err(e) ==> e.is(verb@, Category::NotFound,
            "card "@ + resolved@ + " not present in loaded card set"@),
        r matches Ok(t) ==> t.root@ == resolved@ && t.depth == depth
            && is_tree(t.tree, cards@, resolved@, depth as nat, Seq::empty()),
{
    if find_card(cards, resolved.as_str()).is_none() {
        let msg = cat(cat(owned("card "), resolved.as_str()), " not present in loaded card set");
        return Err(Error::not_found(verb, msg));
    }
    let none: Vec<String> = Vec::new();
    assert(views(none@) =~= Seq::<Seq<char>>::empty());
    let tree = expand_card_node(resolved.as_str(), cards, depth, &none);
    Ok(CardTreeResult { root: resolved, depth, tree })
}

} // verus!
