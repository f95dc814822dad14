//! The card graph rendered as text (`graph`): which cards are in scope,
//! the spec nodes and edges they bring, and the Mermaid and Graphviz
//! renderings.

use vstd::prelude::*;
use crate::schema::{Card, Relation};
use crate::text::{cat, owned, str_eq, chars_of, string_from_chars};
use crate::order::{views, member, sort_strings, sorted, distinct, drawn_from};
use crate::verbs::names::{listed_spec_id, spec_id_from_listed_path, diagram_id, mermaid_id};
use crate::verbs::cards::{relation_name, relation_kind_str};

verus! {

/// Card `a` has a relation to `b`, or `b` has one to `a`: the two are one
/// hop apart.
pub open spec fn adjacent(cards: Seq<(String, Card)>, a: Seq<char>, b: Seq<char>) -> bool {
    exists|i: int, k: int| 0 <= i < cards.len() && 0 <= k < cards[i].1.relations.len() && {
        ||| (cards[i].0@ == a && (#[trigger] cards[i].1.relations@[k]).card@ == b)
        ||| (cards[i].0@ == b && cards[i].1.relations@[k].card@ == a)
    }
}

/// The slugs within `d` hops of `root`, relations followed either way.
pub open spec fn within(cards: Seq<(String, Card)>, root: Seq<char>, d: nat) -> Set<Seq<char>>
    decreases d,
{
    if d == 0 {
        set![root]
    } else {
        let prev = within(cards, root, (d - 1) as nat);
        prev.union(Set::new(|b: Seq<char>| exists|a: Seq<char>| prev.contains(a) && adjacent(cards, a, b)))
    }
}

pub(crate) fn push_new(v: &mut Vec<String>, s: &str)
    ensures
        forall|x: Seq<char>| member(x, views(final(v)@)) <==> (member(x, views(old(v)@)) || x == s@),
        distinct(views(old(v)@)) ==> distinct(views(final(v)@)),
{
    let mut i: usize = 0;
    while i < v.len()
        invariant
            i <= v.len(),
            forall|j: int| 0 <= j < i ==> (#[trigger] v@[j])@ != s@,
        decreases v.len() - i,
    {
        if str_eq(v[i].as_str(), s) {
            proof {
                assert(views(v@)[i as int] == s@);
            }
            return;
        }
        i = i + 1;
    }
    let ghost before = views(v@);
    v.push(owned(s));
    proof {
        assert(views(v@) =~= before.push(s@));
        assert forall|x: Seq<char>| member(x, views(v@)) <==> (member(x, before) || x == s@) by {
            if member(x, views(v@)) {
                let j = choose|j: int| 0 <= j < views(v@).len() && views(v@)[j] == x;
                if j < before.len() { assert(before[j] == x); }
            }
            if member(x, before) {
                let j = choose|j: int| 0 <= j < before.len() && before[j] == x;
                assert(views(v@)[j] == x);
            }
            if x == s@ {
                assert(views(v@)[before.len() as int] == x);
            }
        }
        assert forall|j: int| 0 <= j < before.len() implies before[j] != s@ by {
            assert(v@[j]@ != s@);
        }
    }
}

/// The slugs within `depth` hops of `root` (the root included), relations
/// followed in either direction, each once.
pub fn bfs_card_neighbourhood(cards: &Vec<(String, Card)>, root: &str, depth: u32) -> (r: Vec<String>)
    ensures
        distinct(views(r@)),
        forall|x: Seq<char>| member(x, views(r@)) <==> within(cards@, root@, depth as nat).contains(x),
{
    let mut included: Vec<String> = Vec::new();
    included.push(owned(root));
    proof {
        assert(views(included@) =~= seq![root@]);
        assert forall|x: Seq<char>| member(x, views(included@)) <==> within(cards@, root@, 0).contains(x) by {
            if x == root@ { assert(views(included@)[0] == x); }
        }
    }
    let mut d: u32 = 0;
    while d < depth
        invariant
            d <= depth,
            distinct(views(included@)),
            forall|x: Seq<char>| member(x, views(included@)) <==> within(cards@, root@, d as nat).contains(x),
        decreases depth - d,
    {
        let ghost prev = within(cards@, root@, d as nat);
        let snapshot = crate::text::clone_strings(&included);
        let mut next = crate::text::clone_strings(&included);
        let mut i: usize = 0;
        while i < cards.len()
            invariant
                i <= cards.len(),
                views(snapshot@) == views(included@),
                distinct(views(next@)),
                forall|x: Seq<char>| member(x, views(snapshot@)) <==> prev.contains(x),
                forall|x: Seq<char>| #[trigger] member(x, views(next@)) ==> (prev.contains(x)
                    || exists|a: Seq<char>| prev.contains(a) && adjacent(cards@, a, x)),
                forall|x: Seq<char>| prev.contains(x) ==> #[trigger] member(x, views(next@)),
                forall|ii: int, k: int| 0 <= ii < i && 0 <= k < cards@[ii].1.relations.len() ==> {
                    &&& (prev.contains(cards@[ii].0@) ==> member((#[trigger] cards@[ii].1.relations@[k]).card@, views(next@)))
                    &&& (prev.contains(cards@[ii].1.relations@[k].card@) ==> member(cards@[ii].0@, views(next@)))
                },
            decreases cards.len() - i,
        {
            let slug = &cards[i].0;
            let rels = &cards[i].1.relations;
            let from_in = crate::order::has_string(&snapshot, slug.as_str());
            let mut k: usize = 0;
            while k < rels.len()
                invariant
                    k <= rels.len(),
                    i < cards.len(),
                    rels == cards@[i as int].1.relations,
                    slug == cards@[i as int].0,
                    from_in == member(slug@, views(snapshot@)),
                    views(snapshot@) == views(included@),
                    distinct(views(next@)),
                    forall|x: Seq<char>| member(x, views(snapshot@)) <==> prev.contains(x),
                    forall|x: Seq<char>| #[trigger] member(x, views(next@)) ==> (prev.contains(x)
                        || exists|a: Seq<char>| prev.contains(a) && adjacent(cards@, a, x)),
                    forall|x: Seq<char>| prev.contains(x) ==> #[trigger] member(x, views(next@)),
                    forall|ii: int, kk: int| 0 <= ii < i && 0 <= kk < cards@[ii].1.relations.len() ==> {
                        &&& (prev.contains(cards@[ii].0@) ==> member((#[trigger] cards@[ii].1.relations@[kk]).card@, views(next@)))
                        &&& (prev.contains(cards@[ii].1.relations@[kk].card@) ==> member(cards@[ii].0@, views(next@)))
                    },
                    forall|kk: int| 0 <= kk < k ==> {
                        &&& (prev.contains(cards@[i as int].0@) ==> member((#[trigger] rels@[kk]).card@, views(next@)))
                        &&& (prev.contains(rels@[kk].card@) ==> member(cards@[i as int].0@, views(next@)))
                    },
                decreases rels.len() - k,
            {
                let target = &rels[k].card;
                proof {
                    assert(adjacent(cards@, cards@[i as int].0@, rels@[k as int].card@));
                    assert(adjacent(cards@, rels@[k as int].card@, cards@[i as int].0@));
                }
                if from_in {
                    let ghost before = views(next@);
                    push_new(&mut next, target.as_str());
                    proof {
                        assert forall|x: Seq<char>| #[trigger] member(x, views(next@)) implies (prev.contains(x)
                            || exists|a: Seq<char>| prev.contains(a) && adjacent(cards@, a, x)) by {
                            if !member(x, before) {
                                assert(x == target@);
                                assert(prev.contains(slug@) && adjacent(cards@, slug@, x));
                            }
                        }
                    }
                }
                let to_in = crate::order::has_string(&snapshot, target.as_str());
                if to_in {
                    let ghost before = views(next@);
                    push_new(&mut next, slug.as_str());
                    proof {
                        assert forall|x: Seq<char>| #[trigger] member(x, views(next@)) implies (prev.contains(x)
                            || exists|a: Seq<char>| prev.contains(a) && adjacent(cards@, a, x)) by {
                            if !member(x, before) {
                                assert(x == slug@);
                                assert(prev.contains(target@) && adjacent(cards@, target@, x));
                            }
                        }
                    }
                }
                k = k + 1;
            }
            i = i + 1;
        }
        proof {
            let now = within(cards@, root@, (d + 1) as nat);
            assert forall|x: Seq<char>| member(x, views(next@)) <==> now.contains(x) by {
                if now.contains(x) && !prev.contains(x) {
                    let a = choose|a: Seq<char>| prev.contains(a) && adjacent(cards@, a, x);
                    let (ii, k) = choose|ii: int, k: int| 0 <= ii < cards@.len() && 0 <= k < cards@[ii].1.relations.len() && {
                        ||| (cards@[ii].0@ == a && (#[trigger] cards@[ii].1.relations@[k]).card@ == x)
                        ||| (cards@[ii].0@ == x && cards@[ii].1.relations@[k].card@ == a)
                    };
                    assert(cards@[ii].1.relations@[k] == cards@[ii].1.relations@[k]);
                }
            }
        }
        included = next;
        d = d + 1;
    }
    included
}


/// `s` with every `c` replaced by `r`.
pub open spec fn replaced(s: Seq<char>, c: char, r: Seq<char>) -> Seq<char>
    decreases s.len(),
{
    if s.len() == 0 {
        s
    } else {
        replaced(s.drop_last(), c, r) + if s.last() == c { r } else { seq![s.last()] }
    }
}

/// `str::replace` of one character by a string.
pub fn replace_char(s: &str, c: char, r: &str) -> (out: String)
    ensures
        out@ == replaced(s@, c, r@),
{
    let v = chars_of(s);
    let rv = chars_of(r);
    let mut out: Vec<char> = Vec::new();
    let mut i: usize = 0;
    while i < v.len()
        invariant
            v@ == s@,
            rv@ == r@,
            i <= v.len(),
            out@ == replaced(s@.subrange(0, i as int), c, r@),
        decreases v.len() - i,
    {
        assert(s@.subrange(0, i + 1).drop_last() =~= s@.subrange(0, i as int));
        let ghost before = out@;
        if v[i] == c {
            let mut k: usize = 0;
            while k < rv.len()
                invariant
                    k <= rv.len(),
                    out@ == before + rv@.subrange(0, k as int),
                decreases rv.len() - k,
            {
                out.push(rv[k]);
                k = k + 1;
                assert(out@ =~= before + rv@.subrange(0, k as int));
            }
            assert(rv@.subrange(0, rv.len() as int) =~= rv@);
        } else {
            out.push(v[i]);
            assert(out@ =~= before + seq![v@[i as int]]);
        }
        i = i + 1;
    }
    assert(s@.subrange(0, v.len() as int) =~= s@);
    string_from_chars(out.as_slice())
}

/// The slugs of the cards in scope.
pub open spec fn scope_slugs(scope: Seq<(String, Card)>) -> Seq<Seq<char>> {
    scope.map_values(|c: (String, Card)| c.0@)
}

/// The spec ids the cards in scope list, each with the card listing it, in
/// card order then list order.
pub open spec fn spec_edges(scope: Seq<(String, Card)>) -> Seq<(Seq<char>, Seq<char>)>
    decreases scope.len(),
{
    if scope.len() == 0 {
        Seq::empty()
    } else {
        spec_edges(scope.drop_last()) + scope.last().1.specs@.map_values(|p: String| (scope.last().0@, listed_spec_id(p@)))
    }
}

/// Mermaid node lines for the cards.
pub open spec fn mermaid_cards(scope: Seq<(String, Card)>) -> Seq<char>
    decreases scope.len(),
{
    if scope.len() == 0 {
        Seq::empty()
    } else {
        let c = scope.last();
        mermaid_cards(scope.drop_last()) + "  "@ + diagram_id('c', c.0@) + "[\""@
            + replaced(c.0@ + ": "@ + c.1.feature@, '"', "'"@) + "\"]\n"@
    }
}

/// Mermaid node lines for the specs.
pub open spec fn mermaid_specs(ids: Seq<Seq<char>>) -> Seq<char>
    decreases ids.len(),
{
    if ids.len() == 0 {
        Seq::empty()
    } else {
        mermaid_specs(ids.drop_last()) + "  "@ + diagram_id('s', ids.last()) + "([\""@ + ids.last() + "\"])\n"@
    }
}

/// Mermaid edge lines for one card's relations to cards in scope.
pub open spec fn mermaid_rels(slug: Seq<char>, rels: Seq<Relation>, in_scope: Seq<Seq<char>>) -> Seq<char>
    decreases rels.len(),
{
    if rels.len() == 0 {
        Seq::empty()
    } else {
        let r = rels.last();
        mermaid_rels(slug, rels.drop_last(), in_scope) + if member(r.card@, in_scope) {
            "  "@ + diagram_id('c', slug) + " -->|"@ + relation_name(r.kind) + "| "@ + diagram_id('c', r.card@) + "\n"@
        } else {
            Seq::empty()
        }
    }
}

/// Mermaid edge lines for all relations between cards in scope.
pub open spec fn mermaid_all_rels(scope: Seq<(String, Card)>, in_scope: Seq<Seq<char>>) -> Seq<char>
    decreases scope.len(),
{
    if scope.len() == 0 {
        Seq::empty()
    } else {
        mermaid_all_rels(scope.drop_last(), in_scope) + mermaid_rels(scope.last().0@, scope.last().1.relations@, in_scope)
    }
}

/// Mermaid edge lines from cards to the specs they list.
pub open spec fn mermaid_spec_edges(edges: Seq<(Seq<char>, Seq<char>)>) -> Seq<char>
    decreases edges.len(),
{
    if edges.len() == 0 {
        Seq::empty()
    } else {
        mermaid_spec_edges(edges.drop_last()) + "  "@ + diagram_id('c', edges.last().0) + " -.-> "@
            + diagram_id('s', edges.last().1) + "\n"@
    }
}

/// The Mermaid rendering of the cards in scope with the specs they list
/// (`ids`, the distinct listed spec ids in ascending order).
pub open spec fn mermaid_text(scope: Seq<(String, Card)>, ids: Seq<Seq<char>>) -> Seq<char> {
    "graph LR\n"@ + mermaid_cards(scope) + mermaid_specs(ids) + mermaid_all_rels(scope, scope_slugs(scope))
        + mermaid_spec_edges(spec_edges(scope))
}

/// Graphviz node lines for the cards.
pub open spec fn graphviz_cards(scope: Seq<(String, Card)>) -> Seq<char>
    decreases scope.len(),
{
    if scope.len() == 0 {
        Seq::empty()
    } else {
        let c = scope.last();
        graphviz_cards(scope.drop_last()) + "  \""@ + c.0@ + "\" [label=\""@
            + replaced(c.0@ + "\\n"@ + c.1.feature@, '"', "\\\""@) + "\", shape=box];\n"@
    }
}

/// Graphviz node lines for the specs.
pub open spec fn graphviz_specs(ids: Seq<Seq<char>>) -> Seq<char>
    decreases ids.len(),
{
    if ids.len() == 0 {
        Seq::empty()
    } else {
        graphviz_specs(ids.drop_last()) + "  \""@ + ids.last() + "\" [shape=ellipse];\n"@
    }
}

/// Graphviz edge lines for one card's relations to cards in scope.
pub open spec fn graphviz_rels(slug: Seq<char>, rels: Seq<Relation>, in_scope: Seq<Seq<char>>) -> Seq<char>
    decreases rels.len(),
{
    if rels.len() == 0 {
        Seq::empty()
    } else {
        let r = rels.last();
        graphviz_rels(slug, rels.drop_last(), in_scope) + if member(r.card@, in_scope) {
            "  \""@ + slug + "\" -> \""@ + r.card@ + "\" [label=\""@ + relation_name(r.kind) + "\"];\n"@
        } else {
            Seq::empty()
        }
    }
}

/// Graphviz edge lines for all relations between cards in scope.
pub open spec fn graphviz_all_rels(scope: Seq<(String, Card)>, in_scope: Seq<Seq<char>>) -> Seq<char>
    decreases scope.len(),
{
    if scope.len() == 0 {
        Seq::empty()
    } else {
        graphviz_all_rels(scope.drop_last(), in_scope) + graphviz_rels(scope.last().0@, scope.last().1.relations@, in_scope)
    }
}

/// Graphviz edge lines from cards to the specs they list.
pub open spec fn graphviz_spec_edges(edges: Seq<(Seq<char>, Seq<char>)>) -> Seq<char>
    decreases edges.len(),
{
    if edges.len() == 0 {
        Seq::empty()
    } else {
        graphviz_spec_edges(edges.drop_last()) + "  \""@ + edges.last().0 + "\" -> \""@ + edges.last().1
            + "\" [style=dashed];\n"@
    }
}

/// The Graphviz rendering of the cards in scope with the specs they list.
pub open spec fn graphviz_text(scope: Seq<(String, Card)>, ids: Seq<Seq<char>>) -> Seq<char> {
    "digraph orbit {\n  rankdir=LR;\n"@ + graphviz_cards(scope) + graphviz_specs(ids)
        + graphviz_all_rels(scope, scope_slugs(scope)) + graphviz_spec_edges(spec_edges(scope)) + "}\n"@
}


/// A relation edge as (card holding the relation, card it points at,
/// relation kind).
pub type HeldEdge = (Seq<char>, Seq<char>, Seq<char>);

/// The edges card `slug` holds towards cards in `in_scope`, in the order of
/// its relations: each runs from `slug` to the relation's target.
pub open spec fn held_edges(slug: Seq<char>, rels: Seq<Relation>, in_scope: Seq<Seq<char>>) -> Seq<HeldEdge>
    decreases rels.len(),
{
    if rels.len() == 0 {
        Seq::empty()
    } else {
        let rest = held_edges(slug, rels.drop_last(), in_scope);
        let r = rels.last();
        if member(r.card@, in_scope) { rest.push((slug, r.card@, relation_name(r.kind))) } else { rest }
    }
}

/// The edges all cards of `scope` hold towards cards in `in_scope`, card
/// by card.
pub open spec fn all_held_edges(scope: Seq<(String, Card)>, in_scope: Seq<Seq<char>>) -> Seq<HeldEdge>
    decreases scope.len(),
{
    if scope.len() == 0 {
        Seq::empty()
    } else {
        all_held_edges(scope.drop_last(), in_scope) + held_edges(scope.last().0@, scope.last().1.relations@, in_scope)
    }
}

/// Graphviz draws the edge `e` from its first card to its second.
pub open spec fn graphviz_edge_line(e: HeldEdge) -> Seq<char> {
    "  \""@ + e.0 + "\" -> \""@ + e.1 + "\" [label=\""@ + e.2 + "\"];\n"@
}

/// Mermaid draws the edge `e` from its first card to its second.
pub open spec fn mermaid_edge_line(e: HeldEdge) -> Seq<char> {
    "  "@ + diagram_id('c', e.0) + " -->|"@ + e.2 + "| "@ + diagram_id('c', e.1) + "\n"@
}

/// One line per edge, in order, Graphviz (`gv`) or Mermaid form.
pub open spec fn edge_lines(edges: Seq<HeldEdge>, gv: bool) -> Seq<char>
    decreases edges.len(),
{
    if edges.len() == 0 {
        Seq::empty()
    } else {
        edge_lines(edges.drop_last(), gv)
            + if gv { graphviz_edge_line(edges.last()) } else { mermaid_edge_line(edges.last()) }
    }
}

proof fn lemma_edge_lines_concat(a: Seq<HeldEdge>, b: Seq<HeldEdge>, gv: bool)
    ensures
        edge_lines(a + b, gv) == edge_lines(a, gv) + edge_lines(b, gv),
    decreases b.len(),
{
    if b.len() == 0 {
        assert(a + b =~= a);
    } else {
        lemma_edge_lines_concat(a, b.drop_last(), gv);
        assert((a + b).drop_last() =~= a + b.drop_last());
        assert((a + b).last() == b.last());
    }
}

proof fn lemma_held_edges_rendered(slug: Seq<char>, rels: Seq<Relation>, in_scope: Seq<Seq<char>>)
    ensures
        graphviz_rels(slug, rels, in_scope) == edge_lines(held_edges(slug, rels, in_scope), true),
        mermaid_rels(slug, rels, in_scope) == edge_lines(held_edges(slug, rels, in_scope), false),
        forall|j: int| 0 <= j < held_edges(slug, rels, in_scope).len() ==> {
            let e = #[trigger] held_edges(slug, rels, in_scope)[j];
            &&& e.0 == slug
            &&& member(e.1, in_scope)
            &&& exists|k: int| 0 <= k < rels.len() && (#[trigger] rels[k]).card@ == e.1
                && relation_name(rels[k].kind) == e.2
        },
    decreases rels.len(),
{
    if rels.len() > 0 {
        let pre = rels.drop_last();
        lemma_held_edges_rendered(slug, pre, in_scope);
        let rest = held_edges(slug, pre, in_scope);
        let r = rels.last();
        if member(r.card@, in_scope) {
            let e = (slug, r.card@, relation_name(r.kind));
            assert(rest.push(e).drop_last() =~= rest);
            assert forall|j: int| 0 <= j < held_edges(slug, rels, in_scope).len() implies {
                let e2 = #[trigger] held_edges(slug, rels, in_scope)[j];
                &&& e2.0 == slug
                &&& member(e2.1, in_scope)
                &&& exists|k: int| 0 <= k < rels.len() && (#[trigger] rels[k]).card@ == e2.1
                    && relation_name(rels[k].kind) == e2.2
            } by {
                if j < rest.len() {
                    let k = choose|k: int| 0 <= k < pre.len() && (#[trigger] pre[k]).card@ == rest[j].1
                        && relation_name(pre[k].kind) == rest[j].2;
                    assert(rels[k] == pre[k]);
                } else {
                    assert(rels[rels.len() - 1] == r);
                }
            }
        } else {
            assert forall|j: int| 0 <= j < held_edges(slug, rels, in_scope).len() implies {
                let e2 = #[trigger] held_edges(slug, rels, in_scope)[j];
                &&& e2.0 == slug
                &&& member(e2.1, in_scope)
                &&& exists|k: int| 0 <= k < rels.len() && (#[trigger] rels[k]).card@ == e2.1
                    && relation_name(rels[k].kind) == e2.2
            } by {
                let k = choose|k: int| 0 <= k < pre.len() && (#[trigger] pre[k]).card@ == rest[j].1
                    && relation_name(pre[k].kind) == rest[j].2;
                assert(rels[k] == pre[k]);
            }
        }
    }
}

/// Both renderings draw the same relation edges, in the same order and the
/// same direction: each edge runs from the card that holds the relation to
/// the relation's target, both in scope, labelled with its kind. Graphviz
/// writes it `"holder" -> "target"`, Mermaid `c_holder -->|kind| c_target`.
pub proof fn lemma_relation_edges_run_holder_to_target(scope: Seq<(String, Card)>, in_scope: Seq<Seq<char>>)
    ensures
        graphviz_all_rels(scope, in_scope) == edge_lines(all_held_edges(scope, in_scope), true),
        mermaid_all_rels(scope, in_scope) == edge_lines(all_held_edges(scope, in_scope), false),
        forall|j: int| 0 <= j < all_held_edges(scope, in_scope).len() ==> {
            let e = #[trigger] all_held_edges(scope, in_scope)[j];
            &&& member(e.1, in_scope)
            &&& exists|i: int, k: int| 0 <= i < scope.len() && 0 <= k < scope[i].1.relations.len()
                && scope[i].0@ == e.0 && (#[trigger] scope[i].1.relations@[k]).card@ == e.1
                && relation_name(scope[i].1.relations@[k].kind) == e.2
        },
    decreases scope.len(),
{
    if scope.len() > 0 {
        let pre = scope.drop_last();
        let c = scope.last();
        let n = scope.len() - 1;
        lemma_relation_edges_run_holder_to_target(pre, in_scope);
        lemma_held_edges_rendered(c.0@, c.1.relations@, in_scope);
        let a = all_held_edges(pre, in_scope);
        let b = held_edges(c.0@, c.1.relations@, in_scope);
        lemma_edge_lines_concat(a, b, true);
        lemma_edge_lines_concat(a, b, false);
        assert forall|j: int| 0 <= j < all_held_edges(scope, in_scope).len() implies {
            let e = #[trigger] all_held_edges(scope, in_scope)[j];
            &&& member(e.1, in_scope)
            &&& exists|i: int, k: int| 0 <= i < scope.len() && 0 <= k < scope[i].1.relations.len()
                && scope[i].0@ == e.0 && (#[trigger] scope[i].1.relations@[k]).card@ == e.1
                && relation_name(scope[i].1.relations@[k].kind) == e.2
        } by {
            let all = all_held_edges(scope, in_scope);
            assert(all == a + b);
            if j < a.len() {
                assert(all[j] == a[j]);
                let (i, k) = choose|i: int, k: int| 0 <= i < pre.len() && 0 <= k < pre[i].1.relations.len()
                    && pre[i].0@ == a[j].0 && (#[trigger] pre[i].1.relations@[k]).card@ == a[j].1
                    && relation_name(pre[i].1.relations@[k].kind) == a[j].2;
                assert(scope[i] == pre[i]);
            } else {
                let jb = j - a.len();
                assert(all[j] == b[jb]);
                let eb = b[jb];
                assert(eb.0 == c.0@);
                let k = choose|k: int| 0 <= k < c.1.relations@.len() && (#[trigger] c.1.relations@[k]).card@ == eb.1
                    && relation_name(c.1.relations@[k].kind) == eb.2;
                assert(scope[n] == c);
            }
        }
    }
}

/// The views of a list of string pairs.
pub open spec fn pair_views(v: Seq<(String, String)>) -> Seq<(Seq<char>, Seq<char>)> {
    v.map_values(|p: (String, String)| (p.0@, p.1@))
}

/// The card-to-spec edges of the cards in scope.
pub fn spec_edge_list(scope: &Vec<(String, Card)>) -> (r: Vec<(String, String)>)
    ensures
        pair_views(r@) == spec_edges(scope@),
{
    let mut r: Vec<(String, String)> = Vec::new();
    let mut i: usize = 0;
    while i < scope.len()
        invariant
            i <= scope.len(),
            pair_views(r@) == spec_edges(scope@.subrange(0, i as int)),
        decreases scope.len() - i,
    {
        assert(scope@.subrange(0, i + 1).drop_last() =~= scope@.subrange(0, i as int));
        let slug = &scope[i].0;
        let specs = &scope[i].1.specs;
        let ghost head = pair_views(r@);
        let mut k: usize = 0;
        while k < specs.len()
            invariant
                k <= specs.len(),
                i < scope.len(),
                slug == scope@[i as int].0,
                specs == scope@[i as int].1.specs,
                pair_views(r@) == head + specs@.subrange(0, k as int).map_values(|p: String| (slug@, listed_spec_id(p@))),
            decreases specs.len() - k,
        {
            let ghost before = pair_views(r@);
            r.push((slug.clone(), spec_id_from_listed_path(specs[k].as_str())));
            assert(pair_views(r@) =~= before.push((slug@, listed_spec_id(specs@[k as int]@))));
            assert(specs@.subrange(0, k + 1).map_values(|p: String| (slug@, listed_spec_id(p@)))
                =~= specs@.subrange(0, k as int).map_values(|p: String| (slug@, listed_spec_id(p@))).push((slug@, listed_spec_id(specs@[k as int]@))));
            k = k + 1;
        }
        assert(specs@.subrange(0, specs.len() as int) =~= specs@);
        i = i + 1;
    }
    assert(scope@.subrange(0, scope.len() as int) =~= scope@);
    r
}

/// The distinct spec ids of the edges, ascending.
pub fn spec_node_ids(edges: &Vec<(String, String)>) -> (r: Vec<String>)
    ensures
        sorted(views(r@)),
        distinct(views(r@)),
        forall|x: Seq<char>| member(x, views(r@)) <==> exists|i: int| 0 <= i < edges.len() && (#[trigger] edges@[i]).1@ == x,
{
    let mut ids: Vec<String> = Vec::new();
    let mut i: usize = 0;
    while i < edges.len()
        invariant
            i <= edges.len(),
            distinct(views(ids@)),
            forall|x: Seq<char>| member(x, views(ids@)) <==> exists|j: int| 0 <= j < i && (#[trigger] edges@[j]).1@ == x,
        decreases edges.len() - i,
    {
        push_new(&mut ids, edges[i].1.as_str());
        proof {
            assert forall|x: Seq<char>| member(x, views(ids@)) <==> exists|j: int| 0 <= j < i + 1 && (#[trigger] edges@[j]).1@ == x by {
                if x == edges@[i as int].1@ {
                    assert(edges@[i as int].1@ == x);
                }
            }
        }
        i = i + 1;
    }
    let r = sort_strings(&ids);
    proof {
        assert forall|x: Seq<char>| member(x, views(r@)) <==> exists|j: int| 0 <= j < edges.len() && (#[trigger] edges@[j]).1@ == x by {
            if member(x, views(r@)) {
                let k = choose|k: int| 0 <= k < views(r@).len() && views(r@)[k] == x;
                assert(member(views(r@)[k], views(ids@)));
            }
            if member(x, views(ids@)) {
                let k = choose|k: int| 0 <= k < views(ids@).len() && views(ids@)[k] == x;
                assert(member(views(ids@)[k], views(r@)));
            }
        }
    }
    r
}

fn slugs_of(scope: &Vec<(String, Card)>) -> (r: Vec<String>)
    ensures
        views(r@) == scope_slugs(scope@),
{
    let mut r: Vec<String> = Vec::new();
    let mut i: usize = 0;
    while i < scope.len()
        invariant
            i <= scope.len(),
            views(r@) == scope_slugs(scope@).subrange(0, i as int),
        decreases scope.len() - i,
    {
        let ghost before = views(r@);
        r.push(scope[i].0.clone());
        assert(views(r@) =~= before.push(scope@[i as int].0@));
        i = i + 1;
        assert(views(r@) =~= scope_slugs(scope@).subrange(0, i as int));
    }
    assert(scope_slugs(scope@).subrange(0, scope.len() as int) =~= scope_slugs(scope@));
    r
}

fn diagram(prefix: char, slug: &str) -> (r: String)
    ensures
        r@ == diagram_id(prefix, slug@),
{
    mermaid_id(prefix, slug)
}

/// The Mermaid rendering of the cards in scope (in slug order), the spec
/// ids they list (`ids`, distinct, ascending) and their card-to-spec edges.
pub fn render_mermaid(scope: &Vec<(String, Card)>, ids: &Vec<String>, edges: &Vec<(String, String)>) -> (r: String)
    requires
        pair_views(edges@) == spec_edges(scope@),
    ensures
        r@ == mermaid_text(scope@, views(ids@)),
{
    let mut out = owned("graph LR\n");
    let ghost g0 = out@;
    let mut i: usize = 0;
    while i < scope.len()
        invariant
            i <= scope.len(),
            out@ == g0 + mermaid_cards(scope@.subrange(0, i as int)),
        decreases scope.len() - i,
    {
        assert(scope@.subrange(0, i + 1).drop_last() =~= scope@.subrange(0, i as int));
        let slug = scope[i].0.as_str();
        let label = cat(owned(slug), ": ");
        let label = cat(label, scope[i].1.feature.as_str());
        let label = replace_char(label.as_str(), '"', "'");
        out = cat(out, "  ");
        out = cat(out, diagram('c', slug).as_str());
        out = cat(out, "[\"");
        out = cat(out, label.as_str());
        out = cat(out, "\"]\n");
        i = i + 1;
    }
    assert(scope@.subrange(0, scope.len() as int) =~= scope@);
    let ghost g1 = out@;
    let mut k: usize = 0;
    while k < ids.len()
        invariant
            k <= ids.len(),
            out@ == g1 + mermaid_specs(views(ids@).subrange(0, k as int)),
        decreases ids.len() - k,
    {
        assert(views(ids@).subrange(0, k + 1).drop_last() =~= views(ids@).subrange(0, k as int));
        out = cat(out, "  ");
        out = cat(out, diagram('s', ids[k].as_str()).as_str());
        out = cat(out, "([\"");
        out = cat(out, ids[k].as_str());
        out = cat(out, "\"])\n");
        k = k + 1;
    }
    assert(views(ids@).subrange(0, ids.len() as int) =~= views(ids@));
    let in_scope = slugs_of(scope);
    let ghost g2 = out@;
    let mut i: usize = 0;
    while i < scope.len()
        invariant
            i <= scope.len(),
            views(in_scope@) == scope_slugs(scope@),
            out@ == g2 + mermaid_all_rels(scope@.subrange(0, i as int), scope_slugs(scope@)),
        decreases scope.len() - i,
    {
        assert(scope@.subrange(0, i + 1).drop_last() =~= scope@.subrange(0, i as int));
        let slug = scope[i].0.as_str();
        let rels = &scope[i].1.relations;
        let ghost h = out@;
        let mut k: usize = 0;
        while k < rels.len()
            invariant
                k <= rels.len(),
                i < scope.len(),
                slug@ == scope@[i as int].0@,
                rels == scope@[i as int].1.relations,
                views(in_scope@) == scope_slugs(scope@),
                out@ == h + mermaid_rels(slug@, rels@.subrange(0, k as int), scope_slugs(scope@)),
            decreases rels.len() - k,
        {
            assert(rels@.subrange(0, k + 1).drop_last() =~= rels@.subrange(0, k as int));
            if crate::order::has_string(&in_scope, rels[k].card.as_str()) {
                out = cat(out, "  ");
                out = cat(out, diagram('c', slug).as_str());
                out = cat(out, " -->|");
                out = cat(out, relation_kind_str(&rels[k].kind));
                out = cat(out, "| ");
                out = cat(out, diagram('c', rels[k].card.as_str()).as_str());
                out = cat(out, "\n");
            } else {
                assert(out@ =~= h + mermaid_rels(slug@, rels@.subrange(0, k + 1), scope_slugs(scope@)));
            }
            k = k + 1;
        }
        assert(rels@.subrange(0, rels.len() as int) =~= rels@);
        i = i + 1;
    }
    assert(scope@.subrange(0, scope.len() as int) =~= scope@);
    let ghost g3 = out@;
    let mut e: usize = 0;
    while e < edges.len()
        invariant
            e <= edges.len(),
            out@ == g3 + mermaid_spec_edges(pair_views(edges@).subrange(0, e as int)),
        decreases edges.len() - e,
    {
        assert(pair_views(edges@).subrange(0, e + 1).drop_last() =~= pair_views(edges@).subrange(0, e as int));
        out = cat(out, "  ");
        out = cat(out, diagram('c', edges[e].0.as_str()).as_str());
        out = cat(out, " -.-> ");
        out = cat(out, diagram('s', edges[e].1.as_str()).as_str());
        out = cat(out, "\n");
        e = e + 1;
    }
    assert(pair_views(edges@).subrange(0, edges.len() as int) =~= pair_views(edges@));
    out
}

/// The Graphviz rendering of the cards in scope (in slug order), the spec
/// ids they list (`ids`, distinct, ascending) and their card-to-spec edges.
pub fn render_graphviz(scope: &Vec<(String, Card)>, ids: &Vec<String>, edges: &Vec<(String, String)>) -> (r: String)
    requires
        pair_views(edges@) == spec_edges(scope@),
    ensures
        r@ == graphviz_text(scope@, views(ids@)),
{
    let mut out = owned("digraph orbit {\n  rankdir=LR;\n");
    let ghost g0 = out@;
    let mut i: usize = 0;
    while i < scope.len()
        invariant
            i <= scope.len(),
            out@ == g0 + graphviz_cards(scope@.subrange(0, i as int)),
        decreases scope.len() - i,
    {
        assert(scope@.subrange(0, i + 1).drop_last() =~= scope@.subrange(0, i as int));
        let slug = scope[i].0.as_str();
        let label = cat(owned(slug), "\\n");
        let label = cat(label, scope[i].1.feature.as_str());
        let label = replace_char(label.as_str(), '"', "\\\"");
        out = cat(out, "  \"");
        out = cat(out, slug);
        out = cat(out, "\" [label=\"");
        out = cat(out, label.as_str());
        out = cat(out, "\", shape=box];\n");
        i = i + 1;
    }
    assert(scope@.subrange(0, scope.len() as int) =~= scope@);
    let ghost g1 = out@;
    let mut k: usize = 0;
    while k < ids.len()
        invariant
            k <= ids.len(),
            out@ == g1 + graphviz_specs(views(ids@).subrange(0, k as int)),
        decreases ids.len() - k,
    {
        assert(views(ids@).subrange(0, k + 1).drop_last() =~= views(ids@).subrange(0, k as int));
        out = cat(out, "  \"");
        out = cat(out, ids[k].as_str());
        out = cat(out, "\" [shape=ellipse];\n");
        k = k + 1;
    }
    assert(views(ids@).subrange(0, ids.len() as int) =~= views(ids@));
    let in_scope = slugs_of(scope);
    let ghost g2 = out@;
    let mut i: usize = 0;
    while i < scope.len()
        invariant
            i <= scope.len(),
            views(in_scope@) == scope_slugs(scope@),
            out@ == g2 + graphviz_all_rels(scope@.subrange(0, i as int), scope_slugs(scope@)),
        decreases scope.len() - i,
    {
        assert(scope@.subrange(0, i + 1).drop_last() =~= scope@.subrange(0, i as int));
        let slug = scope[i].0.as_str();
        let rels = &scope[i].1.relations;
        let ghost h = out@;
        let mut k: usize = 0;
        while k < rels.len()
            invariant
                k <= rels.len(),
                i < scope.len(),
                slug@ == scope@[i as int].0@,
                rels == scope@[i as int].1.relations,
                views(in_scope@) == scope_slugs(scope@),
                out@ == h + graphviz_rels(slug@, rels@.subrange(0, k as int), scope_slugs(scope@)),
            decreases rels.len() - k,
        {
            assert(rels@.subrange(0, k + 1).drop_last() =~= rels@.subrange(0, k as int));
            if crate::order::has_string(&in_scope, rels[k].card.as_str()) {
                out = cat(out, "  \"");
                out = cat(out, slug);
                out = cat(out, "\" -> \"");
                out = cat(out, rels[k].card.as_str());
                out = cat(out, "\" [label=\"");
                out = cat(out, relation_kind_str(&rels[k].kind));
                out = cat(out, "\"];\n");
            } else {
                assert(out@ =~= h + graphviz_rels(slug@, rels@.subrange(0, k + 1), scope_slugs(scope@)));
            }
            k = k + 1;
        }
        assert(rels@.subrange(0, rels.len() as int) =~= rels@);
        i = i + 1;
    }
    assert(scope@.subrange(0, scope.len() as int) =~= scope@);
    let ghost g3 = out@;
    let mut e: usize = 0;
    while e < edges.len()
        invariant
            e <= edges.len(),
            out@ == g3 + graphviz_spec_edges(pair_views(edges@).subrange(0, e as int)),
        decreases edges.len() - e,
    {
        assert(pair_views(edges@).subrange(0, e + 1).drop_last() =~= pair_views(edges@).subrange(0, e as int));
        out = cat(out, "  \"");
        out = cat(out, edges[e].0.as_str());
        out = cat(out, "\" -> \"");
        out = cat(out, edges[e].1.as_str());
        out = cat(out, "\" [style=dashed];\n");
        e = e + 1;
    }
    assert(pair_views(edges@).subrange(0, edges.len() as int) =~= pair_views(edges@));
    cat(out, "}\n")
}


/// The cards in `cards` whose slug `keep` holds, in order.
pub open spec fn in_scope(cards: Seq<(String, Card)>, keep: Set<Seq<char>>) -> Seq<(String, Card)>
    decreases cards.len(),
{
    if cards.len() == 0 {
        Seq::empty()
    } else {
        let rest = in_scope(cards.drop_last(), keep);
        if keep.contains(cards.last().0@) { rest.push(cards.last()) } else { rest }
    }
}

/// The cards `graph` draws: all of them, or those within `depth` hops of
/// `root` when a root card is given.
pub open spec fn graph_scope(cards: Seq<(String, Card)>, root: Option<Seq<char>>, depth: nat) -> Seq<(String, Card)> {
    match root {
        None => cards,
        Some(r) => in_scope(cards, within(cards, r, depth)),
    }
}

/// `ids` are the spec ids the scope's cards list, each once, ascending.
pub open spec fn listed_ids(ids: Seq<Seq<char>>, scope: Seq<(String, Card)>) -> bool {
    &&& sorted(ids)
    &&& distinct(ids)
    &&& forall|x: Seq<char>| member(x, ids) <==> exists|i: int| 0 <= i < spec_edges(scope).len() && (#[trigger] spec_edges(scope)[i]).1 == x
}

/// `graph` once the cards are read (in slug order) and the root card, if
/// any, is resolved: the cards in scope with the specs they list, rendered
/// as Mermaid or Graphviz.
pub fn graph(cards: Vec<(String, Card)>, root: &Option<String>, depth: u32, graphviz: bool) -> (r: crate::verbs::results::GraphResult)
    ensures
        r.format@ == (if graphviz { "graphviz"@ } else { "mermaid"@ }),
        exists|ids: Seq<Seq<char>>| #[trigger] listed_ids(ids, graph_scope(cards@, crate::verbs::sessions::opt_str(*root), depth as nat))
            && r.text@ == if graphviz {
                graphviz_text(graph_scope(cards@, crate::verbs::sessions::opt_str(*root), depth as nat), ids)
            } else {
                mermaid_text(graph_scope(cards@, crate::verbs::sessions::opt_str(*root), depth as nat), ids)
            },
{
    let ghost all = cards@;
    let scope: Vec<(String, Card)> = match root {
        None => cards,
        Some(rt) => {
            let included = bfs_card_neighbourhood(&cards, rt.as_str(), depth);
            let ghost keep = within(all, rt@, depth as nat);
            let mut rest = cards;
            let mut out: Vec<(String, Card)> = Vec::new();
            let mut done: usize = 0;
            assert(all.len() == rest.len());
            while rest.len() > 0
                invariant
                    rest@ == all.subrange(done as int, all.len() as int),
                    done <= all.len(),
                    all.len() <= usize::MAX,
                    forall|x: Seq<char>| member(x, views(included@)) <==> keep.contains(x),
                    out@ == in_scope(all.subrange(0, done as int), keep),
                decreases rest.len(),
            {
                let c = rest.remove(0);
                proof {
                    assert(all[done as int] == c);
                    assert(rest@ =~= all.subrange(done + 1, all.len() as int));
                    assert(all.subrange(0, done + 1).drop_last() =~= all.subrange(0, done as int));
                    assert(all.subrange(0, done + 1).last() == c);
                }
                if crate::order::has_string(&included, c.0.as_str()) {
                    out.push(c);
                }
                done = done + 1;
            }
            assert(all.subrange(0, all.len() as int) =~= all);
            out
        },
    };
    assert(scope@ == graph_scope(all, crate::verbs::sessions::opt_str(*root), depth as nat));
    let edges = spec_edge_list(&scope);
    let ids = spec_node_ids(&edges);
    proof {
        assert forall|x: Seq<char>| member(x, views(ids@)) <==>
            exists|i: int| 0 <= i < spec_edges(scope@).len() && (#[trigger] spec_edges(scope@)[i]).1 == x by {
            if member(x, views(ids@)) {
                let i = choose|i: int| 0 <= i < edges.len() && (#[trigger] edges@[i]).1@ == x;
                assert(pair_views(edges@)[i].1 == x);
            }
            if exists|i: int| 0 <= i < spec_edges(scope@).len() && (#[trigger] spec_edges(scope@)[i]).1 == x {
                let i = choose|i: int| 0 <= i < spec_edges(scope@).len() && (#[trigger] spec_edges(scope@)[i]).1 == x;
                assert(pair_views(edges@)[i] == (edges@[i].0@, edges@[i].1@));
                assert(edges@[i].1@ == x);
            }
        }
        assert(listed_ids(views(ids@), scope@));
        assert(listed_ids(views(ids@), graph_scope(cards@, crate::verbs::sessions::opt_str(*root), depth as nat)));
    }
    if graphviz {
        crate::verbs::results::GraphResult { format: owned("graphviz"), text: render_graphviz(&scope, &ids, &edges) }
    } else {
        crate::verbs::results::GraphResult { format: owned("mermaid"), text: render_mermaid(&scope, &ids, &edges) }
    }
}

} // verus!
