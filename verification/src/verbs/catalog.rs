//! Listing and searching cards and choices.

use vstd::prelude::*;
use crate::error::{Error, Category, Result};
use crate::schema::{Card, Choice, ChoiceStatus};
use crate::text::{cat, owned, str_eq, to_lowercase, lowercase, contains_str, has_sub};
use crate::order::{views, sort_order, is_permutation, sorted_stably};
use crate::verbs::results::{CardSummary, ChoiceSummary};

verus! {

/// `s` is the list view of the card `card` read from the file with stem
/// `slug`.
pub open spec fn summarises_card(s: CardSummary, slug: Seq<char>, card: Card) -> bool {
    &&& s.slug@ == slug
    &&& s.feature@ == card.feature@
    &&& s.goal@ == card.goal@
    &&& s.maturity@ == card.maturity.spec_name()
}

/// The slugs of the read cards.
pub open spec fn card_slugs(cards: Seq<(String, Card)>) -> Seq<Seq<char>> {
    cards.map_values(|c: (String, Card)| c.0@)
}

/// `out` lists the cards by slug (stably).
pub open spec fn cards_listed(out: Seq<CardSummary>, cards: Seq<(String, Card)>) -> bool {
    &&& out.len() == cards.len()
    &&& exists|ord: Seq<usize>| {
        &&& is_permutation(ord, cards.len())
        &&& sorted_stably(ord, card_slugs(cards))
        &&& forall|i: int| 0 <= i < out.len() ==> summarises_card(#[trigger] out[i], cards[ord[i] as int].0@, cards[ord[i] as int].1)
    }
}

/// The list views of the read cards (each with the stem of its file),
/// sorted by slug.
pub fn card_summaries(cards: &Vec<(String, Card)>) -> (r: Vec<CardSummary>)
    ensures
        cards_listed(r@, cards@),
{
    let mut keys: Vec<String> = Vec::new();
    let mut i: usize = 0;
    while i < cards.len()
        invariant
            i <= cards.len(),
            views(keys@) == card_slugs(cards@).subrange(0, i as int),
        decreases cards.len() - i,
    {
        let ghost before = views(keys@);
        keys.push(cards[i].0.clone());
        assert(views(keys@) =~= before.push(cards@[i as int].0@));
        i = i + 1;
        assert(views(keys@) =~= card_slugs(cards@).subrange(0, i as int));
    }
    assert(card_slugs(cards@).subrange(0, cards.len() as int) =~= card_slugs(cards@));
    let ord = sort_order(&keys);
    let mut out: Vec<CardSummary> = Vec::new();
    let mut k: usize = 0;
    while k < ord.len()
        invariant
            k <= ord.len(),
            ord.len() == cards.len(),
            is_permutation(ord@, cards.len() as nat),
            out.len() == k,
            forall|j: int| 0 <= j < k ==> summarises_card(#[trigger] out@[j], cards@[ord@[j] as int].0@, cards@[ord@[j] as int].1),
        decreases ord.len() - k,
    {
        let c = &cards[ord[k]];
        out.push(CardSummary {
            slug: c.0.clone(),
            feature: c.1.feature.clone(),
            goal: c.1.goal.clone(),
            maturity: owned(c.1.maturity.as_str()),
        });
        k = k + 1;
    }
    proof {
        assert(sorted_stably(ord@, card_slugs(cards@)));
    }
    out
}

/// The summaries that pass `keep`, in order.
pub open spec fn kept_cards(v: Seq<CardSummary>, keep: spec_fn(CardSummary) -> bool) -> Seq<CardSummary>
    decreases v.len(),
{
    if v.len() == 0 {
        Seq::empty()
    } else {
        let rest = kept_cards(v.drop_last(), keep);
        if keep(v.last()) { rest.push(v.last()) } else { rest }
    }
}

/// A maturity filter names a maturity.
pub open spec fn known_maturity(m: Seq<char>) -> bool {
    m == "planned"@ || m == "emerging"@ || m == "established"@
}

/// `card.list` over the card list views: those at the given maturity (all
/// without one). A maturity that names none is refused.
pub fn card_list(verb: &str, summaries: Vec<CardSummary>, maturity: &Option<String>) -> (r: Result<Vec<CardSummary>>)
    ensures
        match *maturity {
            None => r matches Ok(out) && out@ == summaries@,
            Some(m) => if known_maturity(m@) {
                r matches Ok(out) && out@ == kept_cards(summaries@, |s: CardSummary| s.maturity@ == m@)
            } else {
                r matches Err(e) && e.is(verb@, Category::Malformed,
                    "maturity must be planned|emerging|established, got '"@ + m@ + "'"@)
            },
        },
{
    let m = match maturity {
        None => { return Ok(summaries); },
        Some(m) => m,
    };
    proof {
        reveal_strlit("planned");
        reveal_strlit("emerging");
        reveal_strlit("established");
    }
    if !(str_eq(m.as_str(), "planned") || str_eq(m.as_str(), "emerging") || str_eq(m.as_str(), "established")) {
        let msg = cat(owned("maturity must be planned|emerging|established, got '"), m.as_str());
        return Err(Error::malformed(verb, cat(msg, "'")));
    }
    let ghost keep = |s: CardSummary| s.maturity@ == m@;
    let ghost all = summaries@;
    let mut rest = summaries;
    let mut out: Vec<CardSummary> = Vec::new();
    let mut done: usize = 0;
    assert(all.len() == rest.len());
    while rest.len() > 0
        invariant
            rest@ == all.subrange(done as int, all.len() as int),
            done <= all.len(),
            all.len() <= usize::MAX,
            keep == (|s: CardSummary| s.maturity@ == m@),
            out@ == kept_cards(all.subrange(0, done as int), keep),
        decreases rest.len(),
    {
        let s = rest.remove(0);
        proof {
            assert(all[done as int] == s);
            assert(rest@ =~= all.subrange(done + 1, all.len() as int));
            assert(all.subrange(0, done + 1).drop_last() =~= all.subrange(0, done as int));
            assert(all.subrange(0, done + 1).last() == s);
        }
        if str_eq(s.maturity.as_str(), m.as_str()) {
            out.push(s);
        }
        done = done + 1;
    }
    assert(all.subrange(0, all.len() as int) =~= all);
    Ok(out)
}

/// A card summary matches a search needle: its feature, goal or slug holds
/// it, lowercased.
pub open spec fn card_hit(s: CardSummary, needle: Seq<char>) -> bool {
    has_sub(lowercase(s.feature@), needle) || has_sub(lowercase(s.goal@), needle) || has_sub(lowercase(s.slug@), needle)
}

/// `card.search` over the card list views: those whose feature, goal or
/// slug holds the query, ignoring case, in order. An empty query is
/// refused.
pub fn card_search(verb: &str, query: &str, summaries: Vec<CardSummary>) -> (r: Result<Vec<CardSummary>>)
    ensures
        query@.len() == 0 ==> (r matches Err(e) && e.is(verb@, Category::Malformed, "query must not be empty"@)),
        query@.len() > 0 ==> (r matches Ok(out) && out@ == kept_cards(summaries@, |s: CardSummary| card_hit(s, lowercase(query@)))),
{
    if query.unicode_len() == 0 {
        return Err(Error::malformed(verb, owned("query must not be empty")));
    }
    let needle = to_lowercase(query);
    let ghost keep = |s: CardSummary| card_hit(s, lowercase(query@));
    let ghost all = summaries@;
    let mut rest = summaries;
    let mut out: Vec<CardSummary> = Vec::new();
    let mut done: usize = 0;
    assert(all.len() == rest.len());
    while rest.len() > 0
        invariant
            rest@ == all.subrange(done as int, all.len() as int),
            done <= all.len(),
            all.len() <= usize::MAX,
            needle@ == lowercase(query@),
            keep == (|s: CardSummary| card_hit(s, lowercase(query@))),
            out@ == kept_cards(all.subrange(0, done as int), keep),
        decreases rest.len(),
    {
        let s = rest.remove(0);
        proof {
            assert(all[done as int] == s);
            assert(rest@ =~= all.subrange(done + 1, all.len() as int));
            assert(all.subrange(0, done + 1).drop_last() =~= all.subrange(0, done as int));
            assert(all.subrange(0, done + 1).last() == s);
        }
        let f = to_lowercase(s.feature.as_str());
        let g = to_lowercase(s.goal.as_str());
        let l = to_lowercase(s.slug.as_str());
        if contains_str(f.as_str(), needle.as_str()) || contains_str(g.as_str(), needle.as_str())
            || contains_str(l.as_str(), needle.as_str()) {
            out.push(s);
        }
        done = done + 1;
    }
    assert(all.subrange(0, all.len() as int) =~= all);
    Ok(out)
}

/// Wire spelling of a choice status.
pub open spec fn status_name(s: ChoiceStatus) -> Seq<char> {
    match s {
        ChoiceStatus::Proposed => "proposed"@,
        ChoiceStatus::Accepted => "accepted"@,
        ChoiceStatus::Rejected => "rejected"@,
        ChoiceStatus::Deprecated => "deprecated"@,
        ChoiceStatus::Superseded => "superseded"@,
    }
}

/// Wire spelling of a choice status.
pub fn choice_status_str(s: &ChoiceStatus) -> (r: &'static str)
    ensures
        r@ == status_name(*s),
{
    match s {
        ChoiceStatus::Proposed => "proposed",
        ChoiceStatus::Accepted => "accepted",
        ChoiceStatus::Rejected => "rejected",
        ChoiceStatus::Deprecated => "deprecated",
        ChoiceStatus::Superseded => "superseded",
    }
}

/// `s` is the list view of `c`.
pub open spec fn summarises_choice(s: ChoiceSummary, c: Choice) -> bool {
    &&& s.id@ == c.id@
    &&& s.title@ == c.title@
    &&& s.status@ == status_name(c.status)
    &&& s.date_created@ == c.date_created@
}

/// The choices that pass `keep`, in order.
pub open spec fn kept_choices(v: Seq<Choice>, keep: spec_fn(Choice) -> bool) -> Seq<Choice>
    decreases v.len(),
{
    if v.len() == 0 {
        Seq::empty()
    } else {
        let rest = kept_choices(v.drop_last(), keep);
        if keep(v.last()) { rest.push(v.last()) } else { rest }
    }
}

/// The ids of a list of choices.
pub open spec fn choice_ids(v: Seq<Choice>) -> Seq<Seq<char>> {
    v.map_values(|c: Choice| c.id@)
}

/// `out` lists the choices of `src` by id (stably).
pub open spec fn choices_listed(out: Seq<ChoiceSummary>, src: Seq<Choice>) -> bool {
    &&& out.len() == src.len()
    &&& exists|ord: Seq<usize>| {
        &&& is_permutation(ord, src.len())
        &&& sorted_stably(ord, choice_ids(src))
        &&& forall|i: int| 0 <= i < out.len() ==> summarises_choice(#[trigger] out[i], src[ord[i] as int])
    }
}

/// A status filter names a choice status.
pub open spec fn known_choice_status(s: Seq<char>) -> bool {
    s == "proposed"@ || s == "accepted"@ || s == "rejected"@ || s == "deprecated"@ || s == "superseded"@
}

/// A choice matches a search needle: its title or body holds it,
/// lowercased.
pub open spec fn choice_hit(c: Choice, needle: Seq<char>) -> bool {
    has_sub(lowercase(c.title@), needle) || has_sub(lowercase(c.body@), needle)
}

/// Whether choice `c` is kept, by the mode of `select_choices`.
pub open spec fn choice_kept(c: Choice, status: Option<Seq<char>>, needle: Option<Seq<char>>) -> bool {
    &&& (status matches Some(s) ==> status_name(c.status) == s)
    &&& (needle matches Some(n) ==> choice_hit(c, n))
}

fn select_choices(choices: &Vec<Choice>, status: &Option<String>, needle: &Option<String>) -> (r: Vec<ChoiceSummary>)
    ensures
        choices_listed(r@, kept_choices(choices@, |c: Choice| choice_kept(c,
            crate::verbs::sessions::opt_str(*status), crate::verbs::sessions::opt_str(*needle)))),
{
    let ghost keep = |c: Choice| choice_kept(c, crate::verbs::sessions::opt_str(*status), crate::verbs::sessions::opt_str(*needle));
    let mut idx: Vec<usize> = Vec::new();
    let mut ids: Vec<String> = Vec::new();
    let mut i: usize = 0;
    while i < choices.len()
        invariant
            i <= choices.len(),
            keep == (|c: Choice| choice_kept(c, crate::verbs::sessions::opt_str(*status), crate::verbs::sessions::opt_str(*needle))),
            idx.len() == ids.len(),
            idx.len() == kept_choices(choices@.subrange(0, i as int), keep).len(),
            forall|j: int| 0 <= j < idx.len() ==> #[trigger] idx@[j] < choices.len()
                && choices@[idx@[j] as int] == kept_choices(choices@.subrange(0, i as int), keep)[j],
            forall|j: int| 0 <= j < ids.len() ==> #[trigger] ids@[j]@ == choices@[idx@[j] as int].id@,
        decreases choices.len() - i,
    {
        assert(choices@.subrange(0, i + 1).drop_last() =~= choices@.subrange(0, i as int));
        let c = &choices[i];
        let status_ok = match status {
            None => true,
            Some(s) => str_eq(choice_status_str(&c.status), s.as_str()),
        };
        let needle_ok = match needle {
            None => true,
            Some(n) => {
                let t = to_lowercase(c.title.as_str());
                let b = to_lowercase(c.body.as_str());
                contains_str(t.as_str(), n.as_str()) || contains_str(b.as_str(), n.as_str())
            },
        };
        if status_ok && needle_ok {
            idx.push(i);
            ids.push(c.id.clone());
        }
        i = i + 1;
    }
    assert(choices@.subrange(0, choices.len() as int) =~= choices@);
    let ghost k = kept_choices(choices@, keep);
    let ord = sort_order(&ids);
    proof {
        assert(views(ids@) =~= choice_ids(k));
    }
    let mut out: Vec<ChoiceSummary> = Vec::new();
    let mut n: usize = 0;
    while n < ord.len()
        invariant
            n <= ord.len(),
            ord.len() == k.len(),
            idx.len() == k.len(),
            is_permutation(ord@, k.len()),
            forall|j: int| 0 <= j < idx.len() ==> #[trigger] idx@[j] < choices.len() && choices@[idx@[j] as int] == k[j],
            out.len() == n,
            forall|j: int| 0 <= j < n ==> summarises_choice(#[trigger] out@[j], k[ord@[j] as int]),
        decreases ord.len() - n,
    {
        let o = ord[n];
        assert(o < k.len());
        let c = &choices[idx[o]];
        out.push(ChoiceSummary {
            id: c.id.clone(),
            title: c.title.clone(),
            status: owned(choice_status_str(&c.status)),
            date_created: c.date_created.clone(),
        });
        n = n + 1;
    }
    proof {
        assert(sorted_stably(ord@, choice_ids(k)));
    }
    out
}

/// `choice.list` over the choices read: the list views of those with the
/// given status (all without one), sorted by id. A status that names none
/// is refused.
pub fn choice_list(verb: &str, choices: &Vec<Choice>, status: &Option<String>) -> (r: Result<Vec<ChoiceSummary>>)
    ensures
        (status matches Some(s) && !known_choice_status(s@)) ==> (r matches Err(e)
            && e.is(verb@, Category::Malformed,
                "status must be proposed|accepted|rejected|deprecated|superseded, got '"@ + status->0@ + "'"@)),
        !(status matches Some(s) && !known_choice_status(s@)) ==> (r matches Ok(out)
            && choices_listed(out@, kept_choices(choices@, |c: Choice| choice_kept(c,
                crate::verbs::sessions::opt_str(*status), None)))),
{
    if let Some(s) = status {
        proof {
            reveal_strlit("proposed");
            reveal_strlit("accepted");
            reveal_strlit("rejected");
            reveal_strlit("deprecated");
            reveal_strlit("superseded");
        }
        if !(str_eq(s.as_str(), "proposed") || str_eq(s.as_str(), "accepted") || str_eq(s.as_str(), "rejected")
            || str_eq(s.as_str(), "deprecated") || str_eq(s.as_str(), "superseded")) {
            let m = cat(owned("status must be proposed|accepted|rejected|deprecated|superseded, got '"), s.as_str());
            return Err(Error::malformed(verb, cat(m, "'")));
        }
    }
    Ok(select_choices(choices, status, &None))
}

/// `choice.search` over the choices read: the list views of those whose
/// title or body holds the query, ignoring case, sorted by id. An empty
/// query is refused.
pub fn choice_search(verb: &str, query: &str, choices: &Vec<Choice>) -> (r: Result<Vec<ChoiceSummary>>)
    ensures
        query@.len() == 0 ==> (r matches Err(e) && e.is(verb@, Category::Malformed, "query must not be empty"@)),
        query@.len() > 0 ==> (r matches Ok(out) && choices_listed(out@, kept_choices(choices@, |c: Choice| choice_kept(c,
            None, Some(lowercase(query@)))))),
{
    if query.unicode_len() == 0 {
        return Err(Error::malformed(verb, owned("query must not be empty")));
    }
    let needle = Some(to_lowercase(query));
    Ok(select_choices(choices, &None, &needle))
}

} // verus!
