//! The spec verbs' decisions once their inputs are read: listing,
//! creating, updating, noting and promoting a card into a spec.

use vstd::prelude::*;
use crate::error::{Error, Category, Result};
use crate::schema::{AcceptanceCriterion, AcType, Card, NoteEvent, Scenario, Spec, SpecStatus, MemoryConsidered};
use crate::text::{cat, owned, str_eq, clone_strings, trim, trimmed, decimal2, u64_to_decimal2};
use crate::order::{views, sort_order, is_permutation, sorted_stably};
use crate::verbs::ids::{validate_spec_id, validated, id_refusal};
use crate::verbs::names::{card_slug_from_id, card_slug_of};
use crate::verbs::args::{SpecCreateArgs, SpecUpdateArgs};
use crate::verbs::results::SpecSummary;

verus! {

/// A `spec.list` status filter names a status.
pub open spec fn known_status(s: Seq<char>) -> bool {
    s == "open"@ || s == "closed"@
}

/// A spec with status `status` passes the filter.
pub open spec fn passes(filter: Option<String>, status: SpecStatus) -> bool {
    match filter {
        None => true,
        Some(f) => f@ == status.spec_name(),
    }
}

/// The specs that pass the filter, in input order.
pub open spec fn kept(specs: Seq<Spec>, filter: Option<String>) -> Seq<Spec>
    decreases specs.len(),
{
    if specs.len() == 0 {
        Seq::empty()
    } else {
        let rest = kept(specs.drop_last(), filter);
        if passes(filter, specs.last().status) { rest.push(specs.last()) } else { rest }
    }
}

/// `s` is the list view of `spec`.
pub open spec fn summarises(s: SpecSummary, spec: Spec) -> bool {
    &&& s.id@ == spec.id@
    &&& s.goal@ == spec.goal@
    &&& s.status@ == spec.status.spec_name()
    &&& s.cards@ == spec.cards@
    &&& s.labels@ == spec.labels@
}

/// The ids of a list of specs.
pub open spec fn spec_ids(specs: Seq<Spec>) -> Seq<Seq<char>> {
    specs.map_values(|s: Spec| s.id@)
}

fn summary(spec: &Spec) -> (r: SpecSummary)
    ensures
        summarises(r, *spec),
{
    SpecSummary {
        id: spec.id.clone(),
        goal: spec.goal.clone(),
        status: owned(spec.status.as_str()),
        cards: clone_strings(&spec.cards),
        labels: clone_strings(&spec.labels),
    }
}

/// `spec.list` over the specs read from the substrate: the list views of
/// the specs whose status passes the filter, sorted by id (specs with
/// equal ids keep their read order). A filter other than `open` or
/// `closed` is refused.
pub fn spec_list(verb: &str, specs: &Vec<Spec>, status: &Option<String>) -> (r: Result<Vec<SpecSummary>>)
    ensures
        match *status {
            Some(f) => !known_status(f@) <==> r is Err,
            None => r is Ok,
        },
        r matches Err(e) ==> status matches Some(f)
            && e.is(verb@, Category::Malformed, "status must be 'open' or 'closed', got '"@ + f@ + "'"@),
        r matches Ok(out) ==> {
            let k = kept(specs@, *status);
            &&& out.len() == k.len()
            &&& exists|ord: Seq<usize>| {
                &&& is_permutation(ord, k.len())
                &&& sorted_stably(ord, spec_ids(k))
                &&& forall|i: int| 0 <= i < out.len() ==> summarises(#[trigger] out@[i], k[ord[i] as int])
            }
        },
{
    if let Some(f) = status {
        proof {
            reveal_strlit("open");
            reveal_strlit("closed");
        }
        if !(str_eq(f.as_str(), "open") || str_eq(f.as_str(), "closed")) {
            let m = cat(owned("status must be 'open' or 'closed', got '"), f.as_str());
            return Err(Error::malformed(verb, cat(m, "'")));
        }
    }
    // Indices of the specs that pass, and their ids.
    let mut idx: Vec<usize> = Vec::new();
    let mut ids: Vec<String> = Vec::new();
    let mut i: usize = 0;
    while i < specs.len()
        invariant
            i <= specs.len(),
            idx.len() == ids.len(),
            kept(specs@.subrange(0, i as int), *status).len() == idx.len(),
            forall|j: int| 0 <= j < idx.len() ==> #[trigger] idx@[j] < specs.len()
                && specs@[idx@[j] as int] == kept(specs@.subrange(0, i as int), *status)[j],
            forall|j: int| 0 <= j < ids.len() ==> #[trigger] ids@[j]@ == specs@[idx@[j] as int].id@,
        decreases specs.len() - i,
    {
        let pass = match status {
            None => true,
            Some(f) => str_eq(f.as_str(), specs[i].status.as_str()),
        };
        let ghost before = kept(specs@.subrange(0, i as int), *status);
        assert(specs@.subrange(0, i + 1).drop_last() =~= specs@.subrange(0, i as int));
        if pass {
            idx.push(i);
            ids.push(specs[i].id.clone());
        }
        i = i + 1;
    }
    assert(specs@.subrange(0, specs.len() as int) =~= specs@);
    let ghost k = kept(specs@, *status);
    let ord = sort_order(&ids);
    proof {
        assert(views(ids@) =~= spec_ids(k)) by {
            assert forall|j: int| 0 <= j < ids.len() implies #[trigger] views(ids@)[j] == spec_ids(k)[j] by {
                assert(ids@[j]@ == specs@[idx@[j] as int].id@);
            }
        }
    }
    let mut out: Vec<SpecSummary> = Vec::new();
    let mut n: usize = 0;
    while n < ord.len()
        invariant
            n <= ord.len(),
            ord.len() == k.len(),
            idx.len() == k.len(),
            is_permutation(ord@, k.len()),
            forall|j: int| 0 <= j < idx.len() ==> #[trigger] idx@[j] < specs.len()
                && specs@[idx@[j] as int] == k[j],
            out.len() == n,
            forall|j: int| 0 <= j < n ==> summarises(#[trigger] out@[j], k[ord@[j] as int]),
        decreases ord.len() - n,
    {
        let o = ord[n];
        assert(o < k.len());
        let s = summary(&specs[idx[o]]);
        out.push(s);
        n = n + 1;
    }
    Ok(out)
}

/// `spec.create`: a new open spec from the arguments, with no memories
/// considered yet. The id must be usable and the goal non-empty.
pub fn spec_create(verb: &str, args: SpecCreateArgs) -> (r: Result<Spec>)
    ensures
        match id_refusal("id"@, args.id@) {
            Some(m) => r matches Err(e) && e.is(verb@, Category::Malformed, m),
            None => if args.goal@.len() == 0 {
                r matches Err(e) && e.is(verb@, Category::Malformed, "goal must not be empty"@)
            } else {
                r matches Ok(s) && s == (Spec {
                    id: args.id,
                    goal: args.goal,
                    cards: args.cards,
                    status: SpecStatus::Open,
                    labels: args.labels,
                    acceptance_criteria: args.acceptance_criteria,
                    memories_considered: s.memories_considered,
                }) && s.memories_considered.len() == 0
            },
        },
{
    validate_spec_id(verb, args.id.as_str())?;
    if args.goal.unicode_len() == 0 {
        return Err(Error::malformed(verb, owned("goal must not be empty")));
    }
    let memories_considered: Vec<MemoryConsidered> = Vec::new();
    Ok(Spec {
        id: args.id,
        goal: args.goal,
        cards: args.cards,
        status: SpecStatus::Open,
        labels: args.labels,
        acceptance_criteria: args.acceptance_criteria,
        memories_considered,
    })
}

/// `spec.update` on a read spec: every field the arguments carry replaces
/// the spec's; the rest stays. An empty goal is refused (status changes
/// belong to `spec.close`).
pub fn spec_update(verb: &str, spec: Spec, args: SpecUpdateArgs) -> (r: Result<Spec>)
    ensures
        (args.goal matches Some(g) && g@.len() == 0) ==> (r matches Err(e)
            && e.is(verb@, Category::Malformed, "goal must not be empty"@)),
        !(args.goal matches Some(g) && g@.len() == 0) ==> (r matches Ok(s) && s == (Spec {
            goal: match args.goal { Some(g) => g, None => spec.goal },
            cards: match args.cards { Some(c) => c, None => spec.cards },
            labels: match args.labels { Some(l) => l, None => spec.labels },
            acceptance_criteria: match args.acceptance_criteria { Some(a) => a, None => spec.acceptance_criteria },
            ..spec
        })),
{
    let mut spec = spec;
    if let Some(goal) = args.goal {
        if goal.unicode_len() == 0 {
            return Err(Error::malformed(verb, owned("goal must not be empty")));
        }
        spec.goal = goal;
    }
    if let Some(cards) = args.cards {
        spec.cards = cards;
    }
    if let Some(labels) = args.labels {
        spec.labels = labels;
    }
    if let Some(acs) = args.acceptance_criteria {
        spec.acceptance_criteria = acs;
    }
    Ok(spec)
}

/// What `spec.note` refuses before touching the substrate.
pub open spec fn note_refusal(id: Seq<char>, body: Seq<char>) -> Option<Seq<char>> {
    match id_refusal("id"@, id) {
        Some(m) => Some(m),
        None => if body.len() == 0 { Some("body must not be empty"@) } else { None },
    }
}

/// `spec.note`: checks the request and builds the note event, stamped
/// with `timestamp`.
pub fn spec_note(verb: &str, id: String, body: String, labels: Vec<String>, timestamp: String) -> (r: Result<NoteEvent>)
    ensures
        match note_refusal(id@, body@) {
            Some(m) => r matches Err(e) && e.is(verb@, Category::Malformed, m),
            None => r matches Ok(n) && n == (NoteEvent { spec_id: id, body, labels, timestamp }),
        },
{
    validate_spec_id(verb, id.as_str())?;
    if body.unicode_len() == 0 {
        return Err(Error::malformed(verb, owned("body must not be empty")));
    }
    Ok(NoteEvent { spec_id: id, body, labels, timestamp })
}

/// The description of the criterion a scenario promotes to: its trimmed
/// name, followed by ` — ` and its trimmed outcome when it has one.
pub open spec fn scenario_description(sc: Scenario) -> Seq<char> {
    let name = trimmed(sc.name@);
    let outcome = trimmed(sc.outcome@);
    if outcome.len() == 0 { name } else { name + " — "@ + outcome }
}

/// `ac` is the criterion scenario `sc`, the `n`-th (from 1), promotes to.
pub open spec fn promotes_to(sc: Scenario, n: nat, ac: AcceptanceCriterion) -> bool {
    &&& ac.id@ == "ac-"@ + decimal2(n)
    &&& ac.description@ == scenario_description(sc)
    &&& ac.gate == sc.gate
    &&& !ac.checked
    &&& ac.verification is None
    &&& ac.ac_type == AcType::Code
}

/// `spec.promote` once the card is read: the planned spec named
/// `<today>-<card slug without its number>`, with the card's goal, linked
/// to the card, and one unchecked criterion per scenario (keeping each
/// scenario's gate). A card with an empty goal or no scenarios is refused,
/// naming `card_path`.
pub fn spec_promote(verb: &str, card: &Card, card_id: &str, today: &str, card_path: &str) -> (r: Result<Spec>)
    ensures
        card.goal@.len() == 0 ==> (r matches Err(e)
            && e.is(verb@, Category::Malformed, "card has empty goal: "@ + card_path@)),
        card.goal@.len() > 0 && card.scenarios.len() == 0 ==> (r matches Err(e)
            && e.is(verb@, Category::Malformed, "card has no scenarios: "@ + card_path@)),
        card.goal@.len() > 0 && card.scenarios.len() > 0 ==> (r matches Ok(s) && {
            &&& s.id@ == today@ + "-"@ + card_slug_of(card_id@)
            &&& s.goal@ == card.goal@
            &&& views(s.cards@) == seq![card_id@]
            &&& s.status == SpecStatus::Open
            &&& s.labels.len() == 0
            &&& s.memories_considered.len() == 0
            &&& s.acceptance_criteria.len() == card.scenarios.len()
            &&& forall|i: int| 0 <= i < card.scenarios.len() ==>
                promotes_to(card.scenarios@[i], (i + 1) as nat, #[trigger] s.acceptance_criteria@[i])
        }),
{
    if card.goal.unicode_len() == 0 {
        return Err(Error::malformed(verb, cat(owned("card has empty goal: "), card_path)));
    }
    if card.scenarios.len() == 0 {
        return Err(Error::malformed(verb, cat(owned("card has no scenarios: "), card_path)));
    }
    let slug = card_slug_from_id(card_id);
    let id = cat(owned(today), "-");
    let id = cat(id, slug.as_str());
    let mut acs: Vec<AcceptanceCriterion> = Vec::new();
    let mut i: usize = 0;
    while i < card.scenarios.len()
        invariant
            i <= card.scenarios.len(),
            acs.len() == i,
            forall|j: int| 0 <= j < i ==>
                promotes_to(card.scenarios@[j], (j + 1) as nat, #[trigger] acs@[j]),
        decreases card.scenarios.len() - i,
    {
        let sc = &card.scenarios[i];
        let name = trim(sc.name.as_str());
        let outcome = trim(sc.outcome.as_str());
        let description = if outcome.unicode_len() == 0 {
            name
        } else {
            let d = cat(name, " — ");
            cat(d, outcome.as_str())
        };
        let n = u64_to_decimal2((i + 1) as u64);
        let ac_id = cat(owned("ac-"), n.as_str());
        acs.push(AcceptanceCriterion {
            id: ac_id,
            description,
            gate: sc.gate,
            checked: false,
            verification: None,
            ac_type: AcType::default_kind(),
        });
        i = i + 1;
    }
    let mut cards: Vec<String> = Vec::new();
    cards.push(owned(card_id));
    assert(views(cards@) =~= seq![card_id@]);
    Ok(Spec {
        id,
        goal: card.goal.clone(),
        cards,
        status: SpecStatus::Open,
        labels: Vec::new(),
        acceptance_criteria: acs,
        memories_considered: Vec::new(),
    })
}

/// The refusal `spec.promote` gives, outside a dry run, when a spec with
/// the planned id already exists.
pub fn promote_target_check(verb: &str, spec_id: &str, target_exists: bool) -> (r: Result<()>)
    ensures
        r is Ok <==> !target_exists,
        r matches Err(e) ==> e.is(verb@, Category::Conflict,
            "spec '"@ + spec_id@ + "' already exists; promote produces fresh specs"@),
{
    if target_exists {
        let m = cat(owned("spec '"), spec_id);
        return Err(Error::conflict(verb, cat(m, "' already exists; promote produces fresh specs")));
    }
    Ok(())
}

} // verus!
