//! Acceptance criteria of a spec: which one to work on next, which gate
//! holds the rest back, whether any is still open, and checking or
//! unchecking one.

use vstd::prelude::*;
use crate::error::{Error, Category, Result};
use crate::schema::{AcceptanceCriterion, Spec, AcType};
use crate::text::{cat, owned, str_eq};
use crate::verbs::ids::{validate_spec_id, id_refusal};
use crate::verbs::results::{NextAc, SpecNextAcResult, BlockingGate, SpecBlockingGateResult, SpecHasUncheckedResult};

verus! {

/// Criterion `i` is unchecked and no unchecked gate precedes it.
pub open spec fn unblocked_at(acs: Seq<AcceptanceCriterion>, i: int) -> bool {
    &&& 0 <= i < acs.len()
    &&& !acs[i].checked
    &&& forall|j: int| 0 <= j < i ==> !(#[trigger] acs[j].gate && !acs[j].checked)
}

/// Criterion `i` is the first unchecked one.
pub open spec fn first_unchecked_at(acs: Seq<AcceptanceCriterion>, i: int) -> bool {
    &&& 0 <= i < acs.len()
    &&& !acs[i].checked
    &&& forall|j: int| 0 <= j < i ==> (#[trigger] acs[j]).checked
}

/// Criterion `i` is the first unchecked gate.
pub open spec fn first_open_gate_at(acs: Seq<AcceptanceCriterion>, i: int) -> bool {
    &&& 0 <= i < acs.len()
    &&& !acs[i].checked && acs[i].gate
    &&& forall|j: int| 0 <= j < i ==> !(#[trigger] acs[j].gate && !acs[j].checked)
}

/// Some criterion is unchecked.
pub open spec fn some_unchecked(acs: Seq<AcceptanceCriterion>) -> bool {
    exists|i: int| 0 <= i < acs.len() && !(#[trigger] acs[i]).checked
}

/// The first unchecked criterion not preceded by an unchecked gate; `None`
/// when there is none.
pub fn next_unblocked(acs: &Vec<AcceptanceCriterion>) -> (r: Option<&AcceptanceCriterion>)
    ensures
        match r {
            Some(ac) => exists|i: int| {
                &&& unblocked_at(acs@, i)
                &&& *ac == acs@[i]
                &&& forall|j: int| 0 <= j < i ==> !unblocked_at(acs@, j)
            },
            None => forall|i: int| !unblocked_at(acs@, i),
        },
{
    let mut blocked = false;
    let mut i: usize = 0;
    while i < acs.len()
        invariant
            i <= acs.len(),
            blocked == exists|j: int| 0 <= j < i && #[trigger] acs@[j].gate && !acs@[j].checked,
            forall|j: int| 0 <= j < i ==> !unblocked_at(acs@, j),
        decreases acs.len() - i,
    {
        if !acs[i].checked && !blocked {
            assert(unblocked_at(acs@, i as int));
            return Some(&acs[i]);
        }
        proof {
            if !acs@[i as int].checked {
                let j = choose|j: int| 0 <= j < i && #[trigger] acs@[j].gate && !acs@[j].checked;
                assert(!unblocked_at(acs@, i as int));
            }
        }
        if acs[i].gate && !acs[i].checked {
            blocked = true;
        }
        i = i + 1;
    }
    None
}

/// The first unchecked gate criterion, if any.
pub fn first_blocking_gate(acs: &Vec<AcceptanceCriterion>) -> (r: Option<&AcceptanceCriterion>)
    ensures
        match r {
            Some(ac) => exists|i: int| first_open_gate_at(acs@, i) && *ac == acs@[i],
            None => forall|i: int| 0 <= i < acs.len() ==> !(#[trigger] acs@[i].gate && !acs@[i].checked),
        },
{
    let mut i: usize = 0;
    while i < acs.len()
        invariant
            i <= acs.len(),
            forall|j: int| 0 <= j < i ==> !(#[trigger] acs@[j].gate && !acs@[j].checked),
        decreases acs.len() - i,
    {
        if !acs[i].checked && acs[i].gate {
            assert(first_open_gate_at(acs@, i as int));
            return Some(&acs[i]);
        }
        i = i + 1;
    }
    None
}

/// Whether any criterion is unchecked.
pub fn any_unchecked(acs: &Vec<AcceptanceCriterion>) -> (r: bool)
    ensures
        r == some_unchecked(acs@),
{
    let mut i: usize = 0;
    while i < acs.len()
        invariant
            i <= acs.len(),
            forall|j: int| 0 <= j < i ==> (#[trigger] acs@[j]).checked,
        decreases acs.len() - i,
    {
        if !acs[i].checked {
            assert(!acs@[i as int].checked);
            return true;
        }
        i = i + 1;
    }
    false
}

/// An unchecked criterion before `k` means some criterion before or at it
/// is unblocked.
proof fn lemma_unblocked_before(acs: Seq<AcceptanceCriterion>, k: int)
    requires
        0 <= k < acs.len(),
        !acs[k].checked,
    ensures
        exists|i: int| 0 <= i <= k && unblocked_at(acs, i),
    decreases k,
{
    if exists|j: int| 0 <= j < k && !(#[trigger] acs[j]).checked {
        let j = choose|j: int| 0 <= j < k && !(#[trigger] acs[j]).checked;
        lemma_unblocked_before(acs, j);
    } else {
        assert(unblocked_at(acs, k));
    }
}

/// The criterion `spec.next-ac` returns is exactly the first unchecked
/// one: gates never hide the first unchecked criterion.
pub proof fn lemma_next_is_first_unchecked(acs: Seq<AcceptanceCriterion>, i: int)
    ensures
        (unblocked_at(acs, i) && forall|j: int| 0 <= j < i ==> !unblocked_at(acs, j))
            <==> first_unchecked_at(acs, i),
{
    if unblocked_at(acs, i) && forall|j: int| 0 <= j < i ==> !unblocked_at(acs, j) {
        if exists|j: int| 0 <= j < i && !(#[trigger] acs[j]).checked {
            let j = choose|j: int| 0 <= j < i && !(#[trigger] acs[j]).checked;
            lemma_unblocked_before(acs, j);
        }
    }
    if first_unchecked_at(acs, i) {
        assert forall|j: int| 0 <= j < i implies !unblocked_at(acs, j) by {
            assert(acs[j].checked);
        }
    }
}

/// `spec.next-ac` finds a criterion exactly when `spec.has-unchecked`
/// reports one.
pub proof fn lemma_next_exists_iff_unchecked(acs: Seq<AcceptanceCriterion>)
    ensures
        (exists|i: int| unblocked_at(acs, i)) <==> some_unchecked(acs),
{
    if some_unchecked(acs) {
        let k = choose|k: int| 0 <= k < acs.len() && !(#[trigger] acs[k]).checked;
        lemma_unblocked_before(acs, k);
    }
    if exists|i: int| unblocked_at(acs, i) {
        let i = choose|i: int| unblocked_at(acs, i);
        assert(!acs[i].checked);
    }
}

/// `spec.next-ac` on a loaded spec: the id and gate flag of the first
/// unchecked criterion not blocked by an earlier unchecked gate.
pub fn spec_next_ac(spec: &Spec) -> (r: SpecNextAcResult)
    ensures
        match r.next {
            Some(n) => exists|i: int| {
                &&& unblocked_at(spec.acceptance_criteria@, i)
                &&& forall|j: int| 0 <= j < i ==> !unblocked_at(spec.acceptance_criteria@, j)
                &&& n.id@ == spec.acceptance_criteria@[i].id@
                &&& n.gate == spec.acceptance_criteria@[i].gate
            },
            None => forall|i: int| !unblocked_at(spec.acceptance_criteria@, i),
        },
{
    match next_unblocked(&spec.acceptance_criteria) {
        Some(ac) => SpecNextAcResult { next: Some(NextAc { id: ac.id.clone(), gate: ac.gate }) },
        None => SpecNextAcResult { next: None },
    }
}

/// `spec.blocking-gate` on a loaded spec: the id and description of the
/// first unchecked gate.
pub fn spec_blocking_gate(spec: &Spec) -> (r: SpecBlockingGateResult)
    ensures
        match r.blocking {
            Some(g) => exists|i: int| {
                &&& first_open_gate_at(spec.acceptance_criteria@, i)
                &&& g.id@ == spec.acceptance_criteria@[i].id@
                &&& g.description@ == spec.acceptance_criteria@[i].description@
            },
            None => forall|i: int| 0 <= i < spec.acceptance_criteria.len()
                ==> !(#[trigger] spec.acceptance_criteria@[i].gate && !spec.acceptance_criteria@[i].checked),
        },
{
    match first_blocking_gate(&spec.acceptance_criteria) {
        Some(ac) => SpecBlockingGateResult {
            blocking: Some(BlockingGate { id: ac.id.clone(), description: ac.description.clone() }),
        },
        None => SpecBlockingGateResult { blocking: None },
    }
}

/// `spec.has-unchecked` on a loaded spec.
pub fn spec_has_unchecked(spec: &Spec) -> (r: SpecHasUncheckedResult)
    ensures
        r.has_unchecked == some_unchecked(spec.acceptance_criteria@),
{
    SpecHasUncheckedResult { has_unchecked: any_unchecked(&spec.acceptance_criteria) }
}

/// The request checks `spec.check` / `spec.uncheck` make before touching
/// the substrate: a well-formed spec id and a non-empty criterion id.
pub open spec fn flip_request_refusal(spec_id: Seq<char>, ac_id: Seq<char>) -> Option<Seq<char>> {
    match id_refusal("id"@, spec_id) {
        Some(m) => Some(m),
        None => if ac_id.len() == 0 { Some("ac_id must not be empty"@) } else { None },
    }
}

/// Refuses a flip request whose spec id or criterion id is unusable.
pub fn validate_flip_request(verb: &str, spec_id: &str, ac_id: &str) -> (r: Result<()>)
    ensures
        match flip_request_refusal(spec_id@, ac_id@) {
            None => r is Ok,
            Some(m) => r matches Err(e) && e.is(verb@, Category::Malformed, m),
        },
{
    validate_spec_id(verb, spec_id)?;
    if ac_id.unicode_len() == 0 {
        return Err(Error::malformed(verb, owned("ac_id must not be empty")));
    }
    Ok(())
}

/// Index of the first criterion whose id is `ac_id`.
pub open spec fn ac_position(acs: Seq<AcceptanceCriterion>, ac_id: Seq<char>, p: int) -> bool {
    &&& 0 <= p < acs.len()
    &&& acs[p].id@ == ac_id
    &&& forall|j: int| 0 <= j < p ==> (#[trigger] acs[j]).id@ != ac_id
}

/// `acs` with criterion `p`'s checked flag set to `want`.
pub open spec fn flipped(acs: Seq<AcceptanceCriterion>, p: int, want: bool) -> Seq<AcceptanceCriterion> {
    acs.update(p, AcceptanceCriterion { checked: want, ..acs[p] })
}

fn copy_ac(ac: &AcceptanceCriterion) -> (r: AcceptanceCriterion)
    ensures
        r == *ac,
{
    let verification = match &ac.verification {
        Some(v) => Some(v.clone()),
        None => None,
    };
    AcceptanceCriterion {
        id: ac.id.clone(),
        description: ac.description.clone(),
        gate: ac.gate,
        checked: ac.checked,
        verification,
        ac_type: ac.ac_type,
    }
}

/// Flips the `checked` flag of criterion `ac_id` of a loaded spec to
/// `want_checked`. Not-found when no criterion has that id; conflict when
/// the first one with that id already has the wanted state. Only that
/// criterion's flag changes.
pub fn flip_ac_checked(spec: Spec, verb: &str, spec_id: &str, ac_id: &str, want_checked: bool) -> (r: Result<Spec>)
    ensures
        (forall|p: int| !ac_position(spec.acceptance_criteria@, ac_id@, p)) ==> (r matches Err(e)
            && e.is(verb@, Category::NotFound, "AC "@ + ac_id@ + " not found on spec "@ + spec_id@)),
        forall|p: int| ac_position(spec.acceptance_criteria@, ac_id@, p) ==> {
            if spec.acceptance_criteria@[p].checked == want_checked {
                r matches Err(e) && e.is(verb@, Category::Conflict, "AC "@ + ac_id@ + " is already "@
                    + (if want_checked { "checked"@ } else { "unchecked"@ }))
            } else {
                r matches Ok(s) && s == (Spec {
                    acceptance_criteria: s.acceptance_criteria,
                    ..spec
                }) && s.acceptance_criteria@ == flipped(spec.acceptance_criteria@, p, want_checked)
            }
        },
{
    let mut spec = spec;
    let ghost orig = spec;
    let mut pos: usize = 0;
    while pos < spec.acceptance_criteria.len() && !str_eq(spec.acceptance_criteria[pos].id.as_str(), ac_id)
        invariant
            spec == orig,
            pos <= spec.acceptance_criteria.len(),
            forall|j: int| 0 <= j < pos ==> (#[trigger] spec.acceptance_criteria@[j]).id@ != ac_id@,
        decreases spec.acceptance_criteria.len() - pos,
    {
        pos = pos + 1;
    }
    if pos == spec.acceptance_criteria.len() {
        let m = cat(owned("AC "), ac_id);
        let m = cat(m, " not found on spec ");
        return Err(Error::not_found(verb, cat(m, spec_id)));
    }
    assert(ac_position(orig.acceptance_criteria@, ac_id@, pos as int));
    proof {
        assert forall|p: int| ac_position(orig.acceptance_criteria@, ac_id@, p) implies p == pos by {
            if p < pos {
                assert(orig.acceptance_criteria@[p].id@ != ac_id@);
            } else if p > pos {
                assert(orig.acceptance_criteria@[pos as int].id@ != ac_id@);
            }
        }
    }
    if spec.acceptance_criteria[pos].checked == want_checked {
        let state = if want_checked { "checked" } else { "unchecked" };
        let m = cat(owned("AC "), ac_id);
        let m = cat(m, " is already ");
        return Err(Error::conflict(verb, cat(m, state)));
    }
    let mut ac = copy_ac(&spec.acceptance_criteria[pos]);
    ac.checked = want_checked;
    spec.acceptance_criteria.set(pos, ac);
    Ok(spec)
}

} // verus!
