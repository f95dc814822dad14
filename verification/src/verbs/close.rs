//! The decisions `spec.close` takes once the spec, the memories matching
//! it, its task stream and its linked cards have been read: the
//! already-closed check, the acceptance-criterion pre-flight, the
//! memory-reconciliation gate, the unfinished-task gate and the
//! idempotent link from each card back to the closed spec.

use vstd::prelude::*;
use crate::error::{Error, Category, Result};
use crate::schema::{AcceptanceCriterion, Spec, SpecStatus, TaskEvent, TaskEventKind, Card};
use crate::text::{cat, owned, str_eq, join, joined, decimal, u64_to_decimal};
use crate::order::{views, sort_strings, sorted, distinct, drawn_from, member};
use crate::verbs::results::{SpecCloseResult, TopologyDriftEntry};
use crate::verbs::tasks::events_of;

verus! {

/// Which criteria a pre-flight list gathers.
#[derive(Clone, Copy)]
pub enum AcSelection {
    /// Unchecked and of a kind that blocks closing.
    BlockingOpen,
    /// Unchecked, blocking, and a gate.
    BlockingOpenGate,
    /// Unchecked and of a deferrable kind.
    DeferrableOpen,
}

/// Whether `ac` belongs to the selection `sel`.
pub open spec fn selects(sel: AcSelection, ac: AcceptanceCriterion) -> bool {
    match sel {
        AcSelection::BlockingOpen => !ac.checked && ac.ac_type.spec_blocks_close(),
        AcSelection::BlockingOpenGate => !ac.checked && ac.ac_type.spec_blocks_close() && ac.gate,
        AcSelection::DeferrableOpen => !ac.checked && !ac.ac_type.spec_blocks_close(),
    }
}

/// The ids of the criteria `sel` gathers, in spec order.
pub open spec fn selected_ids(acs: Seq<AcceptanceCriterion>, sel: AcSelection) -> Seq<Seq<char>>
    decreases acs.len(),
{
    if acs.len() == 0 {
        Seq::empty()
    } else {
        let rest = selected_ids(acs.drop_last(), sel);
        if selects(sel, acs.last()) { rest.push(acs.last().id@) } else { rest }
    }
}

/// The ids of the criteria `sel` gathers, in spec order.
pub fn select_ids(acs: &Vec<AcceptanceCriterion>, sel: AcSelection) -> (r: Vec<String>)
    ensures
        views(r@) == selected_ids(acs@, sel),
{
    let mut r: Vec<String> = Vec::new();
    let mut i: usize = 0;
    while i < acs.len()
        invariant
            i <= acs.len(),
            views(r@) == selected_ids(acs@.subrange(0, i as int), sel),
        decreases acs.len() - i,
    {
        let ac = &acs[i];
        let take = match sel {
            AcSelection::BlockingOpen => !ac.checked && ac.ac_type.blocks_close(),
            AcSelection::BlockingOpenGate => !ac.checked && ac.ac_type.blocks_close() && ac.gate,
            AcSelection::DeferrableOpen => !ac.checked && !ac.ac_type.blocks_close(),
        };
        let ghost before = r@;
        if take {
            r.push(ac.id.clone());
            assert(views(r@) =~= views(before).push(ac.id@));
        }
        assert(acs@.subrange(0, i + 1).drop_last() =~= acs@.subrange(0, i as int));
        i = i + 1;
    }
    assert(acs@.subrange(0, acs.len() as int) =~= acs@);
    r
}

/// `<n>` followed by `tail`, where `n` is the number of `items`.
pub open spec fn counted(items: Seq<Seq<char>>, tail: Seq<char>) -> Seq<char> {
    decimal(items.len()) + tail
}

/// The message the pre-flight refuses a close with.
pub open spec fn blocking_message(spec: Spec) -> Seq<char> {
    let ids = selected_ids(spec.acceptance_criteria@, AcSelection::BlockingOpen);
    let gates = selected_ids(spec.acceptance_criteria@, AcSelection::BlockingOpenGate);
    counted(ids, " unchecked blocking AC(s) in spec '"@) + spec.id@ + "': "@ + joined(ids, ", "@)
        + (if gates.len() == 0 { Seq::empty() } else { " (gate: "@ + joined(gates, ", "@) + ")"@ })
}

/// The pre-flight's lists when it lets a close through: the blocking
/// criteria that `force` waved through, and the deferrable criteria still
/// open.
pub struct AcPreflight {
    pub forced_unchecked: Vec<String>,
    pub deferrable_open: Vec<String>,
}

/// Refuses to close a spec that is already closed.
pub fn close_status_gate(spec: &Spec, verb: &str) -> (r: Result<()>)
    ensures
        spec.status == SpecStatus::Open <==> r is Ok,
        r matches Err(e) ==> e.is(verb@, Category::Conflict, "spec '"@ + spec.id@ + "' already closed"@),
{
    match spec.status {
        SpecStatus::Closed => {
            let m = cat(owned("spec '"), spec.id.as_str());
            Err(Error::conflict(verb, cat(m, "' already closed")))
        },
        SpecStatus::Open => Ok(()),
    }
}

/// The acceptance-criterion pre-flight of `spec.close`. Without `force`,
/// any unchecked criterion of a blocking kind (`code`, `config`, `doc`)
/// refuses the close, naming every such criterion and, separately, the
/// gates among them. With `force` the close goes on and the blocking
/// criteria are reported as forced. Unchecked deferrable criteria (`ops`,
/// `observation`) never block; they are reported either way.
pub fn close_ac_preflight(spec: &Spec, force: bool, verb: &str) -> (r: Result<AcPreflight>)
    ensures
        ({
            let blocking = selected_ids(spec.acceptance_criteria@, AcSelection::BlockingOpen);
            &&& (r is Err <==> (blocking.len() > 0 && !force))
            &&& (r matches Err(e) ==> e.is(verb@, Category::Conflict, blocking_message(*spec)))
            &&& (r matches Ok(p) ==> {
                &&& views(p.forced_unchecked@) == (if force { blocking } else { Seq::empty() })
                &&& views(p.deferrable_open@) == selected_ids(spec.acceptance_criteria@, AcSelection::DeferrableOpen)
            })
        }),
{
    let blocking = select_ids(&spec.acceptance_criteria, AcSelection::BlockingOpen);
    let deferrable_open = select_ids(&spec.acceptance_criteria, AcSelection::DeferrableOpen);
    if blocking.len() > 0 && !force {
        let gates = select_ids(&spec.acceptance_criteria, AcSelection::BlockingOpenGate);
        let m = u64_to_decimal(blocking.len() as u64);
        let m = cat(m, " unchecked blocking AC(s) in spec '");
        let m = cat(m, spec.id.as_str());
        let m = cat(m, "': ");
        let ids = join(&blocking, ", ");
        let m = cat(m, ids.as_str());
        let ghost head = m@;
        let m = if gates.len() == 0 {
            assert(m@ =~= head + Seq::<char>::empty());
            m
        } else {
            let m = cat(m, " (gate: ");
            let g = join(&gates, ", ");
            let m = cat(m, g.as_str());
            let m = cat(m, ")");
            assert(m@ =~= head + (" (gate: "@ + g@ + ")"@));
            m
        };
        proof {
            assert(views(blocking@).len() == blocking@.len());
            assert(views(gates@).len() == gates@.len());
            assert(blocking.len() as u64 as nat == selected_ids(spec.acceptance_criteria@, AcSelection::BlockingOpen).len());
        }
        return Err(Error::conflict(verb, m));
    }
    let forced_unchecked = if force { blocking } else { Vec::new() };
    Ok(AcPreflight { forced_unchecked, deferrable_open })
}

/// The memory keys of `matched` the spec has not recorded as considered,
/// in match order.
pub open spec fn unreconciled(matched: Seq<Seq<char>>, considered: Seq<Seq<char>>) -> Seq<Seq<char>>
    decreases matched.len(),
{
    if matched.len() == 0 {
        Seq::empty()
    } else {
        let rest = unreconciled(matched.drop_last(), considered);
        if member(matched.last(), considered) { rest } else { rest.push(matched.last()) }
    }
}

/// The keys the spec's author recorded as considered.
pub open spec fn considered_keys(spec: Spec) -> Seq<Seq<char>> {
    spec.memories_considered@.map_values(|m: crate::schema::MemoryConsidered| m.key@)
}

/// The message the memory-reconciliation gate refuses a close with.
pub open spec fn unreconciled_message(spec: Spec, keys: Seq<Seq<char>>) -> Seq<char> {
    counted(keys, " unreconciled memor"@) + (if keys.len() == 1 { "y"@ } else { "ies"@ })
        + " matching spec '"@ + spec.id@ + "': "@ + joined(keys, ", "@)
        + " — reconcile via spec.memories_considered or pass --force"@
}

fn considered(spec: &Spec, key: &str) -> (r: bool)
    ensures
        r == member(key@, considered_keys(*spec)),
{
    let mut i: usize = 0;
    while i < spec.memories_considered.len()
        invariant
            i <= spec.memories_considered.len(),
            forall|j: int| 0 <= j < i ==> (#[trigger] spec.memories_considered@[j]).key@ != key@,
        decreases spec.memories_considered.len() - i,
    {
        if str_eq(spec.memories_considered[i].key.as_str(), key) {
            assert(considered_keys(*spec)[i as int] == key@);
            return true;
        }
        i = i + 1;
    }
    assert forall|j: int| 0 <= j < considered_keys(*spec).len() implies considered_keys(*spec)[j] != key@ by {
        assert(spec.memories_considered@[j].key@ != key@);
    }
    false
}

/// The memory-reconciliation gate of `spec.close`. `matched` holds the keys
/// of the memories whose match score against the spec reached the
/// threshold, in match order. A matched key the spec has not recorded in
/// `memories_considered` refuses the close unless `force`; with `force`
/// the unreconciled keys are returned as forced.
pub fn close_memory_gate(spec: &Spec, force: bool, verb: &str, matched: &Vec<String>) -> (r: Result<Vec<String>>)
    ensures
        ({
            let open = unreconciled(views(matched@), considered_keys(*spec));
            &&& (r is Err <==> (open.len() > 0 && !force))
            &&& (r matches Err(e) ==> e.is(verb@, Category::Conflict, unreconciled_message(*spec, open)))
            &&& (r matches Ok(f) ==> views(f@) == (if force { open } else { Seq::empty() }))
        }),
{
    let mut open: Vec<String> = Vec::new();
    let mut i: usize = 0;
    while i < matched.len()
        invariant
            i <= matched.len(),
            views(open@) == unreconciled(views(matched@.subrange(0, i as int)), considered_keys(*spec)),
        decreases matched.len() - i,
    {
        let ghost before = open@;
        if !considered(spec, matched[i].as_str()) {
            open.push(matched[i].clone());
            assert(views(open@) =~= views(before).push(matched@[i as int]@));
        }
        assert(views(matched@.subrange(0, i + 1)).drop_last() =~= views(matched@.subrange(0, i as int)));
        assert(views(matched@.subrange(0, i + 1)).last() == matched@[i as int]@);
        i = i + 1;
    }
    assert(matched@.subrange(0, matched.len() as int) =~= matched@);
    if open.len() > 0 && !force {
        let m = u64_to_decimal(open.len() as u64);
        let m = cat(m, " unreconciled memor");
        let m = cat(m, if open.len() == 1 { "y" } else { "ies" });
        let m = cat(m, " matching spec '");
        let m = cat(m, spec.id.as_str());
        let m = cat(m, "': ");
        let keys = join(&open, ", ");
        let m = cat(m, keys.as_str());
        let m = cat(m, " — reconcile via spec.memories_considered or pass --force");
        return Err(Error::conflict(verb, m));
    }
    if force { Ok(open) } else { Ok(Vec::new()) }
}

/// Event `i` is the last event of task `t` in the stream.
pub open spec fn last_event_at(events: Seq<TaskEvent>, t: Seq<char>, i: int) -> bool {
    &&& 0 <= i < events.len()
    &&& events[i].task_id@ == t
    &&& forall|j: int| i < j < events.len() ==> (#[trigger] events[j]).task_id@ != t
}

/// Task `t` appears in the stream and its last event is not `done`.
pub open spec fn unfinished(events: Seq<TaskEvent>, t: Seq<char>) -> bool {
    exists|i: int| last_event_at(events, t, i) && events[i].event != TaskEventKind::Done
}

/// A task blocks `spec.close` exactly when it has events and the latest of
/// them, the state `task.show` reports, is not `done`: a task last opened,
/// claimed or updated is unfinished.
pub proof fn lemma_unfinished_iff_latest_not_done(events: Seq<TaskEvent>, t: Seq<char>)
    ensures
        unfinished(events, t) <==> (events_of(events, t).len() > 0
            && events_of(events, t).last().event != TaskEventKind::Done),
        events_of(events, t).len() > 0 && (events_of(events, t).last().event == TaskEventKind::Open
            || events_of(events, t).last().event == TaskEventKind::Claim
            || events_of(events, t).last().event == TaskEventKind::Update) ==> unfinished(events, t),
    decreases events.len(),
{
    if events.len() == 0 {
        if unfinished(events, t) {
            let i = choose|i: int| last_event_at(events, t, i) && events[i].event != TaskEventKind::Done;
            assert(false);
        }
    } else {
        let n = events.len() - 1;
        let pre = events.drop_last();
        lemma_unfinished_iff_latest_not_done(pre, t);
        if events[n].task_id@ == t {
            assert(events_of(events, t) == events_of(pre, t).push(events[n]));
            assert(last_event_at(events, t, n));
            if unfinished(events, t) {
                let i = choose|i: int| last_event_at(events, t, i) && events[i].event != TaskEventKind::Done;
                if i < n {
                    assert(events[n].task_id@ != t);
                }
                assert(i == n);
            }
        } else {
            assert(events_of(events, t) == events_of(pre, t));
            if unfinished(events, t) {
                let i = choose|i: int| last_event_at(events, t, i) && events[i].event != TaskEventKind::Done;
                assert(i != n);
                assert(last_event_at(pre, t, i)) by {
                    assert forall|j: int| i < j < pre.len() implies (#[trigger] pre[j]).task_id@ != t by {
                        assert(pre[j] == events[j]);
                    }
                }
                assert(unfinished(pre, t));
            }
            if unfinished(pre, t) {
                let i = choose|i: int| last_event_at(pre, t, i) && pre[i].event != TaskEventKind::Done;
                assert(last_event_at(events, t, i)) by {
                    assert forall|j: int| i < j < events.len() implies (#[trigger] events[j]).task_id@ != t by {
                        if j < n {
                            assert(pre[j] == events[j]);
                        }
                    }
                }
                assert(events[i] == pre[i]);
                assert(unfinished(events, t));
            }
        }
    }
}

fn is_last_of_its_task(events: &Vec<TaskEvent>, i: usize) -> (r: bool)
    requires
        i < events.len(),
    ensures
        r == last_event_at(events@, events@[i as int].task_id@, i as int),
{
    let mut j: usize = i + 1;
    while j < events.len()
        invariant
            i < j <= events.len(),
            forall|k: int| i < k < j ==> (#[trigger] events@[k]).task_id@ != events@[i as int].task_id@,
        decreases events.len() - j,
    {
        if str_eq(events[j].task_id.as_str(), events[i].task_id.as_str()) {
            return false;
        }
        j = j + 1;
    }
    true
}

/// The tasks of a stream whose last event is not `done`, each once, in
/// ascending id order.
pub fn unfinished_tasks(events: &Vec<TaskEvent>) -> (r: Vec<String>)
    ensures
        sorted(views(r@)),
        distinct(views(r@)),
        forall|t: Seq<char>| member(t, views(r@)) <==> unfinished(events@, t),
{
    let mut found: Vec<String> = Vec::new();
    let mut i: usize = 0;
    while i < events.len()
        invariant
            i <= events.len(),
            distinct(views(found@)),
            forall|t: Seq<char>| member(t, views(found@)) <==>
                exists|k: int| 0 <= k < i && last_event_at(events@, t, k) && events@[k].event != TaskEventKind::Done,
        decreases events.len() - i,
    {
        let ghost before = found@;
        let last = is_last_of_its_task(events, i);
        let done = match events[i].event {
            TaskEventKind::Done => true,
            _ => false,
        };
        if last && !done {
            proof {
                let t = events@[i as int].task_id@;
                assert forall|j: int| 0 <= j < views(before).len() implies views(before)[j] != t by {
                    assert(member(views(before)[j], views(before)));
                    let k = choose|k: int| 0 <= k < i && last_event_at(events@, views(before)[j], k)
                        && events@[k].event != TaskEventKind::Done;
                    assert(k != i);
                }
            }
            found.push(events[i].task_id.clone());
            proof {
                let t = events@[i as int].task_id@;
                assert(views(found@) =~= views(before).push(t));
                assert forall|t2: Seq<char>| member(t2, views(found@)) <==>
                    exists|k: int| 0 <= k < i + 1 && last_event_at(events@, t2, k) && events@[k].event != TaskEventKind::Done by {
                    if member(t2, views(found@)) {
                        let j = choose|j: int| 0 <= j < views(found@).len() && views(found@)[j] == t2;
                        if j < views(before).len() {
                            assert(member(t2, views(before)));
                        }
                    }
                    if exists|k: int| 0 <= k < i + 1 && last_event_at(events@, t2, k) && events@[k].event != TaskEventKind::Done {
                        let k = choose|k: int| 0 <= k < i + 1 && last_event_at(events@, t2, k) && events@[k].event != TaskEventKind::Done;
                        if k < i {
                            assert(member(t2, views(before)));
                            let j = choose|j: int| 0 <= j < views(before).len() && views(before)[j] == t2;
                            assert(views(found@)[j] == t2);
                        } else {
                            assert(views(found@)[views(before).len() as int] == t2);
                        }
                    }
                }
            }
        } else {
            proof {
                assert forall|t2: Seq<char>| member(t2, views(found@)) <==>
                    exists|k: int| 0 <= k < i + 1 && last_event_at(events@, t2, k) && events@[k].event != TaskEventKind::Done by {
                    if exists|k: int| 0 <= k < i + 1 && last_event_at(events@, t2, k) && events@[k].event != TaskEventKind::Done {
                        let k = choose|k: int| 0 <= k < i + 1 && last_event_at(events@, t2, k) && events@[k].event != TaskEventKind::Done;
                        if k == i {
                            assert(last_event_at(events@, events@[i as int].task_id@, i as int));
                        }
                    }
                }
            }
        }
        i = i + 1;
    }
    let r = sort_strings(&found);
    proof {
        assert forall|t: Seq<char>| member(t, views(r@)) <==> unfinished(events@, t) by {
            if member(t, views(r@)) {
                let j = choose|j: int| 0 <= j < views(r@).len() && views(r@)[j] == t;
                assert(member(views(r@)[j], views(found@)));
            }
            if unfinished(events@, t) {
                assert(member(t, views(found@)));
                let j = choose|j: int| 0 <= j < views(found@).len() && views(found@)[j] == t;
                assert(member(views(found@)[j], views(r@)));
            }
        }
    }
    r
}

/// The message the unfinished-task gate refuses a close with.
pub open spec fn unfinished_message(spec_id: Seq<char>, tasks: Seq<Seq<char>>) -> Seq<char> {
    counted(tasks, " unfinished task(s) under spec '"@) + spec_id + "': "@ + joined(tasks, ", "@)
}

/// The unfinished-task gate of `spec.close`: every task in the spec's
/// stream must have `done` as its last event.
pub fn close_task_gate(spec_id: &str, verb: &str, events: &Vec<TaskEvent>) -> (r: Result<()>)
    ensures
        r is Ok <==> forall|t: Seq<char>| !unfinished(events@, t),
        r matches Err(e) ==> exists|tasks: Seq<Seq<char>>| {
            &&& sorted(tasks) && distinct(tasks)
            &&& forall|t: Seq<char>| member(t, tasks) <==> unfinished(events@, t)
            &&& e.is(verb@, Category::Conflict, unfinished_message(spec_id@, tasks))
        },
{
    let open = unfinished_tasks(events);
    if open.len() > 0 {
        let m = u64_to_decimal(open.len() as u64);
        let m = cat(m, " unfinished task(s) under spec '");
        let m = cat(m, spec_id);
        let m = cat(m, "': ");
        let ids = join(&open, ", ");
        let m = cat(m, ids.as_str());
        proof {
            assert(member(views(open@)[0], views(open@)));
            assert(unfinished(events@, views(open@)[0]));
            assert(views(open@).len() == open.len() as u64 as nat);
        }
        return Err(Error::conflict(verb, m));
    }
    proof {
        assert forall|t: Seq<char>| !unfinished(events@, t) by {
            if unfinished(events@, t) {
                assert(member(t, views(open@)));
            }
        }
    }
    Ok(())
}

/// The reference a closed spec leaves in each linked card's `specs` list.
pub open spec fn spec_ref_of(spec_id: Seq<char>) -> Seq<char> {
    ".orbit/specs/"@ + spec_id + "/spec.yaml"@
}

/// The reference a closed spec leaves in each linked card's `specs` list.
pub fn spec_ref(spec_id: &str) -> (r: String)
    ensures
        r@ == spec_ref_of(spec_id@),
{
    let r = cat(owned(".orbit/specs/"), spec_id);
    cat(r, "/spec.yaml")
}

/// `specs` after linking `reference`: unchanged if it is already there,
/// else with `reference` appended.
pub open spec fn linked(specs: Seq<Seq<char>>, reference: Seq<char>) -> Seq<Seq<char>> {
    if member(reference, specs) { specs } else { specs.push(reference) }
}

/// Adds `reference` to the card's `specs` unless it is already there.
/// Returns whether the card changed (and so must be written).
pub fn link_spec_ref(card: &mut Card, reference: &str) -> (changed: bool)
    ensures
        changed == !member(reference@, views(old(card).specs@)),
        views(final(card).specs@) == linked(views(old(card).specs@), reference@),
        *final(card) == (Card { specs: final(card).specs, ..*old(card) }),
{
    let mut i: usize = 0;
    while i < card.specs.len()
        invariant
            i <= card.specs.len(),
            forall|j: int| 0 <= j < i ==> (#[trigger] card.specs@[j])@ != reference@,
        decreases card.specs.len() - i,
    {
        if str_eq(card.specs[i].as_str(), reference) {
            assert(views(card.specs@)[i as int] == reference@);
            return false;
        }
        i = i + 1;
    }
    proof {
        assert forall|j: int| 0 <= j < views(card.specs@).len() implies views(card.specs@)[j] != reference@ by {
            assert(card.specs@[j]@ != reference@);
        }
    }
    let ghost before = card.specs@;
    card.specs.push(owned(reference));
    assert(views(card.specs@) =~= views(before).push(reference@));
    true
}

/// Linking a closed spec into a card is idempotent: linking twice leaves
/// the card's `specs` as linking once does.
pub proof fn lemma_link_idempotent(specs: Seq<Seq<char>>, reference: Seq<char>)
    ensures
        linked(linked(specs, reference), reference) == linked(specs, reference),
        member(reference, linked(specs, reference)),
{
    if !member(reference, specs) {
        let s2 = specs.push(reference);
        assert(s2[specs.len() as int] == reference);
    }
}

/// What the gates of `spec.close` let through: the blocking criteria and
/// the unreconciled memories that `force` waved through, and the
/// deferrable criteria still open.
pub struct CloseGates {
    pub forced_unchecked: Vec<String>,
    pub deferrable_open: Vec<String>,
    pub forced_unreconciled: Vec<String>,
}

/// The gates of `spec.close`, in the order the close meets them, once the
/// spec, the keys of its matching memories (`matched`, see
/// `close_memory_gate`) and its task stream are read: a closed spec is
/// refused; then unchecked blocking criteria unless `force`; then
/// unreconciled matching memories unless `force`; then unfinished tasks,
/// whatever `force` says.
pub fn close_gates(spec: &Spec, force: bool, verb: &str, matched: &Vec<String>, events: &Vec<TaskEvent>)
    -> (r: Result<CloseGates>)
    ensures
        ({
            let blocking = selected_ids(spec.acceptance_criteria@, AcSelection::BlockingOpen);
            let open_mem = unreconciled(views(matched@), considered_keys(*spec));
            let closed = spec.status == SpecStatus::Closed;
            let ac_refused = blocking.len() > 0 && !force;
            let mem_refused = open_mem.len() > 0 && !force;
            let tasks_done = forall|t: Seq<char>| !unfinished(events@, t);
            &&& (r is Ok <==> !closed && !ac_refused && !mem_refused && tasks_done)
            &&& (closed ==> (r matches Err(e) && e.is(verb@, Category::Conflict, "spec '"@ + spec.id@ + "' already closed"@)))
            &&& (!closed && ac_refused ==> (r matches Err(e) && e.is(verb@, Category::Conflict, blocking_message(*spec))))
            &&& (!closed && !ac_refused && mem_refused ==> (r matches Err(e)
                && e.is(verb@, Category::Conflict, unreconciled_message(*spec, open_mem))))
            &&& (!closed && !ac_refused && !mem_refused && !tasks_done ==> (r matches Err(e)
                && exists|tasks: Seq<Seq<char>>| {
                    &&& sorted(tasks) && distinct(tasks)
                    &&& forall|t: Seq<char>| member(t, tasks) <==> unfinished(events@, t)
                    &&& e.is(verb@, Category::Conflict, unfinished_message(spec.id@, tasks))
                }))
            &&& (r matches Ok(g) ==> {
                &&& views(g.forced_unchecked@) == (if force { blocking } else { Seq::empty() })
                &&& views(g.deferrable_open@) == selected_ids(spec.acceptance_criteria@, AcSelection::DeferrableOpen)
                &&& views(g.forced_unreconciled@) == (if force { open_mem } else { Seq::empty() })
            })
        }),
{
    close_status_gate(spec, verb)?;
    let pre = close_ac_preflight(spec, force, verb)?;
    let forced_unreconciled = close_memory_gate(spec, force, verb, matched)?;
    close_task_gate(spec.id.as_str(), verb, events)?;
    Ok(CloseGates { forced_unchecked: pre.forced_unchecked, deferrable_open: pre.deferrable_open, forced_unreconciled })
}

/// Links the closed spec `spec_id` into each of its linked cards (given
/// with their slugs, in the spec's order): the cards with the reference
/// added where it was missing, and the slugs of the cards that changed
/// (and so must be written), in order.
pub fn link_closed_spec(spec_id: &str, cards: Vec<(String, Card)>) -> (r: (Vec<(String, Card)>, Vec<String>))
    ensures
        r.0.len() == cards.len(),
        forall|i: int| 0 <= i < cards.len() ==> {
            &&& (#[trigger] r.0@[i]).0 == cards@[i].0
            &&& views(r.0@[i].1.specs@) == linked(views(cards@[i].1.specs@), spec_ref_of(spec_id@))
            &&& r.0@[i].1 == (Card { specs: r.0@[i].1.specs, ..cards@[i].1 })
        },
        views(r.1@) == changed_slugs(cards@, spec_ref_of(spec_id@)),
{
    let reference = spec_ref(spec_id);
    let ghost all = cards@;
    let mut rest = cards;
    let mut out: Vec<(String, Card)> = Vec::new();
    let mut changed: Vec<String> = Vec::new();
    let mut done: usize = 0;
    assert(all.len() == rest.len());
    while rest.len() > 0
        invariant
            rest@ == all.subrange(done as int, all.len() as int),
            done <= all.len(),
            all.len() <= usize::MAX,
            reference@ == spec_ref_of(spec_id@),
            out.len() == done,
            forall|i: int| 0 <= i < done ==> {
                &&& (#[trigger] out@[i]).0 == all[i].0
                &&& views(out@[i].1.specs@) == linked(views(all[i].1.specs@), reference@)
                &&& out@[i].1 == (Card { specs: out@[i].1.specs, ..all[i].1 })
            },
            views(changed@) == changed_slugs(all.subrange(0, done as int), reference@),
        decreases rest.len(),
    {
        let (slug, mut card) = rest.remove(0);
        proof {
            assert(all[done as int] == (slug, card));
            assert(rest@ =~= all.subrange(done + 1, all.len() as int));
            assert(all.subrange(0, done + 1).drop_last() =~= all.subrange(0, done as int));
            assert(all.subrange(0, done + 1).last() == (slug, card));
        }
        let did = link_spec_ref(&mut card, reference.as_str());
        if did {
            let ghost before = changed@;
            changed.push(slug.clone());
            assert(views(changed@) =~= views(before).push(slug@));
        }
        out.push((slug, card));
        done = done + 1;
    }
    assert(all.subrange(0, all.len() as int) =~= all);
    (out, changed)
}

/// The slugs of the cards among `cards` that do not yet list `reference`,
/// in order.
pub open spec fn changed_slugs(cards: Seq<(String, Card)>, reference: Seq<char>) -> Seq<Seq<char>>
    decreases cards.len(),
{
    if cards.len() == 0 {
        Seq::empty()
    } else {
        let rest = changed_slugs(cards.drop_last(), reference);
        if member(reference, views(cards.last().1.specs@)) { rest } else { rest.push(cards.last().0@) }
    }
}

/// The result of a close that went through: the spec, now closed, with
/// what the gates waved through, the cards that changed and the topology
/// warnings.
pub fn closed_result(spec: Spec, gates: CloseGates, cards_updated: Vec<String>,
    topology_warnings: Vec<TopologyDriftEntry>) -> (r: SpecCloseResult)
    ensures
        r.spec == (Spec { status: SpecStatus::Closed, ..spec }),
        r.cards_updated == cards_updated,
        r.forced_unchecked == gates.forced_unchecked,
        r.deferrable_open == gates.deferrable_open,
        r.forced_unreconciled == gates.forced_unreconciled,
        r.topology_warnings == topology_warnings,
{
    let mut spec = spec;
    spec.status = SpecStatus::Closed;
    SpecCloseResult {
        spec,
        cards_updated,
        forced_unchecked: gates.forced_unchecked,
        deferrable_open: gates.deferrable_open,
        forced_unreconciled: gates.forced_unreconciled,
        topology_warnings,
    }
}

} // verus!
