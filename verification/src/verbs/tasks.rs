//! Task lifecycle over a spec's append-only task stream: reducing a task's
//! events to its current state, and the transitions `task.open`,
//! `task.claim`, `task.update` and `task.done` allow.
//!
//! A task is opened once; it can be claimed only while `open`; it can be
//! updated or finished at any point before it is `done`; nothing is
//! appended after `done`.

use vstd::prelude::*;
use crate::error::{Error, Category, Result};
use crate::schema::{TaskEvent, TaskEventKind};
use crate::text::{cat, owned, str_eq, clone_strings};
use crate::verbs::results::{TaskState, TaskShowResult};

verus! {

/// Wire spelling of an event kind.
pub open spec fn kind_name(kind: TaskEventKind) -> Seq<char> {
    match kind {
        TaskEventKind::Open => "open"@,
        TaskEventKind::Claim => "claim"@,
        TaskEventKind::Update => "update"@,
        TaskEventKind::Done => "done"@,
    }
}

/// Wire spelling of an event kind: `open`, `claim`, `update`, `done`.
pub fn task_event_kind_str(kind: TaskEventKind) -> (s: &'static str)
    ensures
        s@ == kind_name(kind),
{
    match kind {
        TaskEventKind::Open => "open",
        TaskEventKind::Claim => "claim",
        TaskEventKind::Update => "update",
        TaskEventKind::Done => "done",
    }
}

/// The events of task `t`, in stream order.
pub open spec fn events_of(events: Seq<TaskEvent>, t: Seq<char>) -> Seq<TaskEvent>
    decreases events.len(),
{
    if events.len() == 0 {
        Seq::empty()
    } else {
        let rest = events_of(events.drop_last(), t);
        if events.last().task_id@ == t { rest.push(events.last()) } else { rest }
    }
}

pub(crate) fn copy_opt(o: &Option<String>) -> (r: Option<String>)
    ensures
        r == *o,
{
    match o {
        Some(s) => Some(s.clone()),
        None => None,
    }
}

/// `a` and `b` hold the same event (their label lists hold the same
/// strings).
pub open spec fn same_event(a: TaskEvent, b: TaskEvent) -> bool {
    a == (TaskEvent { labels: a.labels, ..b }) && a.labels@ == b.labels@
}

/// `a` and `b` hold the same events in the same order.
pub open spec fn same_events(a: Seq<TaskEvent>, b: Seq<TaskEvent>) -> bool {
    a.len() == b.len() && forall|i: int| 0 <= i < a.len() ==> same_event(#[trigger] a[i], b[i])
}

fn copy_event(e: &TaskEvent) -> (r: TaskEvent)
    ensures
        same_event(r, *e),
{
    let labels = clone_strings(&e.labels);
    TaskEvent {
        task_id: e.task_id.clone(),
        spec_id: e.spec_id.clone(),
        event: e.event,
        body: copy_opt(&e.body),
        labels,
        timestamp: e.timestamp.clone(),
    }
}

/// The events of task `t`, in stream order.
pub fn task_events_of(events: &Vec<TaskEvent>, t: &str) -> (r: Vec<TaskEvent>)
    ensures
        same_events(r@, events_of(events@, t@)),
{
    let mut r: Vec<TaskEvent> = Vec::new();
    let mut i: usize = 0;
    while i < events.len()
        invariant
            i <= events.len(),
            same_events(r@, events_of(events@.subrange(0, i as int), t@)),
        decreases events.len() - i,
    {
        let ghost before = r@;
        if str_eq(events[i].task_id.as_str(), t) {
            r.push(copy_event(&events[i]));
            assert(r@[before.len() as int] == r@.last());
        }
        assert(events@.subrange(0, i + 1).drop_last() =~= events@.subrange(0, i as int));
        i = i + 1;
    }
    assert(events@.subrange(0, events.len() as int) =~= events@);
    r
}

/// `s` is the state a task with event list `evs` (non-empty) is in: the
/// fields of its last event, with the number of events.
pub open spec fn reduces_to(evs: Seq<TaskEvent>, s: TaskState) -> bool {
    let last = evs.last();
    &&& s.task_id@ == last.task_id@
    &&& s.spec_id@ == last.spec_id@
    &&& s.state@ == kind_name(last.event)
    &&& s.body == last.body
    &&& s.labels@ == last.labels@
    &&& s.timestamp@ == last.timestamp@
    &&& s.event_count == evs.len()
}

/// Reduces one task's ordered events to its current state; `None` for no
/// events.
pub fn reduce_task_events(events: &Vec<TaskEvent>) -> (r: Option<TaskState>)
    ensures
        r is None <==> events.len() == 0,
        r matches Some(s) ==> reduces_to(events@, s),
{
    reduce_events_like(events, Ghost(events@))
}

pub(crate) fn reduce_events_like(events: &Vec<TaskEvent>, like: Ghost<Seq<TaskEvent>>) -> (r: Option<TaskState>)
    requires
        same_events(events@, like@),
    ensures
        r is None <==> like@.len() == 0,
        r matches Some(s) ==> reduces_to(like@, s),
{
    proof {
        if events.len() > 0 {
            assert(same_event(events@[events.len() - 1], like@[like@.len() - 1]));
        }
    }
    if events.len() == 0 {
        return None;
    }
    let last = &events[events.len() - 1];
    Some(TaskState {
        task_id: last.task_id.clone(),
        spec_id: last.spec_id.clone(),
        state: owned(task_event_kind_str(last.event)),
        body: copy_opt(&last.body),
        labels: clone_strings(&last.labels),
        timestamp: last.timestamp.clone(),
        event_count: events.len(),
    })
}

/// A task-state filter names a known state.
pub open spec fn known_state(s: Seq<char>) -> bool {
    s == "open"@ || s == "claim"@ || s == "update"@ || s == "done"@
}

/// Refuses a `task.list` state filter that names no state.
pub fn validate_state_filter(verb: &str, state: &Option<String>) -> (r: Result<()>)
    ensures
        r is Ok <==> (state matches Some(s) ==> known_state(s@)),
        r matches Err(e) ==> state matches Some(s) && e.is(verb@, Category::Malformed,
            "state must be one of open|claim|update|done, got '"@ + s@ + "'"@),
{
    match state {
        None => Ok(()),
        Some(s) => {
            if str_eq(s.as_str(), "open") || str_eq(s.as_str(), "claim")
                || str_eq(s.as_str(), "update") || str_eq(s.as_str(), "done") {
                proof {
                    reveal_strlit("open");
                    reveal_strlit("claim");
                    reveal_strlit("update");
                    reveal_strlit("done");
                }
                Ok(())
            } else {
                let m = cat(owned("state must be one of open|claim|update|done, got '"), s.as_str());
                Err(Error::malformed(verb, cat(m, "'")))
            }
        },
    }
}

/// What `task.open` refuses once the stream is read: a task id that
/// already has events.
pub fn task_open_conflict(verb: &str, spec_id: &str, task_id: &str, existing: &Vec<TaskEvent>) -> (r: Result<()>)
    ensures
        r is Ok <==> forall|i: int| 0 <= i < existing.len() ==> (#[trigger] existing@[i]).task_id@ != task_id@,
        r matches Err(e) ==> e.is(verb@, Category::Conflict,
            "task '"@ + task_id@ + "' already exists in spec '"@ + spec_id@ + "'"@),
{
    let mut i: usize = 0;
    while i < existing.len()
        invariant
            i <= existing.len(),
            forall|j: int| 0 <= j < i ==> (#[trigger] existing@[j]).task_id@ != task_id@,
        decreases existing.len() - i,
    {
        if str_eq(existing[i].task_id.as_str(), task_id) {
            let m = cat(owned("task '"), task_id);
            let m = cat(m, "' already exists in spec '");
            let m = cat(m, spec_id);
            return Err(Error::conflict(verb, cat(m, "'")));
        }
        i = i + 1;
    }
    Ok(())
}

/// Why a transition of kind `kind` is refused from state `prev`, if it is.
pub open spec fn transition_refusal(kind: TaskEventKind, prev: TaskEventKind) -> Option<Seq<char>> {
    match kind {
        TaskEventKind::Claim => if prev != TaskEventKind::Open {
            Some("task in state '"@ + kind_name(prev) + "' cannot be claimed; only 'open' tasks are claimable"@)
        } else {
            None
        },
        TaskEventKind::Update => if prev == TaskEventKind::Done {
            Some("task already done; updates are not appended after done"@)
        } else {
            None
        },
        TaskEventKind::Done => if prev == TaskEventKind::Done {
            Some("task already done"@)
        } else {
            None
        },
        TaskEventKind::Open => Some("task already exists"@),
    }
}

/// The message a lifecycle event on an unknown task is refused with.
pub open spec fn no_task_message(spec_id: Seq<char>, task_id: Seq<char>) -> Seq<char> {
    "no task '"@ + task_id + "' in spec '"@ + spec_id + "'"@
}

/// The decision behind `task.claim`, `task.update` and `task.done` once the
/// spec's stream is read: not-found when the task has no events, conflict
/// when its current state does not allow the transition.
pub fn check_lifecycle_transition(
    verb: &str,
    spec_id: &str,
    task_id: &str,
    kind: TaskEventKind,
    events: &Vec<TaskEvent>,
) -> (r: Result<()>)
    requires
        kind != TaskEventKind::Open,
    ensures
        ({
            let evs = events_of(events@, task_id@);
            if evs.len() == 0 {
                r matches Err(e) && e.is(verb@, Category::NotFound, no_task_message(spec_id@, task_id@))
            } else {
                match transition_refusal(kind, evs.last().event) {
                    None => r is Ok,
                    Some(m) => r matches Err(e) && e.is(verb@, Category::Conflict, m),
                }
            }
        }),
{
    let evs = task_events_of(events, task_id);
    proof {
        if evs.len() > 0 {
            assert(same_event(evs@[evs.len() - 1], events_of(events@, task_id@).last()));
        }
    }
    if evs.len() == 0 {
        let m = cat(owned("no task '"), task_id);
        let m = cat(m, "' in spec '");
        let m = cat(m, spec_id);
        return Err(Error::not_found(verb, cat(m, "'")));
    }
    let prev = evs[evs.len() - 1].event;
    match kind {
        TaskEventKind::Claim => {
            match prev {
                TaskEventKind::Open => Ok(()),
                _ => {
                    let m = cat(owned("task in state '"), task_event_kind_str(prev));
                    Err(Error::conflict(verb, cat(m, "' cannot be claimed; only 'open' tasks are claimable")))
                },
            }
        },
        TaskEventKind::Update => {
            match prev {
                TaskEventKind::Done => Err(Error::conflict(verb,
                    owned("task already done; updates are not appended after done"))),
                _ => Ok(()),
            }
        },
        _ => {
            match prev {
                TaskEventKind::Done => Err(Error::conflict(verb, owned("task already done"))),
                _ => Ok(()),
            }
        },
    }
}

/// Once a task is done, no lifecycle transition is accepted on it.
pub proof fn lemma_done_is_final(kind: TaskEventKind)
    ensures
        transition_refusal(kind, TaskEventKind::Done) is Some,
{
}

/// Only an `open` task can be claimed, and an `open` task can be claimed,
/// updated or finished.
pub proof fn lemma_claim_only_from_open(prev: TaskEventKind)
    ensures
        transition_refusal(TaskEventKind::Claim, prev) is None <==> prev == TaskEventKind::Open,
        prev == TaskEventKind::Open ==> transition_refusal(TaskEventKind::Update, prev) is None
            && transition_refusal(TaskEventKind::Done, prev) is None,
{
}

/// `done` is the only terminal state: from every other state (open,
/// claimed or updated) a task can still be updated and finished, and both
/// are refused exactly when it is already done.
pub proof fn lemma_only_done_is_terminal(prev: TaskEventKind)
    ensures
        transition_refusal(TaskEventKind::Done, prev) is None <==> prev != TaskEventKind::Done,
        transition_refusal(TaskEventKind::Update, prev) is None <==> prev != TaskEventKind::Done,
        prev == TaskEventKind::Claim ==> transition_refusal(TaskEventKind::Done, prev) is None,
        prev == TaskEventKind::Update ==> transition_refusal(TaskEventKind::Done, prev) is None,
{
}

/// On a task's stream, `task.done` is accepted exactly when the task
/// exists and its latest event is not `done`: a claimed or updated task
/// can be finished.
pub proof fn lemma_done_accepted_unless_done(events: Seq<TaskEvent>, t: Seq<char>)
    requires
        events_of(events, t).len() > 0,
    ensures
        transition_refusal(TaskEventKind::Done, events_of(events, t).last().event) is None
            <==> events_of(events, t).last().event != TaskEventKind::Done,
{
}

/// `task.show` on a read stream: the task's events and its reduced state;
/// not-found when the task has no events.
pub fn task_show(verb: &str, spec_id: &str, task_id: &str, events: &Vec<TaskEvent>) -> (r: Result<TaskShowResult>)
    ensures
        ({
            let evs = events_of(events@, task_id@);
            &&& (r is Err <==> evs.len() == 0)
            &&& (r matches Err(e) ==> e.is(verb@, Category::NotFound, no_task_message(spec_id@, task_id@)))
            &&& (r matches Ok(res) ==> same_events(res.events@, evs) && reduces_to(evs, res.state))
        }),
{
    let evs = task_events_of(events, task_id);
    match reduce_events_like(&evs, Ghost(events_of(events@, task_id@))) {
        None => {
            let m = cat(owned("no task '"), task_id);
            let m = cat(m, "' in spec '");
            let m = cat(m, spec_id);
            Err(Error::not_found(verb, cat(m, "'")))
        },
        Some(state) => Ok(TaskShowResult { state, events: evs }),
    }
}

} // verus!
