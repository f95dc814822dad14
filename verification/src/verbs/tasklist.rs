//! `task.list` and `task.ready`: every task of the walked spec streams
//! reduced to its current state, ordered by spec and task id.

use vstd::prelude::*;
use crate::error::{Category, Result};
use crate::schema::TaskEvent;
use crate::text::{owned, str_eq, clone_strings};
use crate::order::{views, member, has_string, is_permutation, pairs_sorted_stably, pair_keys, pair_sort_order,
    lemma_pairs_sorted_unique};
use crate::verbs::tasks::{events_of, reduces_to, reduce_events_like, task_events_of, copy_opt, known_state,
    validate_state_filter};
use crate::verbs::resolve::opt_view;
use crate::verbs::results::{TaskListResult, TaskState};

verus! {

/// The task ids of `events`, each once, in order of first appearance.
pub open spec fn task_ids(events: Seq<TaskEvent>) -> Seq<Seq<char>>
    decreases events.len(),
{
    if events.len() == 0 {
        Seq::empty()
    } else {
        let rest = task_ids(events.drop_last());
        if member(events.last().task_id@, rest) { rest } else { rest.push(events.last().task_id@) }
    }
}

/// The events of each task, stream by stream, the tasks of a stream in
/// order of first appearance.
pub open spec fn task_groups(streams: Seq<Seq<TaskEvent>>) -> Seq<Seq<TaskEvent>>
    decreases streams.len(),
{
    if streams.len() == 0 {
        Seq::empty()
    } else {
        let s = streams.last();
        task_groups(streams.drop_last()) + task_ids(s).map_values(|t: Seq<char>| events_of(s, t))
    }
}

/// The event lists of the walked streams.
pub open spec fn stream_views(v: Seq<Vec<TaskEvent>>) -> Seq<Seq<TaskEvent>> {
    v.map_values(|s: Vec<TaskEvent>| s@)
}

/// A task's sort key: the spec id and task id of its last event.
pub open spec fn state_key(g: Seq<TaskEvent>) -> (Seq<char>, Seq<char>) {
    (g.last().spec_id@, g.last().task_id@)
}

/// `r` holds the current state of every task of `streams`, ordered by
/// spec id then task id (a stable sort of the tasks taken stream by
/// stream).
pub open spec fn collected(r: Seq<TaskState>, streams: Seq<Seq<TaskEvent>>) -> bool {
    let gs = task_groups(streams);
    &&& r.len() == gs.len()
    &&& exists|ord: Seq<usize>| {
        &&& is_permutation(ord, gs.len())
        &&& pairs_sorted_stably(ord, gs.map_values(|g: Seq<TaskEvent>| state_key(g)))
        &&& forall|i: int| 0 <= i < r.len() ==> reduces_to(gs[ord[i] as int], #[trigger] r[i])
    }
}

proof fn lemma_listed_task_has_events(events: Seq<TaskEvent>, t: Seq<char>)
    requires
        member(t, task_ids(events)),
    ensures
        events_of(events, t).len() > 0,
    decreases events.len(),
{
    if events.len() > 0 {
        let rest = task_ids(events.drop_last());
        if member(t, rest) {
            lemma_listed_task_has_events(events.drop_last(), t);
            lemma_events_of_grows(events, t);
        }
    }
}

proof fn lemma_events_of_grows(events: Seq<TaskEvent>, t: Seq<char>)
    requires
        events.len() > 0,
    ensures
        events_of(events, t).len() >= events_of(events.drop_last(), t).len(),
{
}

fn task_id_list(events: &Vec<TaskEvent>) -> (r: Vec<String>)
    ensures
        views(r@) == task_ids(events@),
{
    let mut r: Vec<String> = Vec::new();
    let mut i: usize = 0;
    while i < events.len()
        invariant
            i <= events.len(),
            views(r@) == task_ids(events@.subrange(0, i as int)),
        decreases events.len() - i,
    {
        assert(events@.subrange(0, i + 1).drop_last() =~= events@.subrange(0, i as int));
        if !has_string(&r, events[i].task_id.as_str()) {
            let ghost before = r@;
            r.push(events[i].task_id.clone());
            assert(views(r@) =~= views(before).push(events@[i as int].task_id@));
        }
        i = i + 1;
    }
    assert(events@.subrange(0, events.len() as int) =~= events@);
    r
}

/// `a` holds the same state as `b`.
pub open spec fn same_state(a: TaskState, b: TaskState) -> bool {
    &&& a.task_id@ == b.task_id@
    &&& a.spec_id@ == b.spec_id@
    &&& a.state@ == b.state@
    &&& a.body == b.body
    &&& a.labels@ == b.labels@
    &&& a.timestamp@ == b.timestamp@
    &&& a.event_count == b.event_count
}

fn copy_state(s: &TaskState) -> (r: TaskState)
    ensures
        same_state(r, *s),
{
    TaskState {
        task_id: s.task_id.clone(),
        spec_id: s.spec_id.clone(),
        state: s.state.clone(),
        body: copy_opt(&s.body),
        labels: clone_strings(&s.labels),
        timestamp: s.timestamp.clone(),
        event_count: s.event_count,
    }
}

/// The current state of each task, stream by stream, tasks in order of
/// first appearance.
fn grouped_states(streams: &Vec<Vec<TaskEvent>>) -> (r: Vec<TaskState>)
    ensures
        r.len() == task_groups(stream_views(streams@)).len(),
        forall|i: int| 0 <= i < r.len() ==> reduces_to(task_groups(stream_views(streams@))[i], #[trigger] r@[i]),
{
    let mut r: Vec<TaskState> = Vec::new();
    let mut k: usize = 0;
    while k < streams.len()
        invariant
            k <= streams.len(),
            r.len() == task_groups(stream_views(streams@.subrange(0, k as int))).len(),
            forall|i: int| 0 <= i < r.len() ==> reduces_to(task_groups(stream_views(streams@.subrange(0, k as int)))[i], #[trigger] r@[i]),
        decreases streams.len() - k,
    {
        let stream = &streams[k];
        let ghost done = task_groups(stream_views(streams@.subrange(0, k as int)));
        let ghost s = stream@;
        let ids = task_id_list(stream);
        let mut j: usize = 0;
        while j < ids.len()
            invariant
                k < streams.len(),
                stream == streams@[k as int],
                s == stream@,
                done == task_groups(stream_views(streams@.subrange(0, k as int))),
                views(ids@) == task_ids(s),
                j <= ids.len(),
                r.len() == done.len() + j,
                forall|i: int| 0 <= i < r.len() ==> reduces_to(
                    (done + task_ids(s).map_values(|t: Seq<char>| events_of(s, t)))[i], #[trigger] r@[i]),
            decreases ids.len() - j,
        {
            let ghost t = ids@[j as int]@;
            assert(views(ids@)[j as int] == t);
            proof { lemma_listed_task_has_events(s, t); }
            let evs = task_events_of(stream, ids[j].as_str());
            let st = reduce_events_like(&evs, Ghost(events_of(s, t)));
            match st {
                Some(st) => {
                    r.push(st);
                },
                None => {},
            }
            j = j + 1;
        }
        proof {
            let srcs = stream_views(streams@.subrange(0, k + 1));
            assert(srcs.drop_last() =~= stream_views(streams@.subrange(0, k as int)));
            assert(srcs.last() == s);
        }
        k = k + 1;
    }
    assert(streams@.subrange(0, streams.len() as int) =~= streams@);
    r
}

/// Every task of the walked spec streams (one event list per spec, in
/// the order the specs were walked) reduced to its current state, ordered
/// by spec id then task id.
pub fn collect_task_states(streams: &Vec<Vec<TaskEvent>>) -> (r: Vec<TaskState>)
    ensures
        collected(r@, stream_views(streams@)),
{
    let states = grouped_states(streams);
    let ghost gs = task_groups(stream_views(streams@));
    let mut firsts: Vec<String> = Vec::new();
    let mut seconds: Vec<String> = Vec::new();
    let mut i: usize = 0;
    while i < states.len()
        invariant
            i <= states.len(),
            states.len() == gs.len(),
            gs == task_groups(stream_views(streams@)),
            forall|j: int| 0 <= j < states.len() ==> reduces_to(gs[j], #[trigger] states@[j]),
            firsts.len() == i,
            seconds.len() == i,
            forall|j: int| 0 <= j < i ==> (#[trigger] firsts@[j])@ == state_key(gs[j]).0 && seconds@[j]@ == state_key(gs[j]).1,
        decreases states.len() - i,
    {
        firsts.push(states[i].spec_id.clone());
        seconds.push(states[i].task_id.clone());
        proof {
            assert(reduces_to(gs[i as int], states@[i as int]));
        }
        i = i + 1;
    }
    assert forall|j: int| 0 <= j < gs.len() implies #[trigger] pair_keys(firsts@, seconds@)[j]
        == gs.map_values(|g: Seq<TaskEvent>| state_key(g))[j] by {
        assert(firsts@[j]@ == state_key(gs[j]).0);
    }
    assert(pair_keys(firsts@, seconds@) =~= gs.map_values(|g: Seq<TaskEvent>| state_key(g)));
    let ord = pair_sort_order(&firsts, &seconds);
    let mut out: Vec<TaskState> = Vec::new();
    let mut k: usize = 0;
    while k < ord.len()
        invariant
            k <= ord.len(),
            ord.len() == states.len(),
            states.len() == gs.len(),
            is_permutation(ord@, states.len() as nat),
            forall|j: int| 0 <= j < states.len() ==> reduces_to(gs[j], #[trigger] states@[j]),
            out.len() == k,
            forall|j: int| 0 <= j < k ==> reduces_to(gs[ord@[j] as int], #[trigger] out@[j]),
        decreases ord.len() - k,
    {
        let s = copy_state(&states[ord[k]]);
        proof {
            assert(reduces_to(gs[ord@[k as int] as int], states@[ord@[k as int] as int]));
        }
        out.push(s);
        k = k + 1;
    }
    proof {
        assert(pairs_sorted_stably(ord@, gs.map_values(|g: Seq<TaskEvent>| state_key(g))));
    }
    out
}

/// The states of `states` in state `want` (all of them for `None`), in
/// order.
pub open spec fn in_state(states: Seq<TaskState>, want: Option<Seq<char>>) -> Seq<TaskState>
    decreases states.len(),
{
    if states.len() == 0 {
        Seq::empty()
    } else {
        let rest = in_state(states.drop_last(), want);
        match want {
            Some(w) => if states.last().state@ == w { rest.push(states.last()) } else { rest },
            None => rest.push(states.last()),
        }
    }
}

fn keep_state(states: Vec<TaskState>, want: &Option<String>) -> (r: Vec<TaskState>)
    ensures
        r@ == in_state(states@, opt_view(*want)),
{
    let ghost w = opt_view(*want);
    let ghost all = states@;
    let mut rest = states;
    let mut out: Vec<TaskState> = Vec::new();
    let mut done: usize = 0;
    assert(all.len() == rest.len());
    while rest.len() > 0
        invariant
            rest@ == all.subrange(done as int, all.len() as int),
            done <= all.len(),
            all.len() <= usize::MAX,
            w == opt_view(*want),
            out@ == in_state(all.subrange(0, done as int), w),
        decreases rest.len(),
    {
        let s = rest.remove(0);
        proof {
            assert(all[done as int] == s);
            assert(rest@ =~= all.subrange(done + 1, all.len() as int));
            assert(all.subrange(0, done + 1).drop_last() =~= all.subrange(0, done as int));
            assert(all.subrange(0, done + 1).last() == s);
        }
        let keep = match want {
            Some(x) => str_eq(s.state.as_str(), x.as_str()),
            None => true,
        };
        if keep {
            out.push(s);
        }
        done = done + 1;
    }
    assert(all.subrange(0, all.len() as int) =~= all);
    out
}

/// `task.list` once the walked spec streams are read: the collected task
/// states in state `state` (all of them without one). A state that names
/// none is refused.
pub fn task_list(verb: &str, state: &Option<String>, streams: &Vec<Vec<TaskEvent>>) -> (r: Result<TaskListResult>)
    ensures
        r is Ok <==> (state matches Some(s) ==> known_state(s@)),
        r matches Err(e) ==> state matches Some(s) && e.is(verb@, Category::Malformed,
            "state must be one of open|claim|update|done, got '"@ + s@ + "'"@),
        r matches Ok(l) ==> exists|all: Seq<TaskState>| collected(all, stream_views(streams@))
            && l.tasks@ == in_state(all, opt_view(*state)),
{
    validate_state_filter(verb, state)?;
    let all = collect_task_states(streams);
    let ghost a = all@;
    let tasks = keep_state(all, state);
    assert(collected(a, stream_views(streams@)));
    Ok(TaskListResult { tasks })
}

/// `task.ready` once the walked spec streams are read: the collected task
/// states that are `open`.
pub fn task_ready(streams: &Vec<Vec<TaskEvent>>) -> (r: TaskListResult)
    ensures
        exists|all: Seq<TaskState>| collected(all, stream_views(streams@)) && r.tasks@ == in_state(all, Some("open"@)),
{
    let all = collect_task_states(streams);
    let ghost a = all@;
    let open = Some(owned("open"));
    let tasks = keep_state(all, &open);
    assert(collected(a, stream_views(streams@)));
    TaskListResult { tasks }
}

/// `a` and `b` hold the same states in the same order.
pub open spec fn same_states(a: Seq<TaskState>, b: Seq<TaskState>) -> bool {
    a.len() == b.len() && forall|i: int| 0 <= i < a.len() ==> same_state(#[trigger] a[i], b[i])
}

/// The task listing is determined by the streams: any two collections of
/// the same streams hold the same states in the same order.
pub proof fn lemma_collected_unique(streams: Seq<Seq<TaskEvent>>, a: Seq<TaskState>, b: Seq<TaskState>)
    requires
        collected(a, streams),
        collected(b, streams),
    ensures
        same_states(a, b),
{
    let gs = task_groups(streams);
    let keys = gs.map_values(|g: Seq<TaskEvent>| state_key(g));
    let oa = choose|ord: Seq<usize>| {
        &&& is_permutation(ord, gs.len())
        &&& pairs_sorted_stably(ord, gs.map_values(|g: Seq<TaskEvent>| state_key(g)))
        &&& forall|i: int| 0 <= i < a.len() ==> reduces_to(gs[ord[i] as int], #[trigger] a[i])
    };
    let ob = choose|ord: Seq<usize>| {
        &&& is_permutation(ord, gs.len())
        &&& pairs_sorted_stably(ord, gs.map_values(|g: Seq<TaskEvent>| state_key(g)))
        &&& forall|i: int| 0 <= i < b.len() ==> reduces_to(gs[ord[i] as int], #[trigger] b[i])
    };
    lemma_pairs_sorted_unique(oa, ob, keys);
    assert forall|i: int| 0 <= i < a.len() implies same_state(#[trigger] a[i], b[i]) by {
        assert(reduces_to(gs[oa[i] as int], a[i]));
        assert(reduces_to(gs[ob[i] as int], b[i]));
    }
}

proof fn lemma_in_state_same(a: Seq<TaskState>, b: Seq<TaskState>, want: Option<Seq<char>>)
    requires
        same_states(a, b),
    ensures
        same_states(in_state(a, want), in_state(b, want)),
    decreases a.len(),
{
    if a.len() > 0 {
        assert(same_state(a[a.len() - 1], b[b.len() - 1]));
        assert(same_states(a.drop_last(), b.drop_last())) by {
            assert forall|i: int| 0 <= i < a.drop_last().len() implies
                same_state(#[trigger] a.drop_last()[i], b.drop_last()[i]) by {
                assert(same_state(a[i], b[i]));
            }
        }
        lemma_in_state_same(a.drop_last(), b.drop_last(), want);
        let ra = in_state(a.drop_last(), want);
        let rb = in_state(b.drop_last(), want);
        assert forall|i: int| 0 <= i < in_state(a, want).len() implies
            same_state(#[trigger] in_state(a, want)[i], in_state(b, want)[i]) by {
            if i < ra.len() {
                assert(same_state(ra[i], rb[i]));
            }
        }
    }
}

/// `task.ready` lists what `task.list --state open` lists: over the same
/// streams the two hold the same states in the same order.
pub proof fn lemma_ready_is_list_open(streams: Seq<Seq<TaskEvent>>, listed: Seq<TaskState>, ready: Seq<TaskState>)
    requires
        exists|all: Seq<TaskState>| collected(all, streams) && listed == in_state(all, Some("open"@)),
        exists|all: Seq<TaskState>| collected(all, streams) && ready == in_state(all, Some("open"@)),
    ensures
        same_states(listed, ready),
{
    let a = choose|all: Seq<TaskState>| collected(all, streams) && listed == in_state(all, Some("open"@));
    let b = choose|all: Seq<TaskState>| collected(all, streams) && ready == in_state(all, Some("open"@));
    lemma_collected_unique(streams, a, b);
    lemma_in_state_same(a, b, Some("open"@));
}

} // verus!
