//! Memories: storing one (with its advisory nudges), searching them, and
//! the state-shape heuristic on a memory's first sentence.

use vstd::prelude::*;
use crate::error::{Error, Category, Result};
use crate::schema::Memory;
use crate::text::{cat, owned, str_eq, chars_of, string_from_chars, trim, trimmed, to_lowercase, lowercase,
    contains_str, has_sub, starts_with_str, is_prefix};
use crate::order::{views, member};
use crate::verbs::ids::{validate_memory_key, id_refusal};
use crate::verbs::args::MemoryRememberArgs;
use crate::verbs::results::MemoryRememberResult;

verus! {

/// The nudge `memory.remember` gives when a memory carries the `topology`
/// label.
pub const TOPOLOGY_NUDGE: &'static str = "consider /orb:topology — labelled memories often correspond to subsystems that should be added or updated in the topology doc";

/// The warning `memory.remember` gives when a memory's body leads with a
/// state observation.
pub const MEMORY_SHAPE_WARNING: &'static str = "memory body leads with state ('X is …'); decision-moment surfacing works better when the body leads with mechanism ('use X for Y', 'prefer X when Y'). Consider rephrasing — the memory is stored as written.";

/// A character that ends a memory's first sentence.
pub open spec fn sentence_end(c: char) -> bool {
    c == '.' || c == '!' || c == '\n'
}

/// The text of `body` up to its first sentence end.
pub open spec fn first_sentence(body: Seq<char>) -> Seq<char>
    decreases body.len(),
{
    if body.len() == 0 {
        body
    } else {
        let rest = first_sentence(body.drop_last());
        if rest.len() < body.len() - 1 || sentence_end(body.last()) {
            rest
        } else {
            rest.push(body.last())
        }
    }
}

/// Phrases that open a state observation.
pub open spec fn state_openings() -> Seq<Seq<char>> {
    seq!["the problem is "@, "the issue is "@, "the trick is "@, "the catch is "@]
}

/// Phrases that name a state and a negative quality.
pub open spec fn state_qualities() -> Seq<Seq<char>> {
    seq![" is hard"@, " is brittle"@, " is fragile"@, " is slow"@, " is difficult"@, " is tricky"@,
        " is painful"@, " is annoying"@, " is flaky"@, " is broken"@, " is messy"@]
}

/// The body's first sentence reads as a state observation: lowercased, it
/// opens with one of the state phrases, or holds ` proved `, ` turned out `
/// or a state-and-quality phrase.
pub open spec fn state_shaped(body: Seq<char>) -> bool {
    let first = trimmed(first_sentence(body));
    let lower = lowercase(first);
    &&& first.len() > 0
    &&& {
        ||| exists|i: int| 0 <= i < 4 && is_prefix(#[trigger] state_openings()[i], lower)
        ||| has_sub(lower, " proved "@)
        ||| has_sub(lower, " turned out "@)
        ||| exists|i: int| 0 <= i < 11 && has_sub(lower, #[trigger] state_qualities()[i])
    }
}

fn first_sentence_of(body: &str) -> (r: String)
    ensures
        r@ == first_sentence(body@),
{
    let v = chars_of(body);
    let mut k: usize = 0;
    while k < v.len() && !(v[k] == '.' || v[k] == '!' || v[k] == '\n')
        invariant
            v@ == body@,
            k <= v.len(),
            first_sentence(body@.subrange(0, k as int)) == body@.subrange(0, k as int),
        decreases v.len() - k,
    {
        assert(body@.subrange(0, k + 1).drop_last() =~= body@.subrange(0, k as int));
        assert(body@.subrange(0, k as int).push(v@[k as int]) =~= body@.subrange(0, k + 1));
        k = k + 1;
    }
    proof { lemma_first_sentence_stops(body@, k as int); }
    string_from_chars(vstd::slice::slice_subrange(v.as_slice(), 0, k))
}

proof fn lemma_first_sentence_stops(body: Seq<char>, k: int)
    requires
        0 <= k <= body.len(),
        first_sentence(body.subrange(0, k)) == body.subrange(0, k),
        k < body.len() ==> sentence_end(body[k]),
    ensures
        first_sentence(body) == body.subrange(0, k),
{
    lemma_first_sentence_after(body, k, body.len() as int);
    assert(body.subrange(0, body.len() as int) =~= body);
}

proof fn lemma_first_sentence_after(body: Seq<char>, k: int, n: int)
    requires
        0 <= k <= n <= body.len(),
        first_sentence(body.subrange(0, k)) == body.subrange(0, k),
        k < body.len() ==> sentence_end(body[k]),
    ensures
        first_sentence(body.subrange(0, n)) == body.subrange(0, k),
    decreases n - k,
{
    if n > k {
        lemma_first_sentence_after(body, k, n - 1);
        let pre = body.subrange(0, n);
        assert(pre.drop_last() =~= body.subrange(0, n - 1));
        if n - 1 == k {
            assert(pre.last() == body[k]);
        } else {
            assert(first_sentence(pre.drop_last()).len() < pre.len() - 1);
        }
    }
}

/// Whether the body's first sentence reads as a state observation rather
/// than a mechanism (a conservative heuristic: a short list of leading
/// phrases, ` proved `, ` turned out `, and state-and-quality phrases).
pub fn detect_state_shape(body: &str) -> (r: bool)
    ensures
        r == state_shaped(body@),
{
    let first = trim(first_sentence_of(body).as_str());
    if first.unicode_len() == 0 {
        return false;
    }
    let lower = to_lowercase(first.as_str());
    let openings: [&str; 4] = ["the problem is ", "the issue is ", "the trick is ", "the catch is "];
    let qualities: [&str; 11] = [" is hard", " is brittle", " is fragile", " is slow", " is difficult", " is tricky",
        " is painful", " is annoying", " is flaky", " is broken", " is messy"];
    proof {
        assert(openings@.map_values(|s: &str| s@) =~= state_openings());
        assert(qualities@.map_values(|s: &str| s@) =~= state_qualities());
    }
    let mut i: usize = 0;
    while i < 4
        invariant
            i <= 4,
            lower@ == lowercase(trimmed(first_sentence(body@))),
            trimmed(first_sentence(body@)).len() > 0,
            openings@.map_values(|s: &str| s@) == state_openings(),
            forall|j: int| 0 <= j < i ==> !is_prefix(#[trigger] state_openings()[j], lower@),
        decreases 4 - i,
    {
        assert(openings@[i as int]@ == state_openings()[i as int]);
        if starts_with_str(lower.as_str(), openings[i]) {
            return true;
        }
        i = i + 1;
    }
    if contains_str(lower.as_str(), " proved ") || contains_str(lower.as_str(), " turned out ") {
        return true;
    }
    let mut k: usize = 0;
    while k < 11
        invariant
            k <= 11,
            lower@ == lowercase(trimmed(first_sentence(body@))),
            trimmed(first_sentence(body@)).len() > 0,
            qualities@.map_values(|s: &str| s@) == state_qualities(),
            forall|j: int| 0 <= j < k ==> !has_sub(lower@, #[trigger] state_qualities()[j]),
        decreases 11 - k,
    {
        assert(qualities@[k as int]@ == state_qualities()[k as int]);
        if contains_str(lower.as_str(), qualities[k]) {
            return true;
        }
        k = k + 1;
    }
    false
}

/// What `memory.remember` refuses before touching the substrate.
pub open spec fn remember_refusal(key: Seq<char>, body: Seq<char>) -> Option<Seq<char>> {
    match id_refusal("key"@, key) {
        Some(m) => Some(m),
        None => if body.len() == 0 { Some("body must not be empty"@) } else { None },
    }
}

/// Refuses a `memory.remember` request with an unusable key or an empty
/// body.
pub fn validate_remember(verb: &str, key: &str, body: &str) -> (r: Result<()>)
    ensures
        match remember_refusal(key@, body@) {
            None => r is Ok,
            Some(m) => r matches Err(e) && e.is(verb@, Category::Malformed, m),
        },
{
    validate_memory_key(verb, key)?;
    if body.unicode_len() == 0 {
        return Err(Error::malformed(verb, owned("body must not be empty")));
    }
    Ok(())
}

/// `memory.remember`: the memory to store (stamped with `timestamp`), with
/// the topology nudge when it carries the `topology` label and the shape
/// warning when its body leads with a state observation — each unless
/// switched off.
pub fn memory_remember(verb: &str, args: MemoryRememberArgs, timestamp: String) -> (r: Result<MemoryRememberResult>)
    ensures
        match remember_refusal(args.key@, args.body@) {
            Some(m) => r matches Err(e) && e.is(verb@, Category::Malformed, m),
            None => r matches Ok(res) && {
                &&& res.memory == (Memory { key: args.key, body: args.body, timestamp, labels: args.labels })
                &&& (res.nudge is Some <==> (!args.no_nudge && member("topology"@, views(args.labels@))))
                &&& (res.nudge matches Some(n) ==> n@ == TOPOLOGY_NUDGE@)
                &&& (res.shape_warning is Some <==> (!args.no_warn && state_shaped(args.body@)))
                &&& (res.shape_warning matches Some(w) ==> w@ == MEMORY_SHAPE_WARNING@)
            },
        },
{
    validate_remember(verb, args.key.as_str(), args.body.as_str())?;
    proof { reveal_strlit("topology"); }
    let mut tagged = false;
    let mut i: usize = 0;
    while i < args.labels.len()
        invariant
            i <= args.labels.len(),
            tagged <==> exists|j: int| 0 <= j < i && (#[trigger] args.labels@[j])@ == "topology"@,
        decreases args.labels.len() - i,
    {
        if str_eq(args.labels[i].as_str(), "topology") {
            tagged = true;
        }
        i = i + 1;
    }
    proof {
        if tagged {
            let j = choose|j: int| 0 <= j < args.labels.len() && (#[trigger] args.labels@[j])@ == "topology"@;
            assert(views(args.labels@)[j] == "topology"@);
        }
        if member("topology"@, views(args.labels@)) {
            let j = choose|j: int| 0 <= j < views(args.labels@).len() && views(args.labels@)[j] == "topology"@;
            assert(args.labels@[j]@ == "topology"@);
        }
    }
    let nudge = if !args.no_nudge && tagged { Some(owned(TOPOLOGY_NUDGE)) } else { None };
    let shape_warning = if !args.no_warn && detect_state_shape(args.body.as_str()) {
        Some(owned(MEMORY_SHAPE_WARNING))
    } else {
        None
    };
    let memory = Memory { key: args.key, body: args.body, timestamp, labels: args.labels };
    Ok(MemoryRememberResult { memory, nudge, shape_warning })
}

/// A memory matches a search needle: its body or one of its labels holds
/// it, all lowercased.
pub open spec fn memory_hit(m: Memory, needle: Seq<char>) -> bool {
    has_sub(lowercase(m.body@), needle)
        || exists|i: int| 0 <= i < m.labels.len() && has_sub(lowercase((#[trigger] m.labels@[i])@), needle)
}

/// The memories `memory.search` keeps, in order.
pub open spec fn search_hits(ms: Seq<Memory>, needle: Seq<char>) -> Seq<Memory>
    decreases ms.len(),
{
    if ms.len() == 0 {
        Seq::empty()
    } else {
        let rest = search_hits(ms.drop_last(), needle);
        if memory_hit(ms.last(), needle) { rest.push(ms.last()) } else { rest }
    }
}

fn hits(m: &Memory, needle: &str) -> (r: bool)
    ensures
        r == memory_hit(*m, needle@),
{
    let body = to_lowercase(m.body.as_str());
    if contains_str(body.as_str(), needle) {
        return true;
    }
    let mut i: usize = 0;
    while i < m.labels.len()
        invariant
            i <= m.labels.len(),
            forall|j: int| 0 <= j < i ==> !has_sub(lowercase((#[trigger] m.labels@[j])@), needle@),
        decreases m.labels.len() - i,
    {
        let l = to_lowercase(m.labels[i].as_str());
        if contains_str(l.as_str(), needle) {
            return true;
        }
        i = i + 1;
    }
    false
}

/// `memory.search` over the memories read: those whose body or a label
/// holds the query, ignoring case, in order. An empty query is refused.
pub fn memory_search(verb: &str, query: &str, memories: Vec<Memory>) -> (r: Result<Vec<Memory>>)
    ensures
        query@.len() == 0 ==> (r matches Err(e) && e.is(verb@, Category::Malformed, "query must not be empty"@)),
        query@.len() > 0 ==> (r matches Ok(out) && out@ == search_hits(memories@, lowercase(query@))),
{
    if query.unicode_len() == 0 {
        return Err(Error::malformed(verb, owned("query must not be empty")));
    }
    let needle = to_lowercase(query);
    let ghost all = memories@;
    let mut rest = memories;
    let mut out: Vec<Memory> = Vec::new();
    let mut done: usize = 0;
    assert(all.len() == rest.len());
    while rest.len() > 0
        invariant
            rest@ == all.subrange(done as int, all.len() as int),
            done <= all.len(),
            all.len() <= usize::MAX,
            needle@ == lowercase(query@),
            out@ == search_hits(all.subrange(0, done as int), needle@),
        decreases rest.len(),
    {
        let m = rest.remove(0);
        proof {
            assert(all[done as int] == m);
            assert(rest@ =~= all.subrange(done + 1, all.len() as int));
            assert(all.subrange(0, done + 1).drop_last() =~= all.subrange(0, done as int));
            assert(all.subrange(0, done + 1).last() == m);
        }
        if hits(&m, needle.as_str()) {
            out.push(m);
        }
        done = done + 1;
    }
    assert(all.subrange(0, all.len() as int) =~= all);
    Ok(out)
}

} // verus!
