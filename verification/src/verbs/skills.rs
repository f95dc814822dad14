//! Skill invocations and routines: recording how a skill invocation went,
//! bucketing a skill's invocations by outcome, and the checks and defaults
//! of authoring and re-verifying a routine.

use vstd::prelude::*;
use crate::error::{Error, Category, Result};
use crate::schema::{InvocationOutcome, SkillInvocation};
use crate::text::{cat, owned, str_eq, chars_of, string_from_chars, has_path_hazard, path_hazard, contains_str, has_sub,
    join, joined, occurs_at, occurs_at_vec, is_prefix};
use crate::order::{views, member};
use crate::verbs::ids::{validate_skill_id, id_refusal, validated};
use crate::verbs::findings::{extract_orb_refs, refs_before};
use crate::verbs::results::{RecurrenceInvocation, RecurrenceBucket, RecurrenceByOutcome};

verus! {

/// The outcome a wire spelling names, if any.
pub open spec fn outcome_named(raw: Seq<char>) -> Option<InvocationOutcome> {
    if raw == "worked"@ {
        Some(InvocationOutcome::Worked)
    } else if raw == "partial"@ {
        Some(InvocationOutcome::Partial)
    } else if raw == "didnt-apply"@ {
        Some(InvocationOutcome::DidntApply)
    } else if raw == "incorrect"@ {
        Some(InvocationOutcome::Incorrect)
    } else {
        None
    }
}

/// Parses an invocation outcome: `worked`, `partial`, `didnt-apply` or
/// `incorrect`.
pub fn parse_invocation_outcome(verb: &str, raw: &str) -> (r: Result<InvocationOutcome>)
    ensures
        match outcome_named(raw@) {
            Some(o) => r == Ok::<InvocationOutcome, Error>(o),
            None => r matches Err(e) && e.is(verb@, Category::Malformed,
                "outcome must be one of 'worked', 'partial', 'didnt-apply', 'incorrect'; got '"@ + raw@ + "'"@),
        },
{
    proof {
        reveal_strlit("worked");
        reveal_strlit("partial");
        reveal_strlit("didnt-apply");
        reveal_strlit("incorrect");
    }
    if str_eq(raw, "worked") {
        Ok(InvocationOutcome::Worked)
    } else if str_eq(raw, "partial") {
        Ok(InvocationOutcome::Partial)
    } else if str_eq(raw, "didnt-apply") {
        Ok(InvocationOutcome::DidntApply)
    } else if str_eq(raw, "incorrect") {
        Ok(InvocationOutcome::Incorrect)
    } else {
        let m = cat(owned("outcome must be one of 'worked', 'partial', 'didnt-apply', 'incorrect'; got '"), raw);
        Err(Error::malformed(verb, cat(m, "'")))
    }
}

/// `skill.record-invocation` once the session id and timestamp are known:
/// checks the skill id and the outcome (in that order) and builds the row
/// to append. An empty correction counts as none.
pub fn skill_invocation(verb: &str, skill_id: String, outcome: &str, correction: Option<String>, session_id: String,
    timestamp: String) -> (r: Result<SkillInvocation>)
    ensures
        match id_refusal("skill_id"@, skill_id@) {
            Some(m) => r matches Err(e) && e.is(verb@, Category::Malformed, m),
            None => match outcome_named(outcome@) {
                None => r matches Err(e) && e.category == Category::Malformed,
                Some(o) => r matches Ok(inv) && inv == (SkillInvocation {
                    skill_id,
                    session_id,
                    outcome: o,
                    correction: match correction {
                        Some(c) => if c@.len() == 0 { None } else { Some(c) },
                        None => None,
                    },
                    timestamp,
                }),
            },
        },
{
    validate_skill_id(verb, skill_id.as_str())?;
    let o = parse_invocation_outcome(verb, outcome)?;
    let correction = match correction {
        Some(c) => if c.unicode_len() == 0 { None } else { Some(c) },
        None => None,
    };
    Ok(SkillInvocation { skill_id, session_id, outcome: o, correction, timestamp })
}

/// An invocation counts for `skill.recurrence`: no cutoff, or stamped no
/// earlier than it (stamps compare as text).
pub open spec fn counted(inv: SkillInvocation, since: Option<Seq<char>>) -> bool {
    since matches Some(c) ==> !crate::order::lex_lt(inv.timestamp@, c)
}

/// The invocations of outcome `o` that count, in stream order.
pub open spec fn bucket_of(invs: Seq<SkillInvocation>, since: Option<Seq<char>>, o: InvocationOutcome) -> Seq<SkillInvocation>
    decreases invs.len(),
{
    if invs.len() == 0 {
        Seq::empty()
    } else {
        let rest = bucket_of(invs.drop_last(), since, o);
        if counted(invs.last(), since) && invs.last().outcome == o { rest.push(invs.last()) } else { rest }
    }
}

/// The number of invocations that count.
pub open spec fn counted_total(invs: Seq<SkillInvocation>, since: Option<Seq<char>>) -> nat
    decreases invs.len(),
{
    if invs.len() == 0 {
        0
    } else {
        counted_total(invs.drop_last(), since) + if counted(invs.last(), since) { 1nat } else { 0nat }
    }
}

/// `b` lists exactly the invocations `invs`, stamp and correction each.
pub open spec fn bucket_lists(b: RecurrenceBucket, invs: Seq<SkillInvocation>) -> bool {
    &&& b.count == invs.len()
    &&& b.invocations.len() == invs.len()
    &&& forall|i: int| 0 <= i < invs.len() ==> (#[trigger] b.invocations@[i]).timestamp == invs[i].timestamp
        && b.invocations@[i].correction == invs[i].correction
}

proof fn lemma_total_bound(invs: Seq<SkillInvocation>, since: Option<Seq<char>>)
    ensures
        counted_total(invs, since) <= invs.len(),
    decreases invs.len(),
{
    if invs.len() > 0 {
        lemma_total_bound(invs.drop_last(), since);
    }
}

fn empty_bucket() -> (b: RecurrenceBucket)
    ensures
        bucket_lists(b, Seq::empty()),
{
    RecurrenceBucket { count: 0, invocations: Vec::new() }
}

fn add_to(b: &mut RecurrenceBucket, inv: SkillInvocation, Ghost(invs): Ghost<Seq<SkillInvocation>>)
    requires
        bucket_lists(*old(b), invs),
        invs.len() < usize::MAX,
    ensures
        bucket_lists(*final(b), invs.push(inv)),
{
    b.count = b.count + 1;
    let ghost before = b.invocations@;
    b.invocations.push(RecurrenceInvocation { timestamp: inv.timestamp, correction: inv.correction });
    proof {
        assert forall|i: int| 0 <= i < invs.len() + 1 implies (#[trigger] b.invocations@[i]).timestamp == invs.push(inv)[i].timestamp
            && b.invocations@[i].correction == invs.push(inv)[i].correction by {
            if i < invs.len() { assert(b.invocations@[i] == before[i]); }
        }
    }
}

/// `skill.recurrence` over a skill's invocation stream: the invocations
/// stamped no earlier than `since` (all of them without it), bucketed by
/// outcome in stream order, with their total.
pub fn bucket_invocations(invocations: Vec<SkillInvocation>, since: &Option<String>) -> (r: (RecurrenceByOutcome, usize))
    ensures
        ({
            let s = crate::verbs::sessions::opt_str(*since);
            &&& bucket_lists(r.0.worked, bucket_of(invocations@, s, InvocationOutcome::Worked))
            &&& bucket_lists(r.0.partial, bucket_of(invocations@, s, InvocationOutcome::Partial))
            &&& bucket_lists(r.0.didnt_apply, bucket_of(invocations@, s, InvocationOutcome::DidntApply))
            &&& bucket_lists(r.0.incorrect, bucket_of(invocations@, s, InvocationOutcome::Incorrect))
            &&& r.1 == counted_total(invocations@, s)
        }),
{
    let ghost s = crate::verbs::sessions::opt_str(*since);
    let ghost all = invocations@;
    let mut rest = invocations;
    let mut worked = empty_bucket();
    let mut partial = empty_bucket();
    let mut didnt_apply = empty_bucket();
    let mut incorrect = empty_bucket();
    let mut total: usize = 0;
    let mut done: usize = 0;
    assert(all.len() == rest.len());
    while rest.len() > 0
        invariant
            rest@ == all.subrange(done as int, all.len() as int),
            done <= all.len(),
            all.len() <= usize::MAX,
            s == crate::verbs::sessions::opt_str(*since),
            bucket_lists(worked, bucket_of(all.subrange(0, done as int), s, InvocationOutcome::Worked)),
            bucket_lists(partial, bucket_of(all.subrange(0, done as int), s, InvocationOutcome::Partial)),
            bucket_lists(didnt_apply, bucket_of(all.subrange(0, done as int), s, InvocationOutcome::DidntApply)),
            bucket_lists(incorrect, bucket_of(all.subrange(0, done as int), s, InvocationOutcome::Incorrect)),
            total == counted_total(all.subrange(0, done as int), s),
        decreases rest.len(),
    {
        let inv = rest.remove(0);
        let ghost pre = all.subrange(0, done as int);
        proof {
            assert(all[done as int] == inv);
            assert(rest@ =~= all.subrange(done + 1, all.len() as int));
            assert(all.subrange(0, done + 1).drop_last() =~= pre);
            assert(all.subrange(0, done + 1).last() == inv);
            lemma_total_bound(pre, s);
            lemma_bucket_bound(pre, s, InvocationOutcome::Worked);
            lemma_bucket_bound(pre, s, InvocationOutcome::Partial);
            lemma_bucket_bound(pre, s, InvocationOutcome::DidntApply);
            lemma_bucket_bound(pre, s, InvocationOutcome::Incorrect);
        }
        let keep = match since {
            None => true,
            Some(c) => !(crate::order::str_le(inv.timestamp.as_str(), c.as_str()) && !str_eq(inv.timestamp.as_str(), c.as_str())),
        };
        if keep {
            total = total + 1;
            match inv.outcome {
                InvocationOutcome::Worked => add_to(&mut worked, inv, Ghost(bucket_of(pre, s, InvocationOutcome::Worked))),
                InvocationOutcome::Partial => add_to(&mut partial, inv, Ghost(bucket_of(pre, s, InvocationOutcome::Partial))),
                InvocationOutcome::DidntApply => add_to(&mut didnt_apply, inv, Ghost(bucket_of(pre, s, InvocationOutcome::DidntApply))),
                InvocationOutcome::Incorrect => add_to(&mut incorrect, inv, Ghost(bucket_of(pre, s, InvocationOutcome::Incorrect))),
            }
        }
        done = done + 1;
    }
    assert(all.subrange(0, all.len() as int) =~= all);
    (RecurrenceByOutcome { worked, partial, didnt_apply, incorrect }, total)
}

proof fn lemma_bucket_bound(invs: Seq<SkillInvocation>, since: Option<Seq<char>>, o: InvocationOutcome)
    ensures
        bucket_of(invs, since, o).len() <= invs.len(),
    decreases invs.len(),
{
    if invs.len() > 0 {
        lemma_bucket_bound(invs.drop_last(), since, o);
    }
}

/// What `routine.author` refuses in its arguments: a chain of fewer than
/// two skills, or an empty or path-like routine name.
pub open spec fn author_refusal(chain_len: nat, name: Seq<char>) -> Option<Seq<char>> {
    if chain_len < 2 {
        Some("chain must contain ≥ 2 skill_ids (single-skill routines aren't chains)"@)
    } else if name.len() == 0 {
        Some("routine name must not be empty"@)
    } else if path_hazard(name) {
        Some("name must not contain path separators or '..': '"@ + name + "'"@)
    } else {
        None
    }
}

/// Refuses a routine to author whose chain is shorter than two skills or
/// whose name is empty or path-like.
pub fn validate_routine_author(verb: &str, chain: &Vec<String>, name: &str) -> (r: Result<()>)
    ensures
        match author_refusal(chain.len() as nat, name@) {
            None => r is Ok,
            Some(m) => r matches Err(e) && e.is(verb@, Category::Malformed, m),
        },
{
    if chain.len() < 2 {
        return Err(Error::malformed(verb, owned("chain must contain ≥ 2 skill_ids (single-skill routines aren't chains)")));
    }
    if name.unicode_len() == 0 {
        return Err(Error::malformed(verb, owned("routine name must not be empty")));
    }
    if has_path_hazard(name) {
        let m = cat(owned("name must not contain path separators or '..': '"), name);
        return Err(Error::malformed(verb, cat(m, "'")));
    }
    Ok(())
}

/// The description a routine gets when none is given: its chain, arrows
/// between the steps.
pub fn default_routine_description(chain: &Vec<String>) -> (r: String)
    ensures
        r@ == "Routine chain: "@ + joined(views(chain@), " → "@),
{
    let j = join(chain, " → ");
    cat(owned("Routine chain: "), j.as_str())
}

/// One numbered step line of a routine body.
pub open spec fn step_lines(chain: Seq<String>) -> Seq<char>
    decreases chain.len(),
{
    if chain.len() == 0 {
        Seq::empty()
    } else {
        step_lines(chain.drop_last()) + "1. `"@ + chain.last()@ + "`\n"@
    }
}

/// The body a routine gets when none is given: a heading, its steps in
/// order, and how to re-verify it.
pub open spec fn routine_body_of(chain: Seq<String>) -> Seq<char> {
    "# Routine\n\nRun the following skill chain in order:\n\n"@ + step_lines(chain)
        + "\n---\n\nGenerated by `orbit routine author` — re-verify with `orbit routine verify <path>`.\n"@
}

/// The body a routine gets when none is given.
pub fn default_routine_body(chain: &Vec<String>) -> (r: String)
    ensures
        r@ == routine_body_of(chain@),
{
    let mut out = owned("# Routine\n\nRun the following skill chain in order:\n\n");
    let ghost head = out@;
    let mut i: usize = 0;
    while i < chain.len()
        invariant
            i <= chain.len(),
            out@ == head + step_lines(chain@.subrange(0, i as int)),
        decreases chain.len() - i,
    {
        assert(chain@.subrange(0, i + 1).drop_last() =~= chain@.subrange(0, i as int));
        out = cat(out, "1. `");
        out = cat(out, chain[i].as_str());
        out = cat(out, "`\n");
        i = i + 1;
    }
    assert(chain@.subrange(0, chain.len() as int) =~= chain@);
    cat(out, "\n---\n\nGenerated by `orbit routine author` — re-verify with `orbit routine verify <path>`.\n")
}

/// What `routine.verify` refuses in its path argument.
pub open spec fn verify_path_refusal(path: Seq<char>) -> Option<Seq<char>> {
    if path.len() == 0 {
        Some("path must not be empty"@)
    } else if has_sub(path, ".."@) {
        Some("path must not contain '..': '"@ + path + "'"@)
    } else {
        None
    }
}

/// Refuses an empty routine path, or one holding `..`.
pub fn validate_routine_path(verb: &str, path: &str) -> (r: Result<()>)
    ensures
        match verify_path_refusal(path@) {
            None => r is Ok,
            Some(m) => r matches Err(e) && e.is(verb@, Category::Malformed, m),
        },
{
    if path.unicode_len() == 0 {
        return Err(Error::malformed(verb, owned("path must not be empty")));
    }
    if contains_str(path, "..") {
        let m = cat(owned("path must not contain '..': '"), path);
        return Err(Error::malformed(verb, cat(m, "'")));
    }
    Ok(())
}

/// `base` followed by the strings of `extra` it does not already hold (an
/// added string counts for the ones after it).
pub open spec fn merged(base: Seq<Seq<char>>, extra: Seq<Seq<char>>) -> Seq<Seq<char>>
    decreases extra.len(),
{
    if extra.len() == 0 {
        base
    } else {
        let rest = merged(base, extra.drop_last());
        if member(extra.last(), rest) { rest } else { rest.push(extra.last()) }
    }
}

/// `base` followed by the strings of `extra` it does not already hold.
pub fn merge_refs(base: Vec<String>, extra: &Vec<String>) -> (r: Vec<String>)
    ensures
        views(r@) == merged(views(base@), views(extra@)),
{
    let mut out = base;
    let ghost b = views(out@);
    let mut i: usize = 0;
    while i < extra.len()
        invariant
            i <= extra.len(),
            views(out@) == merged(b, views(extra@.subrange(0, i as int))),
        decreases extra.len() - i,
    {
        let ghost before = views(out@);
        assert(views(extra@.subrange(0, i + 1)).drop_last() =~= views(extra@.subrange(0, i as int)));
        assert(views(extra@.subrange(0, i + 1)).last() == extra@[i as int]@);
        if !crate::order::has_string(&out, extra[i].as_str()) {
            out.push(extra[i].clone());
            assert(views(out@) =~= before.push(extra@[i as int]@));
        }
        i = i + 1;
    }
    assert(extra@.subrange(0, extra.len() as int) =~= extra@);
    out
}

/// The references `routine.verify` checks: the routine's chain, then the
/// references its body mentions that the chain does not hold.
pub fn routine_verify_refs(chain: &Vec<String>, body: &str) -> (r: Vec<String>)
    ensures
        views(r@) == merged(views(chain@), refs_before(body@, body@.len() as int)),
{
    let prose = extract_orb_refs(body);
    merge_refs(crate::text::clone_strings(chain), &prose)
}

/// The references the conformance audit checks for a routine: those its
/// body mentions, then its chain's steps the body does not.
pub fn routine_audit_refs(body: &str, chain: &Vec<String>) -> (r: Vec<String>)
    ensures
        views(r@) == merged(refs_before(body@, body@.len() as int), views(chain@)),
{
    let prose = extract_orb_refs(body);
    merge_refs(prose, chain)
}

/// How many byte-order marks `s` starts with.
pub open spec fn lead_boms(s: Seq<char>) -> nat
    decreases s.len(),
{
    if s.len() > 0 && s[0] == '\u{feff}' { 1 + lead_boms(s.drop_first()) } else { 0 }
}

/// `pat` occurs at `k` in `s` and nowhere before.
pub open spec fn first_at(s: Seq<char>, pat: Seq<char>, k: int) -> bool {
    occurs_at(s, pat, k) && forall|j: int| 0 <= j < k ==> !occurs_at(s, pat, j)
}

/// The text after a SKILL.md front-matter block: leading byte-order marks
/// dropped, then an opening `---` line, then everything up to the first
/// newline followed by `---`; what follows that marker, less one newline,
/// is the body. `None` without both markers.
pub open spec fn body_after_front_matter(s: Seq<char>) -> Option<Seq<char>> {
    let t = s.subrange(lead_boms(s) as int, s.len() as int);
    if !is_prefix("---\n"@, t) {
        None
    } else {
        let a = t.subrange(4, t.len() as int);
        if !has_sub(a, "\n---"@) {
            None
        } else {
            let k = choose|k: int| first_at(a, "\n---"@, k);
            let c = a.subrange(k + 4, a.len() as int);
            Some(if c.len() > 0 && c[0] == '\n' { c.subrange(1, c.len() as int) } else { c })
        }
    }
}

proof fn lemma_lead_boms(s: Seq<char>)
    ensures
        lead_boms(s) <= s.len(),
        forall|j: int| 0 <= j < lead_boms(s) ==> s[j] == '\u{feff}',
        lead_boms(s) < s.len() ==> s[lead_boms(s) as int] != '\u{feff}',
    decreases s.len(),
{
    if s.len() > 0 && s[0] == '\u{feff}' {
        lemma_lead_boms(s.drop_first());
        assert forall|j: int| 0 <= j < lead_boms(s) implies s[j] == '\u{feff}' by {
            if j > 0 {
                assert(s[j] == s.drop_first()[j - 1]);
            }
        }
    }
}

/// The body of a SKILL.md after its front-matter block (see
/// `body_after_front_matter`).
pub fn split_off_body(body: &str) -> (r: Option<String>)
    ensures
        match body_after_front_matter(body@) {
            Some(b) => r matches Some(x) && x@ == b,
            None => r is None,
        },
{
    let cs = chars_of(body);
    let ghost s = body@;
    let mut lead: usize = 0;
    proof { lemma_lead_boms(s); }
    while lead < cs.len() && cs[lead] == '\u{feff}'
        invariant
            cs@ == s,
            lead <= lead_boms(s),
            lead_boms(s) <= s.len(),
            lead_boms(s) < s.len() ==> s[lead_boms(s) as int] != '\u{feff}',
        decreases cs.len() - lead,
    {
        proof {
            if lead == lead_boms(s) {
                assert(s[lead as int] != '\u{feff}');
            }
        }
        lead = lead + 1;
    }
    proof {
        if lead < lead_boms(s) {
            assert(s[lead as int] == '\u{feff}');
        }
    }
    assert(lead == lead_boms(s));
    let ghost t = s.subrange(lead as int, s.len() as int);
    let open = chars_of("---\n");
    let close = chars_of("\n---");
    proof {
        reveal_strlit("---\n");
        reveal_strlit("\n---");
    }
    if !occurs_at_vec(&cs, &open, lead) {
        assert(!is_prefix("---\n"@, t)) by {
            if is_prefix("---\n"@, t) {
                assert(cs@.subrange(lead as int, lead + 4) =~= t.subrange(0, 4));
            }
        }
        return None;
    }
    assert(is_prefix("---\n"@, t)) by {
        assert(cs@.subrange(lead as int, lead + 4) =~= t.subrange(0, 4));
    }
    let start = lead + 4;
    let ghost a = t.subrange(4, t.len() as int);
    assert(a =~= s.subrange(start as int, s.len() as int));
    let mut k: usize = start;
    while k < cs.len() && !occurs_at_vec(&cs, &close, k)
        invariant
            cs@ == s,
            close@ == "\n---"@,
            start <= k <= cs.len(),
            a == s.subrange(start as int, s.len() as int),
            forall|j: int| 0 <= j < k - start ==> !occurs_at(a, "\n---"@, j),
        decreases cs.len() - k,
    {
        proof {
            let j = k - start;
            reveal_strlit("\n---");
            if occurs_at(a, "\n---"@, j) {
                assert(a.len() == s.len() - start);
                assert(k + 4 <= s.len());
                assert(s.subrange(k as int, k + 4) =~= a.subrange(j, j + 4));
                assert(occurs_at(s, close@, k as int));
            }
        }
        k = k + 1;
    }
    if k >= cs.len() {
        assert(!has_sub(a, "\n---"@)) by {
            if has_sub(a, "\n---"@) {
                let j = choose|j: int| occurs_at(a, "\n---"@, j);
                assert(j < a.len());
            }
        }
        return None;
    }
    let ghost kk = k - start;
    assert(occurs_at(a, "\n---"@, kk)) by {
        assert(s.subrange(k as int, k + 4) =~= a.subrange(kk, kk + 4));
    }
    assert(first_at(a, "\n---"@, kk));
    assert(has_sub(a, "\n---"@));
    proof {
        let c = choose|c: int| first_at(a, "\n---"@, c);
        if c < kk {
            assert(!occurs_at(a, "\n---"@, c));
        } else if c > kk {
            assert(!occurs_at(a, "\n---"@, kk));
        }
        assert(c == kk);
    }
    let mut from = k + 4;
    if from < cs.len() && cs[from] == '\n' {
        from = from + 1;
    }
    let out = string_from_chars(vstd::slice::slice_subrange(cs.as_slice(), from, cs.len()));
    proof {
        let c = a.subrange(kk + 4, a.len() as int);
        assert(c =~= s.subrange(k + 4, s.len() as int));
        if c.len() > 0 && c[0] == '\n' {
            assert(cs@.subrange(from as int, cs.len() as int) =~= c.subrange(1, c.len() as int));
        } else {
            assert(cs@.subrange(from as int, cs.len() as int) =~= c);
        }
    }
    Some(out)
}

} // verus!
