//! Agent sessions: the ids and card bindings the session verbs accept, the
//! distilled session record, and the handover an agent picks up.

use vstd::prelude::*;
use crate::error::{Error, Category, Result};
use crate::schema::Session;
use crate::text::{cat, owned, str_eq, trim, trimmed, contains_char, has_char};
use crate::order::{lex_le, lex_lt, str_le, lemma_lex_total, lemma_lex_antisym, lemma_lex_trans, lemma_lex_refl};
use crate::verbs::ids::{validate_card_slug, validated};
use crate::verbs::results::HandoverSummary;

verus! {

/// `session.start` with an explicit id: the id trimmed; refused when it is
/// empty after trimming or spans lines. `None` when no id was given (a
/// fresh one is generated).
pub fn session_start_id(verb: &str, raw: &Option<String>) -> (r: Result<Option<String>>)
    ensures
        match *raw {
            None => r == Ok::<Option<String>, Error>(None),
            Some(s) => {
                let t = trimmed(s@);
                if t.len() == 0 {
                    r matches Err(e) && e.is(verb@, Category::Malformed, "id must not be empty when supplied"@)
                } else if has_char(t, '\n') || has_char(t, '\r') {
                    r matches Err(e) && e.is(verb@, Category::Malformed, "id must not contain newline characters"@)
                } else {
                    r matches Ok(Some(id)) && id@ == t
                }
            },
        },
{
    match raw {
        None => Ok(None),
        Some(s) => {
            let t = trim(s.as_str());
            if t.unicode_len() == 0 {
                return Err(Error::malformed(verb, owned("id must not be empty when supplied")));
            }
            if contains_char(t.as_str(), '\n') || contains_char(t.as_str(), '\r') {
                return Err(Error::malformed(verb, owned("id must not contain newline characters")));
            }
            Ok(Some(t))
        },
    }
}

/// `session.distill`'s explicit session id, trimmed; refused when empty
/// after trimming. `None` when none was given (the current session's id is
/// read instead).
pub fn session_distill_id(verb: &str, raw: &Option<String>) -> (r: Result<Option<String>>)
    ensures
        match *raw {
            None => r == Ok::<Option<String>, Error>(None),
            Some(s) => if trimmed(s@).len() == 0 {
                r matches Err(e) && e.is(verb@, Category::Malformed, "session_id must not be empty"@)
            } else {
                r matches Ok(Some(id)) && id@ == trimmed(s@)
            },
        },
{
    match raw {
        None => Ok(None),
        Some(s) => {
            let t = trim(s.as_str());
            if t.unicode_len() == 0 {
                return Err(Error::malformed(verb, owned("session_id must not be empty")));
            }
            Ok(Some(t))
        },
    }
}

/// An optional card argument, trimmed; `None` when absent or blank (the
/// session's bound card, or no card, applies instead).
pub fn card_arg(raw: &Option<String>) -> (r: Option<String>)
    ensures
        match *raw {
            None => r is None,
            Some(s) => if trimmed(s@).len() == 0 { r is None } else { r matches Some(c) && c@ == trimmed(s@) },
        },
{
    match raw {
        None => None,
        Some(s) => {
            let t = trim(s.as_str());
            if t.unicode_len() == 0 { None } else { Some(t) }
        },
    }
}

/// The record `session.distill` writes: the session keeps the start time
/// of an earlier record of it (else starts `now`), ends `now`, and carries
/// the distillate, card and labels given. A blank distillate is refused.
pub fn distilled_session(verb: &str, id: String, existing_start: Option<String>, now: String, distillate: String,
    card_id: Option<String>, labels: Vec<String>) -> (r: Result<Session>)
    ensures
        distillate@.len() == 0 ==> (r matches Err(e) && e.is(verb@, Category::Malformed, "distillate must not be empty"@)),
        distillate@.len() > 0 ==> (r matches Ok(s) && s == (Session {
            id,
            started_at: match existing_start { Some(t) => t, None => now },
            ended_at: Some(now),
            distillate,
            card_id,
            labels,
        })),
{
    if distillate.unicode_len() == 0 {
        return Err(Error::malformed(verb, owned("distillate must not be empty")));
    }
    let started_at = match existing_start {
        Some(t) => t,
        None => now.clone(),
    };
    Ok(Session { id, started_at, ended_at: Some(now), distillate, card_id, labels })
}

/// `session.set-card`'s card argument, trimmed and checked like a card
/// slug.
pub fn set_card_arg(verb: &str, raw: &str) -> (r: Result<String>)
    ensures
        trimmed(raw@).len() == 0 ==> (r matches Err(e) && e.is(verb@, Category::Malformed, "card_id must not be empty"@)),
        trimmed(raw@).len() > 0 ==> {
            &&& validated(match r { Ok(_) => Ok(()), Err(e) => Err(e) }, verb@, "card slug"@, trimmed(raw@))
            &&& (r matches Ok(c) ==> c@ == trimmed(raw@))
        },
{
    let t = trim(raw);
    if t.unicode_len() == 0 {
        return Err(Error::malformed(verb, owned("card_id must not be empty")));
    }
    match validate_card_slug(verb, t.as_str()) {
        Ok(()) => Ok(t),
        Err(e) => Err(e),
    }
}

/// The not-found refusal for a card argument naming no card file.
pub fn no_card_matching(verb: &str, raw: &str, looked_for: &str) -> (e: Error)
    ensures
        e.is(verb@, Category::NotFound, "no card matching `"@ + raw@ + "` (looked for "@ + looked_for@ + ")"@),
{
    let m = cat(owned("no card matching `"), raw);
    let m = cat(m, "` (looked for ");
    let m = cat(m, looked_for);
    Error::not_found(verb, cat(m, ")"))
}

/// A session qualifies for the handover: bound to `card` when one is
/// given, and started no earlier than `since` when that is given.
pub open spec fn eligible(s: Session, card: Option<Seq<char>>, since: Option<Seq<char>>) -> bool {
    &&& (card matches Some(c) ==> (s.card_id matches Some(sc) && sc@ == c))
    &&& (since matches Some(t) ==> !lex_lt(s.started_at@, t))
}

/// `i` is the handover: eligible, started no earlier than any other
/// eligible session, and first among those started at the same time.
pub open spec fn handover_at(ss: Seq<Session>, card: Option<Seq<char>>, since: Option<Seq<char>>, i: int) -> bool {
    &&& 0 <= i < ss.len()
    &&& eligible(ss[i], card, since)
    &&& forall|j: int| 0 <= j < ss.len() && eligible(#[trigger] ss[j], card, since) ==>
        lex_le(ss[j].started_at@, ss[i].started_at@) && (ss[j].started_at@ == ss[i].started_at@ ==> i <= j)
}

/// The view of an optional string.
pub open spec fn opt_str(o: Option<String>) -> Option<Seq<char>> {
    match o {
        Some(s) => Some(s@),
        None => None,
    }
}

fn is_eligible(s: &Session, card: &Option<String>, since: &Option<String>) -> (r: bool)
    ensures
        r == eligible(*s, opt_str(*card), opt_str(*since)),
{
    if let Some(c) = card {
        match &s.card_id {
            Some(sc) => {
                if !str_eq(sc.as_str(), c.as_str()) {
                    return false;
                }
            },
            None => {
                return false;
            },
        }
    }
    if let Some(t) = since {
        if str_le(s.started_at.as_str(), t.as_str()) && !str_eq(s.started_at.as_str(), t.as_str()) {
            return false;
        }
    }
    true
}

/// `session.handover` over the sessions read: the latest-started session
/// bound to `card` (when given) and started no earlier than `since` (when
/// given; times compare as text, as RFC 3339 stamps order), the first of
/// equals winning; `None` when no session qualifies.
pub fn pick_handover(sessions: &Vec<Session>, card: &Option<String>, since: &Option<String>)
    -> (r: Option<HandoverSummary>)
    ensures
        r is None <==> forall|j: int| 0 <= j < sessions.len() ==> !eligible(#[trigger] sessions@[j], opt_str(*card), opt_str(*since)),
        r matches Some(h) ==> exists|i: int| {
            &&& handover_at(sessions@, opt_str(*card), opt_str(*since), i)
            &&& h.session_id@ == sessions@[i].id@
            &&& h.card_id == sessions@[i].card_id
            &&& h.started_at@ == sessions@[i].started_at@
            &&& h.ended_at == sessions@[i].ended_at
            &&& h.distillate@ == sessions@[i].distillate@
        },
{
    let ghost cv = opt_str(*card);
    let ghost sv = opt_str(*since);
    let mut best: Option<usize> = None;
    let mut k: usize = 0;
    while k < sessions.len()
        invariant
            k <= sessions.len(),
            cv == opt_str(*card),
            sv == opt_str(*since),
            best is None <==> forall|j: int| 0 <= j < k ==> !eligible(#[trigger] sessions@[j], cv, sv),
            best matches Some(b) ==> b < k && handover_at(sessions@.subrange(0, k as int), cv, sv, b as int),
        decreases sessions.len() - k,
    {
        let ghost pre = sessions@.subrange(0, k as int);
        let ghost post = sessions@.subrange(0, k + 1);
        if is_eligible(&sessions[k], card, since) {
            let take = match best {
                None => true,
                Some(b) => !str_le(sessions[k].started_at.as_str(), sessions[b].started_at.as_str()),
            };
            proof {
                let sk = sessions@[k as int].started_at@;
                match best {
                    None => {
                        assert forall|j: int| 0 <= j < post.len() && eligible(#[trigger] post[j], cv, sv) implies
                            lex_le(post[j].started_at@, post[k as int].started_at@)
                            && (post[j].started_at@ == post[k as int].started_at@ ==> k <= j) by {
                            if j < k { assert(post[j] == sessions@[j]); }
                            lemma_lex_refl(sk);
                        }
                    },
                    Some(b) => {
                        let sb = sessions@[b as int].started_at@;
                        assert(pre[b as int] == sessions@[b as int]);
                        if take {
                            lemma_lex_total(sk, sb);
                            assert(lex_le(sb, sk) && sb != sk);
                            assert forall|j: int| 0 <= j < post.len() && eligible(#[trigger] post[j], cv, sv) implies
                                lex_le(post[j].started_at@, post[k as int].started_at@)
                                && (post[j].started_at@ == post[k as int].started_at@ ==> k <= j) by {
                                if j < k {
                                    assert(post[j] == pre[j]);
                                    assert(lex_le(pre[j].started_at@, sb));
                                    lemma_lex_trans(pre[j].started_at@, sb, sk);
                                    if pre[j].started_at@ == sk {
                                        lemma_lex_antisym(sb, sk);
                                    }
                                } else {
                                    lemma_lex_refl(sk);
                                }
                            }
                        } else {
                            assert forall|j: int| 0 <= j < post.len() && eligible(#[trigger] post[j], cv, sv) implies
                                lex_le(post[j].started_at@, post[b as int].started_at@)
                                && (post[j].started_at@ == post[b as int].started_at@ ==> b <= j) by {
                                if j < k {
                                    assert(post[j] == pre[j]);
                                } else {
                                    assert(post[j] == sessions@[k as int]);
                                }
                            }
                        }
                    },
                }
            }
            if take {
                best = Some(k);
            }
        } else {
            proof {
                if let Some(b) = best {
                    assert forall|j: int| 0 <= j < post.len() && eligible(#[trigger] post[j], cv, sv) implies
                        lex_le(post[j].started_at@, post[b as int].started_at@)
                        && (post[j].started_at@ == post[b as int].started_at@ ==> b <= j) by {
                        if j < k { assert(post[j] == pre[j]); }
                    }
                }
            }
        }
        k = k + 1;
    }
    assert(sessions@.subrange(0, sessions.len() as int) =~= sessions@);
    match best {
        None => None,
        Some(b) => {
            let s = &sessions[b];
            Some(HandoverSummary {
                session_id: s.id.clone(),
                card_id: match &s.card_id { Some(c) => Some(c.clone()), None => None },
                started_at: s.started_at.clone(),
                ended_at: match &s.ended_at { Some(e) => Some(e.clone()), None => None },
                distillate: s.distillate.clone(),
            })
        },
    }
}

} // verus!
