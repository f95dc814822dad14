//! Session chains rebuilt from the recorded skill invocations: each
//! session's skills in the order it ran them.

use vstd::prelude::*;
use crate::text::str_eq;
use crate::order::{views, is_permutation, pairs_sorted_stably, pair_keys, pair_sort_order};
use crate::schema::SkillInvocation;
use crate::routine::SessionChain;

verus! {

/// `(session id, skill id)` pairs gathered into one chain per run of equal
/// session ids, in order.
pub open spec fn grouped(xs: Seq<(Seq<char>, Seq<char>)>) -> Seq<(Seq<char>, Seq<Seq<char>>)>
    decreases xs.len(),
{
    if xs.len() == 0 {
        Seq::empty()
    } else {
        let g = grouped(xs.drop_last());
        let x = xs.last();
        if g.len() > 0 && g.last().0 == x.0 {
            g.update(g.len() - 1, (x.0, g.last().1.push(x.1)))
        } else {
            g.push((x.0, seq![x.1]))
        }
    }
}

/// The chains as `(session id, skill ids)`.
pub open spec fn chain_views(cs: Seq<SessionChain>) -> Seq<(Seq<char>, Seq<Seq<char>>)> {
    cs.map_values(|c: SessionChain| (c.session_id@, views(c.chain@)))
}

/// The invocations' sort keys: session id, then timestamp.
pub open spec fn invocation_keys(invs: Seq<SkillInvocation>) -> Seq<(Seq<char>, Seq<char>)> {
    Seq::new(invs.len(), |i: int| (invs[i].session_id@, invs[i].timestamp@))
}

/// The invocations visited in `ord`, as `(session id, skill id)`.
pub open spec fn visited(invs: Seq<SkillInvocation>, ord: Seq<usize>) -> Seq<(Seq<char>, Seq<char>)> {
    Seq::new(ord.len(), |i: int| (invs[ord[i] as int].session_id@, invs[ord[i] as int].skill_id@))
}

/// The skill chain of each session, rebuilt from recorded invocations:
/// the invocations ordered by session id and then by timestamp (equal
/// keys in the order given), each session's skills in that order, the
/// sessions in ascending id order.
pub fn session_chains(invocations: &Vec<SkillInvocation>) -> (r: Vec<SessionChain>)
    ensures
        exists|ord: Seq<usize>| {
            &&& is_permutation(ord, invocations.len() as nat)
            &&& pairs_sorted_stably(ord, invocation_keys(invocations@))
            &&& chain_views(r@) == grouped(visited(invocations@, ord))
        },
{
    let mut firsts: Vec<String> = Vec::new();
    let mut seconds: Vec<String> = Vec::new();
    let mut i: usize = 0;
    while i < invocations.len()
        invariant
            i <= invocations.len(),
            firsts.len() == i,
            seconds.len() == i,
            forall|j: int| 0 <= j < i ==> (#[trigger] firsts@[j])@ == invocations@[j].session_id@
                && seconds@[j]@ == invocations@[j].timestamp@,
        decreases invocations.len() - i,
    {
        firsts.push(invocations[i].session_id.clone());
        seconds.push(invocations[i].timestamp.clone());
        i = i + 1;
    }
    assert forall|j: int| 0 <= j < invocations.len() implies #[trigger] pair_keys(firsts@, seconds@)[j]
        == invocation_keys(invocations@)[j] by {
        assert(firsts@[j]@ == invocations@[j].session_id@);
    }
    assert(pair_keys(firsts@, seconds@) =~= invocation_keys(invocations@));
    let ord = pair_sort_order(&firsts, &seconds);
    let ghost xs = visited(invocations@, ord@);
    let mut out: Vec<SessionChain> = Vec::new();
    let mut cur_sid = String::new();
    let mut cur: Vec<String> = Vec::new();
    let mut started = false;
    let mut k: usize = 0;
    while k < ord.len()
        invariant
            k <= ord.len(),
            ord.len() == invocations.len(),
            is_permutation(ord@, invocations.len() as nat),
            xs == visited(invocations@, ord@),
            !started ==> k == 0 && out.len() == 0,
            started ==> k > 0 && grouped(xs.subrange(0, k as int)) == chain_views(out@).push((cur_sid@, views(cur@))),
        decreases ord.len() - k,
    {
        let inv = &invocations[ord[k]];
        assert(xs[k as int] == (inv.session_id@, inv.skill_id@));
        let ghost pre = xs.subrange(0, k as int);
        assert(xs.subrange(0, k + 1).drop_last() =~= pre);
        assert(xs.subrange(0, k + 1).last() == xs[k as int]);
        if started && str_eq(cur_sid.as_str(), inv.session_id.as_str()) {
            let ghost before = views(cur@);
            cur.push(inv.skill_id.clone());
            assert(views(cur@) =~= before.push(inv.skill_id@));
            proof {
                let g = grouped(pre);
                assert(g.last() == (cur_sid@, before));
                assert(chain_views(out@).push((cur_sid@, views(cur@)))
                    =~= g.update(g.len() - 1, (inv.session_id@, g.last().1.push(inv.skill_id@))));
            }
        } else {
            if started {
                let ghost g = grouped(pre);
                let done = SessionChain { session_id: cur_sid, chain: cur };
                out.push(done);
                assert(chain_views(out@) =~= g);
            } else {
                assert(pre =~= Seq::<(Seq<char>, Seq<char>)>::empty());
            }
            cur_sid = inv.session_id.clone();
            cur = Vec::new();
            cur.push(inv.skill_id.clone());
            assert(views(cur@) =~= seq![inv.skill_id@]);
            started = true;
            assert(chain_views(out@).push((cur_sid@, views(cur@))) =~= grouped(pre).push((inv.session_id@, seq![inv.skill_id@])));
        }
        k = k + 1;
    }
    assert(xs.subrange(0, ord.len() as int) =~= xs);
    if started {
        let ghost g = grouped(xs);
        out.push(SessionChain { session_id: cur_sid, chain: cur });
        assert(chain_views(out@) =~= g);
    } else {
        assert(chain_views(out@) =~= grouped(xs));
    }
    out
}

} // verus!
