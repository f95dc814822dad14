//! Routine detection: skill chains that recur across agent sessions.
//!
//! A session's chain is the ordered list of skills it invoked. A candidate
//! routine is any contiguous run of at least two skills in some session's
//! chain. A candidate *occurs* in a session when it appears there as a
//! contiguous run, or — for candidates of three or more skills — as a run
//! with exactly one foreign skill inserted strictly inside it (one skipped
//! step). A candidate *recurs* when it occurs in at least
//! `RECURRENCE_THRESHOLD` sessions, and it is reported only when no longer
//! recurring candidate contains it as a contiguous run (longest chain wins).

use vstd::prelude::*;
use crate::text::clone_strings;

verus! {

/// Sessions a chain must occur in before it is reported.
pub const RECURRENCE_THRESHOLD: usize = 2;

/// The ordered skill chain one session ran.
#[derive(Debug, Clone, PartialEq, Eq)]
pub struct SessionChain {
    pub session_id: String,
    pub chain: Vec<String>,
}

/// A chain that recurs across sessions, with the number of sessions it
/// occurs in.
#[derive(Debug, Clone, PartialEq, Eq)]
pub struct RecurringChain {
    pub chain: Vec<String>,
    pub occurrences: usize,
}

/// A chain of skill ids as character sequences.
pub open spec fn sv(v: Seq<String>) -> Seq<Seq<char>> {
    v.map_values(|x: String| x@)
}

/// The chains of all sessions, in order.
pub open spec fn sessions_view(v: Seq<SessionChain>) -> Seq<Seq<Seq<char>>> {
    v.map_values(|c: SessionChain| sv(c.chain@))
}

/// `p` appears in `s` as the contiguous run starting at `i`.
pub open spec fn exact_at(p: Seq<Seq<char>>, s: Seq<Seq<char>>, i: int) -> bool {
    0 <= i && i + p.len() <= s.len() && s.subrange(i, i + p.len()) == p
}

/// `p` (of at least three skills) appears in `s` starting at `i` with one
/// foreign skill inserted before `p[k]`, `0 < k < p.len()`.
pub open spec fn skip_at(p: Seq<Seq<char>>, s: Seq<Seq<char>>, i: int, k: int) -> bool {
    &&& p.len() >= 3
    &&& 0 <= i && i + p.len() + 1 <= s.len()
    &&& 1 <= k < p.len()
    &&& s.subrange(i, i + k) == p.subrange(0, k)
    &&& s.subrange(i + k + 1, i + p.len() + 1) == p.subrange(k, p.len() as int)
}

/// `p` occurs in the session chain `s`.
pub open spec fn occurs_in(p: Seq<Seq<char>>, s: Seq<Seq<char>>) -> bool {
    (exists|i: int| exact_at(p, s, i)) || (exists|i: int, k: int| skip_at(p, s, i, k))
}

/// Number of sessions among `ss` in which `p` occurs.
pub open spec fn occurrence_count(p: Seq<Seq<char>>, ss: Seq<Seq<Seq<char>>>) -> nat
    decreases ss.len(),
{
    if ss.len() == 0 {
        0
    } else {
        occurrence_count(p, ss.drop_last()) + (if occurs_in(p, ss.last()) { 1nat } else { 0nat })
    }
}

/// `p` is a contiguous run of at least two skills of some session's chain.
pub open spec fn is_candidate(p: Seq<Seq<char>>, ss: Seq<Seq<Seq<char>>>) -> bool {
    p.len() >= 2 && exists|j: int, i: int| 0 <= j < ss.len() && exact_at(p, ss[j], i)
}

/// `p` is a candidate occurring in at least `RECURRENCE_THRESHOLD` sessions.
pub open spec fn recurs(p: Seq<Seq<char>>, ss: Seq<Seq<Seq<char>>>) -> bool {
    is_candidate(p, ss) && occurrence_count(p, ss) >= RECURRENCE_THRESHOLD
}

/// `p` is a contiguous run of `q`.
pub open spec fn inside(p: Seq<Seq<char>>, q: Seq<Seq<char>>) -> bool {
    exists|i: int| exact_at(p, q, i)
}

/// `p` recurs and no longer recurring chain contains it.
pub open spec fn reported(p: Seq<Seq<char>>, ss: Seq<Seq<Seq<char>>>) -> bool {
    recurs(p, ss) && !exists|q: Seq<Seq<char>>|
        #![trigger recurs(q, ss)] recurs(q, ss) && q.len() > p.len() && inside(p, q)
}

/// Whether `s[a..a+len]` equals `p[b..b+len]`, skill by skill.
fn run_eq(s: &Vec<String>, a: usize, p: &Vec<String>, b: usize, len: usize) -> (r: bool)
    requires
        a + len <= s.len(),
        b + len <= p.len(),
    ensures
        r == (sv(s@).subrange(a as int, a + len) == sv(p@).subrange(b as int, b + len)),
{
    let mut k: usize = 0;
    while k < len
        invariant
            a + len <= s.len(),
            b + len <= p.len(),
            k <= len,
            sv(s@).subrange(a as int, a + k) == sv(p@).subrange(b as int, b + k),
        decreases len - k,
    {
        if s[a + k] != p[b + k] {
            assert(sv(s@).subrange(a as int, a + len)[k as int] == s@[a + k]@);
            assert(sv(p@).subrange(b as int, b + len)[k as int] == p@[b + k]@);
            return false;
        }
        assert(sv(s@).subrange(a as int, a + k + 1) =~= sv(s@).subrange(a as int, a + k).push(s@[a + k]@));
        assert(sv(p@).subrange(b as int, b + k + 1) =~= sv(p@).subrange(b as int, b + k).push(p@[b + k]@));
        k = k + 1;
    }
    true
}

/// Whether `p` occurs in the chain `s`.
fn chain_occurs(p: &Vec<String>, s: &Vec<String>) -> (r: bool)
    ensures
        r == occurs_in(sv(p@), sv(s@)),
{
    let ghost ps = sv(p@);
    let ghost ss = sv(s@);
    if p.len() > s.len() {
        assert forall|i: int| !exact_at(ps, ss, i) by {}
        assert forall|i: int, k: int| !skip_at(ps, ss, i, k) by {}
        return false;
    }
    if p.len() == 0 {
        assert(ss.subrange(0, 0) =~= ps);
        assert(exact_at(ps, ss, 0));
        return true;
    }
    let limit = s.len() - p.len();
    let mut i: usize = 0;
    while i < limit + 1
        invariant
            limit == s.len() - p.len(),
            1 <= p.len() <= s.len(),
            i <= limit + 1,
            ps == sv(p@),
            ss == sv(s@),
            forall|j: int| 0 <= j < i ==> !exact_at(ps, ss, j),
        decreases limit + 1 - i,
    {
        assert(ps.subrange(0, ps.len() as int) =~= ps);
        if run_eq(s, i, p, 0, p.len()) {
            assert(exact_at(ps, ss, i as int));
            return true;
        }
        i = i + 1;
    }
    assert forall|j: int| !exact_at(ps, ss, j) by {
        if 0 <= j && j + ps.len() <= ss.len() {
            assert(j <= limit);
        }
    }
    if p.len() < 3 || p.len() >= s.len() {
        assert forall|i: int, k: int| !skip_at(ps, ss, i, k) by {}
        return false;
    }
    let limit2 = s.len() - p.len() - 1;
    let mut i: usize = 0;
    while i < limit2 + 1
        invariant
            limit2 == s.len() - p.len() - 1,
            i <= limit2 + 1,
            p.len() >= 3,
            p.len() + 1 <= s.len(),
            ps == sv(p@),
            ss == sv(s@),
            forall|j: int| !exact_at(ps, ss, j),
            forall|j: int, k: int| 0 <= j < i ==> !skip_at(ps, ss, j, k),
        decreases limit2 + 1 - i,
    {
        let mut k: usize = 1;
        while k < p.len()
            invariant
                i <= limit2,
                limit2 == s.len() - p.len() - 1,
                p.len() >= 3,
                ps == sv(p@),
                ss == sv(s@),
                1 <= k <= p.len(),
                forall|kk: int| 1 <= kk < k ==> !skip_at(ps, ss, i as int, kk),
            decreases p.len() - k,
        {
            if run_eq(s, i, p, 0, k) && run_eq(s, i + k + 1, p, k, p.len() - k) {
                assert(skip_at(ps, ss, i as int, k as int));
                return true;
            }
            k = k + 1;
        }
        assert forall|kk: int| !skip_at(ps, ss, i as int, kk) by {}
        i = i + 1;
    }
    assert forall|j: int, k: int| !skip_at(ps, ss, j, k) by {
        if 0 <= j && j + ps.len() + 1 <= ss.len() {
            assert(j <= limit2);
        }
    }
    false
}


/// `p` is (the view of) one of the chains in `list`.
pub open spec fn listed(p: Seq<Seq<char>>, list: Seq<Vec<String>>) -> bool {
    exists|k: int| 0 <= k < list.len() && #[trigger] sv(list[k]@) == p
}

/// The contiguous run `v[i..i+len]`.
fn window(v: &Vec<String>, i: usize, len: usize) -> (r: Vec<String>)
    requires
        i + len <= v.len(),
    ensures
        r@ == v@.subrange(i as int, i + len),
        sv(r@) == sv(v@).subrange(i as int, i + len),
{
    let mut r: Vec<String> = Vec::new();
    let mut k: usize = 0;
    while k < len
        invariant
            i + len <= v.len(),
            k <= len,
            r@ == v@.subrange(i as int, i + k),
        decreases len - k,
    {
        r.push(v[i + k].clone());
        k = k + 1;
        assert(r@ =~= v@.subrange(i as int, i + k));
    }
    assert(sv(r@) =~= sv(v@).subrange(i as int, i + len));
    r
}

/// Whether `p` is one of the chains in `list`.
fn is_listed(p: &Vec<String>, list: &Vec<Vec<String>>) -> (r: bool)
    ensures
        r == listed(sv(p@), list@),
{
    let mut k: usize = 0;
    while k < list.len()
        invariant
            k <= list.len(),
            forall|j: int| 0 <= j < k ==> #[trigger] sv(list@[j]@) != sv(p@),
        decreases list.len() - k,
    {
        if list[k].len() == p.len() && run_eq(&list[k], 0, p, 0, p.len()) {
            assert(sv(list@[k as int]@) =~= sv(list@[k as int]@).subrange(0, p.len() as int));
            assert(sv(p@) =~= sv(p@).subrange(0, p.len() as int));
            return true;
        }
        proof {
            if list@[k as int].len() == p.len() {
                assert(sv(list@[k as int]@) =~= sv(list@[k as int]@).subrange(0, p.len() as int));
                assert(sv(p@) =~= sv(p@).subrange(0, p.len() as int));
            }
        }
        k = k + 1;
    }
    false
}

/// Whether `p` is a contiguous run of `s`.
fn exact_somewhere(p: &Vec<String>, s: &Vec<String>) -> (r: bool)
    ensures
        r == inside(sv(p@), sv(s@)),
{
    let ghost ps = sv(p@);
    let ghost ss = sv(s@);
    if p.len() > s.len() {
        assert forall|i: int| !exact_at(ps, ss, i) by {}
        return false;
    }
    if p.len() == 0 {
        assert(ss.subrange(0, 0) =~= ps);
        assert(exact_at(ps, ss, 0));
        return true;
    }
    let limit = s.len() - p.len();
    let mut i: usize = 0;
    while i < limit + 1
        invariant
            limit == s.len() - p.len(),
            1 <= p.len() <= s.len(),
            i <= limit + 1,
            ps == sv(p@),
            ss == sv(s@),
            forall|j: int| 0 <= j < i ==> !exact_at(ps, ss, j),
        decreases limit + 1 - i,
    {
        assert(ps.subrange(0, ps.len() as int) =~= ps);
        if run_eq(s, i, p, 0, p.len()) {
            assert(exact_at(ps, ss, i as int));
            return true;
        }
        i = i + 1;
    }
    assert forall|j: int| !exact_at(ps, ss, j) by {
        if 0 <= j && j + ps.len() <= ss.len() {
            assert(j <= limit);
        }
    }
    false
}

proof fn lemma_count_step(p: Seq<Seq<char>>, v: Seq<SessionChain>, j: int)
    requires
        0 <= j < v.len(),
    ensures
        occurrence_count(p, sessions_view(v).take(j + 1)) == occurrence_count(
            p,
            sessions_view(v).take(j),
        ) + (if occurs_in(p, sv(v[j].chain@)) { 1nat } else { 0nat }),
{
    let t = sessions_view(v).take(j + 1);
    assert(t.drop_last() =~= sessions_view(v).take(j));
    assert(t.last() == sv(v[j].chain@));
}

/// Number of sessions in which `p` occurs.
fn count_occurrences(p: &Vec<String>, sessions: &Vec<SessionChain>) -> (n: usize)
    ensures
        n == occurrence_count(sv(p@), sessions_view(sessions@)),
{
    let mut n: usize = 0;
    let mut j: usize = 0;
    while j < sessions.len()
        invariant
            j <= sessions.len(),
            n <= j,
            n == occurrence_count(sv(p@), sessions_view(sessions@).take(j as int)),
        decreases sessions.len() - j,
    {
        proof {
            lemma_count_step(sv(p@), sessions@, j as int);
        }
        if chain_occurs(p, &sessions[j].chain) {
            n = n + 1;
        }
        j = j + 1;
    }
    assert(sessions_view(sessions@).take(j as int) =~= sessions_view(sessions@));
    n
}


/// Every contiguous run of at least two skills of `c`.
fn windows_of(c: &Vec<String>) -> (r: Vec<Vec<String>>)
    ensures
        forall|k: int| 0 <= k < r.len() ==> #[trigger] sv(r@[k]@).len() >= 2 && inside(sv(r@[k]@), sv(c@)),
        forall|i: int, len: int| 0 <= i && 2 <= len && i + len <= c.len()
            ==> #[trigger] listed(sv(c@).subrange(i, i + len), r@),
{
    let mut r: Vec<Vec<String>> = Vec::new();
    let mut i: usize = 0;
    while i < c.len()
        invariant
            i <= c.len(),
            forall|k: int| 0 <= k < r.len() ==> #[trigger] sv(r@[k]@).len() >= 2 && inside(sv(r@[k]@), sv(c@)),
            forall|i2: int, len: int| 0 <= i2 < i && 2 <= len && i2 + len <= c.len()
                ==> #[trigger] listed(sv(c@).subrange(i2, i2 + len), r@),
        decreases c.len() - i,
    {
        let mut len: usize = c.len() - i;
        while len >= 2
            invariant
                i < c.len(),
                len <= c.len() - i,
                forall|k: int| 0 <= k < r.len() ==> #[trigger] sv(r@[k]@).len() >= 2 && inside(sv(r@[k]@), sv(c@)),
                forall|i2: int, len2: int| 0 <= i2 < i && 2 <= len2 && i2 + len2 <= c.len()
                    ==> #[trigger] listed(sv(c@).subrange(i2, i2 + len2), r@),
                forall|len2: int| len < len2 && 2 <= len2 && i + len2 <= c.len()
                    ==> #[trigger] listed(sv(c@).subrange(i as int, i + len2), r@),
            decreases len,
        {
            let w = window(c, i, len);
            let ghost old_r = r@;
            r.push(w);
            proof {
                assert(exact_at(sv(w@), sv(c@), i as int));
                assert(sv(r@[old_r.len() as int]@) == sv(c@).subrange(i as int, i + len));
                assert forall|k: int| 0 <= k < r.len() implies #[trigger] sv(r@[k]@).len() >= 2 && inside(sv(r@[k]@), sv(c@)) by {
                    if k < old_r.len() {
                        assert(r@[k] == old_r[k]);
                    }
                }
                assert forall|i2: int, len2: int| 0 <= i2 < i && 2 <= len2 && i2 + len2 <= c.len()
                    implies #[trigger] listed(sv(c@).subrange(i2, i2 + len2), r@) by {
                    assert(listed(sv(c@).subrange(i2, i2 + len2), old_r));
                    let kk = choose|kk: int| 0 <= kk < old_r.len() && #[trigger] sv(old_r[kk]@) == sv(c@).subrange(i2, i2 + len2);
                    assert(r@[kk] == old_r[kk]);
                }
                assert forall|len2: int| len - 1 < len2 && 2 <= len2 && i + len2 <= c.len()
                    implies #[trigger] listed(sv(c@).subrange(i as int, i + len2), r@) by {
                    if len2 > len {
                        assert(listed(sv(c@).subrange(i as int, i + len2), old_r));
                        let kk = choose|kk: int| 0 <= kk < old_r.len() && #[trigger] sv(old_r[kk]@) == sv(c@).subrange(i as int, i + len2);
                        assert(r@[kk] == old_r[kk]);
                    } else {
                        assert(sv(r@[old_r.len() as int]@) == sv(c@).subrange(i as int, i + len2));
                    }
                }
            }
            len = len - 1;
        }
        i = i + 1;
    }
    r
}


/// Some chain of `rec` is longer than `rec[m]` and contains it.
pub open spec fn dominated_at(rec: Seq<Vec<String>>, m: int) -> bool {
    exists|q2: int| 0 <= q2 < rec.len() && #[trigger] rec[q2].len() > rec[m].len()
        && inside(sv(rec[m]@), sv(rec[q2]@))
}

fn is_dominated(rec: &Vec<Vec<String>>, m: usize) -> (d: bool)
    requires
        m < rec.len(),
    ensures
        d == dominated_at(rec@, m as int),
{
    let mut q: usize = 0;
    while q < rec.len()
        invariant
            m < rec.len(),
            q <= rec.len(),
            forall|q2: int| 0 <= q2 < q ==> !(#[trigger] rec@[q2].len() > rec@[m as int].len()
                && inside(sv(rec@[m as int]@), sv(rec@[q2]@))),
        decreases rec.len() - q,
    {
        if rec[q].len() > rec[m].len() && exact_somewhere(&rec[m], &rec[q]) {
            return true;
        }
        q = q + 1;
    }
    false
}

proof fn lemma_reported_iff_undominated(rec: Seq<Vec<String>>, ss: Seq<Seq<Seq<char>>>, m: int)
    requires
        0 <= m < rec.len(),
        forall|k: int| 0 <= k < rec.len() ==> #[trigger] recurs(sv(rec[k]@), ss),
        forall|p: Seq<Seq<char>>| #[trigger] recurs(p, ss) ==> listed(p, rec),
    ensures
        reported(sv(rec[m]@), ss) == !dominated_at(rec, m),
{
    let p = sv(rec[m]@);
    assert(recurs(p, ss));
    if dominated_at(rec, m) {
        let q2 = choose|q2: int| 0 <= q2 < rec.len() && #[trigger] rec[q2].len() > rec[m].len()
            && inside(sv(rec[m]@), sv(rec[q2]@));
        assert(recurs(sv(rec[q2]@), ss));
        assert(sv(rec[q2]@).len() > p.len());
    } else {
        assert forall|qq: Seq<Seq<char>>| #[trigger] recurs(qq, ss) implies !(qq.len() > p.len() && inside(p, qq)) by {
            assert(listed(qq, rec));
            let q2 = choose|q2: int| 0 <= q2 < rec.len() && #[trigger] sv(rec[q2]@) == qq;
            assert(!(rec[q2].len() > rec[m].len() && inside(p, sv(rec[q2]@))));
        }
    }
}

/// Every recurring candidate of `sessions`, once each.
fn recurring_candidates(sessions: &Vec<SessionChain>) -> (rec: Vec<Vec<String>>)
    ensures
        forall|k: int| 0 <= k < rec.len() ==> #[trigger] recurs(sv(rec@[k]@), sessions_view(sessions@)),
        forall|a: int, b: int| 0 <= a < b < rec.len() ==> #[trigger] sv(rec@[a]@) != #[trigger] sv(rec@[b]@),
        forall|p: Seq<Seq<char>>| #[trigger] recurs(p, sessions_view(sessions@)) ==> listed(p, rec@),
{
    let ghost ss = sessions_view(sessions@);
    // Phase 1: every recurring candidate, once each.
    let mut rec: Vec<Vec<String>> = Vec::new();
    let mut j: usize = 0;
    while j < sessions.len()
        invariant
            j <= sessions.len(),
            ss == sessions_view(sessions@),
            forall|k: int| 0 <= k < rec.len() ==> #[trigger] recurs(sv(rec@[k]@), ss),
            forall|a: int, b: int| 0 <= a < b < rec.len() ==> #[trigger] sv(rec@[a]@) != #[trigger] sv(rec@[b]@),
            forall|j2: int, i: int, len: int| 0 <= j2 < j && 0 <= i && 2 <= len && i + len <= ss[j2].len()
                && #[trigger] recurs(ss[j2].subrange(i, i + len), ss)
                ==> listed(ss[j2].subrange(i, i + len), rec@),
        decreases sessions.len() - j,
    {
        let ws = windows_of(&sessions[j].chain);
        assert(ss[j as int] == sv(sessions@[j as int].chain@));
        let mut k: usize = 0;
        while k < ws.len()
            invariant
                j < sessions.len(),
                k <= ws.len(),
                ss == sessions_view(sessions@),
                ss[j as int] == sv(sessions@[j as int].chain@),
                forall|k2: int| 0 <= k2 < ws.len() ==> #[trigger] sv(ws@[k2]@).len() >= 2 && inside(sv(ws@[k2]@), ss[j as int]),
                forall|k2: int| 0 <= k2 < rec.len() ==> #[trigger] recurs(sv(rec@[k2]@), ss),
                forall|a: int, b: int| 0 <= a < b < rec.len() ==> #[trigger] sv(rec@[a]@) != #[trigger] sv(rec@[b]@),
                forall|j2: int, i: int, len: int| 0 <= j2 < j && 0 <= i && 2 <= len && i + len <= ss[j2].len()
                    && #[trigger] recurs(ss[j2].subrange(i, i + len), ss)
                    ==> listed(ss[j2].subrange(i, i + len), rec@),
                forall|k2: int| 0 <= k2 < k && #[trigger] recurs(sv(ws@[k2]@), ss) ==> listed(sv(ws@[k2]@), rec@),
            decreases ws.len() - k,
        {
            let already = is_listed(&ws[k], &rec);
            if !already {
                let n = count_occurrences(&ws[k], sessions);
                if n >= RECURRENCE_THRESHOLD {
                    let w = clone_strings(&ws[k]);
                    let ghost old_rec = rec@;
                    proof {
                        let p = sv(ws@[k as int]@);
                        let i0 = choose|i0: int| exact_at(p, ss[j as int], i0);
                        assert(is_candidate(p, ss));
                        assert(recurs(p, ss));
                    }
                    rec.push(w);
                    proof {
                        assert(sv(rec@[old_rec.len() as int]@) == sv(ws@[k as int]@));
                        assert forall|k2: int| 0 <= k2 < rec.len() implies #[trigger] recurs(sv(rec@[k2]@), ss) by {
                            if k2 < old_rec.len() { assert(rec@[k2] == old_rec[k2]); }
                        }
                        assert forall|a: int, b: int| 0 <= a < b < rec.len() implies #[trigger] sv(rec@[a]@) != #[trigger] sv(rec@[b]@) by {
                            assert(rec@[a] == old_rec[a]);
                            if b < old_rec.len() {
                                assert(rec@[b] == old_rec[b]);
                            } else {
                                assert(!listed(sv(ws@[k as int]@), old_rec));
                            }
                        }
                        assert forall|j2: int, i: int, len: int| 0 <= j2 < j && 0 <= i && 2 <= len && i + len <= ss[j2].len()
                            && #[trigger] recurs(ss[j2].subrange(i, i + len), ss)
                            implies listed(ss[j2].subrange(i, i + len), rec@) by {
                            let kk = choose|kk: int| 0 <= kk < old_rec.len() && #[trigger] sv(old_rec[kk]@) == ss[j2].subrange(i, i + len);
                            assert(rec@[kk] == old_rec[kk]);
                        }
                        assert forall|k2: int| 0 <= k2 < k + 1 && #[trigger] recurs(sv(ws@[k2]@), ss) implies listed(sv(ws@[k2]@), rec@) by {
                            if k2 < k {
                                let kk = choose|kk: int| 0 <= kk < old_rec.len() && #[trigger] sv(old_rec[kk]@) == sv(ws@[k2]@);
                                assert(rec@[kk] == old_rec[kk]);
                            }
                        }
                    }
                } else {
                    proof {
                        assert(!recurs(sv(ws@[k as int]@), ss));
                    }
                }
            }
            k = k + 1;
        }
        proof {
            assert forall|j2: int, i: int, len: int| 0 <= j2 < j + 1 && 0 <= i && 2 <= len && i + len <= ss[j2].len()
                && #[trigger] recurs(ss[j2].subrange(i, i + len), ss)
                implies listed(ss[j2].subrange(i, i + len), rec@) by {
                if j2 == j {
                    assert(listed(sv(sessions@[j as int].chain@).subrange(i, i + len), ws@));
                    let k2 = choose|k2: int| 0 <= k2 < ws.len() && #[trigger] sv(ws@[k2]@) == sv(sessions@[j as int].chain@).subrange(i, i + len);
                    assert(recurs(sv(ws@[k2]@), ss));
                }
            }
        }
        j = j + 1;
    }
    proof {
        assert forall|p: Seq<Seq<char>>| #[trigger] recurs(p, ss) implies listed(p, rec@) by {
            let (j2, i) = choose|j2: int, i: int| 0 <= j2 < ss.len() && exact_at(p, ss[j2], i);
            assert(ss[j2].subrange(i, i + p.len()) == p);
        }
    }
    rec
}

/// The chains that recur across `sessions`, longest first-class: every
/// reported chain recurs in at least `RECURRENCE_THRESHOLD` sessions and is
/// not a contiguous run of a longer recurring chain. `occurrences` is the
/// number of sessions the chain occurs in. Each reported chain appears once.
#[verifier::rlimit(50)]
pub fn detect_recurring_chains(sessions: &Vec<SessionChain>) -> (r: Vec<RecurringChain>)
    ensures
        forall|t: int| 0 <= t < r.len() ==> #[trigger] reported(sv(r@[t].chain@), sessions_view(sessions@)),
        forall|t: int| 0 <= t < r.len() ==> #[trigger] r@[t].occurrences == occurrence_count(
            sv(r@[t].chain@),
            sessions_view(sessions@),
        ),
        forall|p: Seq<Seq<char>>| #[trigger] reported(p, sessions_view(sessions@))
            ==> exists|t: int| 0 <= t < r.len() && #[trigger] sv(r@[t].chain@) == p,
        forall|t1: int, t2: int| 0 <= t1 < t2 < r.len()
            ==> #[trigger] sv(r@[t1].chain@) != #[trigger] sv(r@[t2].chain@),
{
    let ghost ss = sessions_view(sessions@);
    let rec = recurring_candidates(sessions);
    // Phase 2: keep the chains no longer recurring chain contains.
    let mut r: Vec<RecurringChain> = Vec::new();
    let mut m: usize = 0;
    while m < rec.len()
        invariant
            m <= rec.len(),
            ss == sessions_view(sessions@),
            forall|k: int| 0 <= k < rec.len() ==> #[trigger] recurs(sv(rec@[k]@), ss),
            forall|a: int, b: int| 0 <= a < b < rec.len() ==> #[trigger] sv(rec@[a]@) != #[trigger] sv(rec@[b]@),
            forall|p: Seq<Seq<char>>| #[trigger] recurs(p, ss) ==> listed(p, rec@),
            forall|t: int| 0 <= t < r.len() ==> #[trigger] reported(sv(r@[t].chain@), ss),
            forall|t: int| 0 <= t < r.len() ==> #[trigger] r@[t].occurrences == occurrence_count(sv(r@[t].chain@), ss),
            forall|t: int| #![trigger r@[t]] 0 <= t < r.len() ==> exists|a: int| 0 <= a < m && #[trigger] sv(rec@[a]@) == sv(r@[t].chain@),
            forall|a: int| 0 <= a < m && #[trigger] reported(sv(rec@[a]@), ss)
                ==> exists|t: int| 0 <= t < r.len() && #[trigger] sv(r@[t].chain@) == sv(rec@[a]@),
            forall|t1: int, t2: int| 0 <= t1 < t2 < r.len() ==> #[trigger] sv(r@[t1].chain@) != #[trigger] sv(r@[t2].chain@),
        decreases rec.len() - m,
    {
        let dominated = is_dominated(&rec, m);
        let ghost p = sv(rec@[m as int]@);
        proof {
            lemma_reported_iff_undominated(rec@, ss, m as int);
        }
        if !dominated {
            let n = count_occurrences(&rec[m], sessions);
            let c = clone_strings(&rec[m]);
            let ghost old_r = r@;
            r.push(RecurringChain { chain: c, occurrences: n });
            proof {
                assert(sv(r@[old_r.len() as int].chain@) == p);
                assert forall|t: int| 0 <= t < r.len() implies #[trigger] reported(sv(r@[t].chain@), ss) by {
                    if t < old_r.len() { assert(r@[t] == old_r[t]); }
                }
                assert forall|t: int| 0 <= t < r.len() implies #[trigger] r@[t].occurrences == occurrence_count(sv(r@[t].chain@), ss) by {
                    if t < old_r.len() { assert(r@[t] == old_r[t]); }
                }
                assert forall|t: int| #![trigger r@[t]] 0 <= t < r.len() implies exists|a: int| 0 <= a < m + 1 && #[trigger] sv(rec@[a]@) == sv(r@[t].chain@) by {
                    if t < old_r.len() {
                        assert(r@[t] == old_r[t]);
                        let a = choose|a: int| 0 <= a < m && #[trigger] sv(rec@[a]@) == sv(old_r[t].chain@);
                    } else {
                        assert(sv(rec@[m as int]@) == sv(r@[t].chain@));
                    }
                }
                assert forall|a: int| 0 <= a < m + 1 && #[trigger] reported(sv(rec@[a]@), ss)
                    implies exists|t: int| 0 <= t < r.len() && #[trigger] sv(r@[t].chain@) == sv(rec@[a]@) by {
                    if a < m {
                        let t = choose|t: int| 0 <= t < old_r.len() && #[trigger] sv(old_r[t].chain@) == sv(rec@[a]@);
                        assert(r@[t] == old_r[t]);
                    } else {
                        assert(sv(r@[old_r.len() as int].chain@) == sv(rec@[a]@));
                    }
                }
                assert forall|t1: int, t2: int| 0 <= t1 < t2 < r.len() implies #[trigger] sv(r@[t1].chain@) != #[trigger] sv(r@[t2].chain@) by {
                    assert(r@[t1] == old_r[t1]);
                    if t2 < old_r.len() {
                        assert(r@[t2] == old_r[t2]);
                    } else {
                        let a = choose|a: int| 0 <= a < m && #[trigger] sv(rec@[a]@) == sv(old_r[t1].chain@);
                        assert(sv(rec@[a]@) != sv(rec@[m as int]@));
                    }
                }
            }
        }
        m = m + 1;
    }
    proof {
        assert forall|pp: Seq<Seq<char>>| #[trigger] reported(pp, ss)
            implies exists|t: int| 0 <= t < r.len() && #[trigger] sv(r@[t].chain@) == pp by {
            let a = choose|a: int| 0 <= a < rec.len() && #[trigger] sv(rec@[a]@) == pp;
            assert(reported(sv(rec@[a]@), ss));
        }
    }
    r
}

} // verus!
