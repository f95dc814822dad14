//! Lexicographic order on character sequences (the order `str::cmp` and a
//! `BTreeMap<String, _>` use) and a verified stable sort by string keys.

use vstd::prelude::*;

verus! {

/// `a` sorts no later than `b`, comparing character by character, a
/// proper prefix first.
pub open spec fn lex_le(a: Seq<char>, b: Seq<char>) -> bool
    decreases a.len(),
{
    if a.len() == 0 {
        true
    } else if b.len() == 0 {
        false
    } else if a[0] != b[0] {
        a[0] < b[0]
    } else {
        lex_le(a.drop_first(), b.drop_first())
    }
}

/// `a` sorts strictly before `b`.
pub open spec fn lex_lt(a: Seq<char>, b: Seq<char>) -> bool {
    lex_le(a, b) && a != b
}

pub proof fn lemma_lex_refl(a: Seq<char>)
    ensures
        lex_le(a, a),
    decreases a.len(),
{
    if a.len() > 0 {
        lemma_lex_refl(a.drop_first());
    }
}

pub proof fn lemma_lex_total(a: Seq<char>, b: Seq<char>)
    ensures
        lex_le(a, b) || lex_le(b, a),
    decreases a.len(),
{
    if a.len() > 0 && b.len() > 0 && a[0] == b[0] {
        lemma_lex_total(a.drop_first(), b.drop_first());
    }
}

pub proof fn lemma_lex_antisym(a: Seq<char>, b: Seq<char>)
    requires
        lex_le(a, b),
        lex_le(b, a),
    ensures
        a == b,
    decreases a.len(),
{
    if a.len() == 0 {
        assert(b.len() == 0);
        assert(a =~= b);
    } else {
        assert(b.len() > 0);
        assert(a[0] == b[0]) by {
            if a[0] != b[0] {
                assert(a[0] < b[0]);
                assert((b[0] as u32) < (a[0] as u32));
            }
        }
        lemma_lex_antisym(a.drop_first(), b.drop_first());
        assert(a =~= seq![a[0]] + a.drop_first());
        assert(b =~= seq![b[0]] + b.drop_first());
    }
}

pub proof fn lemma_lex_trans(a: Seq<char>, b: Seq<char>, c: Seq<char>)
    requires
        lex_le(a, b),
        lex_le(b, c),
    ensures
        lex_le(a, c),
    decreases a.len(),
{
    if a.len() > 0 && b.len() > 0 && c.len() > 0 && a[0] == b[0] && b[0] == c[0] {
        lemma_lex_trans(a.drop_first(), b.drop_first(), c.drop_first());
    }
}

/// Whether `a` sorts no later than `b` (`a <= b` on `str`).
pub fn str_le(a: &str, b: &str) -> (r: bool)
    ensures
        r == lex_le(a@, b@),
{
    let av = crate::text::chars_of(a);
    let bv = crate::text::chars_of(b);
    let mut i: usize = 0;
    assert(a@.subrange(0, a@.len() as int) =~= a@);
    assert(b@.subrange(0, b@.len() as int) =~= b@);
    while i < av.len() && i < bv.len()
        invariant
            av@ == a@,
            bv@ == b@,
            i <= av.len(),
            i <= bv.len(),
            av@.subrange(0, i as int) == bv@.subrange(0, i as int),
            lex_le(a@, b@) == lex_le(a@.subrange(i as int, a@.len() as int), b@.subrange(i as int, b@.len() as int)),
        decreases av.len() - i,
    {
        let ghost sa = a@.subrange(i as int, a@.len() as int);
        let ghost sb = b@.subrange(i as int, b@.len() as int);
        assert(sa[0] == av@[i as int]);
        assert(sb[0] == bv@[i as int]);
        if av[i] != bv[i] {
            return av[i] < bv[i];
        }
        assert(sa.drop_first() =~= a@.subrange(i + 1, a@.len() as int));
        assert(sb.drop_first() =~= b@.subrange(i + 1, b@.len() as int));
        assert(av@.subrange(0, i + 1) =~= av@.subrange(0, i as int).push(av@[i as int]));
        assert(bv@.subrange(0, i + 1) =~= bv@.subrange(0, i as int).push(bv@[i as int]));
        i = i + 1;
    }
    i == av.len()
}

/// `order` lists each index of `0..n` exactly once.
pub open spec fn is_permutation(order: Seq<usize>, n: nat) -> bool {
    &&& order.len() == n
    &&& forall|i: int| 0 <= i < order.len() ==> #[trigger] order[i] < n
    &&& forall|i: int, j: int| 0 <= i < j < order.len() ==> #[trigger] order[i] != #[trigger] order[j]
}

/// Visiting `keys` in `order` meets them in nondecreasing lexicographic
/// order, equal keys in their original relative order.
pub open spec fn sorted_stably(order: Seq<usize>, keys: Seq<Seq<char>>) -> bool {
    forall|i: int, j: int| 0 <= i < j < order.len() ==> {
        &&& lex_le(keys[#[trigger] order[i] as int], keys[#[trigger] order[j] as int])
        &&& (keys[order[i] as int] == keys[order[j] as int] ==> order[i] < order[j])
    }
}

/// The views of a list of strings.
pub open spec fn views(v: Seq<String>) -> Seq<Seq<char>> {
    v.map_values(|s: String| s@)
}

/// The order in which to visit `keys` so they come out sorted, ties kept
/// in place (a stable sort, as `slice::sort_by` is).
pub fn sort_order(keys: &Vec<String>) -> (order: Vec<usize>)
    ensures
        is_permutation(order@, keys.len() as nat),
        sorted_stably(order@, views(keys@)),
{
    let ghost ks = views(keys@);
    let mut order: Vec<usize> = Vec::new();
    let mut n: usize = 0;
    while n < keys.len()
        invariant
            n <= keys.len(),
            ks == views(keys@),
            ks.len() == keys.len(),
            order.len() == n,
            forall|i: int| 0 <= i < order.len() ==> #[trigger] order@[i] < n,
            forall|i: int, j: int| 0 <= i < j < order.len() ==> #[trigger] order@[i] != #[trigger] order@[j],
            sorted_stably(order@, ks),
        decreases keys.len() - n,
    {
        // Insert n after every entry whose key is <= keys[n].
        let mut pos: usize = order.len();
        while pos > 0 && !str_le(keys[order[pos - 1]].as_str(), keys[n].as_str())
            invariant
                n < keys.len(),
                ks == views(keys@),
                ks.len() == keys.len(),
                pos <= order.len(),
                order.len() == n,
                forall|i: int| 0 <= i < order.len() ==> #[trigger] order@[i] < n,
                forall|i: int| pos <= i < order.len() ==> !lex_le(#[trigger] ks[order@[i] as int], ks[n as int]),
            decreases pos,
        {
            pos = pos - 1;
        }
        proof {
            assert forall|i: int| 0 <= i < pos implies lex_le(ks[#[trigger] order@[i] as int], ks[n as int]) by {
                if pos > 0 {
                    assert(lex_le(ks[order@[pos - 1] as int], ks[n as int]));
                    if i < pos - 1 {
                        assert(lex_le(ks[order@[i] as int], ks[order@[pos - 1] as int]));
                        lemma_lex_trans(ks[order@[i] as int], ks[order@[pos - 1] as int], ks[n as int]);
                    }
                }
            }
            assert forall|i: int| pos <= i < order.len() implies lex_le(ks[n as int], ks[#[trigger] order@[i] as int])
                && ks[n as int] != ks[order@[i] as int] by {
                lemma_lex_total(ks[n as int], ks[order@[i] as int]);
                if ks[n as int] == ks[order@[i] as int] {
                    lemma_lex_refl(ks[n as int]);
                }
            }
        }
        let ghost old_order = order@;
        order.insert(pos, n);
        proof {
            assert forall|i: int| 0 <= i < order.len() implies #[trigger] order@[i] < n + 1 by {
                if i < pos { assert(order@[i] == old_order[i]); }
                else if i > pos { assert(order@[i] == old_order[i - 1]); }
            }
            assert forall|i: int, j: int| 0 <= i < j < order.len() implies #[trigger] order@[i] != #[trigger] order@[j] by {
                if i < pos { assert(order@[i] == old_order[i]); }
                else if i > pos { assert(order@[i] == old_order[i - 1]); }
                if j < pos { assert(order@[j] == old_order[j]); }
                else if j > pos { assert(order@[j] == old_order[j - 1]); }
            }
            assert forall|i: int, j: int| 0 <= i < j < order.len() implies {
                &&& lex_le(ks[#[trigger] order@[i] as int], ks[#[trigger] order@[j] as int])
                &&& (ks[order@[i] as int] == ks[order@[j] as int] ==> order@[i] < order@[j])
            } by {
                if i < pos { assert(order@[i] == old_order[i]); }
                else if i > pos { assert(order@[i] == old_order[i - 1]); }
                if j < pos { assert(order@[j] == old_order[j]); }
                else if j > pos { assert(order@[j] == old_order[j - 1]); }
                if i == pos {
                    assert(lex_le(ks[n as int], ks[old_order[j - 1] as int]));
                } else if j == pos {
                    assert(lex_le(ks[old_order[i] as int], ks[n as int]));
                } else {
                    let oi = if i < pos { i } else { i - 1 };
                    let oj = if j < pos { j } else { j - 1 };
                    assert(oi < oj);
                    assert(lex_le(ks[old_order[oi] as int], ks[old_order[oj] as int]));
                }
            }
        }
        n = n + 1;
    }
    order
}


/// No string occurs twice in `v`.
pub open spec fn distinct(v: Seq<Seq<char>>) -> bool {
    forall|i: int, j: int| 0 <= i < j < v.len() ==> #[trigger] v[i] != #[trigger] v[j]
}

/// `v` is in nondecreasing lexicographic order.
pub open spec fn sorted(v: Seq<Seq<char>>) -> bool {
    forall|i: int, j: int| 0 <= i < j < v.len() ==> lex_le(#[trigger] v[i], #[trigger] v[j])
}

/// `x` is one of the strings of `b`.
pub open spec fn member(x: Seq<char>, b: Seq<Seq<char>>) -> bool {
    exists|j: int| 0 <= j < b.len() && b[j] == x
}

/// Every string of `a` occurs in `b`.
pub open spec fn drawn_from(a: Seq<Seq<char>>, b: Seq<Seq<char>>) -> bool {
    forall|i: int| 0 <= i < a.len() ==> member(#[trigger] a[i], b)
}

/// The strings of `v`, sorted (stably) in lexicographic order.
pub fn sort_strings(v: &Vec<String>) -> (r: Vec<String>)
    ensures
        r.len() == v.len(),
        sorted(views(r@)),
        drawn_from(views(r@), views(v@)),
        drawn_from(views(v@), views(r@)),
        distinct(views(v@)) ==> distinct(views(r@)),
{
    let order = sort_order(v);
    let ghost ks = views(v@);
    let mut r: Vec<String> = Vec::new();
    let mut k: usize = 0;
    while k < order.len()
        invariant
            ks == views(v@),
            is_permutation(order@, v.len() as nat),
            k <= order.len(),
            r.len() == k,
            forall|i: int| 0 <= i < k ==> #[trigger] views(r@)[i] == ks[order@[i] as int],
        decreases order.len() - k,
    {
        let s = v[order[k]].clone();
        let ghost before = r@;
        assert(forall|i: int| 0 <= i < k ==> #[trigger] views(before)[i] == ks[order@[i] as int]);
        r.push(s);
        proof {
            assert(r@[k as int] == v@[order@[k as int] as int]);
            assert forall|i: int| 0 <= i < k + 1 implies #[trigger] views(r@)[i] == ks[order@[i] as int] by {
                if i < k {
                    assert(r@[i] == before[i]);
                    assert(views(before)[i] == ks[order@[i] as int]);
                    assert(views(before)[i] == before[i]@);
                    assert(views(r@)[i] == r@[i]@);
                } else {
                    assert(views(r@)[i] == r@[i]@);
                    assert(ks[order@[i] as int] == v@[order@[i] as int]@);
                }
            }
        }
        k = k + 1;
    }
    proof {
        lemma_reordered(order@, ks, views(r@));
    }
    r
}

proof fn lemma_reordered(order: Seq<usize>, ks: Seq<Seq<char>>, rs: Seq<Seq<char>>)
    requires
        is_permutation(order, ks.len()),
        sorted_stably(order, ks),
        rs.len() == order.len(),
        forall|i: int| 0 <= i < rs.len() ==> #[trigger] rs[i] == ks[order[i] as int],
    ensures
        sorted(rs),
        drawn_from(rs, ks),
        drawn_from(ks, rs),
        distinct(ks) ==> distinct(rs),
{
    assert forall|i: int, j: int| 0 <= i < j < rs.len() implies lex_le(#[trigger] rs[i], #[trigger] rs[j]) by {
        assert(lex_le(ks[order[i] as int], ks[order[j] as int]));
    }
    assert forall|i: int| 0 <= i < rs.len() implies member(#[trigger] rs[i], ks) by {
        assert(ks[order[i] as int] == rs[i]);
    }
    assert forall|j: int| 0 <= j < ks.len() implies member(#[trigger] ks[j], rs) by {
        lemma_permutation_onto(order, ks.len(), j);
        let i = choose|i: int| 0 <= i < order.len() && order[i] == j;
        assert(rs[i] == ks[j]);
    }
    if distinct(ks) {
        assert forall|i: int, j: int| 0 <= i < j < rs.len() implies #[trigger] rs[i] != #[trigger] rs[j] by {
            assert(rs[i] == ks[order[i] as int]);
            assert(rs[j] == ks[order[j] as int]);
            assert(order[i] != order[j]);
            if order[i] < order[j] {
                assert(ks[order[i] as int] != ks[order[j] as int]);
            } else {
                assert(ks[order[j] as int] != ks[order[i] as int]);
            }
        }
    }
}

/// A permutation of `0..n` meets every index.
pub proof fn lemma_permutation_onto(order: Seq<usize>, n: nat, j: int)
    requires
        is_permutation(order, n),
        0 <= j < n,
    ensures
        exists|i: int| 0 <= i < order.len() && order[i] == j,
{
    // The entries of `order` are n distinct values below n; if j were
    // missing they would be n distinct values among the n - 1 others.
    let ints = order.map_values(|x: usize| x as int);
    assert forall|a: int, b: int| 0 <= a < ints.len() && 0 <= b < ints.len() && a != b
        implies ints[a] != ints[b] by {
        if a < b { assert(order[a] != order[b]); } else { assert(order[b] != order[a]); }
    }
    assert(ints.no_duplicates());
    ints.unique_seq_to_set();
    if !(exists|i: int| 0 <= i < order.len() && order[i] == j) {
        let others = vstd::set_lib::set_int_range(0, n as int).remove(j);
        vstd::set_lib::lemma_int_range(0, n as int);
        assert forall|x: int| ints.to_set().contains(x) implies others.contains(x) by {
            let i = choose|i: int| 0 <= i < ints.len() && ints[i] == x;
            assert(order[i] < n);
        }
        assert(ints.to_set().subset_of(others));
        vstd::set_lib::lemma_len_subset(ints.to_set(), others);
        assert(false);
    }
}


/// Keys ranked by a count first, then by text: `a` ranks no higher than `b`.
pub open spec fn rank_le(a: (u64, Seq<char>), b: (u64, Seq<char>)) -> bool {
    a.0 < b.0 || (a.0 == b.0 && lex_le(a.1, b.1))
}

proof fn lemma_rank_total(a: (u64, Seq<char>), b: (u64, Seq<char>))
    ensures
        rank_le(a, b) || rank_le(b, a),
{
    lemma_lex_total(a.1, b.1);
}

proof fn lemma_rank_trans(a: (u64, Seq<char>), b: (u64, Seq<char>), c: (u64, Seq<char>))
    requires
        rank_le(a, b),
        rank_le(b, c),
    ensures
        rank_le(a, c),
{
    if a.0 == b.0 && b.0 == c.0 {
        lemma_lex_trans(a.1, b.1, c.1);
    }
}

proof fn lemma_rank_refl(a: (u64, Seq<char>))
    ensures
        rank_le(a, a),
{
    lemma_lex_refl(a.1);
}

/// Visiting `keys` in `order` meets them from the highest rank down,
/// equal keys in their original relative order.
pub open spec fn ranked_down(order: Seq<usize>, keys: Seq<(u64, Seq<char>)>) -> bool {
    forall|i: int, j: int| 0 <= i < j < order.len() ==> {
        &&& rank_le(keys[#[trigger] order[j] as int], keys[#[trigger] order[i] as int])
        &&& (keys[order[i] as int] == keys[order[j] as int] ==> order[i] < order[j])
    }
}

/// The keys as pairs of count and text.
pub open spec fn rank_keys(counts: Seq<u64>, texts: Seq<String>) -> Seq<(u64, Seq<char>)> {
    Seq::new(counts.len(), |i: int| (counts[i], texts[i]@))
}

fn rank_le_exec(ca: u64, ta: &str, cb: u64, tb: &str) -> (r: bool)
    ensures
        r == rank_le((ca, ta@), (cb, tb@)),
{
    ca < cb || (ca == cb && str_le(ta, tb))
}

/// The order in which to visit the items keyed `(counts[i], texts[i])` so
/// they come out from the highest key down (a higher count first, then the
/// later text), equal keys kept in place: a stable descending sort.
pub fn rank_order_desc(counts: &Vec<u64>, texts: &Vec<String>) -> (order: Vec<usize>)
    requires
        counts.len() == texts.len(),
    ensures
        is_permutation(order@, counts.len() as nat),
        ranked_down(order@, rank_keys(counts@, texts@)),
{
    let ghost ks = rank_keys(counts@, texts@);
    let mut order: Vec<usize> = Vec::new();
    let mut n: usize = 0;
    while n < counts.len()
        invariant
            counts.len() == texts.len(),
            n <= counts.len(),
            ks == rank_keys(counts@, texts@),
            ks.len() == counts.len(),
            order.len() == n,
            forall|i: int| 0 <= i < order.len() ==> #[trigger] order@[i] < n,
            forall|i: int, j: int| 0 <= i < j < order.len() ==> #[trigger] order@[i] != #[trigger] order@[j],
            ranked_down(order@, ks),
        decreases counts.len() - n,
    {
        // Insert n after every entry whose key ranks at least as high.
        let mut pos: usize = order.len();
        while pos > 0 && !rank_le_exec(counts[n], texts[n].as_str(), counts[order[pos - 1]], texts[order[pos - 1]].as_str())
            invariant
                counts.len() == texts.len(),
                n < counts.len(),
                ks == rank_keys(counts@, texts@),
                ks.len() == counts.len(),
                pos <= order.len(),
                order.len() == n,
                forall|i: int| 0 <= i < order.len() ==> #[trigger] order@[i] < n,
                forall|i: int| pos <= i < order.len() ==> !rank_le(ks[n as int], #[trigger] ks[order@[i] as int]),
            decreases pos,
        {
            assert(ks[order@[pos - 1] as int] == (counts@[order@[pos - 1] as int], texts@[order@[pos - 1] as int]@));
            assert(ks[n as int] == (counts@[n as int], texts@[n as int]@));
            pos = pos - 1;
        }
        proof {
            if pos > 0 {
                assert(ks[order@[pos - 1] as int] == (counts@[order@[pos - 1] as int], texts@[order@[pos - 1] as int]@));
                assert(ks[n as int] == (counts@[n as int], texts@[n as int]@));
            }
            assert forall|i: int| 0 <= i < pos implies rank_le(ks[n as int], ks[#[trigger] order@[i] as int]) by {
                if pos > 0 {
                    assert(rank_le(ks[n as int], ks[order@[pos - 1] as int]));
                    if i < pos - 1 {
                        assert(rank_le(ks[order@[pos - 1] as int], ks[order@[i] as int]));
                        lemma_rank_trans(ks[n as int], ks[order@[pos - 1] as int], ks[order@[i] as int]);
                    }
                }
            }
            assert forall|i: int| pos <= i < order.len() implies rank_le(ks[#[trigger] order@[i] as int], ks[n as int])
                && ks[n as int] != ks[order@[i] as int] by {
                lemma_rank_total(ks[n as int], ks[order@[i] as int]);
                if ks[n as int] == ks[order@[i] as int] {
                    lemma_rank_refl(ks[n as int]);
                }
            }
        }
        let ghost old_order = order@;
        order.insert(pos, n);
        proof {
            assert forall|i: int| 0 <= i < order.len() implies #[trigger] order@[i] < n + 1 by {
                if i < pos { assert(order@[i] == old_order[i]); }
                else if i > pos { assert(order@[i] == old_order[i - 1]); }
            }
            assert forall|i: int, j: int| 0 <= i < j < order.len() implies #[trigger] order@[i] != #[trigger] order@[j] by {
                if i < pos { assert(order@[i] == old_order[i]); }
                else if i > pos { assert(order@[i] == old_order[i - 1]); }
                if j < pos { assert(order@[j] == old_order[j]); }
                else if j > pos { assert(order@[j] == old_order[j - 1]); }
            }
            assert forall|i: int, j: int| 0 <= i < j < order.len() implies {
                &&& rank_le(ks[#[trigger] order@[j] as int], ks[#[trigger] order@[i] as int])
                &&& (ks[order@[i] as int] == ks[order@[j] as int] ==> order@[i] < order@[j])
            } by {
                if i < pos { assert(order@[i] == old_order[i]); }
                else if i > pos { assert(order@[i] == old_order[i - 1]); }
                if j < pos { assert(order@[j] == old_order[j]); }
                else if j > pos { assert(order@[j] == old_order[j - 1]); }
                if i == pos {
                    assert(rank_le(ks[old_order[j - 1] as int], ks[n as int]));
                } else if j == pos {
                    assert(rank_le(ks[n as int], ks[old_order[i] as int]));
                } else {
                    let oi = if i < pos { i } else { i - 1 };
                    let oj = if j < pos { j } else { j - 1 };
                    assert(oi < oj);
                    assert(rank_le(ks[old_order[oj] as int], ks[old_order[oi] as int]));
                }
            }
        }
        n = n + 1;
    }
    order
}


/// Keys ordered by a first text, then a second: `a` sorts no later than `b`.
pub open spec fn pair_le(a: (Seq<char>, Seq<char>), b: (Seq<char>, Seq<char>)) -> bool {
    lex_lt(a.0, b.0) || (a.0 == b.0 && lex_le(a.1, b.1))
}

proof fn lemma_pair_total(a: (Seq<char>, Seq<char>), b: (Seq<char>, Seq<char>))
    ensures
        pair_le(a, b) || pair_le(b, a),
{
    lemma_lex_total(a.0, b.0);
    lemma_lex_total(a.1, b.1);
}

proof fn lemma_pair_trans(a: (Seq<char>, Seq<char>), b: (Seq<char>, Seq<char>), c: (Seq<char>, Seq<char>))
    requires
        pair_le(a, b),
        pair_le(b, c),
    ensures
        pair_le(a, c),
{
    if a.0 == b.0 && b.0 == c.0 {
        lemma_lex_trans(a.1, b.1, c.1);
    } else if a.0 != b.0 && b.0 != c.0 {
        lemma_lex_trans(a.0, b.0, c.0);
        if a.0 == c.0 {
            lemma_lex_antisym(a.0, b.0);
        }
    }
}

proof fn lemma_pair_refl(a: (Seq<char>, Seq<char>))
    ensures
        pair_le(a, a),
{
    lemma_lex_refl(a.1);
}

/// Visiting `keys` in `order` meets them in nondecreasing pair order,
/// equal keys in their original relative order.
pub open spec fn pairs_sorted_stably(order: Seq<usize>, keys: Seq<(Seq<char>, Seq<char>)>) -> bool {
    forall|i: int, j: int| 0 <= i < j < order.len() ==> {
        &&& pair_le(keys[#[trigger] order[i] as int], keys[#[trigger] order[j] as int])
        &&& (keys[order[i] as int] == keys[order[j] as int] ==> order[i] < order[j])
    }
}

/// The keys as pairs of texts.
pub open spec fn pair_keys(firsts: Seq<String>, seconds: Seq<String>) -> Seq<(Seq<char>, Seq<char>)> {
    Seq::new(firsts.len(), |i: int| (firsts[i]@, seconds[i]@))
}

fn pair_le_exec(a0: &str, a1: &str, b0: &str, b1: &str) -> (r: bool)
    ensures
        r == pair_le((a0@, a1@), (b0@, b1@)),
{
    if crate::text::str_eq(a0, b0) { str_le(a1, b1) } else { str_le(a0, b0) }
}

/// The order in which to visit the items keyed `(firsts[i], seconds[i])`
/// so they come out sorted by the first text, then the second, equal keys
/// kept in place (a stable sort).
pub fn pair_sort_order(firsts: &Vec<String>, seconds: &Vec<String>) -> (order: Vec<usize>)
    requires
        firsts.len() == seconds.len(),
    ensures
        is_permutation(order@, firsts.len() as nat),
        pairs_sorted_stably(order@, pair_keys(firsts@, seconds@)),
{
    let ghost ks = pair_keys(firsts@, seconds@);
    let mut order: Vec<usize> = Vec::new();
    let mut n: usize = 0;
    while n < firsts.len()
        invariant
            firsts.len() == seconds.len(),
            n <= firsts.len(),
            ks == pair_keys(firsts@, seconds@),
            ks.len() == firsts.len(),
            order.len() == n,
            forall|i: int| 0 <= i < order.len() ==> #[trigger] order@[i] < n,
            forall|i: int, j: int| 0 <= i < j < order.len() ==> #[trigger] order@[i] != #[trigger] order@[j],
            pairs_sorted_stably(order@, ks),
        decreases firsts.len() - n,
    {
        // Insert n after every entry whose key is no later than its own.
        let mut pos: usize = order.len();
        while pos > 0 && !pair_le_exec(firsts[order[pos - 1]].as_str(), seconds[order[pos - 1]].as_str(),
            firsts[n].as_str(), seconds[n].as_str())
            invariant
                firsts.len() == seconds.len(),
                n < firsts.len(),
                ks == pair_keys(firsts@, seconds@),
                ks.len() == firsts.len(),
                pos <= order.len(),
                order.len() == n,
                forall|i: int| 0 <= i < order.len() ==> #[trigger] order@[i] < n,
                forall|i: int| pos <= i < order.len() ==> !pair_le(#[trigger] ks[order@[i] as int], ks[n as int]),
            decreases pos,
        {
            assert(ks[order@[pos - 1] as int] == (firsts@[order@[pos - 1] as int]@, seconds@[order@[pos - 1] as int]@));
            assert(ks[n as int] == (firsts@[n as int]@, seconds@[n as int]@));
            pos = pos - 1;
        }
        proof {
            if pos > 0 {
                assert(ks[order@[pos - 1] as int] == (firsts@[order@[pos - 1] as int]@, seconds@[order@[pos - 1] as int]@));
                assert(ks[n as int] == (firsts@[n as int]@, seconds@[n as int]@));
            }
            assert forall|i: int| 0 <= i < pos implies pair_le(ks[#[trigger] order@[i] as int], ks[n as int]) by {
                if pos > 0 {
                    assert(pair_le(ks[order@[pos - 1] as int], ks[n as int]));
                    if i < pos - 1 {
                        assert(pair_le(ks[order@[i] as int], ks[order@[pos - 1] as int]));
                        lemma_pair_trans(ks[order@[i] as int], ks[order@[pos - 1] as int], ks[n as int]);
                    }
                }
            }
            assert forall|i: int| pos <= i < order.len() implies pair_le(ks[n as int], ks[#[trigger] order@[i] as int])
                && ks[n as int] != ks[order@[i] as int] by {
                lemma_pair_total(ks[n as int], ks[order@[i] as int]);
                if ks[n as int] == ks[order@[i] as int] {
                    lemma_pair_refl(ks[n as int]);
                }
            }
        }
        let ghost old_order = order@;
        order.insert(pos, n);
        proof {
            assert forall|i: int| 0 <= i < order.len() implies #[trigger] order@[i] < n + 1 by {
                if i < pos { assert(order@[i] == old_order[i]); }
                else if i > pos { assert(order@[i] == old_order[i - 1]); }
            }
            assert forall|i: int, j: int| 0 <= i < j < order.len() implies #[trigger] order@[i] != #[trigger] order@[j] by {
                if i < pos { assert(order@[i] == old_order[i]); }
                else if i > pos { assert(order@[i] == old_order[i - 1]); }
                if j < pos { assert(order@[j] == old_order[j]); }
                else if j > pos { assert(order@[j] == old_order[j - 1]); }
            }
            assert forall|i: int, j: int| 0 <= i < j < order.len() implies {
                &&& pair_le(ks[#[trigger] order@[i] as int], ks[#[trigger] order@[j] as int])
                &&& (ks[order@[i] as int] == ks[order@[j] as int] ==> order@[i] < order@[j])
            } by {
                if i < pos { assert(order@[i] == old_order[i]); }
                else if i > pos { assert(order@[i] == old_order[i - 1]); }
                if j < pos { assert(order@[j] == old_order[j]); }
                else if j > pos { assert(order@[j] == old_order[j - 1]); }
                if i == pos {
                    assert(pair_le(ks[n as int], ks[old_order[j - 1] as int]));
                } else if j == pos {
                    assert(pair_le(ks[old_order[i] as int], ks[n as int]));
                } else {
                    let oi = if i < pos { i } else { i - 1 };
                    let oj = if j < pos { j } else { j - 1 };
                    assert(oi < oj);
                    assert(pair_le(ks[old_order[oi] as int], ks[old_order[oj] as int]));
                }
            }
        }
        n = n + 1;
    }
    order
}


proof fn lemma_pairs_sorted_prefix(o1: Seq<usize>, o2: Seq<usize>, keys: Seq<(Seq<char>, Seq<char>)>, p: int)
    requires
        is_permutation(o1, keys.len()),
        is_permutation(o2, keys.len()),
        pairs_sorted_stably(o1, keys),
        pairs_sorted_stably(o2, keys),
        0 <= p <= keys.len(),
    ensures
        forall|i: int| 0 <= i < p ==> o1[i] == o2[i],
    decreases p,
{
    if p > 0 {
        lemma_pairs_sorted_prefix(o1, o2, keys, p - 1);
        let q = p - 1;
        let a = o1[q];
        let b = o2[q];
        if a != b {
            lemma_permutation_onto(o1, keys.len(), b as int);
            lemma_permutation_onto(o2, keys.len(), a as int);
            let qb = choose|i: int| 0 <= i < o1.len() && o1[i] == b;
            let qa = choose|i: int| 0 <= i < o2.len() && o2[i] == a;
            if qb < q {
                assert(o2[qb] == b);
                assert(false);
            }
            if qa < q {
                assert(o1[qa] == o2[qa]);
                assert(false);
            }
            assert(q < qb && q < qa);
            assert(pair_le(keys[o1[q] as int], keys[o1[qb] as int]));
            assert(pair_le(keys[o2[q] as int], keys[o2[qa] as int]));
            let ka = keys[a as int];
            let kb = keys[b as int];
            if ka.0 == kb.0 {
                lemma_lex_antisym(ka.1, kb.1);
            } else {
                lemma_lex_antisym(ka.0, kb.0);
            }
            assert(ka == kb);
            assert(false);
        }
    }
}

/// A stable sort by pair keys has one outcome: two orders that both visit
/// `keys` sorted stably are the same order.
pub proof fn lemma_pairs_sorted_unique(o1: Seq<usize>, o2: Seq<usize>, keys: Seq<(Seq<char>, Seq<char>)>)
    requires
        is_permutation(o1, keys.len()),
        is_permutation(o2, keys.len()),
        pairs_sorted_stably(o1, keys),
        pairs_sorted_stably(o2, keys),
    ensures
        o1 == o2,
{
    lemma_pairs_sorted_prefix(o1, o2, keys, keys.len() as int);
    assert(o1 =~= o2);
}

/// Whether `s` is one of the strings of `v`.
pub fn has_string(v: &Vec<String>, s: &str) -> (r: bool)
    ensures
        r == member(s@, views(v@)),
{
    let mut i: usize = 0;
    while i < v.len()
        invariant
            i <= v.len(),
            forall|j: int| 0 <= j < i ==> (#[trigger] v@[j])@ != s@,
        decreases v.len() - i,
    {
        if crate::text::str_eq(v[i].as_str(), s) {
            assert(views(v@)[i as int] == s@);
            return true;
        }
        i = i + 1;
    }
    assert forall|j: int| 0 <= j < views(v@).len() implies views(v@)[j] != s@ by {
        assert(v@[j]@ != s@);
    }
    false
}

} // verus!
