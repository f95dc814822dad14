//! How the substrate reads and writes the names of its entities: the
//! numeric prefix of a card slug, the spec id inside a listed spec path,
//! diagram node ids, and the first line of a text.

use vstd::prelude::*;
use crate::text::{
    chars_of, string_from_chars, ascii_digit, ascii_alnum, is_ascii_digit, is_ascii_alnum, is_suffix,
    owned, cat, ends_with_str,
};

verus! {

/// Length of the run of ASCII digits `s` starts with.
pub open spec fn digit_run(s: Seq<char>) -> nat
    decreases s.len(),
{
    if s.len() > 0 && ascii_digit(s[0]) { 1 + digit_run(s.drop_first()) } else { 0 }
}

/// Length of the run of `'0'` characters `s` starts with.
pub open spec fn zero_run(s: Seq<char>) -> nat
    decreases s.len(),
{
    if s.len() > 0 && s[0] == '0' { 1 + zero_run(s.drop_first()) } else { 0 }
}

proof fn lemma_run_facts(s: Seq<char>)
    ensures
        digit_run(s) <= s.len(),
        zero_run(s) <= digit_run(s),
        forall|i: int| 0 <= i < digit_run(s) ==> ascii_digit(#[trigger] s[i]),
        digit_run(s) < s.len() ==> !ascii_digit(s[digit_run(s) as int]),
        forall|i: int| 0 <= i < zero_run(s) ==> #[trigger] s[i] == '0',
        zero_run(s) < s.len() ==> s[zero_run(s) as int] != '0',
    decreases s.len(),
{
    if s.len() > 0 {
        lemma_run_facts(s.drop_first());
        assert forall|i: int| 0 < i < s.len() implies #[trigger] s[i] == s.drop_first()[i - 1] by {}
    }
}

proof fn lemma_run_of(s: Seq<char>, k: int, zeros: bool)
    requires
        0 <= k <= s.len(),
        forall|i: int| 0 <= i < k ==> (if zeros { #[trigger] s[i] == '0' } else { ascii_digit(s[i]) }),
        k < s.len() ==> !(if zeros { s[k] == '0' } else { ascii_digit(s[k]) }),
    ensures
        zeros ==> zero_run(s) == k,
        !zeros ==> digit_run(s) == k,
    decreases k,
{
    if k > 0 {
        assert forall|i: int| 0 <= i < k - 1 implies (if zeros { #[trigger] s.drop_first()[i] == '0' } else { ascii_digit(s.drop_first()[i]) }) by {
            assert(s.drop_first()[i] == s[i + 1]);
        }
        if k - 1 < s.drop_first().len() {
            assert(s.drop_first()[k - 1] == s[k]);
        }
        assert(if zeros { s[0] == '0' } else { ascii_digit(s[0]) });
        lemma_run_of(s.drop_first(), k - 1, zeros);
    }
}

/// The numeric id of a card id: its leading digits without leading zeros
/// (`"0"` when they are all zeros), or the whole id when it has no leading
/// digits.
pub open spec fn numeric_id(id: Seq<char>) -> Seq<char> {
    let d = digit_run(id);
    if d == 0 {
        id
    } else {
        let digits = id.subrange(0, d as int);
        let z = zero_run(digits);
        if z == d { seq!['0'] } else { digits.subrange(z as int, d as int) }
    }
}

/// `0039-workflow-conformance` → `39`: the card number without padding.
pub fn numeric_id_from_card_id(id: &str) -> (r: String)
    ensures
        r@ == numeric_id(id@),
{
    let v = chars_of(id);
    let mut d: usize = 0;
    while d < v.len() && is_ascii_digit(v[d])
        invariant
            v@ == id@,
            d <= v.len(),
            forall|i: int| 0 <= i < d ==> ascii_digit(#[trigger] v@[i]),
        decreases v.len() - d,
    {
        d = d + 1;
    }
    proof { lemma_run_of(id@, d as int, false); }
    if d == 0 {
        return owned(id);
    }
    let mut z: usize = 0;
    while z < d && v[z] == '0'
        invariant
            v@ == id@,
            z <= d <= v.len(),
            forall|i: int| 0 <= i < z ==> #[trigger] v@[i] == '0',
        decreases d - z,
    {
        z = z + 1;
    }
    let ghost digits = id@.subrange(0, d as int);
    proof {
        assert forall|i: int| 0 <= i < z implies #[trigger] digits[i] == '0' by {
            assert(digits[i] == v@[i]);
        }
        if z < d { assert(digits[z as int] == v@[z as int]); }
        lemma_run_of(digits, z as int, true);
    }
    if z == d {
        let mut one: Vec<char> = Vec::new();
        one.push('0');
        assert(one@ =~= seq!['0']);
        return string_from_chars(one.as_slice());
    }
    let r = string_from_chars(vstd::slice::slice_subrange(v.as_slice(), z, d));
    assert(v@.subrange(z as int, d as int) =~= digits.subrange(z as int, d as int));
    r
}

/// The value of a string of decimal digits.
pub open spec fn digits_value(s: Seq<char>) -> nat
    decreases s.len(),
{
    if s.len() == 0 {
        0
    } else {
        digits_value(s.drop_last()) * 10 + ((s.last() as nat) - ('0' as nat)) as nat
    }
}

/// The number a card slug starts with, or `u32::MAX` when it starts with
/// no digit or the number does not fit in a `u32` (such slugs sort last).
pub open spec fn slug_number(slug: Seq<char>) -> u32 {
    let d = digit_run(slug);
    let v = digits_value(slug.subrange(0, d as int));
    if d == 0 || v > u32::MAX { u32::MAX } else { v as u32 }
}

proof fn lemma_value_grows(s: Seq<char>, c: char)
    requires
        ascii_digit(c),
    ensures
        digits_value(s.push(c)) >= digits_value(s),
        digits_value(s.push(c)) == digits_value(s) * 10 + ((c as nat) - ('0' as nat)),
{
    assert(s.push(c).drop_last() =~= s);
}

/// The leading number of a card slug (`0033-see-the-tree` → 33), the
/// tie-break of the most-connected card; `u32::MAX` when there is none.
pub fn numeric_prefix(slug: &str) -> (r: u32)
    ensures
        r == slug_number(slug@),
{
    let v = chars_of(slug);
    let mut d: usize = 0;
    let mut acc: u64 = 0;
    let mut over = false;
    while d < v.len() && is_ascii_digit(v[d])
        invariant
            v@ == slug@,
            d <= v.len(),
            forall|i: int| 0 <= i < d ==> ascii_digit(#[trigger] v@[i]),
            over <==> digits_value(v@.subrange(0, d as int)) > u32::MAX,
            !over ==> acc == digits_value(v@.subrange(0, d as int)),
        decreases v.len() - d,
    {
        let ghost prev = v@.subrange(0, d as int);
        proof {
            assert(v@.subrange(0, d + 1) =~= prev.push(v@[d as int]));
            lemma_value_grows(prev, v@[d as int]);
        }
        if !over {
            let digit = (v[d] as u64) - ('0' as u64);
            acc = acc * 10 + digit;
            if acc > 4294967295 {
                over = true;
            }
        }
        d = d + 1;
    }
    proof { lemma_run_of(slug@, d as int, false); }
    if d == 0 || over {
        u32::MAX
    } else {
        acc as u32
    }
}

/// `s` with every trailing occurrence of `p` removed (`trim_end_matches`).
pub open spec fn strip_suffixes(s: Seq<char>, p: Seq<char>) -> Seq<char>
    decreases s.len(),
{
    if p.len() > 0 && is_suffix(p, s) {
        strip_suffixes(s.subrange(0, s.len() - p.len()), p)
    } else {
        s
    }
}

/// The part of `s` after its last `c` (all of `s` when it holds none).
pub open spec fn after_last(s: Seq<char>, c: char) -> Seq<char>
    decreases s.len(),
{
    if s.len() == 0 {
        s
    } else if s.last() == c {
        Seq::empty()
    } else {
        after_last(s.drop_last(), c).push(s.last())
    }
}

fn trim_end_matches(s: String, p: &str) -> (r: String)
    requires
        p@.len() > 0,
    ensures
        r@ == strip_suffixes(s@, p@),
    decreases s@.len(),
{
    if ends_with_str(s.as_str(), p) {
        let v = chars_of(s.as_str());
        let n = v.len() - p.unicode_len();
        let t = string_from_chars(vstd::slice::slice_subrange(v.as_slice(), 0, n));
        trim_end_matches(t, p)
    } else {
        s
    }
}

fn after_last_slash(s: &str) -> (r: String)
    ensures
        r@ == after_last(s@, '/'),
{
    let v = chars_of(s);
    let mut k: usize = v.len();
    assert(s@.subrange(0, k as int) =~= s@);
    assert(after_last(s@, '/') + s@.subrange(k as int, s@.len() as int) =~= after_last(s@, '/'));
    while k > 0 && v[k - 1] != '/'
        invariant
            v@ == s@,
            k <= v.len(),
            after_last(s@, '/') == after_last(s@.subrange(0, k as int), '/') + s@.subrange(k as int, s@.len() as int),
        decreases k,
    {
        let ghost pre = s@.subrange(0, k as int);
        assert(pre.drop_last() =~= s@.subrange(0, k - 1));
        assert(s@.subrange(k - 1, s@.len() as int) =~= seq![pre.last()] + s@.subrange(k as int, s@.len() as int));
        assert(after_last(pre, '/') == after_last(pre.drop_last(), '/').push(pre.last()));
        assert(after_last(pre.drop_last(), '/').push(pre.last()) + s@.subrange(k as int, s@.len() as int)
            =~= after_last(pre.drop_last(), '/') + s@.subrange(k - 1, s@.len() as int));
        k = k - 1;
    }
    proof {
        let pre = s@.subrange(0, k as int);
        if k > 0 {
            assert(pre.last() == '/');
            assert(after_last(pre, '/') =~= Seq::<char>::empty());
        } else {
            assert(after_last(pre, '/') =~= Seq::<char>::empty());
        }
        assert(after_last(s@, '/') =~= s@.subrange(k as int, s@.len() as int));
    }
    string_from_chars(vstd::slice::slice_subrange(v.as_slice(), k, v.len()))
}

/// The spec id a path in a card's `specs` list names.
pub open spec fn listed_spec_id(listed: Seq<char>) -> Seq<char> {
    after_last(strip_suffixes(strip_suffixes(listed, "/spec.yaml"@), ".yaml"@), '/')
}

/// The spec id in a path from a card's `specs` list:
/// `.orbit/specs/<id>/spec.yaml` and the older `.orbit/specs/<id>.yaml`
/// both give `<id>`.
pub fn spec_id_from_listed_path(listed: &str) -> (r: String)
    ensures
        r@ == listed_spec_id(listed@),
{
    proof {
        reveal_strlit("/spec.yaml");
        reveal_strlit(".yaml");
    }
    let t = trim_end_matches(owned(listed), "/spec.yaml");
    let t = trim_end_matches(t, ".yaml");
    after_last_slash(t.as_str())
}

/// `c` as it may stand in a diagram node id: ASCII letters and digits
/// stay, anything else becomes `_`.
pub open spec fn id_char(c: char) -> char {
    if ascii_alnum(c) { c } else { '_' }
}

/// The diagram node id of `slug` under `prefix`.
pub open spec fn diagram_id(prefix: char, slug: Seq<char>) -> Seq<char> {
    seq![prefix, '_'] + slug.map_values(|c: char| id_char(c))
}

/// `c_0033_see_the_tree`: a node id for `slug` safe in a Mermaid diagram.
pub fn mermaid_id(prefix: char, slug: &str) -> (r: String)
    ensures
        r@ == diagram_id(prefix, slug@),
{
    let v = chars_of(slug);
    let mut out: Vec<char> = Vec::new();
    out.push(prefix);
    out.push('_');
    let mut i: usize = 0;
    while i < v.len()
        invariant
            v@ == slug@,
            i <= v.len(),
            out@ == seq![prefix, '_'] + slug@.subrange(0, i as int).map_values(|c: char| id_char(c)),
        decreases v.len() - i,
    {
        let c = if is_ascii_alnum(v[i]) { v[i] } else { '_' };
        out.push(c);
        assert(slug@.subrange(0, i + 1).map_values(|c: char| id_char(c))
            =~= slug@.subrange(0, i as int).map_values(|c: char| id_char(c)).push(id_char(slug@[i as int])));
        i = i + 1;
    }
    assert(slug@.subrange(0, v.len() as int) =~= slug@);
    string_from_chars(out.as_slice())
}

/// The first line of `s` as `str::lines` yields it: up to the first `\n`,
/// without a `\r` right before that `\n`; empty for an empty `s`.
pub open spec fn first_line_of(s: Seq<char>) -> Seq<char> {
    if exists|k: int| 0 <= k < s.len() && s[k] == '\n' {
        let k = choose|k: int| 0 <= k < s.len() && s[k] == '\n' && forall|j: int| 0 <= j < k ==> s[j] != '\n';
        let line = s.subrange(0, k);
        if line.len() > 0 && line.last() == '\r' { line.drop_last() } else { line }
    } else {
        s
    }
}

/// The first line of `s` (empty when `s` is empty).
pub fn first_line(s: &str) -> (r: String)
    ensures
        r@ == first_line_of(s@),
{
    let v = chars_of(s);
    let mut k: usize = 0;
    while k < v.len() && v[k] != '\n'
        invariant
            v@ == s@,
            k <= v.len(),
            forall|j: int| 0 <= j < k ==> v@[j] != '\n',
        decreases v.len() - k,
    {
        k = k + 1;
    }
    if k == v.len() {
        assert(!exists|j: int| 0 <= j < s@.len() && s@[j] == '\n');
        return owned(s);
    }
    proof {
        let k2 = choose|k2: int| 0 <= k2 < s@.len() && s@[k2] == '\n' && forall|j: int| 0 <= j < k2 ==> s@[j] != '\n';
        if k2 < k { assert(v@[k2] != '\n'); }
        if k2 > k { assert(s@[k as int] != '\n'); }
    }
    if k > 0 && v[k - 1] == '\r' {
        let r = string_from_chars(vstd::slice::slice_subrange(v.as_slice(), 0, k - 1));
        assert(v@.subrange(0, k - 1) =~= s@.subrange(0, k as int).drop_last());
        r
    } else {
        string_from_chars(vstd::slice::slice_subrange(v.as_slice(), 0, k))
    }
}

/// A card id without its `NNNN-` number: the slug `spec.promote` names the
/// new spec after. Ids without exactly that prefix stay whole.
pub open spec fn card_slug_of(card_id: Seq<char>) -> Seq<char> {
    if card_id.len() >= 5 && ascii_digit(card_id[0]) && ascii_digit(card_id[1])
        && ascii_digit(card_id[2]) && ascii_digit(card_id[3]) && card_id[4] == '-' {
        card_id.subrange(5, card_id.len() as int)
    } else {
        card_id
    }
}

/// Strips the `NNNN-` number from a card id.
pub fn card_slug_from_id(card_id: &str) -> (r: String)
    ensures
        r@ == card_slug_of(card_id@),
{
    let v = chars_of(card_id);
    if v.len() >= 5 && is_ascii_digit(v[0]) && is_ascii_digit(v[1]) && is_ascii_digit(v[2])
        && is_ascii_digit(v[3]) && v[4] == '-' {
        string_from_chars(vstd::slice::slice_subrange(v.as_slice(), 5, v.len()))
    } else {
        owned(card_id)
    }
}

} // verus!
