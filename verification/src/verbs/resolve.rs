//! Finding what a request names: the bare-number shorthand for cards and
//! choices, and the spec a skill should act on when none was named.

use vstd::prelude::*;
use crate::error::{Error, Category, Result};
use crate::text::{cat, owned, str_eq, chars_of, is_ascii_digit, ascii_digit, has_path_hazard, path_hazard,
    is_prefix, starts_with_str, decimal, u64_to_decimal, join, joined};
use crate::order::{views, member, sort_strings, sorted, distinct, sort_order, is_permutation, sorted_stably, drawn_from};
use crate::verbs::names::{digits_value, strip_suffixes, first_line, first_line_of};
use crate::verbs::results::{SpecResolveResult, SpecResolveCandidate};

verus! {

/// `n` written with at least four digits, zero-padded (`{n:04}`).
pub open spec fn pad4(n: nat) -> Seq<char> {
    let d = decimal(n);
    if d.len() >= 4 { d } else { Seq::new((4 - d.len()) as nat, |i: int| '0') + d }
}

/// A query in the bare-number shorthand: one to four ASCII digits.
pub open spec fn bare_number(q: Seq<char>) -> bool {
    0 < q.len() <= 4 && forall|i: int| 0 <= i < q.len() ==> ascii_digit(#[trigger] q[i])
}

/// The file-name prefix a bare number selects: `NNNN-`.
pub open spec fn number_prefix(q: Seq<char>) -> Seq<char> {
    pad4(digits_value(q)) + "-"@
}

/// The entry names (file names without `.yaml`) a bare number selects,
/// in listing order.
pub open spec fn numbered_matches(names: Seq<String>, q: Seq<char>) -> Seq<Seq<char>>
    decreases names.len(),
{
    if names.len() == 0 {
        Seq::empty()
    } else {
        let rest = numbered_matches(names.drop_last(), q);
        let n = names.last()@;
        if crate::text::is_suffix(".yaml"@, n) && is_prefix(number_prefix(q), n) {
            rest.push(strip_suffixes(n, ".yaml"@))
        } else {
            rest
        }
    }
}

fn pad4_exec(n: u64) -> (r: String)
    ensures
        r@ == pad4(n as nat),
{
    let d = u64_to_decimal(n);
    let len = d.unicode_len();
    if len >= 4 {
        return d;
    }
    let mut zeros: Vec<char> = Vec::new();
    while zeros.len() < 4 - len
        invariant
            len < 4,
            zeros.len() <= 4 - len,
            forall|i: int| 0 <= i < zeros.len() ==> zeros@[i] == '0',
        decreases 4 - len - zeros.len(),
    {
        zeros.push('0');
    }
    let z = crate::text::string_from_chars(zeros.as_slice());
    let r = cat(z, d.as_str());
    assert(zeros@ =~= Seq::new((4 - len) as nat, |i: int| '0'));
    r
}

fn trim_yaml(s: &str) -> (r: String)
    ensures
        r@ == strip_suffixes(s@, ".yaml"@),
    decreases s@.len(),
{
    proof { reveal_strlit(".yaml"); }
    if crate::text::ends_with_str(s, ".yaml") {
        let v = chars_of(s);
        let n = v.len() - 5;
        let t = crate::text::string_from_chars(vstd::slice::slice_subrange(v.as_slice(), 0, n));
        trim_yaml(t.as_str())
    } else {
        owned(s)
    }
}

/// The bare-number shorthand of cards and choices (`8` or `0008` name the
/// entry whose file starts with `0008-`), resolved against `names`, the
/// file names of the directory (`None` when it could not be listed).
/// `Ok(None)` means the query is not a bare number (or the directory
/// could not be listed) and is to be taken literally; a bare number with
/// no match is not-found, with several is malformed (listing them sorted).
pub fn resolve_numeric_slug(verb: &str, dir_display: &str, names: &Option<Vec<String>>, query: &str)
    -> (r: Result<Option<String>>)
    ensures
        !bare_number(query@) ==> r == Ok::<Option<String>, Error>(None),
        bare_number(query@) ==> match *names {
            None => r == Ok::<Option<String>, Error>(None),
            Some(ns) => {
                let m = numbered_matches(ns@, query@);
                &&& (m.len() == 0 ==> (r matches Err(e) && e.is(verb@, Category::NotFound,
                    "no entry matching `"@ + number_prefix(query@) + "*` in "@ + dir_display@)))
                &&& (m.len() == 1 ==> (r matches Ok(Some(s)) && s@ == m[0]))
                &&& (m.len() >= 2 ==> (r matches Err(e) && e.category == Category::Malformed && e.verb@ == verb@
                    && exists|sm: Seq<Seq<char>>| sorted(sm) && sm.len() == m.len() && drawn_from(sm, m) && drawn_from(m, sm)
                        && e.message@ == "ambiguous: `"@ + query@ + "` matches "@ + decimal(m.len())
                            + " entries: "@ + joined(sm, ", "@)))
            },
        },
{
    let q = chars_of(query);
    if q.len() == 0 || q.len() > 4 {
        return Ok(None);
    }
    let mut i: usize = 0;
    let mut value: u64 = 0;
    while i < q.len()
        invariant
            q@ == query@,
            0 < q.len() <= 4,
            i <= q.len(),
            forall|j: int| 0 <= j < i ==> ascii_digit(#[trigger] q@[j]),
            value == digits_value(q@.subrange(0, i as int)),
            value < 10000,
        decreases q.len() - i,
    {
        if !is_ascii_digit(q[i]) {
            return Ok(None);
        }
        let ghost prev = q@.subrange(0, i as int);
        assert(q@.subrange(0, i + 1) =~= prev.push(q@[i as int]));
        assert(prev.push(q@[i as int]).drop_last() =~= prev);
        proof {
            assert(q@.subrange(0, i + 1).len() <= 4);
            lemma_small_value(q@.subrange(0, i + 1));
        }
        value = value * 10 + ((q[i] as u64) - ('0' as u64));
        i = i + 1;
    }
    assert(q@.subrange(0, q.len() as int) =~= q@);
    let names = match names {
        Some(ns) => ns,
        None => return Ok(None),
    };
    let prefix = cat(pad4_exec(value), "-");
    let mut found: Vec<String> = Vec::new();
    let mut k: usize = 0;
    proof { reveal_strlit(".yaml"); reveal_strlit("-"); }
    while k < names.len()
        invariant
            k <= names.len(),
            prefix@ == number_prefix(query@),
            views(found@) == numbered_matches(names@.subrange(0, k as int), query@),
        decreases names.len() - k,
    {
        assert(names@.subrange(0, k + 1).drop_last() =~= names@.subrange(0, k as int));
        let ghost before = views(found@);
        if crate::text::ends_with_str(names[k].as_str(), ".yaml") && starts_with_str(names[k].as_str(), prefix.as_str()) {
            found.push(trim_yaml(names[k].as_str()));
            assert(views(found@) =~= before.push(strip_suffixes(names@[k as int]@, ".yaml"@)));
        }
        k = k + 1;
    }
    assert(names@.subrange(0, names.len() as int) =~= names@);
    if found.len() == 0 {
        let m = cat(owned("no entry matching `"), prefix.as_str());
        let m = cat(m, "*` in ");
        return Err(Error::not_found(verb, cat(m, dir_display)));
    }
    if found.len() == 1 {
        let s = found[0].clone();
        assert(s@ == views(found@)[0]);
        return Ok(Some(s));
    }
    let sorted_found = sort_strings(&found);
    let m = cat(owned("ambiguous: `"), query);
    let m = cat(m, "` matches ");
    let n = u64_to_decimal(found.len() as u64);
    let m = cat(m, n.as_str());
    let m = cat(m, " entries: ");
    let list = join(&sorted_found, ", ");
    let m = cat(m, list.as_str());
    proof {
        assert(views(found@).len() == found.len());
        assert(views(sorted_found@).len() == sorted_found.len());
    }
    Err(Error::malformed(verb, m))
}

proof fn lemma_small_value(s: Seq<char>)
    requires
        s.len() <= 4,
        forall|i: int| 0 <= i < s.len() ==> ascii_digit(#[trigger] s[i]),
    ensures
        digits_value(s) < 10000,
        s.len() <= 3 ==> digits_value(s) < 1000,
        s.len() <= 2 ==> digits_value(s) < 100,
        s.len() <= 1 ==> digits_value(s) < 10,
    decreases s.len(),
{
    if s.len() > 0 {
        lemma_small_value(s.drop_last());
    }
}

/// Where a card binding came from.
#[derive(Clone, Copy)]
pub enum BoundCardSource {
    /// The explicit `card` argument.
    Arg,
    /// The session's bound card (`.orbit/.session-card`).
    Session,
}

/// An open spec as the resolver sees it.
pub struct OpenSpec {
    pub id: String,
    pub goal: String,
    pub cards: Vec<String>,
}

/// Refuses an empty or path-like explicit card argument.
pub fn validate_card_arg(verb: &str, card: &Option<String>) -> (r: Result<()>)
    ensures
        match *card {
            None => r is Ok,
            Some(c) => if c@.len() == 0 {
                r matches Err(e) && e.is(verb@, Category::Malformed, "card must not be empty when provided"@)
            } else if path_hazard(c@) {
                r matches Err(e) && e.is(verb@, Category::Malformed,
                    "card must not contain path separators or '..': '"@ + c@ + "'"@)
            } else {
                r is Ok
            },
        },
{
    match card {
        None => Ok(()),
        Some(c) => {
            if c.unicode_len() == 0 {
                return Err(Error::malformed(verb, owned("card must not be empty when provided")));
            }
            if has_path_hazard(c.as_str()) {
                let m = cat(owned("card must not contain path separators or '..': '"), c.as_str());
                return Err(Error::malformed(verb, cat(m, "'")));
            }
            Ok(())
        },
    }
}

/// The open specs a resolution considers: those listing `card` when one is
/// bound, every one otherwise; in the order given.
pub open spec fn candidates(open: Seq<OpenSpec>, card: Option<Seq<char>>) -> Seq<OpenSpec>
    decreases open.len(),
{
    if open.len() == 0 {
        Seq::empty()
    } else {
        let rest = candidates(open.drop_last(), card);
        let keep = match card {
            Some(c) => member(c, views(open.last().cards@)),
            None => true,
        };
        if keep { rest.push(open.last()) } else { rest }
    }
}

/// The view of an optional string.
pub open spec fn opt_view(o: Option<String>) -> Option<Seq<char>> {
    match o {
        Some(s) => Some(s@),
        None => None,
    }
}

/// `out` offers the candidates `cs` sorted (stably) by id, each with the
/// first line of its goal.
pub open spec fn offered(out: Seq<SpecResolveCandidate>, cs: Seq<OpenSpec>) -> bool {
    &&& out.len() == cs.len()
    &&& exists|ord: Seq<usize>| {
        &&& is_permutation(ord, cs.len())
        &&& sorted_stably(ord, open_ids(cs))
        &&& forall|i: int| 0 <= i < out.len() ==> (#[trigger] out[i]).id@ == cs[ord[i] as int].id@
            && out[i].goal_first_line@ == first_line_of(cs[ord[i] as int].goal@)
    }
}

/// The ids of a list of open specs.
pub open spec fn open_ids(cs: Seq<OpenSpec>) -> Seq<Seq<char>> {
    cs.map_values(|o: OpenSpec| o.id@)
}

/// How a single candidate was reached.
pub open spec fn resolved_source(src: Option<BoundCardSource>) -> Seq<char> {
    match src {
        Some(BoundCardSource::Arg) => "card_arg"@,
        Some(BoundCardSource::Session) => "bound_card"@,
        None => "single_open"@,
    }
}

/// Why several candidates are offered.
pub open spec fn prompt_source(src: Option<BoundCardSource>) -> Seq<char> {
    match src {
        Some(BoundCardSource::Arg) => "card_arg_multi"@,
        Some(BoundCardSource::Session) => "bound_card_multi"@,
        None => "unbound"@,
    }
}

/// The message when nothing can be resolved.
pub open spec fn halt_message(skill: Option<Seq<char>>, card: Option<Seq<char>>) -> Seq<char> {
    match card {
        Some(c) => "no open spec under the bound card "@ + c
            + ". Create one with /orb:spec, or rebind with orbit session set-card <id>."@,
        None => "no spec to act on for "@ + (match skill { Some(s) => "/orb:"@ + s, None => "/orb:<skill>"@ })
            + " — both fallbacks failed (.session-card is unbound and no open specs exist). Create one with /orb:spec."@,
    }
}

fn lists(spec: &OpenSpec, card: &str) -> (r: bool)
    ensures
        r == member(card@, views(spec.cards@)),
{
    let mut i: usize = 0;
    while i < spec.cards.len()
        invariant
            i <= spec.cards.len(),
            forall|j: int| 0 <= j < i ==> (#[trigger] spec.cards@[j])@ != card@,
        decreases spec.cards.len() - i,
    {
        if str_eq(spec.cards[i].as_str(), card) {
            assert(views(spec.cards@)[i as int] == card@);
            return true;
        }
        i = i + 1;
    }
    assert forall|j: int| 0 <= j < views(spec.cards@).len() implies views(spec.cards@)[j] != card@ by {
        assert(spec.cards@[j]@ != card@);
    }
    false
}

/// `spec.resolve` once the binding is known and the open specs are read.
/// `source` says where the bound card came from (none when no card is
/// bound), `card` is the bound card resolved to its slug. One candidate
/// resolves; several are offered sorted by id, each with the first line of
/// its goal; none halts with a message that names the bound card, or the
/// skill when nothing is bound.
pub fn resolve_spec(verb: &str, skill: &Option<String>, source: Option<BoundCardSource>, card: &Option<String>,
    open: &Vec<OpenSpec>) -> (r: Result<SpecResolveResult>)
    ensures
        candidates(open@, opt_view(*card)).len() == 0 ==> (r matches Err(e)
            && e.is(verb@, Category::Unavailable, halt_message(opt_view(*skill), opt_view(*card)))),
        candidates(open@, opt_view(*card)).len() == 1 ==> (r matches Ok(SpecResolveResult::Resolved { id, source: s })
            && id@ == candidates(open@, opt_view(*card))[0].id@ && s@ == resolved_source(source)),
        candidates(open@, opt_view(*card)).len() >= 2 ==> (r matches Ok(SpecResolveResult::Prompt { candidates: out, source: s })
            && s@ == prompt_source(source) && offered(out@, candidates(open@, opt_view(*card)))),
{
    let ghost card_view = opt_view(*card);
    let mut idx: Vec<usize> = Vec::new();
    let mut i: usize = 0;
    while i < open.len()
        invariant
            i <= open.len(),
            card_view == opt_view(*card),
            idx.len() == candidates(open@.subrange(0, i as int), card_view).len(),
            forall|j: int| 0 <= j < idx.len() ==> #[trigger] idx@[j] < open.len()
                && open@[idx@[j] as int] == candidates(open@.subrange(0, i as int), card_view)[j],
        decreases open.len() - i,
    {
        assert(open@.subrange(0, i + 1).drop_last() =~= open@.subrange(0, i as int));
        let keep = match card {
            Some(c) => lists(&open[i], c.as_str()),
            None => true,
        };
        if keep {
            idx.push(i);
        }
        i = i + 1;
    }
    assert(open@.subrange(0, open.len() as int) =~= open@);
    let ghost cs = candidates(open@, card_view);
    if idx.len() == 0 {
        let m = match card {
            Some(c) => {
                let m = cat(owned("no open spec under the bound card "), c.as_str());
                cat(m, ". Create one with /orb:spec, or rebind with orbit session set-card <id>.")
            },
            None => {
                let label = match skill {
                    Some(s) => cat(owned("/orb:"), s.as_str()),
                    None => owned("/orb:<skill>"),
                };
                let m = cat(owned("no spec to act on for "), label.as_str());
                cat(m, " — both fallbacks failed (.session-card is unbound and no open specs exist). Create one with /orb:spec.")
            },
        };
        return Err(Error::unavailable(verb, m));
    }
    if idx.len() == 1 {
        let src = match source {
            Some(BoundCardSource::Arg) => "card_arg",
            Some(BoundCardSource::Session) => "bound_card",
            None => "single_open",
        };
        return Ok(SpecResolveResult::Resolved { id: open[idx[0]].id.clone(), source: owned(src) });
    }
    let mut ids: Vec<String> = Vec::new();
    let mut k: usize = 0;
    while k < idx.len()
        invariant
            k <= idx.len(),
            idx.len() == cs.len(),
            forall|j: int| 0 <= j < idx.len() ==> #[trigger] idx@[j] < open.len() && open@[idx@[j] as int] == cs[j],
            ids.len() == k,
            forall|j: int| 0 <= j < k ==> (#[trigger] ids@[j])@ == cs[j].id@,
        decreases idx.len() - k,
    {
        ids.push(open[idx[k]].id.clone());
        k = k + 1;
    }
    let ord = sort_order(&ids);
    proof {
        assert(views(ids@) =~= open_ids(cs));
    }
    let mut out: Vec<SpecResolveCandidate> = Vec::new();
    let mut n: usize = 0;
    while n < ord.len()
        invariant
            n <= ord.len(),
            ord.len() == cs.len(),
            idx.len() == cs.len(),
            is_permutation(ord@, cs.len()),
            forall|j: int| 0 <= j < idx.len() ==> #[trigger] idx@[j] < open.len() && open@[idx@[j] as int] == cs[j],
            out.len() == n,
            forall|j: int| 0 <= j < n ==> (#[trigger] out@[j]).id@ == cs[ord@[j] as int].id@
                && out@[j].goal_first_line@ == first_line_of(cs[ord@[j] as int].goal@),
        decreases ord.len() - n,
    {
        let o = ord[n];
        assert(o < cs.len());
        let spec = &open[idx[o]];
        out.push(SpecResolveCandidate { id: spec.id.clone(), goal_first_line: first_line(spec.goal.as_str()) });
        n = n + 1;
    }
    let src = match source {
        Some(BoundCardSource::Arg) => "card_arg_multi",
        Some(BoundCardSource::Session) => "bound_card_multi",
        None => "unbound",
    };
    proof {
        assert(sorted_stably(ord@, open_ids(cs)));
        assert(forall|i: int| 0 <= i < out.len() ==> (#[trigger] out@[i]).id@ == cs[ord@[i] as int].id@
            && out@[i].goal_first_line@ == first_line_of(cs[ord@[i] as int].goal@));
        assert(offered(out@, cs));
        assert(cs == candidates(open@, opt_view(*card)));
    }
    Ok(SpecResolveResult::Prompt { candidates: out, source: owned(src) })
}

} // verus!
