//! The counting half of `memory.match`: the word tokens of a text, the
//! lowercased label set, and how much of a topic and a label set a memory
//! shares. The score built from these counts is a float and is computed
//! by the caller.

use vstd::prelude::*;
use crate::error::{Error, Category, Result};
use crate::schema::Memory;
use crate::text::{owned, cat, str_eq, chars_of, string_from_chars, to_lowercase, lowercase, u64_to_decimal, decimal};
use crate::order::{views, member, has_string, sort_strings, sorted, distinct, drawn_from};
use crate::verbs::graph::push_new;
use crate::verbs::prime::overlap;

verus! {

/// Whether `char::is_alphanumeric` holds of `c` (Unicode alphabetic or
/// numeric).
pub uninterp spec fn alphanumeric(c: char) -> bool;

/// `char::is_alphanumeric`. Its answer is named, not stated: the Unicode
/// tables are not restated here.
#[verifier::external_body]
pub(crate) fn is_alphanumeric(c: char) -> (r: bool)
    ensures
        r == alphanumeric(c),
{
    c.is_alphanumeric()
}

/// The pieces of `s` between characters that are not alphanumeric, empty
/// pieces included (as `str::split` gives them).
pub open spec fn word_pieces(s: Seq<char>) -> Seq<Seq<char>>
    decreases s.len(),
{
    if s.len() == 0 {
        seq![Seq::empty()]
    } else {
        let p = word_pieces(s.drop_last());
        let c = s.last();
        if alphanumeric(c) { p.update(p.len() - 1, p.last().push(c)) } else { p.push(Seq::empty()) }
    }
}

/// The words too common to carry a topic.
pub open spec fn stop_word(t: Seq<char>) -> bool {
    ||| t == "a"@ ||| t == "an"@ ||| t == "the"@ ||| t == "and"@ ||| t == "or"@ ||| t == "but"@
    ||| t == "of"@ ||| t == "for"@ ||| t == "to"@ ||| t == "in"@ ||| t == "on"@ ||| t == "at"@
    ||| t == "by"@ ||| t == "is"@ ||| t == "are"@ ||| t == "was"@ ||| t == "were"@ ||| t == "be"@
    ||| t == "been"@ ||| t == "being"@ ||| t == "as"@ ||| t == "with"@ ||| t == "from"@ ||| t == "this"@
    ||| t == "that"@ ||| t == "these"@ ||| t == "those"@ ||| t == "it"@ ||| t == "its"@ ||| t == "if"@
    ||| t == "so"@ ||| t == "we"@ ||| t == "you"@ ||| t == "i"@ ||| t == "they"@ ||| t == "he"@
    ||| t == "she"@ ||| t == "do"@ ||| t == "does"@ ||| t == "did"@ ||| t == "not"@ ||| t == "no"@
    ||| t == "yes"@ ||| t == "than"@ ||| t == "then"@ ||| t == "via"@ ||| t == "per"@
}

fn is_stop_word(t: &str) -> (r: bool)
    ensures
        r == stop_word(t@),
{
    str_eq(t, "a") || str_eq(t, "an") || str_eq(t, "the") || str_eq(t, "and") || str_eq(t, "or")
        || str_eq(t, "but") || str_eq(t, "of") || str_eq(t, "for") || str_eq(t, "to") || str_eq(t, "in")
        || str_eq(t, "on") || str_eq(t, "at") || str_eq(t, "by") || str_eq(t, "is") || str_eq(t, "are")
        || str_eq(t, "was") || str_eq(t, "were") || str_eq(t, "be") || str_eq(t, "been") || str_eq(t, "being")
        || str_eq(t, "as") || str_eq(t, "with") || str_eq(t, "from") || str_eq(t, "this") || str_eq(t, "that")
        || str_eq(t, "these") || str_eq(t, "those") || str_eq(t, "it") || str_eq(t, "its") || str_eq(t, "if")
        || str_eq(t, "so") || str_eq(t, "we") || str_eq(t, "you") || str_eq(t, "i") || str_eq(t, "they")
        || str_eq(t, "he") || str_eq(t, "she") || str_eq(t, "do") || str_eq(t, "does") || str_eq(t, "did")
        || str_eq(t, "not") || str_eq(t, "no") || str_eq(t, "yes") || str_eq(t, "than") || str_eq(t, "then")
        || str_eq(t, "via") || str_eq(t, "per")
}

/// `t` takes more than one byte in UTF-8: two characters or more, or one
/// outside ASCII.
pub open spec fn wide(t: Seq<char>) -> bool {
    t.len() >= 2 || (t.len() == 1 && (t[0] as u32) >= 0x80)
}

/// A piece that counts as a token: wider than one byte and no stop word.
pub open spec fn token(t: Seq<char>) -> bool {
    wide(t) && !stop_word(t)
}

/// The token set of `text`: the pieces of its lowercase form that count
/// as tokens.
pub open spec fn in_tokens(x: Seq<char>, text: Seq<char>) -> bool {
    member(x, word_pieces(lowercase(text))) && token(x)
}

/// No word of the stop list is ever a token, whatever the text: `memory.match`
/// never scores an overlap on `a`, `the`, `with`, `from` or any other of them.
pub proof fn lemma_stop_words_never_tokens(text: Seq<char>)
    ensures
        !in_tokens("a"@, text),
        !in_tokens("an"@, text),
        !in_tokens("the"@, text),
        !in_tokens("and"@, text),
        !in_tokens("or"@, text),
        !in_tokens("but"@, text),
        !in_tokens("of"@, text),
        !in_tokens("for"@, text),
        !in_tokens("to"@, text),
        !in_tokens("in"@, text),
        !in_tokens("on"@, text),
        !in_tokens("at"@, text),
        !in_tokens("by"@, text),
        !in_tokens("is"@, text),
        !in_tokens("are"@, text),
        !in_tokens("was"@, text),
        !in_tokens("were"@, text),
        !in_tokens("be"@, text),
        !in_tokens("been"@, text),
        !in_tokens("being"@, text),
        !in_tokens("as"@, text),
        !in_tokens("with"@, text),
        !in_tokens("from"@, text),
        !in_tokens("this"@, text),
        !in_tokens("that"@, text),
        !in_tokens("these"@, text),
        !in_tokens("those"@, text),
        !in_tokens("it"@, text),
        !in_tokens("its"@, text),
        !in_tokens("if"@, text),
        !in_tokens("so"@, text),
        !in_tokens("we"@, text),
        !in_tokens("you"@, text),
        !in_tokens("i"@, text),
        !in_tokens("they"@, text),
        !in_tokens("he"@, text),
        !in_tokens("she"@, text),
        !in_tokens("do"@, text),
        !in_tokens("does"@, text),
        !in_tokens("did"@, text),
        !in_tokens("not"@, text),
        !in_tokens("no"@, text),
        !in_tokens("yes"@, text),
        !in_tokens("than"@, text),
        !in_tokens("then"@, text),
        !in_tokens("via"@, text),
        !in_tokens("per"@, text),
{
}

proof fn lemma_pieces_nonempty(s: Seq<char>)
    ensures
        word_pieces(s).len() >= 1,
    decreases s.len(),
{
    if s.len() > 0 {
        lemma_pieces_nonempty(s.drop_last());
    }
}

fn keep_if_token(acc: &mut Vec<String>, piece: &Vec<char>)
    requires
        distinct(views(old(acc)@)),
    ensures
        distinct(views(final(acc)@)),
        forall|x: Seq<char>| #[trigger] member(x, views(final(acc)@)) <==> (member(x, views(old(acc)@)) || (x == piece@ && token(x))),
{
    let w = piece.len() >= 2 || (piece.len() == 1 && (piece[0] as u32) >= 0x80);
    if !w {
        return;
    }
    let s = string_from_chars(piece.as_slice());
    if is_stop_word(s.as_str()) {
        return;
    }
    push_new(acc, s.as_str());
}

/// The distinct tokens of `text`, ascending: the pieces of its lowercase
/// form between non-alphanumeric characters that take more than one byte
/// and are not stop words.
pub fn tokenise(text: &str) -> (r: Vec<String>)
    ensures
        sorted(views(r@)),
        distinct(views(r@)),
        forall|x: Seq<char>| member(x, views(r@)) <==> in_tokens(x, text@),
{
    let low = to_lowercase(text);
    let cs = chars_of(low.as_str());
    let ghost s = cs@;
    let mut acc: Vec<String> = Vec::new();
    let mut cur: Vec<char> = Vec::new();
    let mut i: usize = 0;
    while i < cs.len()
        invariant
            cs@ == s,
            i <= cs.len(),
            word_pieces(s.subrange(0, i as int)).len() >= 1,
            cur@ == word_pieces(s.subrange(0, i as int)).last(),
            distinct(views(acc@)),
            forall|x: Seq<char>| #[trigger] member(x, views(acc@)) <==>
                (member(x, word_pieces(s.subrange(0, i as int)).drop_last()) && token(x)),
        decreases cs.len() - i,
    {
        let ghost p = word_pieces(s.subrange(0, i as int));
        assert(s.subrange(0, i + 1).drop_last() =~= s.subrange(0, i as int));
        assert(s.subrange(0, i + 1).last() == cs@[i as int]);
        let c = cs[i];
        if is_alphanumeric(c) {
            cur.push(c);
            proof {
                let q = word_pieces(s.subrange(0, i + 1));
                assert(q == p.update(p.len() - 1, p.last().push(c)));
                assert(q.drop_last() =~= p.drop_last());
            }
        } else {
            let ghost before = views(acc@);
            keep_if_token(&mut acc, &cur);
            cur = Vec::new();
            proof {
                let q = word_pieces(s.subrange(0, i + 1));
                assert(q == p.push(Seq::empty()));
                assert(q.drop_last() =~= p);
                assert(p =~= p.drop_last().push(p.last()));
                assert forall|x: Seq<char>| member(x, views(acc@)) <==> (member(x, q.drop_last()) && token(x)) by {
                    assert(member(x, views(acc@)) <==> (member(x, before) || (x == p.last() && token(x))));
                    assert(member(x, before) <==> (member(x, p.drop_last()) && token(x)));
                    if member(x, p.drop_last()) {
                        let j = choose|j: int| 0 <= j < p.drop_last().len() && p.drop_last()[j] == x;
                        assert(p[j] == x);
                        assert(member(x, p));
                    }
                    if member(x, p) {
                        let j = choose|j: int| 0 <= j < p.len() && p[j] == x;
                        if j < p.len() - 1 {
                            assert(p.drop_last()[j] == x);
                        } else {
                            assert(x == p.last());
                        }
                    }
                    if x == p.last() {
                        assert(p[p.len() - 1] == x);
                        assert(member(x, p));
                    }
                }
                assert(q.last() == Seq::<char>::empty());
            }
            assert(cur@ =~= Seq::<char>::empty());
        }
        i = i + 1;
    }
    assert(s.subrange(0, s.len() as int) =~= s);
    let ghost p = word_pieces(s);
    keep_if_token(&mut acc, &cur);
    proof {
        assert(p =~= p.drop_last().push(p.last()));
        assert forall|x: Seq<char>| member(x, views(acc@)) <==> (member(x, p) && token(x)) by {
            if member(x, p.drop_last()) {
                let j = choose|j: int| 0 <= j < p.drop_last().len() && p.drop_last()[j] == x;
                assert(p[j] == x);
            }
            if member(x, p) {
                let j = choose|j: int| 0 <= j < p.len() && p[j] == x;
                if j < p.len() - 1 {
                    assert(p.drop_last()[j] == x);
                }
            }
            if x == p.last() {
                assert(p[p.len() - 1] == x);
            }
        }
    }
    let r = sort_strings(&acc);
    proof {
        assert forall|x: Seq<char>| member(x, views(r@)) <==> in_tokens(x, text@) by {
            if member(x, views(r@)) {
                let j = choose|j: int| 0 <= j < views(r@).len() && views(r@)[j] == x;
                assert(member(views(r@)[j], views(acc@)));
            }
            if member(x, views(acc@)) {
                let j = choose|j: int| 0 <= j < views(acc@).len() && views(acc@)[j] == x;
                assert(member(views(acc@)[j], views(r@)));
            }
        }
    }
    r
}

/// `x` is the lowercase form of one of `labels`.
pub open spec fn in_label_set(x: Seq<char>, labels: Seq<String>) -> bool {
    exists|i: int| 0 <= i < labels.len() && x == lowercase(#[trigger] labels[i]@)
}

/// The lowercase forms of `labels`, each once, ascending.
pub fn label_set(labels: &Vec<String>) -> (r: Vec<String>)
    ensures
        sorted(views(r@)),
        distinct(views(r@)),
        forall|x: Seq<char>| member(x, views(r@)) <==> in_label_set(x, labels@),
{
    let mut acc: Vec<String> = Vec::new();
    let mut i: usize = 0;
    while i < labels.len()
        invariant
            i <= labels.len(),
            distinct(views(acc@)),
            forall|x: Seq<char>| member(x, views(acc@)) <==> in_label_set(x, labels@.subrange(0, i as int)),
        decreases labels.len() - i,
    {
        let low = to_lowercase(labels[i].as_str());
        push_new(&mut acc, low.as_str());
        proof {
            let pre = labels@.subrange(0, i as int);
            let now = labels@.subrange(0, i + 1);
            assert forall|x: Seq<char>| in_label_set(x, now) <==> (in_label_set(x, pre) || x == lowercase(labels@[i as int]@)) by {
                if in_label_set(x, now) {
                    let j = choose|j: int| 0 <= j < now.len() && x == lowercase(#[trigger] now[j]@);
                    if j < i {
                        assert(pre[j] == now[j]);
                    }
                }
                if in_label_set(x, pre) {
                    let j = choose|j: int| 0 <= j < pre.len() && x == lowercase(#[trigger] pre[j]@);
                    assert(now[j] == pre[j]);
                }
                if x == lowercase(labels@[i as int]@) {
                    assert(now[i as int] == labels@[i as int]);
                }
            }
        }
        i = i + 1;
    }
    assert(labels@.subrange(0, labels.len() as int) =~= labels@);
    let r = sort_strings(&acc);
    proof {
        assert forall|x: Seq<char>| member(x, views(r@)) <==> in_label_set(x, labels@) by {
            if member(x, views(r@)) {
                let j = choose|j: int| 0 <= j < views(r@).len() && views(r@)[j] == x;
                assert(member(views(r@)[j], views(acc@)));
            }
            if member(x, views(acc@)) {
                let j = choose|j: int| 0 <= j < views(acc@).len() && views(acc@)[j] == x;
                assert(member(views(acc@)[j], views(r@)));
            }
        }
    }
    r
}

/// The refusal of a `memory.match` with nothing to match on.
pub fn validate_match_args(verb: &str, topic: &str, labels: &Vec<String>) -> (r: Result<()>)
    ensures
        r is Err <==> (topic@.len() == 0 && labels.len() == 0),
        r matches Err(e) ==> e.is(verb@, Category::Malformed, "at least one of topic or labels must be non-empty"@),
{
    if topic.is_empty() && labels.len() == 0 {
        return Err(Error::malformed(verb, owned("at least one of topic or labels must be non-empty")));
    }
    Ok(())
}

/// What a memory shares with a topic and a label set: how many topic
/// tokens its body holds and how many tokens its body has, how many labels
/// of the set it carries and how many distinct labels it carries (all
/// ignoring case).
pub struct MatchCounts {
    pub body_overlap: usize,
    pub body_tokens: usize,
    pub label_overlap: usize,
    pub memory_labels: usize,
}

fn count_shared(xs: &Vec<String>, pool: &Vec<String>) -> (n: usize)
    ensures
        n == overlap(views(xs@), views(pool@)),
{
    let mut n: usize = 0;
    let mut i: usize = 0;
    while i < xs.len()
        invariant
            i <= xs.len(),
            n <= i,
            n == overlap(views(xs@.subrange(0, i as int)), views(pool@)),
        decreases xs.len() - i,
    {
        assert(views(xs@.subrange(0, i + 1)).drop_last() =~= views(xs@.subrange(0, i as int)));
        if has_string(pool, xs[i].as_str()) {
            n = n + 1;
        }
        i = i + 1;
    }
    assert(xs@.subrange(0, xs.len() as int) =~= xs@);
    n
}

/// The counts `memory.match` scores memory `m` by, against the topic's
/// tokens and the (lowercased) label set of the request.
pub fn match_counts(topic_tokens: &Vec<String>, labels: &Vec<String>, m: &Memory) -> (c: MatchCounts)
    ensures
        ({
            &&& exists|bt: Seq<Seq<char>>| {
                &&& sorted(bt) && distinct(bt)
                &&& (forall|x: Seq<char>| member(x, bt) <==> in_tokens(x, m.body@))
                &&& c.body_tokens == bt.len()
                &&& c.body_overlap == overlap(views(topic_tokens@), bt)
            }
            &&& exists|ml: Seq<Seq<char>>| {
                &&& sorted(ml) && distinct(ml)
                &&& (forall|x: Seq<char>| member(x, ml) <==> in_label_set(x, m.labels@))
                &&& c.memory_labels == ml.len()
                &&& c.label_overlap == overlap(views(labels@), ml)
            }
        }),
{
    let bt = tokenise(m.body.as_str());
    let ml = label_set(&m.labels);
    let body_overlap = count_shared(topic_tokens, &bt);
    let label_overlap = count_shared(labels, &ml);
    MatchCounts { body_overlap, body_tokens: bt.len(), label_overlap, memory_labels: ml.len() }
}

/// Why a memory matched, from its label and body overlaps.
pub open spec fn reason_text(label_overlap: nat, body_overlap: nat) -> Seq<char> {
    if label_overlap > 0 && body_overlap > 0 {
        "label overlap ("@ + decimal(label_overlap) + ") + body token overlap ("@ + decimal(body_overlap) + ")"@
    } else if label_overlap > 0 {
        "label overlap ("@ + decimal(label_overlap) + ")"@
    } else {
        "body token overlap ("@ + decimal(body_overlap) + ")"@
    }
}

/// The reason `memory.match` gives for a match.
pub fn match_reason(label_overlap: usize, body_overlap: usize) -> (r: String)
    ensures
        r@ == reason_text(label_overlap as nat, body_overlap as nat),
{
    let lo = u64_to_decimal(label_overlap as u64);
    let bo = u64_to_decimal(body_overlap as u64);
    if label_overlap > 0 && body_overlap > 0 {
        let r = cat(owned("label overlap ("), lo.as_str());
        let r = cat(r, ") + body token overlap (");
        let r = cat(r, bo.as_str());
        cat(r, ")")
    } else if label_overlap > 0 {
        let r = cat(owned("label overlap ("), lo.as_str());
        cat(r, ")")
    } else {
        let r = cat(owned("body token overlap ("), bo.as_str());
        cat(r, ")")
    }
}

} // verus!
