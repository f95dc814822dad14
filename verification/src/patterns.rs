//! Word-boundary matching of names in text, through the `regex` crate.

use vstd::prelude::*;

verus! {

/// `regex::Regex`, carried through unopened.
#[verifier::external_type_specification]
#[verifier::external_body]
pub struct ExRegex(regex::Regex);

/// A character with a special meaning in a regex (`regex_syntax`'s
/// `is_meta_character`).
pub open spec fn meta_char(c: char) -> bool {
    c == '\\' || c == '.' || c == '+' || c == '*' || c == '?' || c == '(' || c == ')' || c == '|'
        || c == '[' || c == ']' || c == '{' || c == '}' || c == '^' || c == '$' || c == '#'
        || c == '&' || c == '-' || c == '~'
}

/// `s` with a backslash before each meta character: a pattern matching
/// `s` literally.
pub open spec fn escaped(s: Seq<char>) -> Seq<char>
    decreases s.len(),
{
    if s.len() == 0 {
        Seq::empty()
    } else {
        let rest = escaped(s.drop_last());
        if meta_char(s.last()) { rest.push('\\').push(s.last()) } else { rest.push(s.last()) }
    }
}

/// Whether `regex::Regex::new` accepts `pattern` (with the crate's
/// default size limits).
pub uninterp spec fn regex_compiles(pattern: Seq<char>) -> bool;

/// Whether the regex compiled from `pattern` matches somewhere in `text`
/// (`regex::Regex::is_match`).
pub uninterp spec fn regex_finds(pattern: Seq<char>, text: Seq<char>) -> bool;

/// `regex::escape`: puts a backslash before every meta character of `s`
/// (`\ . + * ? ( ) | [ ] { } ^ $ # & - ~`) and keeps every other
/// character, as its source shows.
#[verifier::external_body]
pub(crate) fn regex_escape(s: &str) -> (r: String)
    ensures
        r@ == escaped(s@),
{
    regex::escape(s)
}

/// A compiled regex together with the pattern it was compiled from.
pub struct CompiledPattern {
    pattern: String,
    re: regex::Regex,
}

impl CompiledPattern {
    /// The pattern this regex was compiled from.
    pub closed spec fn source(&self) -> Seq<char> {
        self.pattern@
    }
}

/// `regex::Regex::new`: compiles `pattern`, `None` when the crate refuses
/// it (its error value is dropped here: callers only need to know that it
/// failed). The contract claims that the outcome depends on the pattern
/// alone, and that a compiled regex keeps the pattern it came from.
#[verifier::external_body]
pub(crate) fn compile(pattern: &str) -> (r: Option<CompiledPattern>)
    ensures
        r is Some <==> regex_compiles(pattern@),
        r matches Some(c) ==> c.source() == pattern@,
{
    regex::Regex::new(pattern).ok().map(|re| CompiledPattern { pattern: pattern.to_string(), re })
}

/// `regex::Regex::is_match`: whether the regex matches somewhere in
/// `text`. The contract names the answer as a function of the pattern and
/// the text; the regex semantics are not restated.
#[verifier::external_body]
pub(crate) fn is_match(c: &CompiledPattern, text: &str) -> (r: bool)
    ensures
        r == regex_finds(c.source(), text@),
{
    c.re.is_match(text)
}

} // verus!
