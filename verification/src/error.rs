//! The substrate's error value: which verb failed, in which category, and why.

use vstd::prelude::*;
use crate::text::{cat, owned};

verus! {

/// Error category. Renders as the middle segment of
/// `<verb>: <category>: <message>`.
#[derive(Debug, Clone, Copy, PartialEq, Eq, Structural)]
pub enum Category {
    /// The request itself is ill-formed (empty id, bad enum value, ...).
    Malformed,
    /// The named entity does not exist.
    NotFound,
    /// The request contradicts current state (already exists, wrong state).
    Conflict,
    /// The substrate could not answer (I/O failure, nothing to act on).
    Unavailable,
}

impl Category {
    /// The wire spelling of the category.
    pub open spec fn spec_name(self) -> Seq<char> {
        match self {
            Category::Malformed => "malformed"@,
            Category::NotFound => "not-found"@,
            Category::Conflict => "conflict"@,
            Category::Unavailable => "unavailable"@,
        }
    }

    /// The wire spelling of the category.
    pub fn as_str(&self) -> (s: &'static str)
        ensures
            s@ == self.spec_name(),
    {
        match self {
            Category::Malformed => "malformed",
            Category::NotFound => "not-found",
            Category::Conflict => "conflict",
            Category::Unavailable => "unavailable",
        }
    }
}

/// A verb failure.
#[derive(Debug, Clone)]
pub struct Error {
    /// The verb that failed, e.g. `spec.show`.
    pub verb: String,
    pub category: Category,
    pub message: String,
}

/// Result type of every fallible operation of the library.
pub type Result<T> = std::result::Result<T, Error>;

impl Error {
    /// `self` is the error `(verb, category, message)`.
    pub open spec fn is(self, verb: Seq<char>, category: Category, message: Seq<char>) -> bool {
        self.verb@ == verb && self.category == category && self.message@ == message
    }

    /// A fresh error of the given category.
    pub fn new(verb: &str, category: Category, message: String) -> (e: Error)
        ensures
            e.is(verb@, category, message@),
    {
        Error { verb: owned(verb), category, message }
    }

    /// A `malformed` error.
    pub fn malformed(verb: &str, message: String) -> (e: Error)
        ensures
            e.is(verb@, Category::Malformed, message@),
    {
        Error::new(verb, Category::Malformed, message)
    }

    /// A `not-found` error.
    pub fn not_found(verb: &str, message: String) -> (e: Error)
        ensures
            e.is(verb@, Category::NotFound, message@),
    {
        Error::new(verb, Category::NotFound, message)
    }

    /// A `conflict` error.
    pub fn conflict(verb: &str, message: String) -> (e: Error)
        ensures
            e.is(verb@, Category::Conflict, message@),
    {
        Error::new(verb, Category::Conflict, message)
    }

    /// An `unavailable` error.
    pub fn unavailable(verb: &str, message: String) -> (e: Error)
        ensures
            e.is(verb@, Category::Unavailable, message@),
    {
        Error::new(verb, Category::Unavailable, message)
    }

    /// The one-line rendering `<verb>: <category>: <message>`.
    pub open spec fn spec_rendered(self) -> Seq<char> {
        self.verb@ + ": "@ + self.category.spec_name() + ": "@ + self.message@
    }

    /// The one-line rendering `<verb>: <category>: <message>`.
    pub fn rendered(&self) -> (s: String)
        ensures
            s@ == self.spec_rendered(),
    {
        let s = owned(self.verb.as_str());
        let s = cat(s, ": ");
        let s = cat(s, self.category.as_str());
        let s = cat(s, ": ");
        cat(s, self.message.as_str())
    }
}

} // verus!
