//! Identifier checks shared by the verbs. Every identifier that names a
//! file under the substrate (spec ids, card slugs, task ids, memory keys,
//! skill ids, session ids) must be non-empty and must not be able to step
//! out of its directory.

use vstd::prelude::*;
use crate::error::{Error, Category, Result};
use crate::text::{cat, owned, has_path_hazard, path_hazard};

verus! {

/// The message an identifier labelled `label` is refused with, or `None`
/// when it is acceptable.
pub open spec fn id_refusal(label: Seq<char>, id: Seq<char>) -> Option<Seq<char>> {
    if id.len() == 0 {
        Some(label + " must not be empty"@)
    } else if path_hazard(id) {
        Some(label + " must not contain path separators or '..': '"@ + id + "'"@)
    } else {
        None
    }
}

/// What a validator for identifiers labelled `label` returns on `id`.
pub open spec fn validated(r: Result<()>, verb: Seq<char>, label: Seq<char>, id: Seq<char>) -> bool {
    match id_refusal(label, id) {
        None => r is Ok,
        Some(m) => r matches Err(e) && e.is(verb, Category::Malformed, m),
    }
}

fn validate_labelled(verb: &str, label: &str, id: &str) -> (r: Result<()>)
    ensures
        validated(r, verb@, label@, id@),
{
    if id.unicode_len() == 0 {
        return Err(Error::malformed(verb, cat(owned(label), " must not be empty")));
    }
    if has_path_hazard(id) {
        let m = cat(owned(label), " must not contain path separators or '..': '");
        let m = cat(m, id);
        return Err(Error::malformed(verb, cat(m, "'")));
    }
    Ok(())
}

/// Refuses an empty spec id or one holding `/`, `\` or `..`.
pub fn validate_spec_id(verb: &str, id: &str) -> (r: Result<()>)
    ensures
        validated(r, verb@, "id"@, id@),
{
    validate_labelled(verb, "id", id)
}

/// Refuses an empty card slug or one holding `/`, `\` or `..`.
pub fn validate_card_slug(verb: &str, slug: &str) -> (r: Result<()>)
    ensures
        validated(r, verb@, "card slug"@, slug@),
{
    validate_labelled(verb, "card slug", slug)
}

/// Refuses an empty task id or one holding `/`, `\` or `..`.
pub fn validate_task_id(verb: &str, id: &str) -> (r: Result<()>)
    ensures
        validated(r, verb@, "task_id"@, id@),
{
    validate_labelled(verb, "task_id", id)
}

/// Refuses an empty memory key or one holding `/`, `\` or `..`.
pub fn validate_memory_key(verb: &str, key: &str) -> (r: Result<()>)
    ensures
        validated(r, verb@, "key"@, key@),
{
    validate_labelled(verb, "key", key)
}

/// Refuses an empty skill id or one holding `/`, `\` or `..`.
pub fn validate_skill_id(verb: &str, id: &str) -> (r: Result<()>)
    ensures
        validated(r, verb@, "skill_id"@, id@),
{
    validate_labelled(verb, "skill_id", id)
}

/// Refuses an empty session id or one holding `/`, `\` or `..`.
pub fn validate_session_id(verb: &str, id: &str) -> (r: Result<()>)
    ensures
        validated(r, verb@, "session_id"@, id@),
{
    validate_labelled(verb, "session_id", id)
}

} // verus!
