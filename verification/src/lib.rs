//! Verified core of the orbit substrate: the typed verb vocabulary, the
//! model of the on-disk entities, and the decision logic every verb runs
//! once its inputs have been read from disk.

pub mod text;
pub mod order;
pub mod error;
pub mod schema;
pub mod dates;
pub mod patterns;
pub mod yaml;
pub mod routine;
pub mod chains;
pub mod verbs;
pub mod verify;
