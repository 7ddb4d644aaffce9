//! Reusable helpers for in-match AI mods: the input vocabulary and its
//! constructors, a `key = value` configuration reader, a bounded line budget
//! for logging, and a one-line diagnostic snapshot of a player's context.

pub mod cfg;
pub mod input;
pub mod logger;
pub mod snapshot;
pub mod text;
