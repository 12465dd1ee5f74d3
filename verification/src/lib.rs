//! An in-memory task store: named, described, prioritized, timestamped task
//! records with append, pop, case-insensitive find and remove, and a verified
//! text codec for whole-store persistence.

pub mod codec;
pub mod console;
pub mod digits;
pub mod store;
mod strutil;
pub mod task;
