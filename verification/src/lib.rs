//! A personal time tracker's core: a store of work sessions that can be
//! started, ended, annotated and labelled, queried by time range and label,
//! and rendered with pure duration-formatting and note-wrapping helpers.
//! Every operation carries a contract that the Verus verifier has checked.

pub mod clock;
pub mod dates;
pub mod error;
pub mod format;
pub mod ids;
pub mod session;
pub mod store;
pub mod wrap;
