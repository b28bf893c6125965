//! Recursive line search: a compiled pattern, a per-file scan that reports
//! matching lines, and a depth-first walk over a directory tree that keeps
//! per-entry failures from stopping the traversal.
//!
//! The walk does no I/O itself: a `Walker` says what to do next (resolve a
//! path, read a file, list a directory, report to a sink) and is told what
//! came of it.

pub mod error;
pub mod lines;
pub mod matcher;
pub mod scan;
pub mod tree;

pub mod walk;

pub use error::{Failure, FailureKind};
pub use matcher::Matcher;
pub use scan::{scan, Record};
pub use walk::{Action, EntryKind, Event, Stage, Walker};
