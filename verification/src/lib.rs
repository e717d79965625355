//! Turns a ninja build log into a compilation database and filters
//! existing databases by source-file substring patterns.
//!
//! The pipeline recognizes shell-wrapped compiler invocation lines,
//! recovers the exact argument vector from each command string by POSIX
//! word splitting, assembles database entries, and optionally keeps only
//! the entries whose source file contains one of a set of patterns.

pub mod entry;
pub mod extract;
pub mod filter;
pub mod pipeline;
pub mod strutil;
pub mod tokenize;

pub use entry::CompDb;
pub use entry::CompDbEntry;
pub use entry::Error;
