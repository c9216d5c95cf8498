//! Verified core of a module build tool.
//!
//! A build stamps a time-derived version code into the project's metadata,
//! reloads that metadata, loads layered filter rules, plans a filtered
//! copy of the source tree, orders and hands the plan to an executor, lays
//! out a compressed archive of the materialized output, and derives the
//! release manifest; an external signer may finally sign the archive.
//! Everything that decides or computes lives here with a proved contract;
//! the filesystem, the clock's reading, the processes and the prompts live
//! in the surrounding application.

pub mod archive;
pub mod clock;
pub mod execution;
pub mod manifest;
pub mod metadata;
pub mod pattern;
pub mod pipeline;
pub mod plan;
pub mod rules;
pub mod signing;
pub mod text;
pub mod tree;
pub mod version;
