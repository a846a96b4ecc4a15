//! Batch planning and bookkeeping for merging groups of video clips.
//!
//! The library decides what is merged, in which groups, with which transcoder
//! arguments, how progress lines are read, and which outputs are reported.
//! Running processes, threads and the file system is left to the caller.

pub mod batch;
pub mod command;
pub mod discovery;
pub mod lexical;
pub mod plan;
pub mod probe;
pub mod progress;
