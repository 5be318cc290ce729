//! The decisions of a directory copier that treats cloud-backed files properly.
//!
//! Everything here works on plain values. What touches a terminal, a clock, the network or a
//! disk asks this library what to do next, does it, and reports back what happened.

pub mod cli;
pub mod conflict_resolver;
pub mod copy_queue;
pub mod counter;
pub mod dir_cache;
pub mod fsattr;
pub mod job;
pub mod logger;
pub mod path;
pub mod progress;
pub mod report;
pub mod scheduler;
pub mod size;
pub mod text;
pub mod walker;
