//! Tablebase: the verified core of a desktop tool that queries delimited text
//! files with read-only SQL. This crate holds the decisions (what SQL is
//! accepted, how open files are named and registered, how query sessions are
//! tracked, how the on-disk cache is keyed, leased and evicted) and the text
//! those decisions produce; the program around it performs the I/O.

pub mod cache;
pub mod environment;
pub mod error;
pub mod export;
pub mod guardrail;
pub mod ingest;
pub mod model;
pub mod paths;
pub mod query;
pub mod query_session;
pub mod state;
pub mod text;

use vstd::prelude::*;

verus! {

} // verus!
