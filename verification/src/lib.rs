//! A learning-management command-line client's synchronization core: typed
//! records mirrored from a remote catalogue into a local relational store,
//! with staleness-based refresh and per-item failure isolation.

pub mod cli;
pub mod engine;
pub mod laws;
pub mod models;
pub mod store;
mod strutil;
pub mod table;
pub mod timefmt;

use vstd::prelude::*;

verus! {

} // verus!
