//! A workflow automation engine: workflows are DAGs of typed nodes, started
//! by webhooks or cron schedules. This crate holds the verified core: the
//! workflow model and its compilation, the hot-reload registry, the DAG
//! engine's planning, pin evaluation, the per-node dispatcher, and the cron
//! scheduler's handle table. Transport, storage and the script runtime are
//! driven by the caller.
use vstd::prelude::*;

pub mod text;
pub mod json;
pub mod lua;
pub mod graph;
pub mod workflow;
pub mod context;
pub mod engine;
pub mod pins;
pub mod sql;
pub mod executor;
pub mod registry;
pub mod scheduler;
pub mod laws;
pub mod api;
pub mod project;
pub mod config;

verus! {

} // verus!
