//! A distributed HTTP load generator: the verified core.
//!
//! - `substitution`, `store`, `model`: request templates, the per-worker
//!   variable store and `{{name}}` substitution.
//! - `convert`: templates into wire requests, and the request cache.
//! - `extract`: response extractors writing into the variable store.
//! - `data`: the tabular data provider, wrapping around at its end.
//! - `engine`: the worker state machine, ramp-up and the running count.
//! - `stats`: report rows, database points and the batching consumer.
//! - `hub`: job admission, the node registry and the node session.
//! - `client`, `cmd`, `report`: client settings, argument checks and
//!   report figures.

pub mod client;
pub mod cmd;
pub mod convert;
pub mod data;
pub mod engine;
pub mod extract;
pub mod hub;
pub mod model;
pub mod report;
pub mod stats;
pub mod store;
pub mod substitution;
pub mod text;

