//! A buffering telemetry client core.
//!
//! Application code tags structured events with a collection name; the
//! client enriches each event with metadata, accumulates events into
//! batches under a timing policy, and renders every send as one HTTP
//! request for a remote ingestion endpoint.  This crate holds the whole
//! decision-making pipeline — enrichment, the dispatcher's batching and
//! flush policy, and the wire rendering — as verified code; an embedding
//! program supplies the queue, the worker thread and the transport.

#![allow(unused_imports)]

pub mod client;
pub mod dispatch;
pub mod enrich;
pub mod json;
pub mod laws;
pub mod settings;
pub mod wire;

pub use settings::KeenError;
pub use settings::ProjectSettings;
