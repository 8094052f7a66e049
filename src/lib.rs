//! Core data path of a log-ingestion and analytical query service: column
//! statistics and the manifest catalog, the stream registry, the
//! JSON-to-columnar event converter and the ingestion request rules, the
//! bin-density counts engine, and the query-plan decisions around the engine.

pub mod catalog;
pub mod column;
pub mod counts;
pub mod event;
pub mod export;
pub mod flatten;
pub mod ingest;
pub mod json;
pub mod manifest;
pub mod metrics;
pub mod path;
pub mod plan;
pub mod query;
pub mod registry;
pub mod snapshot;
pub mod stats;
pub mod text;
pub mod time;
