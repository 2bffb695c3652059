//! Scan-and-ingest pipeline for markdown knowledge bases: candidate
//! selection, metadata extraction, tag reconciliation, submission planning
//! and report aggregation, with machine-checked contracts.

pub mod text;
pub mod walker;
pub mod report;
pub mod ingest;
pub mod scan;
pub mod tags;
pub mod markdown;
pub mod resource;
pub mod pipeline;
pub mod store;
