//! Verified core of an OTLP metrics ingestion pipeline.
//!
//! The library decodes a metrics-export message, flattens every metric shape
//! into uniform row records, tracks per-request caches for schemas,
//! partitioning, pipelines and alerts, stages records into per-stream,
//! per-bucket buffers for the write-ahead log, and builds the
//! partial-success response.  I/O and the external collaborators (the schema
//! store, the pipeline engine, the alert store, the durable writer) are
//! driven by the surrounding application; every decision and every
//! transformation in between is verified.

pub mod codec;
pub mod context;
pub mod flatten;
pub mod labels;
pub mod model;
pub mod response;
pub mod signature;
pub mod text;
pub mod traces;
pub mod value;
