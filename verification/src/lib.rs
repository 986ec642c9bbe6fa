//! Append-only, checksummed blob containers, batched per logical type.
//!
//! A container holds blobs of one logical type together with a table of
//! contents and a CRC-32 integrity guard. Blobs arrive from many writers,
//! are accumulated per type, and each full batch is sealed into one
//! immutable container.

pub mod args;
pub mod batch;
pub mod config;
pub mod dispatch;
pub mod metrics;
pub mod storage;
