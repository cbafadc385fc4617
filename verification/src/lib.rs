//! A crash-safe, file-system based media exchange pipeline.
//!
//! Producers discover external post links and media attachments, hand them
//! through sentinel files and staging directories into a single outgoing
//! root, and a delivery chunker partitions each published job into bounded
//! batches for a delivery collaborator.  This crate holds the verified
//! decision logic of that pipeline; the surrounding I/O lives outside it.

pub mod aggregator;
pub mod chunker;
pub mod exchange;
pub mod fetcher;
pub mod harvester;
pub mod record;
pub mod sentinel;
pub mod text;
pub mod urls;

