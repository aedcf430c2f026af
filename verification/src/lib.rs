//! A resumable HTTP download engine: transfer descriptors, a per-transfer
//! progress state machine, a keyed resume store, and a coordinator that
//! drives single and multi-URL batches and records every outcome.

pub mod cli;
pub mod db;
pub mod download;
pub mod download_manager;
pub mod error;
