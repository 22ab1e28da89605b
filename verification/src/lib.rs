//! Core of a multi-connection HTTP downloader: byte-range segmentation,
//! per-task state machine, scheduler operations, snapshot records, and the
//! header parsing that drives probing and filename selection.
//!
//! Network and file I/O live outside this crate; the functions here take the
//! outcomes of those operations as plain values and decide what happens next.

pub mod commands;
pub mod framing;
pub mod headers;
pub mod network;
pub mod persist;
pub mod scheduler;
pub mod settings;
pub mod task;
pub mod text;
pub mod types;
