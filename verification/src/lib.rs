//! User-space core of a process-activity monitor.
//!
//! A high-rate stream of kernel-originated events (process lifecycle,
//! file-system I/O, registry operations) is decoded from a framed byte
//! stream, stored in a chunked append-only event log, filtered and indexed
//! in time order in the background, and served to a display layer through a
//! virtualized row-access interface backed by a per-process metadata cache.
//!
//! The crate holds the decision and data logic of that pipeline; the thread
//! loops, the port I/O and the rendering that drive it live outside and talk
//! to it in plain values.
pub mod chunk_vec;
pub mod codec;
pub mod communication;
pub mod event_log;
pub mod event_reader;
pub mod fake_communication;
pub mod filters;
pub mod framing;
pub mod notifier;
pub mod process_cache;
pub mod process_manager;
pub mod messages;
pub mod services;
pub mod time;
