//! Segment-ring bookkeeping and trip-lifecycle engine for a multi-camera
//! continuous-recording service.
//!
//! The library tracks, per `(camera, sink)` ring, the position of the next
//! segment file (`segment_index`), the wrap count (`segment_generation`) and
//! the monotonic total of segments ever written (`absolute_segments`); it
//! records trips anchored to those counters, decides when a trip's backing
//! files can no longer exist on disk, and mirrors every committed change to
//! an embedded SQLite store.

pub mod actor;
pub mod config;
pub mod constants;
pub mod errors;
pub mod naming;
pub mod recording;
pub mod ring;
mod sql;
pub mod store;
pub mod trip;
