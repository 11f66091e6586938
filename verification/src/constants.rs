//! Installation defaults.

use vstd::prelude::*;

verus! {

pub const SOCKET_PATH: &'static str = "/tmp/dashcam.sock";

pub const MAIN_DIR: &'static str = "/var/lib/dashcam/";

pub const DB_PATH: &'static str = "/var/lib/dashcam/dashcam.db";

pub const SCHEMA_PATH: &'static str = "/var/lib/dashcam/0001_init.sql";

pub const RECORDING_DIR: &'static str = "/var/lib/dashcam/recordings/";

pub const RECORDING_SAVE_DIR: &'static str = "/var/lib/dashcam/recordings/save/";

/// Ring slots to keep: two days of two-second segments.
pub const SEGMENTS_TO_KEEP: i64 = 86400;

} // verus!
