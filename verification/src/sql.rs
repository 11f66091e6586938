//! Trusted boundary to the embedded SQLite store (rusqlite) and to the wall
//! clock (chrono).
//!
//! The verified store keeps the authoritative state in memory and mirrors
//! every committed change through these wrappers; on startup it reads the
//! mirrored rows back. The wrappers only make the outside call and convert
//! values; nothing here decides anything.

use vstd::prelude::*;

use crate::ring::CameraState;
use crate::store::Camera;
use crate::trip::{SavedTrip, Trip};

verus! {

#[verifier::external_type_specification]
#[verifier::external_body]
pub struct ExConnection(rusqlite::Connection);

#[verifier::external_type_specification]
#[verifier::external_body]
pub struct ExSqlError(rusqlite::Error);

/// Relies on rusqlite::Connection::open: opens, creating it if missing, the
/// database file at `path`.
#[verifier::external_body]
pub(crate) fn sqlite_open(path: &str) -> (r: Result<rusqlite::Connection, rusqlite::Error>) {
    rusqlite::Connection::open(path)
}

/// Relies on rusqlite::Connection::pragma_update: sets one PRAGMA of the
/// connection to the given value.
#[verifier::external_body]
pub(crate) fn sqlite_pragma(conn: &rusqlite::Connection, name: &str, value: &str) -> (r: Result<
    (),
    rusqlite::Error,
>) {
    conn.pragma_update(None, name, value)
}

/// Relies on rusqlite::Connection::busy_timeout: bounds the wait on write
/// contention to the given number of milliseconds. A count above `i32::MAX`
/// milliseconds would make `busy_timeout` panic, so such inputs are ruled
/// out.
#[verifier::external_body]
pub(crate) fn sqlite_busy_timeout_ms(conn: &rusqlite::Connection, ms: u64) -> (r: Result<
    (),
    rusqlite::Error,
>)
    requires
        ms <= 0x7fff_ffff,
{
    conn.busy_timeout(std::time::Duration::from_millis(ms))
}

/// Relies on rusqlite::Connection::execute_batch: runs the statements in
/// `sql` one after the other. Used for the schema text and for transaction
/// control (`BEGIN` / `COMMIT` / `ROLLBACK`).
#[verifier::external_body]
pub(crate) fn sqlite_execute_batch(conn: &rusqlite::Connection, sql: &str) -> (r: Result<
    (),
    rusqlite::Error,
>) {
    conn.execute_batch(sql)
}

/// Relies on rusqlite::Connection::execute: inserts one camera row with an
/// explicit id.
#[verifier::external_body]
pub(crate) fn sql_insert_camera(
    conn: &rusqlite::Connection,
    id: i64,
    key: &String,
    name: &String,
    rtsp_url: &Option<String>,
) -> (r: Result<(), rusqlite::Error>) {
    conn.execute(
        "INSERT INTO cameras (id, key, name, rtsp_url) VALUES (?1, ?2, ?3, ?4);",
        (id, key.as_str(), name.as_str(), rtsp_url),
    )?;
    Ok(())
}

/// Relies on rusqlite::Connection::execute: overwrites the name and RTSP URL
/// of the camera row with the given id.
#[verifier::external_body]
pub(crate) fn sql_update_camera(
    conn: &rusqlite::Connection,
    id: i64,
    name: &String,
    rtsp_url: &Option<String>,
) -> (r: Result<(), rusqlite::Error>) {
    conn.execute(
        "UPDATE cameras SET name = ?1, rtsp_url = ?2 WHERE id = ?3;",
        (name.as_str(), rtsp_url, id),
    )?;
    Ok(())
}

/// Relies on rusqlite::Connection::execute: inserts one counter row.
#[verifier::external_body]
pub(crate) fn sql_insert_state(conn: &rusqlite::Connection, s: &CameraState) -> (r: Result<
    (),
    rusqlite::Error,
>) {
    conn.execute(
        "INSERT INTO camera_state (camera_id, sink_id, segment_index, segment_generation, absolute_segments) VALUES (?1, ?2, ?3, ?4, ?5);",
        (s.camera_id, s.sink_id, s.segment_index, s.segment_generation, s.absolute_segments),
    )?;
    Ok(())
}

/// Relies on rusqlite::Connection::execute: overwrites the three counters of
/// one `(camera_id, sink_id)` row.
#[verifier::external_body]
pub(crate) fn sql_update_state(conn: &rusqlite::Connection, s: &CameraState) -> (r: Result<
    (),
    rusqlite::Error,
>) {
    conn.execute(
        "UPDATE camera_state SET segment_index = ?3, segment_generation = ?4, absolute_segments = ?5 WHERE camera_id = ?1 AND sink_id = ?2;",
        (s.camera_id, s.sink_id, s.segment_index, s.segment_generation, s.absolute_segments),
    )?;
    Ok(())
}

/// Relies on rusqlite::Connection::execute: inserts one trip row with an
/// explicit id.
#[verifier::external_body]
pub(crate) fn sql_insert_trip(conn: &rusqlite::Connection, t: &Trip) -> (r: Result<
    (),
    rusqlite::Error,
>) {
    conn.execute(
        "INSERT INTO trips (id, camera_id, boot_id, start_time_utc, end_time_utc, start_segment, final_segment, start_clock_source, end_clock_source, note, start_gen, end_gen, fully_evicted, evicted_at_utc) VALUES (?1, ?2, ?3, ?4, ?5, ?6, ?7, ?8, ?9, ?10, ?11, ?12, ?13, ?14);",
        (t.id, t.camera_id, t.boot_id.as_str(), t.start_time_utc, t.end_time_utc, t.start_segment,
            t.final_segment, t.start_clock_source.as_str(), &t.end_clock_source, &t.note,
            t.start_gen, t.end_gen, t.fully_evicted, t.evicted_at_utc),
    )?;
    Ok(())
}

/// Relies on rusqlite::Connection::execute: writes the four end fields of the
/// trip row with the given id.
#[verifier::external_body]
pub(crate) fn sql_close_trip(
    conn: &rusqlite::Connection,
    id: i64,
    final_segment: i64,
    end_gen: i64,
    end_time_utc: i64,
    end_clock_source: &String,
) -> (r: Result<(), rusqlite::Error>) {
    conn.execute(
        "UPDATE trips SET final_segment = ?2, end_gen = ?3, end_time_utc = ?4, end_clock_source = ?5 WHERE id = ?1;",
        (id, final_segment, end_gen, end_time_utc, end_clock_source.as_str()),
    )?;
    Ok(())
}

/// Relies on rusqlite::Connection::execute: stamps the trip row with the
/// given id as fully evicted.
#[verifier::external_body]
pub(crate) fn sql_stamp_trip(conn: &rusqlite::Connection, id: i64, evicted_at_utc: i64) -> (r:
    Result<(), rusqlite::Error>) {
    conn.execute(
        "UPDATE trips SET fully_evicted = 1, evicted_at_utc = ?2 WHERE id = ?1;",
        (id, evicted_at_utc),
    )?;
    Ok(())
}

/// Relies on rusqlite::Connection::execute: appends one saved-trip row.
#[verifier::external_body]
pub(crate) fn sql_insert_saved(conn: &rusqlite::Connection, s: &SavedTrip) -> (r: Result<
    (),
    rusqlite::Error,
>) {
    conn.execute(
        "INSERT INTO saved_trips (trip_id, saved_dir, saved_at_utc) VALUES (?1, ?2, ?3);",
        (s.trip_id, s.saved_dir.as_str(), s.saved_at_utc),
    )?;
    Ok(())
}

/// Relies on rusqlite prepared statements (Connection::prepare,
/// Statement::query_map): reads every camera row back, converting each row
/// into a `Camera` field by field.
#[verifier::external_body]
pub(crate) fn sql_load_cameras(conn: &rusqlite::Connection) -> (r: Result<
    Vec<Camera>,
    rusqlite::Error,
>) {
    let mut stmt = conn.prepare("SELECT id, key, name, rtsp_url FROM cameras ORDER BY id;")?;
    let rows = stmt.query_map(
        (),
        |r| Ok(Camera { id: r.get(0)?, key: r.get(1)?, name: r.get(2)?, rtsp_url: r.get(3)? }),
    )?;
    rows.collect()
}

/// Relies on rusqlite prepared statements: reads every counter row back.
#[verifier::external_body]
pub(crate) fn sql_load_states(conn: &rusqlite::Connection) -> (r: Result<
    Vec<CameraState>,
    rusqlite::Error,
>) {
    let mut stmt = conn.prepare(
        "SELECT camera_id, sink_id, segment_index, segment_generation, absolute_segments FROM camera_state ORDER BY camera_id, sink_id;",
    )?;
    let rows = stmt.query_map(
        (),
        |r| Ok(CameraState {
            camera_id: r.get(0)?, sink_id: r.get(1)?, segment_index: r.get(2)?,
            segment_generation: r.get(3)?, absolute_segments: r.get(4)?,
        }),
    )?;
    rows.collect()
}

/// Relies on rusqlite prepared statements: reads every trip row back.
#[verifier::external_body]
pub(crate) fn sql_load_trips(conn: &rusqlite::Connection) -> (r: Result<
    Vec<Trip>,
    rusqlite::Error,
>) {
    let mut stmt = conn.prepare(
        "SELECT id, camera_id, boot_id, start_time_utc, end_time_utc, start_segment, final_segment, start_clock_source, end_clock_source, note, start_gen, end_gen, fully_evicted, evicted_at_utc FROM trips ORDER BY id;",
    )?;
    let rows = stmt.query_map(
        (),
        |r| Ok(Trip {
            id: r.get(0)?, camera_id: r.get(1)?, boot_id: r.get(2)?, start_time_utc: r.get(3)?,
            end_time_utc: r.get(4)?, start_segment: r.get(5)?, final_segment: r.get(6)?,
            start_clock_source: r.get(7)?, end_clock_source: r.get(8)?, note: r.get(9)?,
            start_gen: r.get(10)?, end_gen: r.get(11)?, fully_evicted: r.get(12)?,
            evicted_at_utc: r.get(13)?,
        }),
    )?;
    rows.collect()
}

/// Relies on rusqlite prepared statements: reads every saved-trip row back.
#[verifier::external_body]
pub(crate) fn sql_load_saved(conn: &rusqlite::Connection) -> (r: Result<
    Vec<SavedTrip>,
    rusqlite::Error,
>) {
    let mut stmt = conn.prepare(
        "SELECT trip_id, saved_dir, saved_at_utc FROM saved_trips ORDER BY rowid;",
    )?;
    let rows = stmt.query_map(
        (),
        |r| Ok(SavedTrip { trip_id: r.get(0)?, saved_dir: r.get(1)?, saved_at_utc: r.get(2)? }),
    )?;
    rows.collect()
}

/// Relies on rusqlite::Error's Display implementation for a human-readable
/// description of a storage failure.
#[verifier::external_body]
pub(crate) fn sqlite_error_message(e: &rusqlite::Error) -> (r: String) {
    format!("{}", e)
}

/// Relies on chrono::Utc::now: the wall clock, as whole seconds since the
/// Unix epoch. Nothing is promised of the value; callers must work for every
/// reading. `Utc::now` itself panics on a host clock set before the Unix
/// epoch; no argument can rule that machine misconfiguration out here.
#[verifier::external_body]
pub(crate) fn now_utc() -> (r: i64) {
    chrono::Utc::now().timestamp()
}

} // verus!
