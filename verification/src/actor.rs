//! The store actor's decision core: one message in, one state transition
//! and one reply out.
//!
//! A single worker thread owns the store and feeds it messages from a
//! channel; that loop performs no logic of its own, it only calls
//! `handle_message`. A storage failure on a fire-and-forget message leaves
//! the state untouched; on a request the reply degrades to a sentinel so
//! callers never block.

use vstd::prelude::*;

use crate::ring::spec_update_to;
use crate::store::{
    has_primary_state, has_state, is_primary_state, new_trip_basic_bad, new_trip_guards_bad,
    new_trip_ok_post, save_trip_closed_post, same_except_states, same_except_trips,
    same_except_trips_and_saved, state_at, DashcamDb,
};
use crate::trip::{spec_mark, spec_mark_count, Trip};

verus! {

/// A request to the store actor.
pub enum DBMessage {
    /// The producer reports the ring index it is about to use;
    /// fire-and-forget.
    SegmentUpdate { camera_id: i64, sink_id: i64, new_segment_index: i64, max_segments: i64 },
    /// Read the persisted ring index.
    GetSegmentIndex { camera_id: i64, sink_id: i64 },
    /// Reduce the persisted ring index modulo the ring size;
    /// fire-and-forget.
    ClampSegmentIndex { camera_id: i64, sink_id: i64, max_segments: i64 },
    /// Resolve a camera id from its stable key.
    GetCameraIdByKey { camera_key: String },
    /// Close-then-open the camera's trip at the current ring position.
    NewTrip { camera_id: i64, max_segments: i64 },
    /// Close-then-open and record where the closed trip's segments were
    /// saved.
    SaveTrip { camera_id: i64, saved_dir: String, max_segments: i64 },
    /// Stamp every fully overwritten trip of the camera.
    MarkEvicted { camera_id: i64, max_segments: i64 },
}

/// The actor's answer.
pub enum DBReply {
    /// Fire-and-forget messages produce no reply.
    Done,
    /// An integer reader's reply; zero stands in on error.
    Int(i64),
    /// An optional integer reader's reply; `None` stands in on error.
    OptInt(Option<i64>),
    /// The open trip after a close-then-open.
    Trip(Trip),
    /// Close-then-open with a saved-trip record: the open trip, the closed
    /// trip's id (zero when none was closed) and its first and final ring
    /// indices.
    SaveOutcome(Trip, i64, i64, i64),
    /// How many trips an eviction pass stamped.
    Count(i64),
    /// The operation failed and its outcome carries no sentinel; the state
    /// was left untouched.
    Failure(String),
}

/// Apply one message to the store and produce the reply.
pub fn handle_message(db: &mut DashcamDb, msg: DBMessage) -> (r: DBReply)
    requires
        old(db).wf(),
    ensures
        final(db).wf(),
        match msg {
            DBMessage::SegmentUpdate { camera_id, sink_id, new_segment_index, max_segments } => {
                &&& r is Done
                &&& same_except_states(old(db)@, final(db)@)
                &&& (final(db)@ == old(db)@ || (0 <= new_segment_index < max_segments
                    && exists|j: int|
                    {
                        &&& state_at(old(db)@.states, camera_id as int, sink_id as int, j)
                        &&& (#[trigger] old(db)@.states[j]).segment_index < max_segments
                        &&& old(db)@.states[j].absolute_segments + max_segments <= i64::MAX
                        &&& final(db)@.states == old(db)@.states.update(
                            j,
                            spec_update_to(
                                old(db)@.states[j],
                                new_segment_index as int,
                                max_segments as int,
                            ),
                        )
                        &&& final(db)@.states[j].absolute_segments >= old(
                            db,
                        )@.states[j].absolute_segments
                    }))
            },
            DBMessage::GetSegmentIndex { camera_id, sink_id } => {
                &&& final(db)@ == old(db)@
                &&& r matches DBReply::Int(v)
                &&& (has_state(old(db)@.states, camera_id as int, sink_id as int) ==> exists|j: int|
                    state_at(old(db)@.states, camera_id as int, sink_id as int, j) && v == (
                    #[trigger] old(db)@.states[j]).segment_index)
                &&& (!has_state(old(db)@.states, camera_id as int, sink_id as int) ==> v == 0)
            },
            DBMessage::ClampSegmentIndex { camera_id, sink_id, max_segments } => {
                &&& r is Done
                &&& same_except_states(old(db)@, final(db)@)
                &&& (final(db)@ == old(db)@ || exists|j: int|
                    state_at(old(db)@.states, camera_id as int, sink_id as int, j) && final(db)@.states == old(db)@.states.update(
                        j,
                        crate::ring::spec_clamp(#[trigger] old(db)@.states[j], max_segments as int),
                    ))
            },
            DBMessage::GetCameraIdByKey { camera_key } => {
                &&& final(db)@ == old(db)@
                &&& r matches DBReply::OptInt(o)
                &&& (match o {
                    Some(id) => exists|i: int|
                        0 <= i < old(db)@.cameras.len() && (#[trigger] old(db)@.cameras[i]).key@
                            == camera_key@ && old(db)@.cameras[i].id == id,
                    None => forall|i: int|
                        0 <= i < old(db)@.cameras.len() ==> (#[trigger] old(db)@.cameras[i]).key@
                            != camera_key@,
                })
            },
            DBMessage::NewTrip { camera_id, max_segments } => {
                &&& same_except_trips(old(db)@, final(db)@)
                &&& (r matches DBReply::Trip(t) ==> exists|now: int|
                    #[trigger] new_trip_ok_post(
                        old(db)@,
                        final(db)@,
                        t,
                        camera_id as int,
                        max_segments as int,
                        now,
                    ))
                &&& (r matches DBReply::Failure(_) ==> final(db)@ == old(db)@)
                &&& ((new_trip_basic_bad(old(db)@, camera_id as int, max_segments as int)
                    || new_trip_guards_bad(old(db)@, camera_id as int, max_segments as int)
                    || !has_primary_state(old(db)@.states, camera_id as int)) ==> r is Failure)
                &&& (r is Trip || r is Failure)
            },
            DBMessage::SaveTrip { camera_id, saved_dir, max_segments } => {
                &&& same_except_trips_and_saved(old(db)@, final(db)@)
                &&& (r matches DBReply::SaveOutcome(t, cid, cs, ce) ==> exists|now: int|
                    #[trigger] new_trip_ok_post(
                        old(db)@,
                        final(db)@,
                        t,
                        camera_id as int,
                        max_segments as int,
                        now,
                    ) && save_trip_closed_post(
                        old(db)@,
                        final(db)@,
                        camera_id as int,
                        max_segments as int,
                        now,
                        saved_dir@,
                        cid as int,
                        cs as int,
                        ce as int,
                    ))
                &&& (r matches DBReply::Failure(_) ==> final(db)@ == old(db)@)
                &&& ((new_trip_basic_bad(old(db)@, camera_id as int, max_segments as int)
                    || new_trip_guards_bad(old(db)@, camera_id as int, max_segments as int)
                    || !has_primary_state(old(db)@.states, camera_id as int)) ==> r is Failure)
                &&& (r is SaveOutcome || r is Failure)
            },
            DBMessage::MarkEvicted { camera_id, max_segments } => {
                &&& same_except_trips(old(db)@, final(db)@)
                &&& (r matches DBReply::Count(cnt) ==> exists|p: int, now: int|
                    {
                        &&& #[trigger] is_primary_state(old(db)@.states, camera_id as int, p)
                        &&& final(db)@.trips == #[trigger] spec_mark(
                            old(db)@.trips,
                            camera_id as int,
                            old(db)@.states[p].absolute_segments as int,
                            max_segments as int,
                            now,
                        )
                        &&& cnt == spec_mark_count(
                            old(db)@.trips,
                            camera_id as int,
                            old(db)@.states[p].absolute_segments as int,
                            max_segments as int,
                        )
                    })
                &&& (r matches DBReply::Failure(_) ==> final(db)@ == old(db)@)
                &&& ((camera_id < 0 || max_segments < 1 || old(db)@.trips.len() > i64::MAX
                    || !has_primary_state(old(db)@.states, camera_id as int)) ==> r is Failure)
                &&& (r is Count || r is Failure)
            },
        },
{
    match msg {
        DBMessage::SegmentUpdate { camera_id, sink_id, new_segment_index, max_segments } => {
            let _ = db.update_segment_counters(camera_id, sink_id, new_segment_index, max_segments);
            DBReply::Done
        },
        DBMessage::GetSegmentIndex { camera_id, sink_id } => {
            match db.get_segment_index(camera_id, sink_id) {
                Some(v) => DBReply::Int(v),
                None => DBReply::Int(0),
            }
        },
        DBMessage::ClampSegmentIndex { camera_id, sink_id, max_segments } => {
            let _ = db.clamp_segment_index(camera_id, sink_id, max_segments);
            DBReply::Done
        },
        DBMessage::GetCameraIdByKey { camera_key } => {
            DBReply::OptInt(db.get_camera_id_by_key(camera_key.as_str()))
        },
        DBMessage::NewTrip { camera_id, max_segments } => {
            match db.new_trip(camera_id, max_segments) {
                Ok(t) => DBReply::Trip(t),
                Err(e) => DBReply::Failure(e.message()),
            }
        },
        DBMessage::SaveTrip { camera_id, saved_dir, max_segments } => {
            match db.save_trip_and_start_new(camera_id, saved_dir.as_str(), max_segments) {
                Ok((t, closed_id, closed_start, closed_end)) => DBReply::SaveOutcome(
                    t,
                    closed_id,
                    closed_start,
                    closed_end,
                ),
                Err(e) => DBReply::Failure(e.message()),
            }
        },
        DBMessage::MarkEvicted { camera_id, max_segments } => {
            match db.mark_fully_evicted_trips(camera_id, max_segments) {
                Ok(cnt) => DBReply::Count(cnt),
                Err(e) => DBReply::Failure(e.message()),
            }
        },
    }
}

} // verus!
