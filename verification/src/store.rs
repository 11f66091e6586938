//! The persistent store: an in-memory, verified model of the cameras,
//! ring counters, trips and saved trips, mirrored row for row to an embedded
//! SQLite database.
//!
//! Every operation first decides and computes on the model, then writes the
//! mirror, and installs the new model state only after the mirror committed.
//! A storage failure therefore leaves the model exactly as it was.

use vstd::prelude::*;

use crate::config::{CameraConfig, SinkConfig};
use crate::errors::DbError;
use crate::ring::{spec_clamp, spec_increment, spec_update_to, CameraState};
use crate::sql;
use crate::trip::{SavedTrip, Trip};

mod ledger;

pub use ledger::{
    finalize_ok_post, insert_trip_ok_post, new_trip_basic_bad, new_trip_guards_bad,
    new_trip_ok_post, ring_pos, save_trip_closed_post, spec_active, trip_ids_exhausted,
};

verus! {

/// One camera row: stable key, display name, optional RTSP source URL.
#[derive(Debug)]
pub struct Camera {
    pub id: i64,
    pub key: String,
    pub name: String,
    pub rtsp_url: Option<String>,
}

impl Camera {
    pub open spec fn valid(self) -> bool {
        self.id >= 1
    }
}

/// Ghost image of the store: the four tables plus the id counters and the
/// boot identifier stamped on new trips.
pub struct DbView {
    pub cameras: Seq<Camera>,
    pub states: Seq<CameraState>,
    pub trips: Seq<Trip>,
    pub saved_trips: Seq<SavedTrip>,
    pub next_camera_id: int,
    pub next_trip_id: int,
    pub boot_id: Seq<char>,
}

/// Row `j` is the counter row of `(cid, sid)`.
pub open spec fn state_at(states: Seq<CameraState>, cid: int, sid: int, j: int) -> bool {
    &&& 0 <= j < states.len()
    &&& states[j].camera_id == cid
    &&& states[j].sink_id == sid
}

/// Some counter row for `(cid, sid)` exists.
pub open spec fn has_state(states: Seq<CameraState>, cid: int, sid: int) -> bool {
    exists|j: int| state_at(states, cid, sid, j)
}

/// Row `j` is the camera's primary ring: the counter row with the least
/// sink id among the camera's rows.
pub open spec fn is_primary_state(states: Seq<CameraState>, cid: int, j: int) -> bool {
    &&& 0 <= j < states.len()
    &&& states[j].camera_id == cid
    &&& forall|k: int|
        0 <= k < states.len() && states[k].camera_id == cid ==> states[j].sink_id
            <= states[k].sink_id
}

/// The camera owns at least one counter row.
pub open spec fn has_primary_state(states: Seq<CameraState>, cid: int) -> bool {
    exists|j: int| is_primary_state(states, cid, j)
}

/// Trip `j` is the open trip of camera `cid`.
pub open spec fn open_trip_at(trips: Seq<Trip>, cid: int, j: int) -> bool {
    &&& 0 <= j < trips.len()
    &&& trips[j].camera_id == cid
    &&& trips[j].is_open()
}

/// Camera `cid` has an open trip.
pub open spec fn has_open_trip(trips: Seq<Trip>, cid: int) -> bool {
    exists|j: int| open_trip_at(trips, cid, j)
}

/// Well-formedness of the whole model: rows are structurally sound, camera
/// ids and keys are unique, counter rows are unique per `(camera, sink)`,
/// trip ids are unique and below the id counter, and every camera has at
/// most one open trip.
pub open spec fn db_wf(v: DbView) -> bool {
    &&& 1 <= v.next_camera_id <= i64::MAX
    &&& 1 <= v.next_trip_id <= i64::MAX
    &&& forall|i: int|
        0 <= i < v.cameras.len() ==> (#[trigger] v.cameras[i]).valid() && v.cameras[i].id
            < v.next_camera_id
    &&& forall|i: int, j: int|
        0 <= i < j < v.cameras.len() ==> v.cameras[i].id != v.cameras[j].id && (
        #[trigger] v.cameras[i]).key@ != (#[trigger] v.cameras[j]).key@
    &&& forall|i: int| 0 <= i < v.states.len() ==> (#[trigger] v.states[i]).valid()
    &&& forall|i: int, j: int|
        0 <= i < j < v.states.len() ==> !((#[trigger] v.states[i]).camera_id == (
        #[trigger] v.states[j]).camera_id && v.states[i].sink_id == v.states[j].sink_id)
    &&& forall|i: int|
        0 <= i < v.trips.len() ==> (#[trigger] v.trips[i]).valid() && v.trips[i].id
            < v.next_trip_id
    &&& forall|i: int, j: int|
        0 <= i < j < v.trips.len() ==> (#[trigger] v.trips[i]).id != (#[trigger] v.trips[j]).id
    &&& forall|i: int, j: int|
        0 <= i < j < v.trips.len() ==> !((#[trigger] v.trips[i]).camera_id == (
        #[trigger] v.trips[j]).camera_id && v.trips[i].is_open() && v.trips[j].is_open())
    &&& forall|i: int| 0 <= i < v.saved_trips.len() ==> (#[trigger] v.saved_trips[i]).trip_id >= 1
}

/// A counter row at the start of its ring: nothing written yet.
pub open spec fn zero_counters(s: CameraState) -> bool {
    s.segment_index == 0 && s.segment_generation == 0 && s.absolute_segments == 0
}

/// Everything but the counter rows agrees between the two states.
pub open spec fn same_except_states(a: DbView, b: DbView) -> bool {
    &&& a.cameras == b.cameras
    &&& a.trips == b.trips
    &&& a.saved_trips == b.saved_trips
    &&& a.next_camera_id == b.next_camera_id
    &&& a.next_trip_id == b.next_trip_id
    &&& a.boot_id == b.boot_id
}

/// Everything but the trip table and the trip id counter agrees.
pub open spec fn same_except_trips(a: DbView, b: DbView) -> bool {
    &&& a.cameras == b.cameras
    &&& a.states == b.states
    &&& a.saved_trips == b.saved_trips
    &&& a.next_camera_id == b.next_camera_id
    &&& a.boot_id == b.boot_id
}

/// Everything but trips, saved trips and the trip id counter agrees.
pub open spec fn same_except_trips_and_saved(a: DbView, b: DbView) -> bool {
    &&& a.cameras == b.cameras
    &&& a.states == b.states
    &&& a.next_camera_id == b.next_camera_id
    &&& a.boot_id == b.boot_id
}

/// The store. The connection is opaque; the vectors are the authoritative
/// state that every contract speaks about.
pub struct DashcamDb {
    conn: rusqlite::Connection,
    cameras: Vec<Camera>,
    states: Vec<CameraState>,
    trips: Vec<Trip>,
    saved_trips: Vec<SavedTrip>,
    next_camera_id: i64,
    next_trip_id: i64,
    boot_id: String,
}

impl View for DashcamDb {
    type V = DbView;

    closed spec fn view(&self) -> DbView {
        DbView {
            cameras: self.cameras@,
            states: self.states@,
            trips: self.trips@,
            saved_trips: self.saved_trips@,
            next_camera_id: self.next_camera_id as int,
            next_trip_id: self.next_trip_id as int,
            boot_id: self.boot_id@,
        }
    }
}

impl DashcamDb {
    /// The model invariant every operation preserves.
    pub open spec fn wf(&self) -> bool {
        db_wf(self@)
    }

    /// Locate the counter row of `(camera_id, sink_id)`.
    fn find_state(&self, camera_id: i64, sink_id: i64) -> (r: Option<usize>)
        ensures
            match r {
                Some(j) => state_at(self@.states, camera_id as int, sink_id as int, j as int),
                None => !has_state(self@.states, camera_id as int, sink_id as int),
            },
    {
        let n = self.states.len();
        let mut i: usize = 0;
        while i < n
            invariant
                n == self.states.len(),
                i <= n,
                forall|k: int|
                    0 <= k < i ==> !((#[trigger] self@.states[k]).camera_id == camera_id
                        && self@.states[k].sink_id == sink_id),
            decreases n - i,
        {
            if self.states[i].camera_id == camera_id && self.states[i].sink_id == sink_id {
                return Some(i);
            }
            i += 1;
        }
        None
    }

    /// Locate the camera's primary ring: its counter row with the least sink id.
    fn find_primary_state(&self, camera_id: i64) -> (r: Option<usize>)
        ensures
            match r {
                Some(j) => is_primary_state(self@.states, camera_id as int, j as int),
                None => !has_primary_state(self@.states, camera_id as int),
            },
    {
        let n = self.states.len();
        let mut best: Option<usize> = None;
        let mut i: usize = 0;
        while i < n
            invariant
                n == self.states.len(),
                i <= n,
                match best {
                    Some(b) => {
                        &&& 0 <= b < n
                        &&& self@.states[b as int].camera_id == camera_id
                        &&& forall|k: int|
                            0 <= k < i && (#[trigger] self@.states[k]).camera_id == camera_id
                                ==> self@.states[b as int].sink_id <= self@.states[k].sink_id
                    },
                    None => forall|k: int|
                        0 <= k < i ==> (#[trigger] self@.states[k]).camera_id != camera_id,
                },
            decreases n - i,
        {
            if self.states[i].camera_id == camera_id {
                match best {
                    Some(b) => {
                        if self.states[i].sink_id < self.states[b].sink_id {
                            best = Some(i);
                        }
                    },
                    None => {
                        best = Some(i);
                    },
                }
            }
            i += 1;
        }
        if best.is_none() {
            assert(!has_primary_state(self@.states, camera_id as int));
        }
        best
    }

    /// Locate the camera's open trip, if any.
    fn find_open_trip(&self, camera_id: i64) -> (r: Option<usize>)
        ensures
            match r {
                Some(j) => open_trip_at(self@.trips, camera_id as int, j as int),
                None => !has_open_trip(self@.trips, camera_id as int),
            },
    {
        let n = self.trips.len();
        let mut i: usize = 0;
        while i < n
            invariant
                n == self.trips.len(),
                i <= n,
                forall|k: int|
                    0 <= k < i ==> !((#[trigger] self@.trips[k]).camera_id == camera_id
                        && self@.trips[k].is_open()),
            decreases n - i,
        {
            if self.trips[i].camera_id == camera_id && self.trips[i].final_segment.is_none() {
                return Some(i);
            }
            i += 1;
        }
        None
    }

    /// Locate a trip by id.
    fn find_trip_by_id(&self, trip_id: i64) -> (r: Option<usize>)
        ensures
            match r {
                Some(j) => 0 <= j < self@.trips.len() && self@.trips[j as int].id == trip_id,
                None => forall|k: int|
                    0 <= k < self@.trips.len() ==> (#[trigger] self@.trips[k]).id != trip_id,
            },
    {
        let n = self.trips.len();
        let mut i: usize = 0;
        while i < n
            invariant
                n == self.trips.len(),
                i <= n,
                forall|k: int| 0 <= k < i ==> (#[trigger] self@.trips[k]).id != trip_id,
            decreases n - i,
        {
            if self.trips[i].id == trip_id {
                return Some(i);
            }
            i += 1;
        }
        None
    }

    /// Wrap a storage failure, leaving the message readable for logging.
    fn storage_err(e: &rusqlite::Error) -> (r: DbError)
        ensures
            r matches DbError::Storage(_),
    {
        DbError::Storage(sql::sqlite_error_message(e))
    }

    /// Resolve a camera id from its stable key; `None` when the key is unknown.
    pub fn get_camera_id_by_key(&self, camera_key: &str) -> (r: Option<i64>)
        ensures
            match r {
                Some(id) => exists|i: int|
                    0 <= i < self@.cameras.len() && (#[trigger] self@.cameras[i]).key@
                        == camera_key@ && self@.cameras[i].id == id,
                None => forall|i: int|
                    0 <= i < self@.cameras.len() ==> (#[trigger] self@.cameras[i]).key@
                        != camera_key@,
            },
    {
        let key_owned: String = camera_key.to_owned();
        let n = self.cameras.len();
        let mut i: usize = 0;
        while i < n
            invariant
                key_owned@ == camera_key@,
                n == self.cameras.len(),
                i <= n,
                forall|k: int|
                    0 <= k < i ==> (#[trigger] self@.cameras[k]).key@ != camera_key@,
            decreases n - i,
        {
            if self.cameras[i].key == key_owned {
                return Some(self.cameras[i].id);
            }
            i += 1;
        }
        None
    }

    /// Current ring index of `(camera_id, sink_id)`; `None` when the row is
    /// missing.
    pub fn get_segment_index(&self, camera_id: i64, sink_id: i64) -> (r: Option<i64>)
        ensures
            match r {
                Some(v) => exists|j: int|
                    state_at(self@.states, camera_id as int, sink_id as int, j)
                        && (#[trigger] self@.states[j]).segment_index == v,
                None => !has_state(self@.states, camera_id as int, sink_id as int),
            },
    {
        match self.find_state(camera_id, sink_id) {
            Some(j) => Some(self.states[j].segment_index),
            None => None,
        }
    }

    /// Current wrap count of `(camera_id, sink_id)`.
    pub fn get_segment_generation(&self, camera_id: i64, sink_id: i64) -> (r: Option<i64>)
        ensures
            match r {
                Some(v) => exists|j: int|
                    state_at(self@.states, camera_id as int, sink_id as int, j)
                        && (#[trigger] self@.states[j]).segment_generation == v,
                None => !has_state(self@.states, camera_id as int, sink_id as int),
            },
    {
        match self.find_state(camera_id, sink_id) {
            Some(j) => Some(self.states[j].segment_generation),
            None => None,
        }
    }

    /// Total number of segments ever written for `(camera_id, sink_id)`.
    pub fn get_absolute_segments(&self, camera_id: i64, sink_id: i64) -> (r: Option<i64>)
        ensures
            match r {
                Some(v) => exists|j: int|
                    state_at(self@.states, camera_id as int, sink_id as int, j)
                        && (#[trigger] self@.states[j]).absolute_segments == v,
                None => !has_state(self@.states, camera_id as int, sink_id as int),
            },
    {
        match self.find_state(camera_id, sink_id) {
            Some(j) => Some(self.states[j].absolute_segments),
            None => None,
        }
    }

    /// Mirror one replaced counter row and install it in the model.
    fn commit_state_row(&mut self, j: usize, row: CameraState) -> (r: Result<(), DbError>)
        requires
            old(self).wf(),
            j < old(self)@.states.len(),
            row.valid(),
            row.camera_id == old(self)@.states[j as int].camera_id,
            row.sink_id == old(self)@.states[j as int].sink_id,
        ensures
            final(self).wf(),
            same_except_states(old(self)@, final(self)@),
            match r {
                Ok(()) => final(self)@.states == old(self)@.states.update(j as int, row),
                Err(e) => final(self)@ == old(self)@ && (e matches DbError::Storage(_)),
            },
    {
        match sql::sql_update_state(&self.conn, &row) {
            Ok(()) => {
                self.states.set(j, row);
                proof {
                    let pre = old(self)@.states;
                    let post = self@.states;
                    assert(post == pre.update(j as int, row));
                    assert forall|a: int, b: int| 0 <= a < b < post.len() implies !((
                    #[trigger] post[a]).camera_id == (#[trigger] post[b]).camera_id
                        && post[a].sink_id == post[b].sink_id) by {
                        assert(pre[a].camera_id == post[a].camera_id && pre[a].sink_id
                            == post[a].sink_id);
                        assert(pre[b].camera_id == post[b].camera_id && pre[b].sink_id
                            == post[b].sink_id);
                    }
                    assert forall|a: int| 0 <= a < post.len() implies (
                    #[trigger] post[a]).valid() by {
                        assert(pre[a].valid());
                    }
                    assert(self@.saved_trips == old(self)@.saved_trips);
                    assert(self@.cameras == old(self)@.cameras);
                    assert(self@.trips == old(self)@.trips);
                    assert(db_wf(self@));
                }
                Ok(())
            },
            Err(e) => Err(Self::storage_err(&e)),
        }
    }

    /// Direct setter for the ring index; used by test harnesses and crash
    /// recovery, and kept within the model invariant.
    pub fn set_segment_index(&mut self, camera_id: i64, sink_id: i64, value: i64) -> (r: Result<
        (),
        DbError,
    >)
        requires
            old(self).wf(),
        ensures
            final(self).wf(),
            same_except_states(old(self)@, final(self)@),
            (r matches Err(DbError::Logic)) <==> value < 0,
            (r matches Err(DbError::NotFound)) <==> (value >= 0 && !has_state(
                old(self)@.states,
                camera_id as int,
                sink_id as int,
            )),
            r matches Err(_) ==> final(self)@ == old(self)@,
            r matches Ok(_) ==> exists|j: int|
                state_at(old(self)@.states, camera_id as int, sink_id as int, j) && final(self)@.states
                    == old(self)@.states.update(
                    j,
                    (#[trigger] old(self)@.states[j]).with_index(value),
                ),
    {
        if value < 0 {
            return Err(DbError::Logic);
        }
        match self.find_state(camera_id, sink_id) {
            None => Err(DbError::NotFound),
            Some(j) => {
                let row = self.states[j].with_index_exec(value);
                self.commit_state_row(j, row)
            },
        }
    }

    /// Direct setter for the wrap count.
    pub fn set_segment_generation(&mut self, camera_id: i64, sink_id: i64, value: i64) -> (r:
        Result<(), DbError>)
        requires
            old(self).wf(),
        ensures
            final(self).wf(),
            same_except_states(old(self)@, final(self)@),
            (r matches Err(DbError::Logic)) <==> value < 0,
            (r matches Err(DbError::NotFound)) <==> (value >= 0 && !has_state(
                old(self)@.states,
                camera_id as int,
                sink_id as int,
            )),
            r matches Err(_) ==> final(self)@ == old(self)@,
            r matches Ok(_) ==> exists|j: int|
                state_at(old(self)@.states, camera_id as int, sink_id as int, j) && final(self)@.states
                    == old(self)@.states.update(
                    j,
                    (#[trigger] old(self)@.states[j]).with_generation(value),
                ),
    {
        if value < 0 {
            return Err(DbError::Logic);
        }
        match self.find_state(camera_id, sink_id) {
            None => Err(DbError::NotFound),
            Some(j) => {
                let row = self.states[j].with_generation_exec(value);
                self.commit_state_row(j, row)
            },
        }
    }

    /// Direct setter for the absolute segment count.
    pub fn set_absolute_segments(&mut self, camera_id: i64, sink_id: i64, value: i64) -> (r: Result<
        (),
        DbError,
    >)
        requires
            old(self).wf(),
        ensures
            final(self).wf(),
            same_except_states(old(self)@, final(self)@),
            (r matches Err(DbError::Logic)) <==> value < 0,
            (r matches Err(DbError::NotFound)) <==> (value >= 0 && !has_state(
                old(self)@.states,
                camera_id as int,
                sink_id as int,
            )),
            r matches Err(_) ==> final(self)@ == old(self)@,
            r matches Ok(_) ==> exists|j: int|
                state_at(old(self)@.states, camera_id as int, sink_id as int, j) && final(self)@.states
                    == old(self)@.states.update(
                    j,
                    (#[trigger] old(self)@.states[j]).with_absolute(value),
                ),
    {
        if value < 0 {
            return Err(DbError::Logic);
        }
        match self.find_state(camera_id, sink_id) {
            None => Err(DbError::NotFound),
            Some(j) => {
                let row = self.states[j].with_absolute_exec(value);
                self.commit_state_row(j, row)
            },
        }
    }

    /// Atomic post-increment of the ring position: one more segment was
    /// written. Returns the new ring index. After success the index is again
    /// inside `[0, max_segments)` and the absolute count rose by exactly one.
    pub fn increment_segment_index(&mut self, camera_id: i64, sink_id: i64, max_segments: i64) -> (r:
        Result<i64, DbError>)
        requires
            old(self).wf(),
        ensures
            final(self).wf(),
            same_except_states(old(self)@, final(self)@),
            r matches Err(_) ==> final(self)@ == old(self)@,
            (r matches Err(DbError::NotFound)) <==> (max_segments >= 1 && !has_state(
                old(self)@.states,
                camera_id as int,
                sink_id as int,
            )),
            (r matches Err(DbError::Logic)) <==> (max_segments < 1 || exists|j: int|
                state_at(old(self)@.states, camera_id as int, sink_id as int, j) && ((
                #[trigger] old(self)@.states[j]).absolute_segments == i64::MAX || old(self)@.states[j].segment_generation == i64::MAX)),
            r matches Ok(v) ==> exists|j: int|
                {
                    &&& state_at(old(self)@.states, camera_id as int, sink_id as int, j)
                    &&& final(self)@.states == old(self)@.states.update(
                        j,
                        spec_increment(#[trigger] old(self)@.states[j], max_segments as int),
                    )
                    &&& v == spec_increment(old(self)@.states[j], max_segments as int).segment_index
                    &&& 0 <= v < max_segments
                    &&& final(self)@.states[j].absolute_segments == old(self)@.states[j].absolute_segments
                        + 1
                },
    {
        if max_segments < 1 {
            return Err(DbError::Logic);
        }
        match self.find_state(camera_id, sink_id) {
            None => Err(DbError::NotFound),
            Some(j) => {
                let cur = self.states[j];
                if cur.absolute_segments == i64::MAX || cur.segment_generation == i64::MAX {
                    return Err(DbError::Logic);
                }
                let row = cur.stepped(max_segments);
                match self.commit_state_row(j, row) {
                    Ok(()) => Ok(row.segment_index),
                    Err(e) => Err(e),
                }
            },
        }
    }

    /// Idempotent re-sync towards the ring index the producer reported. The
    /// absolute count advances by the ring distance from the old index to the
    /// new one; a move backwards bumps the generation.
    pub fn update_segment_counters(
        &mut self,
        camera_id: i64,
        sink_id: i64,
        new_segment_index: i64,
        max_segments: i64,
    ) -> (r: Result<(), DbError>)
        requires
            old(self).wf(),
        ensures
            final(self).wf(),
            same_except_states(old(self)@, final(self)@),
            r matches Err(_) ==> final(self)@ == old(self)@,
            (r matches Err(DbError::NotFound)) <==> (max_segments >= 1 && 0 <= new_segment_index
                < max_segments && !has_state(
                old(self)@.states,
                camera_id as int,
                sink_id as int,
            )),
            (r matches Err(DbError::Logic)) <==> (max_segments < 1 || new_segment_index < 0
                || new_segment_index >= max_segments || exists|j: int|
                state_at(old(self)@.states, camera_id as int, sink_id as int, j) && ((
                #[trigger] old(self)@.states[j]).segment_index >= max_segments || old(self)@.states[j].absolute_segments + max_segments > i64::MAX || old(self)@.states[j].segment_generation == i64::MAX)),
            r matches Ok(_) ==> exists|j: int|
                {
                    &&& state_at(old(self)@.states, camera_id as int, sink_id as int, j)
                    &&& final(self)@.states == old(self)@.states.update(
                        j,
                        spec_update_to(
                            #[trigger] old(self)@.states[j],
                            new_segment_index as int,
                            max_segments as int,
                        ),
                    )
                    &&& old(self)@.states[j].segment_index < max_segments
                    &&& old(self)@.states[j].absolute_segments + max_segments <= i64::MAX
                    &&& final(self)@.states[j].segment_index == new_segment_index
                    &&& final(self)@.states[j].absolute_segments >= old(
                        self,
                    )@.states[j].absolute_segments
                    &&& final(self)@.states[j].absolute_segments == old(self)@.states[j].absolute_segments
                        + crate::ring::ring_distance(
                        old(self)@.states[j].segment_index as int,
                        new_segment_index as int,
                        max_segments as int,
                    )
                    &&& new_segment_index == old(self)@.states[j].segment_index ==> final(self)@.states[j]
                        == old(self)@.states[j]
                },
    {
        if max_segments < 1 || new_segment_index < 0 || new_segment_index >= max_segments {
            return Err(DbError::Logic);
        }
        match self.find_state(camera_id, sink_id) {
            None => Err(DbError::NotFound),
            Some(j) => {
                let cur = self.states[j];
                if cur.segment_index >= max_segments || cur.absolute_segments > i64::MAX
                    - max_segments || cur.segment_generation == i64::MAX {
                    return Err(DbError::Logic);
                }
                let row = cur.updated_to(new_segment_index, max_segments);
                self.commit_state_row(j, row)
            },
        }
    }

    /// Reduce the ring index modulo `max_segments`; generation and absolute
    /// count are untouched. Applied once at startup to tolerate a configured
    /// reduction of the ring size.
    pub fn clamp_segment_index(&mut self, camera_id: i64, sink_id: i64, max_segments: i64) -> (r:
        Result<(), DbError>)
        requires
            old(self).wf(),
        ensures
            final(self).wf(),
            same_except_states(old(self)@, final(self)@),
            r matches Err(_) ==> final(self)@ == old(self)@,
            (r matches Err(DbError::Logic)) <==> max_segments < 1,
            (r matches Err(DbError::NotFound)) <==> (max_segments >= 1 && !has_state(
                old(self)@.states,
                camera_id as int,
                sink_id as int,
            )),
            r matches Ok(_) ==> exists|j: int|
                state_at(old(self)@.states, camera_id as int, sink_id as int, j) && final(self)@.states
                    == old(self)@.states.update(
                    j,
                    spec_clamp(#[trigger] old(self)@.states[j], max_segments as int),
                ) && 0 <= final(self)@.states[j].segment_index < max_segments,
    {
        if max_segments < 1 {
            return Err(DbError::Logic);
        }
        match self.find_state(camera_id, sink_id) {
            None => Err(DbError::NotFound),
            Some(j) => {
                let row = self.states[j].clamped(max_segments);
                self.commit_state_row(j, row)
            },
        }
    }

    /// Clamp every counter row at once, in one mirror transaction.
    pub fn clamp_all_segment_indices(&mut self, max_segments: i64) -> (r: Result<(), DbError>)
        requires
            old(self).wf(),
        ensures
            final(self).wf(),
            same_except_states(old(self)@, final(self)@),
            r matches Err(_) ==> final(self)@ == old(self)@,
            (r matches Err(DbError::Logic)) <==> max_segments < 1,
            r matches Ok(_) ==> final(self)@.states.len() == old(self)@.states.len() && forall|j: int|
                0 <= j < final(self)@.states.len() ==> final(self)@.states[j] == spec_clamp(
                    #[trigger] old(self)@.states[j],
                    max_segments as int,
                ),
    {
        if max_segments < 1 {
            return Err(DbError::Logic);
        }
        let n = self.states.len();
        let mut clamped: Vec<CameraState> = Vec::new();
        let mut i: usize = 0;
        while i < n
            invariant
                self@ == old(self)@,
                old(self).wf(),
                n == self.states.len(),
                i <= n,
                max_segments >= 1,
                clamped@.len() == i,
                forall|k: int|
                    0 <= k < i ==> clamped@[k] == spec_clamp(
                        #[trigger] self@.states[k],
                        max_segments as int,
                    ),
                forall|k: int| 0 <= k < i ==> (#[trigger] clamped@[k]).wf(max_segments as int),
            decreases n - i,
        {
            proof {
                assert(old(self)@.states[i as int].valid());
            }
            clamped.push(self.states[i].clamped(max_segments));
            i += 1;
        }
        if let Err(e) = sql::sqlite_execute_batch(&self.conn, "BEGIN;") {
            return Err(Self::storage_err(&e));
        }
        let mut k: usize = 0;
        while k < n
            invariant
                self@ == old(self)@,
                old(self).wf(),
                max_segments >= 1,
                n == self.states.len(),
                n == clamped@.len(),
                k <= n,
            decreases n - k,
        {
            if let Err(e) = sql::sql_update_state(&self.conn, &clamped[k]) {
                let _ = sql::sqlite_execute_batch(&self.conn, "ROLLBACK;");
                return Err(Self::storage_err(&e));
            }
            k += 1;
        }
        if let Err(e) = sql::sqlite_execute_batch(&self.conn, "COMMIT;") {
            let _ = sql::sqlite_execute_batch(&self.conn, "ROLLBACK;");
            return Err(Self::storage_err(&e));
        }
        self.states = clamped;
        proof {
            let post = self@.states;
            let pre = old(self)@.states;
            assert forall|a: int, b: int| 0 <= a < b < post.len() implies !((
            #[trigger] post[a]).camera_id == (#[trigger] post[b]).camera_id && post[a].sink_id
                == post[b].sink_id) by {
                assert(post[a] == spec_clamp(pre[a], max_segments as int));
                assert(post[b] == spec_clamp(pre[b], max_segments as int));
            }
            assert(self@.cameras == old(self)@.cameras);
            assert(self@.trips == old(self)@.trips);
            assert(self@.saved_trips == old(self)@.saved_trips);
            assert(db_wf(self@));
            assert(same_except_states(old(self)@, self@));
        }
        Ok(())
    }
}

impl Clone for Camera {
    /// A copy with the same id, key contents, name contents and RTSP URL.
    fn clone(&self) -> (r: Camera)
        ensures
            r.id == self.id,
            r.key@ == self.key@,
            r.name@ == self.name@,
            (match (r.rtsp_url, self.rtsp_url) {
                (Some(x), Some(y)) => x@ == y@,
                (None, None) => true,
                _ => false,
            }),
    {
        Camera {
            id: self.id,
            key: self.key.clone(),
            name: self.name.clone(),
            rtsp_url: match &self.rtsp_url {
                Some(s) => Some(s.clone()),
                None => None,
            },
        }
    }
}

/// The store's relational schema, ready for `setup_with_paths_and_schema`.
/// Callers may supply their own forward-compatible variant instead.
pub fn default_schema() -> (r: &'static str) {
    "CREATE TABLE IF NOT EXISTS cameras (\n    id INTEGER PRIMARY KEY,\n    key TEXT NOT NULL UNIQUE,\n    name TEXT NOT NULL,\n    rtsp_url TEXT\n);\nCREATE TABLE IF NOT EXISTS camera_state (\n    camera_id INTEGER NOT NULL REFERENCES cameras(id),\n    sink_id INTEGER NOT NULL,\n    segment_index INTEGER NOT NULL,\n    segment_generation INTEGER NOT NULL,\n    absolute_segments INTEGER NOT NULL,\n    PRIMARY KEY (camera_id, sink_id)\n);\nCREATE TABLE IF NOT EXISTS trips (\n    id INTEGER PRIMARY KEY,\n    camera_id INTEGER NOT NULL REFERENCES cameras(id),\n    boot_id TEXT NOT NULL,\n    start_time_utc INTEGER NOT NULL,\n    end_time_utc INTEGER,\n    start_segment INTEGER NOT NULL,\n    final_segment INTEGER,\n    start_clock_source TEXT NOT NULL,\n    end_clock_source TEXT,\n    note TEXT,\n    start_gen INTEGER NOT NULL,\n    end_gen INTEGER,\n    fully_evicted INTEGER NOT NULL DEFAULT 0,\n    evicted_at_utc INTEGER\n);\nCREATE TABLE IF NOT EXISTS saved_trips (\n    trip_id INTEGER NOT NULL REFERENCES trips(id),\n    saved_dir TEXT NOT NULL,\n    saved_at_utc INTEGER NOT NULL\n);\n"
}

/// No two cameras in the configuration share a key.
pub open spec fn config_keys_distinct(cams: Seq<CameraConfig>) -> bool {
    forall|i: int, j: int|
        0 <= i < j < cams.len() ==> (#[trigger] cams[i]).key@ != (#[trigger] cams[j]).key@
}

/// The store reflects one configured camera: a camera row carries its key
/// and name, and every ring sink of the camera owns a counter row.
pub open spec fn config_applied(v: DbView, cam: CameraConfig) -> bool {
    exists|i: int|
        {
            &&& 0 <= i < v.cameras.len()
            &&& (#[trigger] v.cameras[i]).key@ == cam.key@
            &&& v.cameras[i].name@ == cam.name@
            &&& forall|s: int|
                0 <= s < cam.sinks@.len() ==> match #[trigger] cam.sinks@[s] {
                    SinkConfig::DashcamTs { sink_id, .. } => has_state(
                        v.states,
                        v.cameras[i].id as int,
                        sink_id as int,
                    ),
                    _ => true,
                }
        }
}

/// Option-valued strings agree by their contents.
pub open spec fn opt_str_eq(a: Option<String>, b: Option<String>) -> bool {
    match (a, b) {
        (Some(x), Some(y)) => x@ == y@,
        (None, None) => true,
        _ => false,
    }
}

/// The camera rows after an upsert reflect one configured camera against a
/// previous state: the row carrying its key has the configured name; the
/// RTSP URL is overwritten only when the configuration carries one and is
/// otherwise kept from the previous row with that key (absent when there
/// was none); and a previously existing row kept its id.
#[verifier::opaque]
pub open spec fn camera_upserted(pre: Seq<Camera>, post: Seq<Camera>, cam: CameraConfig) -> bool {
    exists|i: int|
        {
            &&& 0 <= i < post.len()
            &&& (#[trigger] post[i]).key@ == cam.key@
            &&& post[i].name@ == cam.name@
            &&& (cam.source.rtsp_url matches Some(u) ==> (post[i].rtsp_url matches Some(x) && x@
                == u@))
            &&& forall|q: int|
                0 <= q < pre.len() && (#[trigger] pre[q]).key@ == cam.key@ ==> post[i].id
                    == pre[q].id && (cam.source.rtsp_url is None ==> opt_str_eq(
                    post[i].rtsp_url,
                    pre[q].rtsp_url,
                ))
            &&& ((forall|q: int| 0 <= q < pre.len() ==> (#[trigger] pre[q]).key@ != cam.key@)
                && cam.source.rtsp_url is None ==> post[i].rtsp_url is None)
        }
}

/// An upsert outcome carries over to an earlier baseline, provided the rows
/// carrying the camera's key are the same in both baselines.
proof fn lemma_camera_upserted_earlier_pre(
    pre0: Seq<Camera>,
    pre1: Seq<Camera>,
    post: Seq<Camera>,
    cam: CameraConfig,
)
    requires
        camera_upserted(pre1, post, cam),
        forall|q: int|
            0 <= q < pre0.len() && (#[trigger] pre0[q]).key@ == cam.key@ ==> q < pre1.len()
                && pre1[q] == pre0[q],
        (forall|q: int| 0 <= q < pre0.len() ==> (#[trigger] pre0[q]).key@ != cam.key@) ==> (forall|
            q: int,
        | 0 <= q < pre1.len() ==> (#[trigger] pre1[q]).key@ != cam.key@),
    ensures
        camera_upserted(pre0, post, cam),
{
    reveal(camera_upserted);
    let w = choose|w: int|
        {
            &&& 0 <= w < post.len()
            &&& (#[trigger] post[w]).key@ == cam.key@
            &&& post[w].name@ == cam.name@
            &&& (cam.source.rtsp_url matches Some(u) ==> (post[w].rtsp_url matches Some(x) && x@
                == u@))
            &&& forall|q: int|
                0 <= q < pre1.len() && (#[trigger] pre1[q]).key@ == cam.key@ ==> post[w].id
                    == pre1[q].id && (cam.source.rtsp_url is None ==> opt_str_eq(
                    post[w].rtsp_url,
                    pre1[q].rtsp_url,
                ))
            &&& ((forall|q: int| 0 <= q < pre1.len() ==> (#[trigger] pre1[q]).key@ != cam.key@)
                && cam.source.rtsp_url is None ==> post[w].rtsp_url is None)
        };
    assert forall|q: int|
        0 <= q < pre0.len() && (#[trigger] pre0[q]).key@ == cam.key@ implies post[w].id
            == pre0[q].id && (cam.source.rtsp_url is None ==> opt_str_eq(
            post[w].rtsp_url,
            pre0[q].rtsp_url,
        )) by {
        assert(pre1[q] == pre0[q]);
    }
    assert(camera_upserted(pre0, post, cam));
}

/// An upsert outcome survives later changes that leave every row carrying
/// the camera's key exactly as it was.
proof fn lemma_camera_upserted_post_unchanged(
    pre: Seq<Camera>,
    post0: Seq<Camera>,
    post1: Seq<Camera>,
    cam: CameraConfig,
)
    requires
        camera_upserted(pre, post0, cam),
        forall|w: int|
            0 <= w < post0.len() && (#[trigger] post0[w]).key@ == cam.key@ ==> w < post1.len()
                && post1[w] == post0[w],
    ensures
        camera_upserted(pre, post1, cam),
{
    reveal(camera_upserted);
    let w = choose|w: int|
        {
            &&& 0 <= w < post0.len()
            &&& (#[trigger] post0[w]).key@ == cam.key@
            &&& post0[w].name@ == cam.name@
            &&& (cam.source.rtsp_url matches Some(u) ==> (post0[w].rtsp_url matches Some(x) && x@
                == u@))
            &&& forall|q: int|
                0 <= q < pre.len() && (#[trigger] pre[q]).key@ == cam.key@ ==> post0[w].id
                    == pre[q].id && (cam.source.rtsp_url is None ==> opt_str_eq(
                    post0[w].rtsp_url,
                    pre[q].rtsp_url,
                ))
            &&& ((forall|q: int| 0 <= q < pre.len() ==> (#[trigger] pre[q]).key@ != cam.key@)
                && cam.source.rtsp_url is None ==> post0[w].rtsp_url is None)
        };
    assert(post1[w] == post0[w]);
    assert(camera_upserted(pre, post1, cam));
}


/// One pass of the camera loop, summarized: with this camera's row upserted
/// and its counter rows ensured, the configuration facts carry from the
/// processed prefix to the prefix extended by this camera.
#[verifier::rlimit(50)]
proof fn lemma_camera_pass_step(
    pre: DbView,
    before: DbView,
    mid: DbView,
    post: DbView,
    cameras: Seq<CameraConfig>,
    i: int,
    id: int,
    wi: int,
)
    requires
        0 <= i < cameras.len(),
        before.cameras.len() >= pre.cameras.len(),
        forall|q: int|
            0 <= q < pre.cameras.len() ==> (#[trigger] before.cameras[q]).id == pre.cameras[q].id
                && before.cameras[q].key@ == pre.cameras[q].key@,
        forall|q: int|
            0 <= q < before.cameras.len() ==> ((q < pre.cameras.len() && (
            #[trigger] before.cameras[q]) == pre.cameras[q]) || exists|k: int|
                0 <= k < i && (#[trigger] cameras[k]).key@ == before.cameras[q].key@),
        config_keys_distinct(cameras) ==> forall|k: int|
            0 <= k < i ==> config_applied(before, #[trigger] cameras[k]) && camera_upserted(
                pre.cameras,
                before.cameras,
                cameras[k],
            ),
        before.cameras.len() <= mid.cameras.len() <= before.cameras.len() + 1,
        forall|q: int|
            0 <= q < before.cameras.len() ==> (#[trigger] mid.cameras[q]).id
                == before.cameras[q].id && mid.cameras[q].key@ == before.cameras[q].key@,
        forall|q: int|
            0 <= q < before.cameras.len() && (#[trigger] before.cameras[q]).key@
                != cameras[i].key@ ==> mid.cameras[q] == before.cameras[q],
        mid.cameras.len() == before.cameras.len() + 1 ==> mid.cameras[before.cameras.len() as int].key@
            == cameras[i].key@,
        camera_upserted(before.cameras, mid.cameras, cameras[i]),
        post.cameras == mid.cameras,
        before.states.is_prefix_of(mid.states),
        mid.states.is_prefix_of(post.states),
        0 <= wi < post.cameras.len(),
        post.cameras[wi].key@ == cameras[i].key@,
        post.cameras[wi].name@ == cameras[i].name@,
        post.cameras[wi].id == id,
        forall|t: int|
            0 <= t < cameras[i].sinks@.len() ==> match #[trigger] cameras[i].sinks@[t] {
                SinkConfig::DashcamTs { sink_id, .. } => has_state(
                    post.states,
                    id as int,
                    sink_id as int,
                ),
                _ => true,
            },
    ensures
        config_applied(post, cameras[i]),
        forall|q: int|
            0 <= q < post.cameras.len() ==> ((q < pre.cameras.len() && (
            #[trigger] post.cameras[q]) == pre.cameras[q]) || exists|k: int|
                0 <= k < i + 1 && (#[trigger] cameras[k]).key@ == post.cameras[q].key@),
        config_keys_distinct(cameras) ==> forall|k: int|
            0 <= k < i + 1 ==> config_applied(post, #[trigger] cameras[k]) && camera_upserted(
                pre.cameras,
                post.cameras,
                cameras[k],
            ),
{
    reveal(camera_upserted);
    let cam = cameras[i];
    assert(config_applied(post, cam)) by {
        assert(0 <= wi < post.cameras.len() && post.cameras[wi].key@ == cam.key@
            && post.cameras[wi].name@ == cam.name@);
    }
    assert forall|q: int| 0 <= q < post.cameras.len() implies ((q < pre.cameras.len() && (
    #[trigger] post.cameras[q]) == pre.cameras[q]) || exists|k: int|
        0 <= k < i + 1 && (#[trigger] cameras[k]).key@ == post.cameras[q].key@) by {
        if q < before.cameras.len() {
            if before.cameras[q].key@ == cam.key@ {
                assert(mid.cameras[q].key@ == before.cameras[q].key@);
                assert((#[trigger] cameras[i]).key@ == post.cameras[q].key@);
            } else {
                assert(mid.cameras[q] == before.cameras[q]);
                if !(q < pre.cameras.len() && before.cameras[q] == pre.cameras[q]) {
                    let k0 = choose|k: int|
                        0 <= k < i && (#[trigger] cameras[k]).key@ == before.cameras[q].key@;
                    assert(cameras[k0].key@ == post.cameras[q].key@);
                }
            }
        } else {
            assert(q == before.cameras.len() as int);
            assert(mid.cameras[q].key@ == cam.key@);
            assert((#[trigger] cameras[i]).key@ == post.cameras[q].key@);
        }
    }
    if config_keys_distinct(cameras) {
        assert forall|k: int| 0 <= k < i + 1 implies config_applied(post, #[trigger] cameras[k])
            && camera_upserted(pre.cameras, post.cameras, cameras[k]) by {
            if k < i {
                assert(config_applied(before, cameras[k]));
                let w = choose|w: int|
                    0 <= w < before.cameras.len() && (#[trigger] before.cameras[w]).key@
                        == cameras[k].key@ && before.cameras[w].name@ == cameras[k].name@
                        && forall|t: int|
                        0 <= t < cameras[k].sinks@.len() ==> match
                            #[trigger] cameras[k].sinks@[t] {
                            SinkConfig::DashcamTs { sink_id, .. } => has_state(
                                before.states,
                                before.cameras[w].id as int,
                                sink_id as int,
                            ),
                            _ => true,
                        };
                assert(cameras[k].key@ != cam.key@);
                assert(mid.cameras[w] == before.cameras[w]);
                assert(post.cameras[w] == before.cameras[w]);
                assert forall|t: int| 0 <= t < cameras[k].sinks@.len() implies match
                    #[trigger] cameras[k].sinks@[t] {
                    SinkConfig::DashcamTs { sink_id, .. } => has_state(
                        post.states,
                        post.cameras[w].id as int,
                        sink_id as int,
                    ),
                    _ => true,
                } by {
                    match cameras[k].sinks@[t] {
                        SinkConfig::DashcamTs { sink_id, .. } => {
                            let x = choose|x: int|
                                state_at(
                                    before.states,
                                    before.cameras[w].id as int,
                                    sink_id as int,
                                    x,
                                );
                            assert(mid.states[x] == before.states[x]);
                            assert(post.states[x] == mid.states[x]);
                            assert(state_at(
                                post.states,
                                post.cameras[w].id as int,
                                sink_id as int,
                                x,
                            ));
                        },
                        _ => {},
                    }
                }
                assert(config_applied(post, cameras[k]));
                assert forall|w2: int|
                    0 <= w2 < before.cameras.len() && (#[trigger] before.cameras[w2]).key@
                        == cameras[k].key@ implies w2 < mid.cameras.len() && mid.cameras[w2]
                    == before.cameras[w2] by {
                    assert(cameras[k].key@ != cameras[i].key@);
                }
                lemma_camera_upserted_post_unchanged(
                    pre.cameras,
                    before.cameras,
                    mid.cameras,
                    cameras[k],
                );
                assert(camera_upserted(pre.cameras, post.cameras, cameras[k]));
            } else {
                assert(config_applied(post, cameras[k]));
                assert forall|q: int|
                    0 <= q < pre.cameras.len() && (#[trigger] pre.cameras[q]).key@
                        == cam.key@ implies q < before.cameras.len() && before.cameras[q]
                    == pre.cameras[q] by {
                    if !(q < pre.cameras.len() && before.cameras[q] == pre.cameras[q]) {
                        let k0 = choose|kk: int|
                            0 <= kk < i && (#[trigger] cameras[kk]).key@
                                == before.cameras[q].key@;
                        assert(before.cameras[q].key@ == pre.cameras[q].key@);
                        assert(cameras[k0].key@ == cameras[i].key@);
                        assert(false);
                    }
                }
                if forall|q: int|
                    0 <= q < pre.cameras.len() ==> (#[trigger] pre.cameras[q]).key@ != cam.key@ {
                    assert forall|q2: int| 0 <= q2 < before.cameras.len() implies (
                    #[trigger] before.cameras[q2]).key@ != cam.key@ by {
                        if q2 < pre.cameras.len() {
                            assert(before.cameras[q2].key@ == pre.cameras[q2].key@);
                            assert(pre.cameras[q2].key@ != cam.key@);
                        } else {
                            let k0 = choose|kk: int|
                                0 <= kk < i && (#[trigger] cameras[kk]).key@
                                    == before.cameras[q2].key@;
                            assert(cameras[k0].key@ != cameras[i].key@);
                        }
                    }
                }
                lemma_camera_upserted_earlier_pre(
                    pre.cameras,
                    before.cameras,
                    mid.cameras,
                    cam,
                );
                assert(camera_upserted(pre.cameras, post.cameras, cameras[k]));
            }
        }
    }
}

impl DashcamDb {
    /// Locate a camera row by key.
    fn find_camera_by_key(&self, key: &String) -> (r: Option<usize>)
        ensures
            match r {
                Some(i) => 0 <= i < self@.cameras.len() && self@.cameras[i as int].key@ == key@,
                None => forall|i: int|
                    0 <= i < self@.cameras.len() ==> (#[trigger] self@.cameras[i]).key@ != key@,
            },
    {
        let n = self.cameras.len();
        let mut i: usize = 0;
        while i < n
            invariant
                n == self.cameras.len(),
                i <= n,
                forall|k: int| 0 <= k < i ==> (#[trigger] self@.cameras[k]).key@ != key@,
            decreases n - i,
        {
            if self.cameras[i].key == *key {
                return Some(i);
            }
            i += 1;
        }
        None
    }

    /// Insert or update the camera row for one configured camera: the name
    /// is always overwritten, the RTSP URL only when the configuration
    /// carries one. Returns the camera's stable id.
    pub fn upsert_camera_row(&mut self, cam: &CameraConfig) -> (r: Result<i64, DbError>)
        requires
            old(self).wf(),
        ensures
            final(self).wf(),
            final(self)@.states == old(self)@.states,
            final(self)@.trips == old(self)@.trips,
            final(self)@.saved_trips == old(self)@.saved_trips,
            final(self)@.next_trip_id == old(self)@.next_trip_id,
            final(self)@.boot_id == old(self)@.boot_id,
            r matches Err(_) ==> final(self)@ == old(self)@,
            (r matches Err(DbError::Logic)) <==> ((forall|i: int|
                0 <= i < old(self)@.cameras.len() ==> (#[trigger] old(self)@.cameras[i]).key@
                    != cam.key@) && old(self)@.next_camera_id == i64::MAX),
            !(r matches Err(DbError::NotFound)),
            r matches Ok(id) ==> {
                &&& exists|i: int|
                    0 <= i < final(self)@.cameras.len() && (
                    #[trigger] final(self)@.cameras[i]).key@ == cam.key@
                        && final(self)@.cameras[i].name@ == cam.name@ && final(self)@.cameras[i].id == id
                &&& old(self)@.cameras.len() <= final(self)@.cameras.len() <= old(self)@.cameras.len() + 1
                &&& forall|q: int|
                    0 <= q < old(self)@.cameras.len() ==> (#[trigger] final(self)@.cameras[q]).id
                        == old(self)@.cameras[q].id && final(self)@.cameras[q].key@ == old(self)@.cameras[q].key@
                &&& forall|q: int|
                    0 <= q < old(self)@.cameras.len() && (#[trigger] old(self)@.cameras[q]).key@
                        != cam.key@ ==> final(self)@.cameras[q] == old(self)@.cameras[q]
                &&& old(self)@.next_camera_id <= final(self)@.next_camera_id <= old(
                    self,
                )@.next_camera_id + 1
                &&& (final(self)@.cameras.len() == old(self)@.cameras.len() + 1 ==> final(self)@.cameras[old(self)@.cameras.len() as int].key@ == cam.key@)
                &&& camera_upserted(old(self)@.cameras, final(self)@.cameras, *cam)
            },
    {
        match self.find_camera_by_key(&cam.key) {
            Some(j) => {
                let updated = Camera {
                    id: self.cameras[j].id,
                    key: self.cameras[j].key.clone(),
                    name: cam.name.clone(),
                    rtsp_url: match (&cam.source.rtsp_url, &self.cameras[j].rtsp_url) {
                        (Some(u), _) => Some(u.clone()),
                        (None, Some(o)) => Some(o.clone()),
                        (None, None) => None,
                    },
                };
                if let Err(e) = sql::sql_update_camera(
                    &self.conn,
                    updated.id,
                    &updated.name,
                    &updated.rtsp_url,
                ) {
                    return Err(Self::storage_err(&e));
                }
                let id = updated.id;
                self.cameras.set(j, updated);
                proof {
                    let pre = old(self)@;
                    let post = self@;
                    assert forall|a: int, b: int| 0 <= a < b < post.cameras.len() implies (
                    #[trigger] post.cameras[a]).id != (#[trigger] post.cameras[b]).id && (
                    post.cameras[a]).key@ != (post.cameras[b]).key@ by {
                        assert(pre.cameras[a].id == post.cameras[a].id && pre.cameras[a].key@
                            == post.cameras[a].key@);
                        assert(pre.cameras[b].id == post.cameras[b].id && pre.cameras[b].key@
                            == post.cameras[b].key@);
                    }
                    assert forall|a: int| 0 <= a < post.cameras.len() implies (
                    #[trigger] post.cameras[a]).valid() && post.cameras[a].id
                        < post.next_camera_id by {
                        assert(pre.cameras[a].valid() && pre.cameras[a].id < pre.next_camera_id);
                    }
                    assert(post.states == pre.states);
                    assert(post.trips == pre.trips);
                    assert(post.saved_trips == pre.saved_trips);
                    assert(db_wf(post));
                    assert(post.cameras[j as int].key@ == cam.key@ && post.cameras[j as int].name@
                        == cam.name@ && post.cameras[j as int].id == id);
                    assert forall|q: int|
                        0 <= q < pre.cameras.len() && (#[trigger] pre.cameras[q]).key@
                            == cam.key@ implies q == j as int by {
                        if q != j as int {
                            assert(pre.cameras[q].key@ != pre.cameras[j as int].key@);
                        }
                    }
                    reveal(camera_upserted);
                    assert(camera_upserted(pre.cameras, post.cameras, *cam));
                }
                Ok(id)
            },
            None => {
                if self.next_camera_id == i64::MAX {
                    return Err(DbError::Logic);
                }
                let fresh = Camera {
                    id: self.next_camera_id,
                    key: cam.key.clone(),
                    name: cam.name.clone(),
                    rtsp_url: match &cam.source.rtsp_url {
                        Some(u) => Some(u.clone()),
                        None => None,
                    },
                };
                if let Err(e) = sql::sql_insert_camera(
                    &self.conn,
                    fresh.id,
                    &fresh.key,
                    &fresh.name,
                    &fresh.rtsp_url,
                ) {
                    return Err(Self::storage_err(&e));
                }
                let id = fresh.id;
                self.cameras.push(fresh);
                self.next_camera_id = self.next_camera_id + 1;
                proof {
                    let pre = old(self)@;
                    let post = self@;
                    let n0 = pre.cameras.len() as int;
                    assert forall|q: int| 0 <= q < n0 implies #[trigger] post.cameras[q]
                        == pre.cameras[q] by {
                        assert(pre.cameras.push(post.cameras[n0])[q] == pre.cameras[q]);
                    }
                    assert forall|a: int, b: int| 0 <= a < b < post.cameras.len() implies (
                    #[trigger] post.cameras[a]).id != (#[trigger] post.cameras[b]).id && (
                    post.cameras[a]).key@ != (post.cameras[b]).key@ by {
                        if b == n0 {
                            assert(pre.cameras[a].id < pre.next_camera_id);
                            assert(pre.cameras[a].key@ != cam.key@);
                        }
                    }
                    assert forall|a: int| 0 <= a < post.cameras.len() implies (
                    #[trigger] post.cameras[a]).valid() && post.cameras[a].id
                        < post.next_camera_id by {
                        if a < n0 {
                            assert(pre.cameras[a].valid() && pre.cameras[a].id
                                < pre.next_camera_id);
                        }
                    }
                    assert(post.states == pre.states);
                    assert(post.trips == pre.trips);
                    assert(post.saved_trips == pre.saved_trips);
                    assert(db_wf(post));
                    assert(post.cameras[n0].key@ == cam.key@ && post.cameras[n0].name@ == cam.name@
                        && post.cameras[n0].id == id);
                    reveal(camera_upserted);
                    assert(camera_upserted(pre.cameras, post.cameras, *cam));
                }
                Ok(id)
            },
        }
    }

    /// Make sure a `(camera_id, sink_id)` counter row exists, starting at
    /// zero; an existing row is left exactly as it is, so counters survive
    /// restarts.
    pub fn ensure_state_row(&mut self, camera_id: i64, sink_id: i64) -> (r: Result<(), DbError>)
        requires
            old(self).wf(),
        ensures
            final(self).wf(),
            final(self)@.cameras == old(self)@.cameras,
            final(self)@.trips == old(self)@.trips,
            final(self)@.saved_trips == old(self)@.saved_trips,
            final(self)@.next_camera_id == old(self)@.next_camera_id,
            final(self)@.next_trip_id == old(self)@.next_trip_id,
            final(self)@.boot_id == old(self)@.boot_id,
            r matches Err(e) ==> final(self)@ == old(self)@ && (e matches DbError::Storage(_)),
            r matches Ok(_) ==> {
                &&& has_state(final(self)@.states, camera_id as int, sink_id as int)
                &&& (if has_state(old(self)@.states, camera_id as int, sink_id as int) {
                    final(self)@ == old(self)@
                } else {
                    final(self)@.states.len() == old(self)@.states.len() + 1
                        && final(self)@.states.drop_last() == old(self)@.states && final(self)@.states.last().camera_id == camera_id && final(self)@.states.last().sink_id
                        == sink_id && final(self)@.states.last().segment_index == 0 && final(self)@.states.last().segment_generation == 0 && final(self)@.states.last().absolute_segments == 0
                })
            },
    {
        if self.find_state(camera_id, sink_id).is_some() {
            return Ok(());
        }
        let row = CameraState {
            camera_id,
            sink_id,
            segment_index: 0,
            segment_generation: 0,
            absolute_segments: 0,
        };
        if let Err(e) = sql::sql_insert_state(&self.conn, &row) {
            return Err(Self::storage_err(&e));
        }
        self.states.push(row);
        proof {
            let pre = old(self)@;
            let post = self@;
            let n0 = pre.states.len() as int;
            assert forall|q: int| 0 <= q < n0 implies #[trigger] post.states[q]
                == pre.states[q] by {
                assert(pre.states.push(post.states[n0])[q] == pre.states[q]);
            }
            assert forall|a: int, b: int| 0 <= a < b < post.states.len() implies !((
            #[trigger] post.states[a]).camera_id == (#[trigger] post.states[b]).camera_id
                && post.states[a].sink_id == post.states[b].sink_id) by {
                if b == n0 {
                    if post.states[a].camera_id == camera_id && post.states[a].sink_id == sink_id {
                        assert(state_at(pre.states, camera_id as int, sink_id as int, a));
                    }
                }
            }
            assert forall|a: int| 0 <= a < post.states.len() implies (
            #[trigger] post.states[a]).valid() by {
                if a < n0 {
                    assert(pre.states[a].valid());
                }
            }
            assert(post.cameras == pre.cameras);
            assert(post.trips == pre.trips);
            assert(post.saved_trips == pre.saved_trips);
            assert(db_wf(post));
            assert(state_at(post.states, camera_id as int, sink_id as int, n0));
            assert(post.states.drop_last() =~= pre.states);
        }
        Ok(())
    }

    /// Apply the configured cameras: upsert each camera row and create the
    /// missing counter rows for its ring sinks. Existing counters are never
    /// touched.
    #[verifier::rlimit(100)]
    pub fn ensure_cameras_initialized(&mut self, cameras: &Vec<CameraConfig>) -> (r: Result<
        (),
        DbError,
    >)
        requires
            old(self).wf(),
        ensures
            final(self).wf(),
            final(self)@.trips == old(self)@.trips,
            final(self)@.saved_trips == old(self)@.saved_trips,
            final(self)@.next_trip_id == old(self)@.next_trip_id,
            final(self)@.boot_id == old(self)@.boot_id,
            old(self)@.states.is_prefix_of(final(self)@.states),
            forall|j: int|
                0 <= j < old(self)@.states.len() ==> #[trigger] final(self)@.states[j] == old(
                    self,
                )@.states[j],
            forall|j: int|
                old(self)@.states.len() <= j < final(self)@.states.len() ==> zero_counters(
                    #[trigger] final(self)@.states[j],
                ),
            final(self)@.cameras.len() >= old(self)@.cameras.len(),
            forall|q: int|
                0 <= q < old(self)@.cameras.len() ==> (#[trigger] final(self)@.cameras[q]).id
                    == old(self)@.cameras[q].id && final(self)@.cameras[q].key@ == old(
                    self,
                )@.cameras[q].key@,
            old(self)@.next_camera_id <= final(self)@.next_camera_id <= old(self)@.next_camera_id
                + cameras@.len(),
            !(r matches Err(DbError::NotFound)),
            (r matches Err(DbError::Logic)) ==> final(self)@.next_camera_id == i64::MAX,
            old(self)@.next_camera_id + cameras@.len() < i64::MAX ==> !(r matches Err(
                DbError::Logic,
            )),
            r matches Ok(_) && config_keys_distinct(cameras@) ==> forall|k: int|
                0 <= k < cameras@.len() ==> config_applied(final(self)@, #[trigger] cameras@[k])
                    && camera_upserted(old(self)@.cameras, final(self)@.cameras, cameras@[k]),
    {
        let n = cameras.len();
        let mut i: usize = 0;
        while i < n
            invariant
                old(self).wf(),
                self.wf(),
                n == cameras.len(),
                i <= n,
                self@.trips == old(self)@.trips,
                self@.saved_trips == old(self)@.saved_trips,
                self@.next_trip_id == old(self)@.next_trip_id,
                self@.boot_id == old(self)@.boot_id,
                self@.states.len() >= old(self)@.states.len(),
                forall|j: int|
                    0 <= j < old(self)@.states.len() ==> #[trigger] self@.states[j] == old(
                        self,
                    )@.states[j],
                forall|j: int|
                    old(self)@.states.len() <= j < self@.states.len() ==> zero_counters(
                        #[trigger] self@.states[j],
                    ),
                self@.cameras.len() >= old(self)@.cameras.len(),
                forall|q: int|
                    0 <= q < old(self)@.cameras.len() ==> (#[trigger] self@.cameras[q]).id == old(
                        self,
                    )@.cameras[q].id && self@.cameras[q].key@ == old(self)@.cameras[q].key@,
                old(self)@.next_camera_id <= self@.next_camera_id <= old(self)@.next_camera_id + i,
                forall|q: int|
                    0 <= q < self@.cameras.len() ==> ((q < old(self)@.cameras.len() && (
                    #[trigger] self@.cameras[q]) == old(self)@.cameras[q]) || exists|k: int|
                        0 <= k < i && (#[trigger] cameras@[k]).key@ == self@.cameras[q].key@),
                config_keys_distinct(cameras@) ==> forall|k: int|
                    0 <= k < i ==> config_applied(self@, #[trigger] cameras@[k])
                        && camera_upserted(old(self)@.cameras, self@.cameras, cameras@[k]),
            decreases n - i,
        {
            let ghost before = self@;
            let cam = &cameras[i];
            let id = match self.upsert_camera_row(cam) {
                Ok(id) => id,
                Err(e) => {
                    return Err(e);
                },
            };
            let ghost mid = self@;
            let ghost wi = choose|w: int|
                0 <= w < mid.cameras.len() && (#[trigger] mid.cameras[w]).key@ == cam.key@
                    && mid.cameras[w].name@ == cam.name@ && mid.cameras[w].id == id;
            let m = cam.sinks.len();
            let mut s: usize = 0;
            while s < m
                invariant
                    old(self).wf(),
                    self.wf(),
                    m == cam.sinks.len(),
                    s <= m,
                    self@.trips == old(self)@.trips,
                    self@.saved_trips == old(self)@.saved_trips,
                    self@.next_trip_id == old(self)@.next_trip_id,
                    self@.boot_id == old(self)@.boot_id,
                    self@.cameras == mid.cameras,
                    self@.next_camera_id == mid.next_camera_id,
                    0 <= wi < self@.cameras.len(),
                    self@.cameras[wi].key@ == cam.key@,
                    self@.cameras[wi].name@ == cam.name@,
                    self@.cameras[wi].id == id,
                    mid.states.is_prefix_of(self@.states),
                    before.cameras.len() <= mid.cameras.len(),
                    forall|q: int|
                        0 <= q < before.cameras.len() && (#[trigger] before.cameras[q]).key@
                            != cam.key@ ==> mid.cameras[q] == before.cameras[q],
                    before.states.is_prefix_of(mid.states),
                    config_keys_distinct(cameras@) ==> forall|k: int|
                        0 <= k < i ==> config_applied(before, #[trigger] cameras@[k]),
                    self@.states.len() >= old(self)@.states.len(),
                    forall|j: int|
                        0 <= j < old(self)@.states.len() ==> #[trigger] self@.states[j] == old(
                            self,
                        )@.states[j],
                    forall|j: int|
                        old(self)@.states.len() <= j < self@.states.len() ==> zero_counters(
                            #[trigger] self@.states[j],
                        ),
                    self@.cameras.len() >= old(self)@.cameras.len(),
                    forall|q: int|
                        0 <= q < old(self)@.cameras.len() ==> (#[trigger] self@.cameras[q]).id
                            == old(self)@.cameras[q].id && self@.cameras[q].key@ == old(
                            self,
                        )@.cameras[q].key@,
                    old(self)@.next_camera_id <= self@.next_camera_id <= old(
                        self,
                    )@.next_camera_id + i + 1,
                    n == cameras.len(),
                    i < n,
                    *cam == cameras@[i as int],
                    forall|t: int|
                        0 <= t < s ==> match #[trigger] cam.sinks@[t] {
                            SinkConfig::DashcamTs { sink_id, .. } => has_state(
                                self@.states,
                                id as int,
                                sink_id as int,
                            ),
                            _ => true,
                        },
            decreases m - s,
            {
                match cam.sinks[s] {
                    SinkConfig::DashcamTs { sink_id, .. } => {
                        let ghost pre_states = self@.states;
                        if let Err(e) = self.ensure_state_row(id, sink_id) {
                            return Err(e);
                        }
                        proof {
                            if !has_state(pre_states, id as int, sink_id as int) {
                                assert(self@.states.drop_last() == pre_states);
                                assert forall|q: int| 0 <= q < pre_states.len() implies
                                    #[trigger] self@.states[q] == pre_states[q] by {
                                    assert(self@.states.drop_last()[q] == pre_states[q]);
                                }
                            }
                            assert(pre_states.is_prefix_of(self@.states));
                            assert forall|t: int| 0 <= t < s + 1 implies match
                                #[trigger] cam.sinks@[t] {
                                SinkConfig::DashcamTs { sink_id: sid2, .. } => has_state(
                                    self@.states,
                                    id as int,
                                    sid2 as int,
                                ),
                                _ => true,
                            } by {
                                if t < s {
                                    match cam.sinks@[t] {
                                        SinkConfig::DashcamTs { sink_id: sid2, .. } => {
                                            let w = choose|w: int|
                                                state_at(pre_states, id as int, sid2 as int, w);
                                            assert(state_at(
                                                self@.states,
                                                id as int,
                                                sid2 as int,
                                                w,
                                            ));
                                        },
                                        _ => {},
                                    }
                                }
                            }
                        }
                    },
                    _ => {},
                }
                s += 1;
            }
            proof {
                lemma_camera_pass_step(
                    old(self)@,
                    before,
                    mid,
                    self@,
                    cameras@,
                    i as int,
                    id as int,
                    wi,
                );
            }
            i += 1;
        }
        Ok(())
    }

}


/// What a successful setup built: some on-disk image that passed the four
/// table checks, reloaded unchanged, then extended by the configured
/// cameras. Pre-existing counter rows are untouched and rows created for
/// configured sinks start at zero, so a restart never resets ring state.
pub open spec fn setup_ok_post(post: DbView, cameras: Seq<CameraConfig>) -> bool {
    exists|loaded: DbView|
        {
            &&& #[trigger] db_wf(loaded)
            &&& cameras_rows_ok(loaded.cameras)
            &&& states_rows_ok(loaded.states)
            &&& trips_rows_ok(loaded.trips)
            &&& saved_rows_ok(loaded.saved_trips)
            &&& post.trips == loaded.trips
            &&& post.saved_trips == loaded.saved_trips
            &&& loaded.states.is_prefix_of(post.states)
            &&& forall|j: int|
                0 <= j < loaded.states.len() ==> #[trigger] post.states[j] == loaded.states[j]
            &&& forall|j: int|
                loaded.states.len() <= j < post.states.len() ==> zero_counters(
                    #[trigger] post.states[j],
                )
            &&& post.cameras.len() >= loaded.cameras.len()
            &&& forall|q: int|
                0 <= q < loaded.cameras.len() ==> (#[trigger] post.cameras[q]).id
                    == loaded.cameras[q].id && post.cameras[q].key@ == loaded.cameras[q].key@
            &&& (config_keys_distinct(cameras) ==> forall|k: int|
                0 <= k < cameras.len() ==> config_applied(post, #[trigger] cameras[k])
                    && camera_upserted(loaded.cameras, post.cameras, cameras[k]))
        }
}

/// Camera rows this library could have written: assigned ids below the id
/// ceiling, unique ids, unique keys.
pub open spec fn cameras_rows_ok(cams: Seq<Camera>) -> bool {
    &&& forall|i: int| 0 <= i < cams.len() ==> 1 <= (#[trigger] cams[i]).id < i64::MAX
    &&& forall|i: int, j: int|
        0 <= i < j < cams.len() ==> (#[trigger] cams[i]).id != (#[trigger] cams[j]).id
            && cams[i].key@ != cams[j].key@
}

/// Counter rows this library could have written: non-negative counters and
/// one row per `(camera, sink)`.
pub open spec fn states_rows_ok(states: Seq<CameraState>) -> bool {
    &&& forall|i: int| 0 <= i < states.len() ==> (#[trigger] states[i]).valid()
    &&& forall|i: int, j: int|
        0 <= i < j < states.len() ==> !((#[trigger] states[i]).camera_id == (
        #[trigger] states[j]).camera_id && states[i].sink_id == states[j].sink_id)
}

/// Trip rows this library could have written: structurally sound, ids below
/// the ceiling and unique, at most one open trip per camera.
pub open spec fn trips_rows_ok(trips: Seq<Trip>) -> bool {
    &&& forall|i: int|
        0 <= i < trips.len() ==> (#[trigger] trips[i]).valid() && trips[i].id < i64::MAX
    &&& forall|i: int, j: int|
        0 <= i < j < trips.len() ==> (#[trigger] trips[i]).id != (#[trigger] trips[j]).id
    &&& forall|i: int, j: int|
        0 <= i < j < trips.len() ==> !((#[trigger] trips[i]).camera_id == (
        #[trigger] trips[j]).camera_id && trips[i].is_open() && trips[j].is_open())
}

/// Saved-trip rows this library could have written: each references an
/// assigned trip id.
pub open spec fn saved_rows_ok(saved: Seq<SavedTrip>) -> bool {
    forall|i: int| 0 <= i < saved.len() ==> (#[trigger] saved[i]).trip_id >= 1
}

impl DashcamDb {
    /// Check loaded camera rows: assigned unique ids, unique keys. Returns
    /// the next free camera id.
    fn check_cameras(cameras: &Vec<Camera>) -> (r: Option<i64>)
        ensures
            (r is Some) <==> cameras_rows_ok(cameras@),
            r matches Some(next) ==> {
                &&& 1 <= next <= i64::MAX
                &&& forall|i: int|
                    0 <= i < cameras@.len() ==> (#[trigger] cameras@[i]).valid() && cameras@[i].id
                        < next
            },
    {
        let n = cameras.len();
        let mut next: i64 = 1;
        let mut i: usize = 0;
        while i < n
            invariant
                n == cameras.len(),
                i <= n,
                1 <= next <= i64::MAX,
                forall|k: int|
                    0 <= k < i ==> (#[trigger] cameras@[k]).valid() && cameras@[k].id < next,
                forall|a: int, b: int|
                    0 <= a < b < i ==> (#[trigger] cameras@[a]).id != (#[trigger] cameras@[b]).id
                        && cameras@[a].key@ != cameras@[b].key@,
            decreases n - i,
        {
            if cameras[i].id < 1 || cameras[i].id == i64::MAX {
                return None;
            }
            let mut j: usize = 0;
            while j < i
                invariant
                    n == cameras.len(),
                    i < n,
                    j <= i,
                    forall|k: int|
                        0 <= k < j ==> (#[trigger] cameras@[k]).id != cameras@[i as int].id && (
                        cameras@[k]).key@ != cameras@[i as int].key@,
                decreases i - j,
            {
                if cameras[j].id == cameras[i].id || cameras[j].key == cameras[i].key {
                    return None;
                }
                j += 1;
            }
            if cameras[i].id >= next {
                next = cameras[i].id + 1;
            }
            i += 1;
        }
        Some(next)
    }

    /// Check loaded counter rows: non-negative counters and one row per
    /// `(camera, sink)`.
    fn check_states(states: &Vec<CameraState>) -> (r: bool)
        ensures
            r == states_rows_ok(states@),
    {
        let n = states.len();
        let mut i: usize = 0;
        while i < n
            invariant
                n == states.len(),
                i <= n,
                forall|k: int| 0 <= k < i ==> (#[trigger] states@[k]).valid(),
                forall|a: int, b: int|
                    0 <= a < b < i ==> !((#[trigger] states@[a]).camera_id == (
                    #[trigger] states@[b]).camera_id && states@[a].sink_id == states@[b].sink_id),
            decreases n - i,
        {
            let s = states[i];
            if s.segment_index < 0 || s.segment_generation < 0 || s.absolute_segments < 0 {
                return false;
            }
            let mut j: usize = 0;
            while j < i
                invariant
                    n == states.len(),
                    i < n,
                    j <= i,
                    forall|k: int|
                        0 <= k < j ==> !((#[trigger] states@[k]).camera_id == states@[i as int].camera_id
                            && states@[k].sink_id == states@[i as int].sink_id),
                decreases i - j,
            {
                if states[j].camera_id == states[i].camera_id && states[j].sink_id
                    == states[i].sink_id {
                    return false;
                }
                j += 1;
            }
            i += 1;
        }
        true
    }

    /// Check loaded trip rows: structurally sound, unique ids, at most one
    /// open trip per camera. Returns the next free trip id.
    fn check_trips(trips: &Vec<Trip>) -> (r: Option<i64>)
        ensures
            (r is Some) <==> trips_rows_ok(trips@),
            r matches Some(next) ==> {
                &&& 1 <= next <= i64::MAX
                &&& forall|i: int|
                    0 <= i < trips@.len() ==> (#[trigger] trips@[i]).valid() && trips@[i].id < next
            },
    {
        let n = trips.len();
        let mut next: i64 = 1;
        let mut i: usize = 0;
        while i < n
            invariant
                n == trips.len(),
                i <= n,
                1 <= next <= i64::MAX,
                forall|k: int| 0 <= k < i ==> (#[trigger] trips@[k]).valid() && trips@[k].id < next,
                forall|a: int, b: int|
                    0 <= a < b < i ==> (#[trigger] trips@[a]).id != (#[trigger] trips@[b]).id,
                forall|a: int, b: int|
                    0 <= a < b < i ==> !((#[trigger] trips@[a]).camera_id == (
                    #[trigger] trips@[b]).camera_id && trips@[a].is_open() && trips@[b].is_open()),
            decreases n - i,
        {
            let valid_row = trips[i].id >= 1 && trips[i].id < i64::MAX && trips[i].camera_id >= 0
                && trips[i].start_segment >= 0 && trips[i].start_gen >= 0 && (match trips[i].end_gen {
                Some(g) => g >= 0,
                None => true,
            }) && (match trips[i].final_segment {
                Some(f) => f >= 0 && trips[i].end_time_utc.is_some() && trips[i].end_gen.is_some()
                    && trips[i].end_clock_source.is_some(),
                None => !trips[i].fully_evicted,
            });
            if !valid_row {
                return None;
            }
            let mut j: usize = 0;
            while j < i
                invariant
                    n == trips.len(),
                    i < n,
                    j <= i,
                    forall|k: int|
                        0 <= k < j ==> (#[trigger] trips@[k]).id != trips@[i as int].id && !((
                        trips@[k]).camera_id == trips@[i as int].camera_id && trips@[k].is_open()
                            && trips@[i as int].is_open()),
                decreases i - j,
            {
                if trips[j].id == trips[i].id {
                    return None;
                }
                if trips[j].camera_id == trips[i].camera_id && trips[j].final_segment.is_none()
                    && trips[i].final_segment.is_none() {
                    return None;
                }
                j += 1;
            }
            if trips[i].id >= next {
                next = trips[i].id + 1;
            }
            i += 1;
        }
        Some(next)
    }

    /// Check loaded saved-trip rows: each references an assigned trip id.
    fn check_saved(saved: &Vec<SavedTrip>) -> (r: bool)
        ensures
            r == saved_rows_ok(saved@),
    {
        let n = saved.len();
        let mut i: usize = 0;
        while i < n
            invariant
                n == saved.len(),
                i <= n,
                forall|k: int| 0 <= k < i ==> (#[trigger] saved@[k]).trip_id >= 1,
            decreases n - i,
        {
            if saved[i].trip_id < 1 {
                return false;
            }
            i += 1;
        }
        true
    }

    /// Open (creating if missing) the database file, apply the schema text,
    /// read the mirrored rows back into the model, and apply the configured
    /// cameras. The store starts with the fallback boot identifier; rows
    /// that no run of this library can have written are refused as a
    /// storage fault.
    pub fn setup_with_paths_and_schema(
        db_path: &str,
        schema_sql: &str,
        cameras: &Vec<CameraConfig>,
    ) -> (r: Result<DashcamDb, DbError>)
        ensures
            r matches Err(e) ==> !(e matches DbError::NotFound),
            r matches Ok(db) ==> {
                &&& db.wf()
                &&& db@.boot_id == "unknown_boot_id"@
                &&& (config_keys_distinct(cameras@) ==> forall|k: int|
                    0 <= k < cameras@.len() ==> config_applied(db@, #[trigger] cameras@[k]))
                &&& setup_ok_post(db@, cameras@)
            },
    {
        let conn = match sql::sqlite_open(db_path) {
            Ok(c) => c,
            Err(e) => {
                return Err(Self::storage_err(&e));
            },
        };
        if let Err(e) = sql::sqlite_pragma(&conn, "journal_mode", "WAL") {
            return Err(Self::storage_err(&e));
        }
        if let Err(e) = sql::sqlite_pragma(&conn, "synchronous", "NORMAL") {
            return Err(Self::storage_err(&e));
        }
        if let Err(e) = sql::sqlite_pragma(&conn, "foreign_keys", "ON") {
            return Err(Self::storage_err(&e));
        }
        if let Err(e) = sql::sqlite_pragma(&conn, "temp_store", "MEMORY") {
            return Err(Self::storage_err(&e));
        }
        if let Err(e) = sql::sqlite_busy_timeout_ms(&conn, 100) {
            return Err(Self::storage_err(&e));
        }
        if let Err(e) = sql::sqlite_execute_batch(&conn, schema_sql) {
            return Err(Self::storage_err(&e));
        }
        let loaded_cameras = match sql::sql_load_cameras(&conn) {
            Ok(v) => v,
            Err(e) => {
                return Err(Self::storage_err(&e));
            },
        };
        let loaded_states = match sql::sql_load_states(&conn) {
            Ok(v) => v,
            Err(e) => {
                return Err(Self::storage_err(&e));
            },
        };
        let loaded_trips = match sql::sql_load_trips(&conn) {
            Ok(v) => v,
            Err(e) => {
                return Err(Self::storage_err(&e));
            },
        };
        let loaded_saved = match sql::sql_load_saved(&conn) {
            Ok(v) => v,
            Err(e) => {
                return Err(Self::storage_err(&e));
            },
        };
        let next_camera_id = match Self::check_cameras(&loaded_cameras) {
            Some(v) => v,
            None => {
                return Err(DbError::Storage(String::from_str("inconsistent camera rows")));
            },
        };
        if !Self::check_states(&loaded_states) {
            return Err(DbError::Storage(String::from_str("inconsistent counter rows")));
        }
        let next_trip_id = match Self::check_trips(&loaded_trips) {
            Some(v) => v,
            None => {
                return Err(DbError::Storage(String::from_str("inconsistent trip rows")));
            },
        };
        if !Self::check_saved(&loaded_saved) {
            return Err(DbError::Storage(String::from_str("inconsistent saved-trip rows")));
        }
        let mut db = DashcamDb {
            conn,
            cameras: loaded_cameras,
            states: loaded_states,
            trips: loaded_trips,
            saved_trips: loaded_saved,
            next_camera_id,
            next_trip_id,
            boot_id: String::from_str("unknown_boot_id"),
        };
        proof {
            assert(db.wf());
        }
        let ghost loaded = db@;
        if let Err(e) = db.ensure_cameras_initialized(cameras) {
            return Err(e);
        }
        proof {
            assert(db_wf(loaded));
            assert(setup_ok_post(db@, cameras@));
        }
        Ok(db)
    }

    /// The trip ledger, oldest first.
    pub fn trips(&self) -> (r: &Vec<Trip>)
        ensures
            r@ == self@.trips,
    {
        &self.trips
    }

    /// The saved-trip records, in insertion order.
    pub fn saved_trips(&self) -> (r: &Vec<SavedTrip>)
        ensures
            r@ == self@.saved_trips,
    {
        &self.saved_trips
    }

    /// The camera rows, in insertion order.
    pub fn cameras(&self) -> (r: &Vec<Camera>)
        ensures
            r@ == self@.cameras,
    {
        &self.cameras
    }
}

} // verus!
