//! Trip ledger and eviction oracle: open, close and save trips anchored to
//! ring positions, and stamp trips whose backing files the ring has
//! overwritten.

use vstd::prelude::*;

use crate::errors::DbError;
use crate::ring::CameraState;
use crate::sql;
use crate::trip::{closes, opens, trip_obs_eq, SavedTrip, Trip};

use super::{
    db_wf, has_open_trip, has_primary_state, is_primary_state, open_trip_at, same_except_trips,
    same_except_trips_and_saved, state_at, DashcamDb, DbView,
};

verus! {

/// The trip id counter cannot assign another id.
pub open spec fn trip_ids_exhausted(pre: DbView) -> bool {
    pre.next_trip_id == i64::MAX
}

/// What a successful trip insertion did: a fresh open trip, anchored at the
/// camera's primary ring generation, was appended and the id counter rose.
pub open spec fn insert_trip_ok_post(
    pre: DbView,
    post: DbView,
    ret: Trip,
    camera_id: int,
    start_segment: int,
    now: int,
) -> bool {
    exists|p: int, tt: Trip|
        {
            &&& is_primary_state(pre.states, camera_id, p)
            &&& opens(
                tt,
                pre.next_trip_id,
                camera_id,
                pre.boot_id,
                start_segment,
                (#[trigger] pre.states[p]).segment_generation as int,
                now,
            )
            &&& post.trips == pre.trips.push(tt)
            &&& #[trigger] trip_obs_eq(ret, tt)
            &&& post.next_trip_id == pre.next_trip_id + 1
        }
}

/// What a successful finalize did: either there was no open trip and nothing
/// changed, or the one open trip was closed at `(end_gen of the primary
/// ring, end_segment)` and nothing else moved.
pub open spec fn finalize_ok_post(
    pre: DbView,
    post: DbView,
    camera_id: int,
    end_segment: int,
    now: int,
) -> bool {
    ||| (!has_open_trip(pre.trips, camera_id) && post == pre)
    ||| (exists|j: int, p: int|
        {
            &&& #[trigger] open_trip_at(pre.trips, camera_id, j)
            &&& #[trigger] is_primary_state(pre.states, camera_id, p)
            &&& post.trips == pre.trips.update(j, post.trips[j])
            &&& closes(
                pre.trips[j],
                post.trips[j],
                end_segment,
                pre.states[p].segment_generation as int,
                now,
            )
            &&& post.next_trip_id == pre.next_trip_id
        })
}

/// Absolute ring position of the next segment for a counter row: the wrap
/// count times the ring size plus the index.
pub open spec fn ring_pos(s: CameraState, max: int) -> int {
    s.segment_generation * max + s.segment_index
}

/// Parameter faults of the close-then-open operations.
pub open spec fn new_trip_basic_bad(pre: DbView, camera_id: int, max: int) -> bool {
    camera_id < 0 || max < 1 || trip_ids_exhausted(pre)
}

/// State faults of the close-then-open operations: the primary ring's index
/// lies outside the ring, or its absolute position cannot be represented.
pub open spec fn new_trip_guards_bad(pre: DbView, camera_id: int, max: int) -> bool {
    exists|p: int|
        #[trigger] is_primary_state(pre.states, camera_id, p) && (pre.states[p].segment_index
            >= max || ring_pos(pre.states[p], max) > i64::MAX)
}

/// What a successful close-then-open did. With the primary ring at absolute
/// position `pos`: an open trip reaching back to `pos - 1` or earlier is
/// closed at `pos - 1` and a fresh trip opens at the current position; an
/// open trip that starts at the current position is simply returned; a
/// camera without an open trip just gets the fresh trip.
pub open spec fn new_trip_ok_post(
    pre: DbView,
    post: DbView,
    ret: Trip,
    camera_id: int,
    max: int,
    now: int,
) -> bool {
    exists|p: int|
        #[trigger] is_primary_state(pre.states, camera_id, p) && {
            let pos = ring_pos(pre.states[p], max);
            let idx = pre.states[p].segment_index as int;
            let gen = pre.states[p].segment_generation as int;
            if has_open_trip(pre.trips, camera_id) {
                exists|k: int|
                    #[trigger] open_trip_at(pre.trips, camera_id, k) && (if pre.trips[k].abs_start(
                        max,
                    ) <= pos - 1 {
                        exists|tt: Trip|
                            {
                                &&& closes(
                                    pre.trips[k],
                                    post.trips[k],
                                    (pos - 1) % max,
                                    (pos - 1) / max,
                                    now,
                                )
                                &&& opens(
                                    tt,
                                    pre.next_trip_id,
                                    camera_id,
                                    pre.boot_id,
                                    idx,
                                    gen,
                                    now,
                                )
                                &&& post.trips == pre.trips.update(k, post.trips[k]).push(tt)
                                &&& #[trigger] trip_obs_eq(ret, tt)
                                &&& post.next_trip_id == pre.next_trip_id + 1
                            }
                    } else {
                        post == pre && trip_obs_eq(ret, pre.trips[k])
                    })
            } else {
                exists|tt: Trip|
                    {
                        &&& opens(tt, pre.next_trip_id, camera_id, pre.boot_id, idx, gen, now)
                        &&& post.trips == pre.trips.push(tt)
                        &&& #[trigger] trip_obs_eq(ret, tt)
                        &&& post.next_trip_id == pre.next_trip_id + 1
                    }
            }
        }
}

/// What the save-and-restart operation reports about the closed trip: when
/// one was closed, its id, its starting ring index and its final ring index,
/// and a saved-trip row appended for it; otherwise a zero id and an
/// untouched saved-trip table.
pub open spec fn save_trip_closed_post(
    pre: DbView,
    post: DbView,
    camera_id: int,
    max: int,
    now: int,
    saved_dir: Seq<char>,
    closed_id: int,
    closed_start: int,
    closed_end: int,
) -> bool {
    exists|p: int|
        #[trigger] is_primary_state(pre.states, camera_id, p) && {
            let pos = ring_pos(pre.states[p], max);
            if has_open_trip(pre.trips, camera_id) {
                exists|k: int|
                    #[trigger] open_trip_at(pre.trips, camera_id, k) && (if pre.trips[k].abs_start(
                        max,
                    ) <= pos - 1 {
                        exists|sv: SavedTrip|
                            {
                                &&& post.saved_trips == pre.saved_trips.push(sv)
                                &&& (#[trigger] sv.trip_id) == pre.trips[k].id
                                &&& sv.saved_dir@ == saved_dir
                                &&& sv.saved_at_utc == now
                                &&& closed_id == pre.trips[k].id
                                &&& closed_start == pre.trips[k].start_segment
                                &&& closed_end == (pos - 1) % max
                            }
                    } else {
                        post.saved_trips == pre.saved_trips && closed_id == 0 && closed_start == 0
                            && closed_end == 0
                    })
            } else {
                post.saved_trips == pre.saved_trips && closed_id == 0 && closed_start == 0
                    && closed_end == 0
            }
        }
}

/// Appending a fresh open trip to a camera without one keeps the model
/// well-formed and is exactly what `new_trip_ok_post` describes for that
/// case.
proof fn lemma_push_open_wf(
    pre: DbView,
    post: DbView,
    camera_id: int,
    max: int,
    now: int,
    p: int,
    ret: Trip,
)
    requires
        db_wf(pre),
        camera_id >= 0,
        1 <= max,
        pre.next_trip_id < i64::MAX,
        is_primary_state(pre.states, camera_id, p),
        !has_open_trip(pre.trips, camera_id),
        post.cameras == pre.cameras,
        post.states == pre.states,
        post.saved_trips == pre.saved_trips,
        post.next_camera_id == pre.next_camera_id,
        post.boot_id == pre.boot_id,
        post.next_trip_id == pre.next_trip_id + 1,
        post.trips == pre.trips.push(post.trips[pre.trips.len() as int]),
        opens(
            post.trips[pre.trips.len() as int],
            pre.next_trip_id,
            camera_id,
            pre.boot_id,
            pre.states[p].segment_index as int,
            pre.states[p].segment_generation as int,
            now,
        ),
        trip_obs_eq(ret, post.trips[pre.trips.len() as int]),
    ensures
        db_wf(post),
        new_trip_ok_post(pre, post, ret, camera_id, max, now),
        insert_trip_ok_post(
            pre,
            post,
            ret,
            camera_id,
            pre.states[p].segment_index as int,
            now,
        ),
        has_open_trip(post.trips, camera_id),
{
    let n0 = pre.trips.len() as int;
    let tt = post.trips[n0];
    assert(pre.states[p].valid());
    assert(tt.valid());
    assert forall|q: int| 0 <= q < n0 implies #[trigger] post.trips[q] == pre.trips[q] by {
        assert(pre.trips.push(tt)[q] == pre.trips[q]);
    }
    assert forall|a: int, b: int| 0 <= a < b < post.trips.len() implies (
    #[trigger] post.trips[a]).id != (#[trigger] post.trips[b]).id by {
        if b < n0 {
        } else {
            assert(pre.trips[a].id < pre.next_trip_id);
        }
    }
    assert forall|a: int, b: int| 0 <= a < b < post.trips.len() implies !((
    #[trigger] post.trips[a]).camera_id == (#[trigger] post.trips[b]).camera_id
        && post.trips[a].is_open() && post.trips[b].is_open()) by {
        if b == n0 {
            if post.trips[a].camera_id == camera_id && post.trips[a].is_open() {
                assert(open_trip_at(pre.trips, camera_id, a));
            }
        }
    }
    assert forall|a: int| 0 <= a < post.trips.len() implies (#[trigger] post.trips[a]).valid()
        && post.trips[a].id < post.next_trip_id by {
        if a < n0 {
            assert(pre.trips[a].valid() && pre.trips[a].id < pre.next_trip_id);
        }
    }
    assert(db_wf(post));
    assert(open_trip_at(post.trips, camera_id, n0));
    assert(new_trip_ok_post(pre, post, ret, camera_id, max, now));
    assert(insert_trip_ok_post(pre, post, ret, camera_id, pre.states[p].segment_index as int, now));
}

/// Closing the open trip at the previous absolute position and appending a
/// fresh one keeps the model well-formed and matches `new_trip_ok_post`.
proof fn lemma_close_open_wf(
    pre: DbView,
    post: DbView,
    camera_id: int,
    max: int,
    now: int,
    k: int,
    p: int,
    ret: Trip,
)
    requires
        db_wf(pre),
        camera_id >= 0,
        1 <= max <= i64::MAX,
        pre.next_trip_id < i64::MAX,
        is_primary_state(pre.states, camera_id, p),
        pre.states[p].segment_index < max,
        ring_pos(pre.states[p], max) <= i64::MAX,
        open_trip_at(pre.trips, camera_id, k),
        pre.trips[k].abs_start(max) <= ring_pos(pre.states[p], max) - 1,
        post.cameras == pre.cameras,
        post.states == pre.states,
        forall|i: int|
            0 <= i < post.saved_trips.len() ==> (#[trigger] post.saved_trips[i]).trip_id >= 1,
        post.next_camera_id == pre.next_camera_id,
        post.boot_id == pre.boot_id,
        post.next_trip_id == pre.next_trip_id + 1,
        post.trips == pre.trips.update(k, post.trips[k]).push(
            post.trips[pre.trips.len() as int],
        ),
        closes(
            pre.trips[k],
            post.trips[k],
            (ring_pos(pre.states[p], max) - 1) % max,
            (ring_pos(pre.states[p], max) - 1) / max,
            now,
        ),
        post.trips[k].valid(),
        !post.trips[k].is_open(),
        opens(
            post.trips[pre.trips.len() as int],
            pre.next_trip_id,
            camera_id,
            pre.boot_id,
            pre.states[p].segment_index as int,
            pre.states[p].segment_generation as int,
            now,
        ),
        trip_obs_eq(ret, post.trips[pre.trips.len() as int]),
    ensures
        db_wf(post),
        new_trip_ok_post(pre, post, ret, camera_id, max, now),
        has_open_trip(post.trips, camera_id),
{
    let n0 = pre.trips.len() as int;
    let tt = post.trips[n0];
    let mid = pre.trips.update(k, post.trips[k]);
    assert(post.trips.len() == n0 + 1);
    assert(pre.states[p].valid());
    assert(tt.valid());
    assert forall|q: int| 0 <= q < n0 && q != k implies #[trigger] post.trips[q]
        == pre.trips[q] by {
        assert(mid.push(tt)[q] == mid[q]);
        assert(mid[q] == pre.trips[q]);
    }
    assert forall|a: int, b: int| 0 <= a < b < post.trips.len() implies (
    #[trigger] post.trips[a]).id != (#[trigger] post.trips[b]).id by {
        if b < n0 {
            assert(post.trips[a].id == pre.trips[a].id);
            assert(post.trips[b].id == pre.trips[b].id);
        } else {
            assert(post.trips[a].id == pre.trips[a].id);
            assert(pre.trips[a].id < pre.next_trip_id);
        }
    }
    assert forall|a: int, b: int| 0 <= a < b < post.trips.len() implies !((
    #[trigger] post.trips[a]).camera_id == (#[trigger] post.trips[b]).camera_id
        && post.trips[a].is_open() && post.trips[b].is_open()) by {
        if b == n0 {
            if post.trips[a].camera_id == camera_id && post.trips[a].is_open() {
                assert(a != k);
                assert(post.trips[a] == pre.trips[a]);
                assert(open_trip_at(pre.trips, camera_id, a));
                assert(a != k && open_trip_at(pre.trips, camera_id, k));
                assert(false);
            }
        } else {
            assert(post.trips[a].camera_id == pre.trips[a].camera_id && (post.trips[a].is_open()
                ==> pre.trips[a].is_open()));
            assert(post.trips[b].camera_id == pre.trips[b].camera_id && (post.trips[b].is_open()
                ==> pre.trips[b].is_open()));
        }
    }
    assert forall|a: int| 0 <= a < post.trips.len() implies (#[trigger] post.trips[a]).valid()
        && post.trips[a].id < post.next_trip_id by {
        if a == k {
        } else if a < n0 {
            assert(post.trips[a] == pre.trips[a]);
            assert(pre.trips[a].valid() && pre.trips[a].id < pre.next_trip_id);
        }
        if a == k {
            assert(post.trips[k].id == pre.trips[k].id);
            assert(pre.trips[k].id < pre.next_trip_id);
        }
    }
    assert(db_wf(post));
    assert(open_trip_at(post.trips, camera_id, n0));
    assert(has_open_trip(pre.trips, camera_id));
    assert(new_trip_ok_post(pre, post, ret, camera_id, max, now));
}

impl DashcamDb {
    /// The boot identifier stamped on new trips.
    pub fn boot_id(&self) -> (r: &String)
        ensures
            r@ == self@.boot_id,
    {
        &self.boot_id
    }

    /// Set the boot identifier for this process lifetime; `None` falls back
    /// to the fixed sentinel.
    pub fn set_boot_id(&mut self, boot_id: Option<String>)
        requires
            old(self).wf(),
        ensures
            final(self).wf(),
            final(self)@.cameras == old(self)@.cameras,
            final(self)@.states == old(self)@.states,
            final(self)@.trips == old(self)@.trips,
            final(self)@.saved_trips == old(self)@.saved_trips,
            final(self)@.next_camera_id == old(self)@.next_camera_id,
            final(self)@.next_trip_id == old(self)@.next_trip_id,
            match boot_id {
                Some(s) => final(self)@.boot_id == s@,
                None => final(self)@.boot_id == "unknown_boot_id"@,
            },
    {
        match boot_id {
            Some(s) => {
                self.boot_id = s;
            },
            None => {
                self.boot_id = String::from_str("unknown_boot_id");
            },
        }
        proof {
            assert(self@.cameras == old(self)@.cameras);
            assert(self@.states == old(self)@.states);
            assert(self@.trips == old(self)@.trips);
            assert(self@.saved_trips == old(self)@.saved_trips);
            assert(db_wf(self@));
        }
    }

    /// The camera's open trip, if any.
    pub fn open_current_trip(&self, camera_id: i64) -> (r: Option<Trip>)
        ensures
            match r {
                Some(t) => exists|j: int|
                    open_trip_at(self@.trips, camera_id as int, j) && trip_obs_eq(
                        t,
                        #[trigger] self@.trips[j],
                    ),
                None => !has_open_trip(self@.trips, camera_id as int),
            },
    {
        match self.find_open_trip(camera_id) {
            Some(j) => Some(self.trips[j].clone()),
            None => None,
        }
    }

    /// Open a new trip for the camera at ring index `start_segment`, stamped
    /// with the given wall-clock time. Refused while a trip is already open:
    /// the ledger never holds two open trips for one camera.
    pub fn insert_trip_at(&mut self, camera_id: i64, start_segment: i64, now_utc: i64) -> (r:
        Result<Trip, DbError>)
        requires
            old(self).wf(),
        ensures
            final(self).wf(),
            same_except_trips(old(self)@, final(self)@),
            r matches Err(_) ==> final(self)@ == old(self)@,
            (r matches Err(DbError::Logic)) <==> (camera_id < 0 || start_segment < 0
                || trip_ids_exhausted(old(self)@) || has_open_trip(
                old(self)@.trips,
                camera_id as int,
            )),
            (r matches Err(DbError::NotFound)) <==> (camera_id >= 0 && start_segment >= 0
                && !trip_ids_exhausted(old(self)@) && !has_open_trip(
                old(self)@.trips,
                camera_id as int,
            ) && !has_primary_state(old(self)@.states, camera_id as int)),
            r matches Ok(t) ==> insert_trip_ok_post(
                old(self)@,
                final(self)@,
                t,
                camera_id as int,
                start_segment as int,
                now_utc as int,
            ) && has_open_trip(final(self)@.trips, camera_id as int),
    {
        if camera_id < 0 || start_segment < 0 || self.next_trip_id == i64::MAX {
            return Err(DbError::Logic);
        }
        if self.find_open_trip(camera_id).is_some() {
            return Err(DbError::Logic);
        }
        let p = match self.find_primary_state(camera_id) {
            Some(p) => p,
            None => {
                return Err(DbError::NotFound);
            },
        };
        let generation = self.states[p].segment_generation;
        let t = crate::trip::make_open_trip(
            self.next_trip_id,
            camera_id,
            &self.boot_id,
            start_segment,
            generation,
            now_utc,
        );
        if let Err(e) = sql::sql_insert_trip(&self.conn, &t) {
            return Err(Self::storage_err(&e));
        }
        let ret = t.clone();
        self.trips.push(t);
        self.next_trip_id = self.next_trip_id + 1;
        proof {
            let pre = old(self)@;
            let post = self@;
            let n0 = pre.trips.len() as int;
            let tt = post.trips[n0];
            assert(post.trips == pre.trips.push(tt));
            assert forall|q: int| 0 <= q < n0 implies #[trigger] post.trips[q] == pre.trips[q] by {
                assert(pre.trips.push(tt)[q] == pre.trips[q]);
            }
            assert forall|a: int, b: int| 0 <= a < b < post.trips.len() implies (
            #[trigger] post.trips[a]).id != (#[trigger] post.trips[b]).id by {
                if b < n0 {
                } else {
                    assert(pre.trips[a].id < pre.next_trip_id);
                }
            }
            assert forall|a: int, b: int| 0 <= a < b < post.trips.len() implies !((
            #[trigger] post.trips[a]).camera_id == (#[trigger] post.trips[b]).camera_id
                && post.trips[a].is_open() && post.trips[b].is_open()) by {
                if b == n0 {
                    if post.trips[a].camera_id == camera_id && post.trips[a].is_open() {
                        assert(open_trip_at(pre.trips, camera_id as int, a));
                    }
                }
            }
            assert(post.cameras == pre.cameras);
            assert(post.states == pre.states);
            assert(post.saved_trips == pre.saved_trips);
            assert forall|a: int| 0 <= a < post.trips.len() implies (
            #[trigger] post.trips[a]).valid() && post.trips[a].id < post.next_trip_id by {
                if a < n0 {
                    assert(pre.trips[a].valid() && pre.trips[a].id < pre.next_trip_id);
                }
            }
            assert(db_wf(post));
            assert(open_trip_at(post.trips, camera_id as int, n0));
            assert(is_primary_state(pre.states, camera_id as int, p as int));
            assert(opens(
                tt,
                pre.next_trip_id,
                camera_id as int,
                pre.boot_id,
                start_segment as int,
                pre.states[p as int].segment_generation as int,
                now_utc as int,
            ));
            assert(trip_obs_eq(ret, tt));
            assert(insert_trip_ok_post(
                pre,
                post,
                ret,
                camera_id as int,
                start_segment as int,
                now_utc as int,
            ));
        }
        Ok(ret)
    }

    /// Close the camera's open trip at ring index `end_segment`, with the
    /// end generation read from the primary ring. A camera without an open
    /// trip is left untouched: finalizing is idempotent against "no open
    /// trip".
    pub fn finalize_open_trip_at(&mut self, camera_id: i64, end_segment: i64, now_utc: i64) -> (r:
        Result<(), DbError>)
        requires
            old(self).wf(),
        ensures
            final(self).wf(),
            same_except_trips(old(self)@, final(self)@),
            final(self)@.next_trip_id == old(self)@.next_trip_id,
            r matches Err(_) ==> final(self)@ == old(self)@,
            (r matches Err(DbError::Logic)) <==> end_segment < 0,
            (r matches Err(DbError::NotFound)) <==> (end_segment >= 0 && has_open_trip(
                old(self)@.trips,
                camera_id as int,
            ) && !has_primary_state(old(self)@.states, camera_id as int)),
            r matches Ok(_) ==> finalize_ok_post(
                old(self)@,
                final(self)@,
                camera_id as int,
                end_segment as int,
                now_utc as int,
            ),
    {
        if end_segment < 0 {
            return Err(DbError::Logic);
        }
        let j = match self.find_open_trip(camera_id) {
            Some(j) => j,
            None => {
                return Ok(());
            },
        };
        let p = match self.find_primary_state(camera_id) {
            Some(p) => p,
            None => {
                return Err(DbError::NotFound);
            },
        };
        let generation = self.states[p].segment_generation;
        let closed = crate::trip::close_trip(&self.trips[j], end_segment, generation, now_utc);
        if let Err(e) = sql::sql_close_trip(
            &self.conn,
            closed.id,
            end_segment,
            generation,
            now_utc,
            &String::from_str("boot"),
        ) {
            return Err(Self::storage_err(&e));
        }
        self.trips.set(j, closed);
        proof {
            let pre = old(self)@;
            let post = self@;
            assert forall|a: int, b: int| 0 <= a < b < post.trips.len() implies (
            #[trigger] post.trips[a]).id != (#[trigger] post.trips[b]).id by {
                assert(pre.trips[a].id == post.trips[a].id);
                assert(pre.trips[b].id == post.trips[b].id);
            }
            assert forall|a: int| 0 <= a < post.trips.len() implies (
            #[trigger] post.trips[a]).valid() && post.trips[a].id < post.next_trip_id by {
                assert(pre.trips[a].valid());
            }
            assert forall|a: int, b: int| 0 <= a < b < post.trips.len() implies !((
            #[trigger] post.trips[a]).camera_id == (#[trigger] post.trips[b]).camera_id
                && post.trips[a].is_open() && post.trips[b].is_open()) by {
                assert(pre.trips[a].camera_id == post.trips[a].camera_id && (post.trips[a].is_open()
                    ==> pre.trips[a].is_open()));
                assert(pre.trips[b].camera_id == post.trips[b].camera_id && (post.trips[b].is_open()
                    ==> pre.trips[b].is_open()));
            }
            assert(post.cameras == pre.cameras);
            assert(post.states == pre.states);
            assert(post.saved_trips == pre.saved_trips);
            assert(db_wf(post));
        }
        Ok(())
    }

    /// Close-then-open in one committed step: with the primary ring at
    /// absolute position `pos`, an open trip reaching back to `pos - 1` or
    /// earlier is closed there, and a fresh trip opens at the current
    /// position. An open trip that starts at the current position is
    /// returned unchanged, so no observer ever sees two open trips or none
    /// at a boundary. Returns the camera's open trip after the call.
    pub fn new_trip_at(&mut self, camera_id: i64, max_segments: i64, now_utc: i64) -> (r: Result<
        Trip,
        DbError,
    >)
        requires
            old(self).wf(),
        ensures
            final(self).wf(),
            same_except_trips(old(self)@, final(self)@),
            r matches Err(_) ==> final(self)@ == old(self)@,
            (r matches Err(DbError::Logic)) <==> (new_trip_basic_bad(
                old(self)@,
                camera_id as int,
                max_segments as int,
            ) || new_trip_guards_bad(old(self)@, camera_id as int, max_segments as int)),
            (r matches Err(DbError::NotFound)) <==> (!new_trip_basic_bad(
                old(self)@,
                camera_id as int,
                max_segments as int,
            ) && !has_primary_state(old(self)@.states, camera_id as int)),
            r matches Ok(t) ==> new_trip_ok_post(
                old(self)@,
                final(self)@,
                t,
                camera_id as int,
                max_segments as int,
                now_utc as int,
            ) && has_open_trip(final(self)@.trips, camera_id as int),
    {
        if camera_id < 0 || max_segments < 1 || self.next_trip_id == i64::MAX {
            return Err(DbError::Logic);
        }
        let p = match self.find_primary_state(camera_id) {
            Some(p) => p,
            None => {
                return Err(DbError::NotFound);
            },
        };
        let st = self.states[p];
        if st.segment_index >= max_segments {
            return Err(DbError::Logic);
        }
        proof {
            let g = st.segment_generation as int;
            let m = max_segments as int;
            assert(0 <= g * m <= 0x7fffffffffffffffi64 * 0x7fffffffffffffffi64)
                by (nonlinear_arith)
                requires
                    0 <= g <= 0x7fffffffffffffffi64,
                    1 <= m <= 0x7fffffffffffffffi64,
            ;
        }
        let pos_wide: i128 = (st.segment_generation as i128) * (max_segments as i128) + (
        st.segment_index as i128);
        if pos_wide > i64::MAX as i128 {
            return Err(DbError::Logic);
        }
        let pos: i64 = pos_wide as i64;
        let k_opt = self.find_open_trip(camera_id);
        match k_opt {
            Some(k) => {
                proof {
                    let g = self@.trips[k as int].start_gen as int;
                    let m = max_segments as int;
                    assert(0 <= g * m <= 0x7fffffffffffffffi64 * 0x7fffffffffffffffi64)
                        by (nonlinear_arith)
                        requires
                            0 <= g <= 0x7fffffffffffffffi64,
                            1 <= m <= 0x7fffffffffffffffi64,
                    ;
                }
                let a_start: i128 = (self.trips[k].start_gen as i128) * (max_segments as i128) + (
                self.trips[k].start_segment as i128);
                if a_start <= pos_wide - 1 {
                    let close_pos = pos - 1;
                    let fseg = close_pos % max_segments;
                    let egen = close_pos / max_segments;
                    let closed = crate::trip::close_trip(&self.trips[k], fseg, egen, now_utc);
                    let t = crate::trip::make_open_trip(
                        self.next_trip_id,
                        camera_id,
                        &self.boot_id,
                        st.segment_index,
                        st.segment_generation,
                        now_utc,
                    );
                    if let Err(e) = sql::sqlite_execute_batch(&self.conn, "BEGIN;") {
                        return Err(Self::storage_err(&e));
                    }
                    if let Err(e) = sql::sql_close_trip(
                        &self.conn,
                        closed.id,
                        fseg,
                        egen,
                        now_utc,
                        &String::from_str("boot"),
                    ) {
                        let _ = sql::sqlite_execute_batch(&self.conn, "ROLLBACK;");
                        return Err(Self::storage_err(&e));
                    }
                    if let Err(e) = sql::sql_insert_trip(&self.conn, &t) {
                        let _ = sql::sqlite_execute_batch(&self.conn, "ROLLBACK;");
                        return Err(Self::storage_err(&e));
                    }
                    if let Err(e) = sql::sqlite_execute_batch(&self.conn, "COMMIT;") {
                        let _ = sql::sqlite_execute_batch(&self.conn, "ROLLBACK;");
                        return Err(Self::storage_err(&e));
                    }
                    let ret = t.clone();
                    self.trips.set(k, closed);
                    self.trips.push(t);
                    self.next_trip_id = self.next_trip_id + 1;
                    proof {
                        let pre = old(self)@;
                        let post = self@;
                        let n0 = pre.trips.len() as int;
                        let m = max_segments as int;
                        assert(pos == ring_pos(pre.states[p as int], m));
                        assert(post.trips == pre.trips.update(k as int, closed).push(t));
                        assert(post.trips[k as int] == closed);
                        assert(post.trips[n0] == t);
                        assert(pre.trips[k as int].abs_start(m) == a_start);
                        assert(pos - 1 >= 0);
                        assert(fseg as int == (pos - 1) as int % m);
                        assert(egen as int == (pos - 1) as int / m);
                        assert(post.saved_trips == pre.saved_trips);
                        assert forall|i: int| 0 <= i < post.saved_trips.len() implies (
                        #[trigger] post.saved_trips[i]).trip_id >= 1 by {
                            assert(pre.saved_trips[i].trip_id >= 1);
                        }
                        lemma_close_open_wf(
                            pre,
                            post,
                            camera_id as int,
                            m,
                            now_utc as int,
                            k as int,
                            p as int,
                            ret,
                        );
                    }
                    Ok(ret)
                } else {
                    let ret = self.trips[k].clone();
                    proof {
                        let pre = self@;
                        assert(is_primary_state(pre.states, camera_id as int, p as int));
                        assert(open_trip_at(pre.trips, camera_id as int, k as int));
                        assert(pre.trips[k as int].abs_start(max_segments as int) > ring_pos(
                            pre.states[p as int],
                            max_segments as int,
                        ) - 1);
                        assert(trip_obs_eq(ret, pre.trips[k as int]));
                        assert(new_trip_ok_post(
                            pre,
                            pre,
                            ret,
                            camera_id as int,
                            max_segments as int,
                            now_utc as int,
                        ));
                    }
                    Ok(ret)
                }
            },
            None => {
                let t = crate::trip::make_open_trip(
                    self.next_trip_id,
                    camera_id,
                    &self.boot_id,
                    st.segment_index,
                    st.segment_generation,
                    now_utc,
                );
                if let Err(e) = sql::sql_insert_trip(&self.conn, &t) {
                    return Err(Self::storage_err(&e));
                }
                let ret = t.clone();
                self.trips.push(t);
                self.next_trip_id = self.next_trip_id + 1;
                proof {
                    let pre = old(self)@;
                    let post = self@;
                    let n0 = pre.trips.len() as int;
                    assert(post.trips == pre.trips.push(t));
                    assert(post.trips[n0] == t);
                    lemma_push_open_wf(
                        pre,
                        post,
                        camera_id as int,
                        max_segments as int,
                        now_utc as int,
                        p as int,
                        ret,
                    );
                }
                Ok(ret)
            },
        }
    }

    /// Close-then-open like `new_trip_at`, and when a trip was actually
    /// closed, record a saved-trip row naming the directory its segment
    /// files were extracted to. Returns the fresh open trip together with
    /// the closed trip's id and its first and final ring indices; a closed
    /// id of zero signals that there was no open trip to close.
    pub fn save_trip_and_start_new_at(
        &mut self,
        camera_id: i64,
        saved_dir: &str,
        max_segments: i64,
        now_utc: i64,
    ) -> (r: Result<(Trip, i64, i64, i64), DbError>)
        requires
            old(self).wf(),
        ensures
            final(self).wf(),
            same_except_trips_and_saved(old(self)@, final(self)@),
            r matches Err(_) ==> final(self)@ == old(self)@,
            (r matches Err(DbError::Logic)) <==> (new_trip_basic_bad(
                old(self)@,
                camera_id as int,
                max_segments as int,
            ) || new_trip_guards_bad(old(self)@, camera_id as int, max_segments as int)),
            (r matches Err(DbError::NotFound)) <==> (!new_trip_basic_bad(
                old(self)@,
                camera_id as int,
                max_segments as int,
            ) && !has_primary_state(old(self)@.states, camera_id as int)),
            r matches Ok(t) ==> new_trip_ok_post(
                old(self)@,
                final(self)@,
                t.0,
                camera_id as int,
                max_segments as int,
                now_utc as int,
            ) && save_trip_closed_post(
                old(self)@,
                final(self)@,
                camera_id as int,
                max_segments as int,
                now_utc as int,
                saved_dir@,
                t.1 as int,
                t.2 as int,
                t.3 as int,
            ) && has_open_trip(final(self)@.trips, camera_id as int),
    {
        if camera_id < 0 || max_segments < 1 || self.next_trip_id == i64::MAX {
            return Err(DbError::Logic);
        }
        let p = match self.find_primary_state(camera_id) {
            Some(p) => p,
            None => {
                return Err(DbError::NotFound);
            },
        };
        let st = self.states[p];
        if st.segment_index >= max_segments {
            return Err(DbError::Logic);
        }
        proof {
            let g = st.segment_generation as int;
            let m = max_segments as int;
            assert(0 <= g * m <= 0x7fffffffffffffffi64 * 0x7fffffffffffffffi64)
                by (nonlinear_arith)
                requires
                    0 <= g <= 0x7fffffffffffffffi64,
                    1 <= m <= 0x7fffffffffffffffi64,
            ;
        }
        let pos_wide: i128 = (st.segment_generation as i128) * (max_segments as i128) + (
        st.segment_index as i128);
        if pos_wide > i64::MAX as i128 {
            return Err(DbError::Logic);
        }
        let pos: i64 = pos_wide as i64;
        let k_opt = self.find_open_trip(camera_id);
        match k_opt {
            Some(k) => {
                proof {
                    let g = self@.trips[k as int].start_gen as int;
                    let m = max_segments as int;
                    assert(0 <= g * m <= 0x7fffffffffffffffi64 * 0x7fffffffffffffffi64)
                        by (nonlinear_arith)
                        requires
                            0 <= g <= 0x7fffffffffffffffi64,
                            1 <= m <= 0x7fffffffffffffffi64,
                    ;
                }
                let a_start: i128 = (self.trips[k].start_gen as i128) * (max_segments as i128) + (
                self.trips[k].start_segment as i128);
                if a_start <= pos_wide - 1 {
                    let close_pos = pos - 1;
                    let fseg = close_pos % max_segments;
                    let egen = close_pos / max_segments;
                    let closed = crate::trip::close_trip(&self.trips[k], fseg, egen, now_utc);
                    let closed_id = closed.id;
                    let closed_start = closed.start_segment;
                    let t = crate::trip::make_open_trip(
                        self.next_trip_id,
                        camera_id,
                        &self.boot_id,
                        st.segment_index,
                        st.segment_generation,
                        now_utc,
                    );
                    let sv = SavedTrip {
                        trip_id: closed_id,
                        saved_dir: saved_dir.to_owned(),
                        saved_at_utc: now_utc,
                    };
                    if let Err(e) = sql::sqlite_execute_batch(&self.conn, "BEGIN;") {
                        return Err(Self::storage_err(&e));
                    }
                    if let Err(e) = sql::sql_close_trip(
                        &self.conn,
                        closed_id,
                        fseg,
                        egen,
                        now_utc,
                        &String::from_str("boot"),
                    ) {
                        let _ = sql::sqlite_execute_batch(&self.conn, "ROLLBACK;");
                        return Err(Self::storage_err(&e));
                    }
                    if let Err(e) = sql::sql_insert_trip(&self.conn, &t) {
                        let _ = sql::sqlite_execute_batch(&self.conn, "ROLLBACK;");
                        return Err(Self::storage_err(&e));
                    }
                    if let Err(e) = sql::sql_insert_saved(&self.conn, &sv) {
                        let _ = sql::sqlite_execute_batch(&self.conn, "ROLLBACK;");
                        return Err(Self::storage_err(&e));
                    }
                    if let Err(e) = sql::sqlite_execute_batch(&self.conn, "COMMIT;") {
                        let _ = sql::sqlite_execute_batch(&self.conn, "ROLLBACK;");
                        return Err(Self::storage_err(&e));
                    }
                    let ret = t.clone();
                    self.trips.set(k, closed);
                    self.trips.push(t);
                    self.saved_trips.push(sv);
                    self.next_trip_id = self.next_trip_id + 1;
                    proof {
                        let pre = old(self)@;
                        let post = self@;
                        let n0 = pre.trips.len() as int;
                        let m = max_segments as int;
                        assert(pos == ring_pos(pre.states[p as int], m));
                        assert(post.trips == pre.trips.update(k as int, closed).push(t));
                        assert(post.trips[k as int] == closed);
                        assert(post.trips[n0] == t);
                        assert(pre.trips[k as int].abs_start(m) == a_start);
                        assert(pos - 1 >= 0);
                        assert(fseg as int == (pos - 1) as int % m);
                        assert(egen as int == (pos - 1) as int / m);
                        assert(post.saved_trips == pre.saved_trips.push(sv));
                        assert(sv.trip_id == pre.trips[k as int].id);
                        assert(sv.trip_id >= 1);
                        assert forall|i: int| 0 <= i < post.saved_trips.len() implies (
                        #[trigger] post.saved_trips[i]).trip_id >= 1 by {
                            if i < pre.saved_trips.len() {
                                assert(pre.saved_trips[i].trip_id >= 1);
                            }
                        }
                        lemma_close_open_wf(
                            pre,
                            post,
                            camera_id as int,
                            m,
                            now_utc as int,
                            k as int,
                            p as int,
                            ret,
                        );
                        assert(save_trip_closed_post(
                            pre,
                            post,
                            camera_id as int,
                            m,
                            now_utc as int,
                            saved_dir@,
                            closed_id as int,
                            closed_start as int,
                            fseg as int,
                        ));
                    }
                    Ok((ret, closed_id, closed_start, fseg))
                } else {
                    let ret = self.trips[k].clone();
                    proof {
                        let pre = self@;
                        assert(is_primary_state(pre.states, camera_id as int, p as int));
                        assert(open_trip_at(pre.trips, camera_id as int, k as int));
                        assert(pre.trips[k as int].abs_start(max_segments as int) > ring_pos(
                            pre.states[p as int],
                            max_segments as int,
                        ) - 1);
                        assert(trip_obs_eq(ret, pre.trips[k as int]));
                        assert(new_trip_ok_post(
                            pre,
                            pre,
                            ret,
                            camera_id as int,
                            max_segments as int,
                            now_utc as int,
                        ));
                        assert(save_trip_closed_post(
                            pre,
                            pre,
                            camera_id as int,
                            max_segments as int,
                            now_utc as int,
                            saved_dir@,
                            0,
                            0,
                            0,
                        ));
                    }
                    Ok((ret, 0, 0, 0))
                }
            },
            None => {
                let t = crate::trip::make_open_trip(
                    self.next_trip_id,
                    camera_id,
                    &self.boot_id,
                    st.segment_index,
                    st.segment_generation,
                    now_utc,
                );
                if let Err(e) = sql::sql_insert_trip(&self.conn, &t) {
                    return Err(Self::storage_err(&e));
                }
                let ret = t.clone();
                self.trips.push(t);
                self.next_trip_id = self.next_trip_id + 1;
                proof {
                    let pre = old(self)@;
                    let post = self@;
                    let n0 = pre.trips.len() as int;
                    assert(post.trips == pre.trips.push(t));
                    assert(post.trips[n0] == t);
                    lemma_push_open_wf(
                        pre,
                        post,
                        camera_id as int,
                        max_segments as int,
                        now_utc as int,
                        p as int,
                        ret,
                    );
                    assert(save_trip_closed_post(
                        pre,
                        post,
                        camera_id as int,
                        max_segments as int,
                        now_utc as int,
                        saved_dir@,
                        0,
                        0,
                        0,
                    ));
                }
                Ok((ret, 0, 0, 0))
            },
        }
    }

    /// Whether the trip's last segment lies before `threshold` in absolute
    /// ring positions, computed without overflow.
    fn trip_abs_end_lt(t: &Trip, threshold: i64, max_segments: i64) -> (r: bool)
        requires
            max_segments >= 1,
            t.valid(),
            !t.is_open(),
        ensures
            r == (t.abs_end(max_segments as int) < threshold),
    {
        let g = match t.end_gen {
            Some(g) => g,
            None => t.start_gen,
        };
        let f = match t.final_segment {
            Some(f) => f,
            None => 0,
        };
        proof {
            let gi = g as int;
            let m = max_segments as int;
            assert(0 <= gi * m <= 0x7fffffffffffffffi64 * 0x7fffffffffffffffi64)
                by (nonlinear_arith)
                requires
                    0 <= gi <= 0x7fffffffffffffffi64,
                    1 <= m <= 0x7fffffffffffffffi64,
            ;
        }
        (g as i128) * (max_segments as i128) + (f as i128) < (threshold as i128)
    }

    /// Whether the trip with the given id has been fully overwritten on
    /// disk: an open trip never is, an already stamped trip always is, and
    /// otherwise the eviction rule is evaluated against the camera's primary
    /// ring position.
    pub fn is_trip_fully_evicted(&self, trip_id: i64, max_segments: i64) -> (r: Result<
        bool,
        DbError,
    >)
        requires
            self.wf(),
        ensures
            (r matches Err(DbError::Logic)) <==> max_segments < 1,
            (r matches Err(DbError::NotFound)) <==> (max_segments >= 1 && ((forall|j: int|
                0 <= j < self@.trips.len() ==> (#[trigger] self@.trips[j]).id != trip_id)
                || exists|j: int|
                0 <= j < self@.trips.len() && (#[trigger] self@.trips[j]).id == trip_id
                    && !self@.trips[j].fully_evicted && !self@.trips[j].is_open()
                    && !has_primary_state(self@.states, self@.trips[j].camera_id as int))),
            r matches Ok(b) ==> exists|j: int|
                {
                    &&& 0 <= j < self@.trips.len()
                    &&& (#[trigger] self@.trips[j]).id == trip_id
                    &&& (self@.trips[j].fully_evicted ==> b)
                    &&& (!self@.trips[j].fully_evicted && self@.trips[j].is_open() ==> !b)
                    &&& (!self@.trips[j].fully_evicted && !self@.trips[j].is_open() ==> exists|
                        p: int,
                    |
                        #[trigger] is_primary_state(
                            self@.states,
                            self@.trips[j].camera_id as int,
                            p,
                        ) && b == crate::trip::evict_rule(
                            self@.trips[j].abs_end(max_segments as int),
                            self@.states[p].absolute_segments as int,
                            max_segments as int,
                        ))
                },
    {
        if max_segments < 1 {
            return Err(DbError::Logic);
        }
        let j = match self.find_trip_by_id(trip_id) {
            Some(j) => j,
            None => {
                return Err(DbError::NotFound);
            },
        };
        if self.trips[j].fully_evicted {
            return Ok(true);
        }
        if self.trips[j].final_segment.is_none() {
            return Ok(false);
        }
        let p = match self.find_primary_state(self.trips[j].camera_id) {
            Some(p) => p,
            None => {
                return Err(DbError::NotFound);
            },
        };
        let abs_latest = self.states[p].absolute_segments;
        let threshold = abs_latest - (max_segments - 1);
        Ok(Self::trip_abs_end_lt(&self.trips[j], threshold, max_segments))
    }

    /// Stamp `fully_evicted` on every not yet stamped closed trip of the
    /// camera whose last segment has been overwritten, and return how many
    /// were stamped. Repeating the call stamps nothing further.
    pub fn mark_fully_evicted_trips_at(
        &mut self,
        camera_id: i64,
        max_segments: i64,
        now_utc: i64,
    ) -> (r: Result<i64, DbError>)
        requires
            old(self).wf(),
        ensures
            final(self).wf(),
            same_except_trips(old(self)@, final(self)@),
            final(self)@.next_trip_id == old(self)@.next_trip_id,
            r matches Err(_) ==> final(self)@ == old(self)@,
            (r matches Err(DbError::Logic)) <==> (camera_id < 0 || max_segments < 1 || old(self)@.trips.len() > i64::MAX),
            (r matches Err(DbError::NotFound)) <==> (camera_id >= 0 && max_segments >= 1 && old(self)@.trips.len() <= i64::MAX && !has_primary_state(old(self)@.states, camera_id as int)),
            r matches Ok(cnt) ==> exists|p: int|
                {
                    &&& #[trigger] is_primary_state(old(self)@.states, camera_id as int, p)
                    &&& final(self)@.trips == crate::trip::spec_mark(
                        old(self)@.trips,
                        camera_id as int,
                        old(self)@.states[p].absolute_segments as int,
                        max_segments as int,
                        now_utc as int,
                    )
                    &&& cnt == crate::trip::spec_mark_count(
                        old(self)@.trips,
                        camera_id as int,
                        old(self)@.states[p].absolute_segments as int,
                        max_segments as int,
                    )
                    &&& 0 <= cnt <= old(self)@.trips.len()
                },
    {
        if camera_id < 0 || max_segments < 1 || self.trips.len() as u64 > i64::MAX as u64 {
            return Err(DbError::Logic);
        }
        let p = match self.find_primary_state(camera_id) {
            Some(p) => p,
            None => {
                return Err(DbError::NotFound);
            },
        };
        let abs_latest = self.states[p].absolute_segments;
        let threshold = abs_latest - (max_segments - 1);
        let ghost al = abs_latest as int;
        let ghost m = max_segments as int;
        let ghost cid = camera_id as int;
        let n = self.trips.len();
        if let Err(e) = sql::sqlite_execute_batch(&self.conn, "BEGIN;") {
            return Err(Self::storage_err(&e));
        }
        let mut count: i64 = 0;
        let mut i: usize = 0;
        while i < n
            invariant
                self@ == old(self)@,
                old(self).wf(),
                camera_id >= 0,
                max_segments >= 1,
                abs_latest == self@.states[p as int].absolute_segments,
                0 <= p < self@.states.len(),
                is_primary_state(old(self)@.states, camera_id as int, p as int),
                threshold == al - (m - 1),
                al == abs_latest as int,
                m == max_segments as int,
                cid == camera_id as int,
                n == self.trips.len(),
                n <= i64::MAX,
                i <= n,
                0 <= count <= i,
                count == crate::trip::spec_mark_count(
                    self@.trips.subrange(0, i as int),
                    cid,
                    al,
                    m,
                ),
            decreases n - i,
        {
            let stamp = self.trips[i].camera_id == camera_id && !self.trips[i].fully_evicted
                && self.trips[i].final_segment.is_some() && Self::trip_abs_end_lt(
                &self.trips[i],
                threshold,
                max_segments,
            );
            proof {
                assert(stamp == crate::trip::should_stamp(self@.trips[i as int], cid, al, m));
                crate::trip::lemma_mark_count_snoc(self@.trips, i as int, cid, al, m);
            }
            if stamp {
                if let Err(e) = sql::sql_stamp_trip(&self.conn, self.trips[i].id, now_utc) {
                    let _ = sql::sqlite_execute_batch(&self.conn, "ROLLBACK;");
                    return Err(Self::storage_err(&e));
                }
                count = count + 1;
            }
            i += 1;
        }
        if let Err(e) = sql::sqlite_execute_batch(&self.conn, "COMMIT;") {
            let _ = sql::sqlite_execute_batch(&self.conn, "ROLLBACK;");
            return Err(Self::storage_err(&e));
        }
        proof {
            assert(self@.trips.subrange(0, n as int) =~= self@.trips);
        }
        let mut k: usize = 0;
        while k < n
            invariant
                old(self).wf(),
                camera_id >= 0,
                max_segments >= 1,
                threshold == al - (m - 1),
                al == old(self)@.states[p as int].absolute_segments,
                0 <= p < old(self)@.states.len(),
                is_primary_state(old(self)@.states, camera_id as int, p as int),
                m == max_segments as int,
                cid == camera_id as int,
                n == self.trips.len(),
                n == old(self)@.trips.len(),
                k <= n,
                self@.cameras == old(self)@.cameras,
                self@.states == old(self)@.states,
                self@.saved_trips == old(self)@.saved_trips,
                self@.next_camera_id == old(self)@.next_camera_id,
                self@.next_trip_id == old(self)@.next_trip_id,
                self@.boot_id == old(self)@.boot_id,
                forall|q: int| k <= q < n ==> #[trigger] self@.trips[q] == old(self)@.trips[q],
                forall|q: int|
                    0 <= q < k ==> #[trigger] self@.trips[q] == (if crate::trip::should_stamp(
                        old(self)@.trips[q],
                        cid,
                        al,
                        m,
                    ) {
                        crate::trip::spec_stamped(old(self)@.trips[q], now_utc as int)
                    } else {
                        old(self)@.trips[q]
                    }),
            decreases n - k,
        {
            proof {
                assert(self@.trips[k as int] == old(self)@.trips[k as int]);
                assert(old(self)@.trips[k as int].valid());
            }
            let stamp = self.trips[k].camera_id == camera_id && !self.trips[k].fully_evicted
                && self.trips[k].final_segment.is_some() && Self::trip_abs_end_lt(
                &self.trips[k],
                threshold,
                max_segments,
            );
            proof {
                assert(stamp == crate::trip::should_stamp(old(self)@.trips[k as int], cid, al, m));
            }
            if stamp {
                let ghost before = self@.trips;
                let t = self.trips.remove(k);
                let s = Trip { fully_evicted: true, evicted_at_utc: Some(now_utc), ..t };
                self.trips.insert(k, s);
                proof {
                    assert(s == crate::trip::spec_stamped(before[k as int], now_utc as int));
                    assert(self@.trips =~= before.update(k as int, s));
                }
            }
            k += 1;
        }
        proof {
            let pre = old(self)@;
            let post = self@;
            let marked = crate::trip::spec_mark(pre.trips, cid, al, m, now_utc as int);
            assert(post.trips =~= marked);
            assert forall|a: int| 0 <= a < post.trips.len() implies (#[trigger] post.trips[a]).valid()
                && post.trips[a].id < post.next_trip_id by {
                assert(pre.trips[a].valid() && pre.trips[a].id < pre.next_trip_id);
            }
            assert forall|a: int, b: int| 0 <= a < b < post.trips.len() implies (
            #[trigger] post.trips[a]).id != (#[trigger] post.trips[b]).id by {
                assert(pre.trips[a].id == post.trips[a].id);
                assert(pre.trips[b].id == post.trips[b].id);
            }
            assert forall|a: int, b: int| 0 <= a < b < post.trips.len() implies !((
            #[trigger] post.trips[a]).camera_id == (#[trigger] post.trips[b]).camera_id
                && post.trips[a].is_open() && post.trips[b].is_open()) by {
                assert(pre.trips[a].camera_id == post.trips[a].camera_id && (post.trips[a].is_open()
                    ==> pre.trips[a].is_open()));
                assert(pre.trips[b].camera_id == post.trips[b].camera_id && (post.trips[b].is_open()
                    ==> pre.trips[b].is_open()));
            }
            assert(db_wf(post));
            crate::trip::lemma_mark_count_le_len(pre.trips, cid, al, m);
            assert(is_primary_state(pre.states, cid, p as int));
        }
        Ok(count)
    }

    /// Every trip of the camera that is not stamped fully evicted, newest
    /// first.
    pub fn list_active_trips(&self, camera_id: i64) -> (r: Vec<Trip>)
        requires
            self.wf(),
        ensures
            r@.len() == spec_active(self@.trips, camera_id as int).len(),
            forall|q: int|
                0 <= q < r@.len() ==> trip_obs_eq(
                    #[trigger] r@[q],
                    spec_active(self@.trips, camera_id as int)[q],
                ),
    {
        let n = self.trips.len();
        let mut out: Vec<Trip> = Vec::new();
        let ghost mut orig: Seq<Trip> = Seq::empty();
        let mut i: usize = n;
        proof {
            assert(self@.trips.subrange(0, n as int) =~= self@.trips);
        }
        while i > 0
            invariant
                n == self.trips.len(),
                i <= n,
                orig.len() == out@.len(),
                spec_active(self@.trips, camera_id as int) =~= orig + spec_active(
                    self@.trips.subrange(0, i as int),
                    camera_id as int,
                ),
                forall|q: int|
                    0 <= q < out@.len() ==> trip_obs_eq(#[trigger] out@[q], orig[q]),
            decreases i,
        {
            proof {
                let full = self@.trips;
                let cur = full.subrange(0, i as int);
                assert(cur.drop_last() =~= full.subrange(0, i as int - 1));
                assert(cur.last() == full[i as int - 1]);
                if cur.last().camera_id == camera_id && !cur.last().fully_evicted {
                    assert(orig + spec_active(cur, camera_id as int) =~= orig.push(cur.last())
                        + spec_active(full.subrange(0, i as int - 1), camera_id as int));
                } else {
                    assert(orig + spec_active(cur, camera_id as int) =~= orig + spec_active(
                        full.subrange(0, i as int - 1),
                        camera_id as int,
                    ));
                }
            }
            i -= 1;
            if self.trips[i].camera_id == camera_id && !self.trips[i].fully_evicted {
                out.push(self.trips[i].clone());
                proof {
                    orig = orig.push(self@.trips[i as int]);
                }
            }
        }
        proof {
            assert(self@.trips.subrange(0, 0) =~= Seq::<Trip>::empty());
            assert(spec_active(Seq::<Trip>::empty(), camera_id as int) =~= Seq::<Trip>::empty());
            assert(spec_active(self@.trips, camera_id as int) =~= orig);
        }
        out
    }
}

/// The camera's not yet evicted trips in the order a reader sees them:
/// newest first, walking the ledger from its latest row backwards.
pub open spec fn spec_active(trips: Seq<Trip>, camera_id: int) -> Seq<Trip>
    decreases trips.len(),
{
    if trips.len() == 0 {
        Seq::empty()
    } else if trips.last().camera_id == camera_id && !trips.last().fully_evicted {
        seq![trips.last()] + spec_active(trips.drop_last(), camera_id)
    } else {
        spec_active(trips.drop_last(), camera_id)
    }
}

impl DashcamDb {
    /// `insert_trip_at` stamped with the wall clock.
    pub fn insert_trip(&mut self, camera_id: i64, start_segment: i64) -> (r: Result<Trip, DbError>)
        requires
            old(self).wf(),
        ensures
            final(self).wf(),
            same_except_trips(old(self)@, final(self)@),
            r matches Err(_) ==> final(self)@ == old(self)@,
            (r matches Err(DbError::Logic)) <==> (camera_id < 0 || start_segment < 0
                || trip_ids_exhausted(old(self)@) || has_open_trip(
                old(self)@.trips,
                camera_id as int,
            )),
            (r matches Err(DbError::NotFound)) <==> (camera_id >= 0 && start_segment >= 0
                && !trip_ids_exhausted(old(self)@) && !has_open_trip(
                old(self)@.trips,
                camera_id as int,
            ) && !has_primary_state(old(self)@.states, camera_id as int)),
            r matches Ok(t) ==> exists|now: int|
                #[trigger] insert_trip_ok_post(
                    old(self)@,
                    final(self)@,
                    t,
                    camera_id as int,
                    start_segment as int,
                    now,
                ),
    {
        let now = sql::now_utc();
        self.insert_trip_at(camera_id, start_segment, now)
    }
    /// `finalize_open_trip_at` stamped with the wall clock.
    pub fn finalize_open_trip(&mut self, camera_id: i64, end_segment: i64) -> (r: Result<
        (),
        DbError,
    >)
        requires
            old(self).wf(),
        ensures
            final(self).wf(),
            same_except_trips(old(self)@, final(self)@),
            r matches Err(_) ==> final(self)@ == old(self)@,
            (r matches Err(DbError::Logic)) <==> end_segment < 0,
            (r matches Err(DbError::NotFound)) <==> (end_segment >= 0 && has_open_trip(
                old(self)@.trips,
                camera_id as int,
            ) && !has_primary_state(old(self)@.states, camera_id as int)),
            r matches Ok(_) ==> exists|now: int|
                #[trigger] finalize_ok_post(
                    old(self)@,
                    final(self)@,
                    camera_id as int,
                    end_segment as int,
                    now,
                ),
    {
        let now = sql::now_utc();
        self.finalize_open_trip_at(camera_id, end_segment, now)
    }
    /// `new_trip_at` stamped with the wall clock.
    pub fn new_trip(&mut self, camera_id: i64, max_segments: i64) -> (r: Result<Trip, DbError>)
        requires
            old(self).wf(),
        ensures
            final(self).wf(),
            same_except_trips(old(self)@, final(self)@),
            r matches Err(_) ==> final(self)@ == old(self)@,
            (r matches Err(DbError::Logic)) <==> (new_trip_basic_bad(
                old(self)@,
                camera_id as int,
                max_segments as int,
            ) || new_trip_guards_bad(old(self)@, camera_id as int, max_segments as int)),
            (r matches Err(DbError::NotFound)) <==> (!new_trip_basic_bad(
                old(self)@,
                camera_id as int,
                max_segments as int,
            ) && !has_primary_state(old(self)@.states, camera_id as int)),
            r matches Ok(t) ==> exists|now: int|
                #[trigger] new_trip_ok_post(
                    old(self)@,
                    final(self)@,
                    t,
                    camera_id as int,
                    max_segments as int,
                    now,
                ),
    {
        let now = sql::now_utc();
        self.new_trip_at(camera_id, max_segments, now)
    }
    /// `save_trip_and_start_new_at` stamped with the wall clock.
    pub fn save_trip_and_start_new(&mut self, camera_id: i64, saved_dir: &str, max_segments: i64) -> (r:
        Result<(Trip, i64, i64, i64), DbError>)
        requires
            old(self).wf(),
        ensures
            final(self).wf(),
            same_except_trips_and_saved(old(self)@, final(self)@),
            r matches Err(_) ==> final(self)@ == old(self)@,
            (r matches Err(DbError::Logic)) <==> (new_trip_basic_bad(
                old(self)@,
                camera_id as int,
                max_segments as int,
            ) || new_trip_guards_bad(old(self)@, camera_id as int, max_segments as int)),
            (r matches Err(DbError::NotFound)) <==> (!new_trip_basic_bad(
                old(self)@,
                camera_id as int,
                max_segments as int,
            ) && !has_primary_state(old(self)@.states, camera_id as int)),
            r matches Ok(t) ==> exists|now: int|
                #[trigger] new_trip_ok_post(
                    old(self)@,
                    final(self)@,
                    t.0,
                    camera_id as int,
                    max_segments as int,
                    now,
                ) && save_trip_closed_post(
                    old(self)@,
                    final(self)@,
                    camera_id as int,
                    max_segments as int,
                    now,
                    saved_dir@,
                    t.1 as int,
                    t.2 as int,
                    t.3 as int,
                ),
    {
        let now = sql::now_utc();
        self.save_trip_and_start_new_at(camera_id, saved_dir, max_segments, now)
    }
    /// `mark_fully_evicted_trips_at` stamped with the wall clock.
    pub fn mark_fully_evicted_trips(&mut self, camera_id: i64, max_segments: i64) -> (r: Result<
        i64,
        DbError,
    >)
        requires
            old(self).wf(),
        ensures
            final(self).wf(),
            same_except_trips(old(self)@, final(self)@),
            final(self)@.next_trip_id == old(self)@.next_trip_id,
            r matches Err(_) ==> final(self)@ == old(self)@,
            (r matches Err(DbError::Logic)) <==> (camera_id < 0 || max_segments < 1 || old(
                self,
            )@.trips.len() > i64::MAX),
            (r matches Err(DbError::NotFound)) <==> (camera_id >= 0 && max_segments >= 1 && old(
                self,
            )@.trips.len() <= i64::MAX && !has_primary_state(old(self)@.states, camera_id as int)),
            r matches Ok(cnt) ==> exists|p: int, now: int|
                {
                    &&& #[trigger] is_primary_state(old(self)@.states, camera_id as int, p)
                    &&& final(self)@.trips == #[trigger] crate::trip::spec_mark(
                        old(self)@.trips,
                        camera_id as int,
                        old(self)@.states[p].absolute_segments as int,
                        max_segments as int,
                        now,
                    )
                    &&& cnt == crate::trip::spec_mark_count(
                        old(self)@.trips,
                        camera_id as int,
                        old(self)@.states[p].absolute_segments as int,
                        max_segments as int,
                    )
                    &&& 0 <= cnt <= old(self)@.trips.len()
                },
    {
        let now = sql::now_utc();
        self.mark_fully_evicted_trips_at(camera_id, max_segments, now)
    }
}

} // verus!
