//! Trip ledger model: trips are contiguous recording intervals anchored to
//! `(generation, index)` ring positions, and the eviction rule decides when a
//! closed trip's backing files can no longer exist on disk.

use vstd::prelude::*;

verus! {

/// One trip row. A trip is open while `final_segment` is `NULL`; closing it
/// sets the four end fields together.
#[derive(Debug)]
pub struct Trip {
    pub id: i64,
    pub camera_id: i64,
    pub boot_id: String,
    pub start_time_utc: i64,
    pub end_time_utc: Option<i64>,
    pub start_segment: i64,
    pub final_segment: Option<i64>,
    pub start_clock_source: String,
    pub end_clock_source: Option<String>,
    pub note: Option<String>,
    pub start_gen: i64,
    pub end_gen: Option<i64>,
    pub fully_evicted: bool,
    pub evicted_at_utc: Option<i64>,
}

/// One record of a successful save-trip operation; rows are only appended.
#[derive(Debug)]
pub struct SavedTrip {
    pub trip_id: i64,
    pub saved_dir: String,
    pub saved_at_utc: i64,
}

impl Clone for SavedTrip {
    /// A copy with the same trip id, directory contents and timestamp.
    fn clone(&self) -> (r: SavedTrip)
        ensures
            r.trip_id == self.trip_id,
            r.saved_dir@ == self.saved_dir@,
            r.saved_at_utc == self.saved_at_utc,
    {
        SavedTrip {
            trip_id: self.trip_id,
            saved_dir: self.saved_dir.clone(),
            saved_at_utc: self.saved_at_utc,
        }
    }
}

/// The clock-source tag the ledger writes today.
pub open spec fn clock_source_boot() -> Seq<char> {
    "boot"@
}

impl Trip {
    /// An open trip has not been assigned its final segment yet.
    pub open spec fn is_open(self) -> bool {
        self.final_segment is None
    }

    /// Structural soundness of one row: identifiers assigned, ring anchors
    /// non-negative, the end fields set together, and only closed trips
    /// stamped as evicted.
    pub open spec fn valid(self) -> bool {
        &&& self.id >= 1
        &&& self.camera_id >= 0
        &&& self.start_segment >= 0
        &&& self.start_gen >= 0
        &&& (self.final_segment matches Some(f) ==> f >= 0)
        &&& (self.end_gen matches Some(g) ==> g >= 0)
        &&& (!self.is_open() ==> self.end_time_utc is Some && self.end_gen is Some
            && self.end_clock_source is Some)
        &&& (self.fully_evicted ==> !self.is_open())
    }

    /// Absolute ring position of the trip's first segment.
    pub open spec fn abs_start(self, max: int) -> int {
        self.start_gen * max + self.start_segment
    }

    /// Absolute ring position of the trip's last segment. When `end_gen` was
    /// never recorded the start generation stands in for it.
    pub open spec fn abs_end(self, max: int) -> int {
        (match self.end_gen {
            Some(g) => g as int,
            None => self.start_gen as int,
        }) * max + (match self.final_segment {
            Some(f) => f as int,
            None => 0,
        })
    }
}

impl Clone for Trip {
    /// An observationally equal copy: every field agrees, strings by their
    /// contents.
    fn clone(&self) -> (r: Trip)
        ensures
            trip_obs_eq(*self, r),
            r.valid() == self.valid(),
            r.is_open() == self.is_open(),
    {
        Trip {
            id: self.id,
            camera_id: self.camera_id,
            boot_id: self.boot_id.clone(),
            start_time_utc: self.start_time_utc,
            end_time_utc: self.end_time_utc,
            start_segment: self.start_segment,
            final_segment: self.final_segment,
            start_clock_source: self.start_clock_source.clone(),
            end_clock_source: match &self.end_clock_source {
                Some(s) => Some(s.clone()),
                None => None,
            },
            note: match &self.note {
                Some(s) => Some(s.clone()),
                None => None,
            },
            start_gen: self.start_gen,
            end_gen: self.end_gen,
            fully_evicted: self.fully_evicted,
            evicted_at_utc: self.evicted_at_utc,
        }
    }
}

/// Observational equality: every field agrees, strings by their contents.
pub open spec fn trip_obs_eq(a: Trip, b: Trip) -> bool {
    &&& a.id == b.id
    &&& a.camera_id == b.camera_id
    &&& a.boot_id@ == b.boot_id@
    &&& a.start_time_utc == b.start_time_utc
    &&& a.end_time_utc == b.end_time_utc
    &&& a.start_segment == b.start_segment
    &&& a.final_segment == b.final_segment
    &&& a.start_clock_source@ == b.start_clock_source@
    &&& (match (a.end_clock_source, b.end_clock_source) {
        (Some(x), Some(y)) => x@ == y@,
        (None, None) => true,
        _ => false,
    })
    &&& (match (a.note, b.note) {
        (Some(x), Some(y)) => x@ == y@,
        (None, None) => true,
        _ => false,
    })
    &&& a.start_gen == b.start_gen
    &&& a.end_gen == b.end_gen
    &&& a.fully_evicted == b.fully_evicted
    &&& a.evicted_at_utc == b.evicted_at_utc
}

/// `t` is the freshly opened trip with the given identifiers and anchors.
pub open spec fn opens(
    t: Trip,
    id: int,
    camera_id: int,
    boot_id: Seq<char>,
    start_segment: int,
    start_gen: int,
    now: int,
) -> bool {
    &&& t.id == id
    &&& t.camera_id == camera_id
    &&& t.boot_id@ == boot_id
    &&& t.start_time_utc == now
    &&& t.end_time_utc is None
    &&& t.start_segment == start_segment
    &&& t.final_segment is None
    &&& t.start_clock_source@ == clock_source_boot()
    &&& t.end_clock_source is None
    &&& t.note is None
    &&& t.start_gen == start_gen
    &&& t.end_gen is None
    &&& !t.fully_evicted
    &&& t.evicted_at_utc is None
}

/// `c` is `t` closed at ring position `(end_gen, final_seg)` at time `now`;
/// every other field is carried over unchanged.
pub open spec fn closes(t: Trip, c: Trip, final_seg: int, end_gen: int, now: int) -> bool {
    &&& c.id == t.id
    &&& c.camera_id == t.camera_id
    &&& c.boot_id@ == t.boot_id@
    &&& c.start_time_utc == t.start_time_utc
    &&& c.end_time_utc == Some(now as i64)
    &&& c.start_segment == t.start_segment
    &&& c.final_segment == Some(final_seg as i64)
    &&& c.start_clock_source@ == t.start_clock_source@
    &&& (c.end_clock_source matches Some(s) && s@ == clock_source_boot())
    &&& (match (c.note, t.note) {
        (Some(x), Some(y)) => x@ == y@,
        (None, None) => true,
        _ => false,
    })
    &&& c.start_gen == t.start_gen
    &&& c.end_gen == Some(end_gen as i64)
    &&& c.fully_evicted == t.fully_evicted
    &&& c.evicted_at_utc == t.evicted_at_utc
}

/// Build a fresh open trip.
pub fn make_open_trip(
    id: i64,
    camera_id: i64,
    boot_id: &String,
    start_segment: i64,
    start_gen: i64,
    now: i64,
) -> (t: Trip)
    requires
        id >= 1,
        camera_id >= 0,
        start_segment >= 0,
        start_gen >= 0,
    ensures
        opens(t, id as int, camera_id as int, boot_id@, start_segment as int, start_gen as int, now as int),
        t.valid(),
        t.is_open(),
{
    Trip {
        id,
        camera_id,
        boot_id: boot_id.clone(),
        start_time_utc: now,
        end_time_utc: None,
        start_segment,
        final_segment: None,
        start_clock_source: String::from_str("boot"),
        end_clock_source: None,
        note: None,
        start_gen,
        end_gen: None,
        fully_evicted: false,
        evicted_at_utc: None,
    }
}

/// Close an open trip at ring position `(end_gen, final_seg)`.
pub fn close_trip(t: &Trip, final_seg: i64, end_gen: i64, now: i64) -> (c: Trip)
    requires
        t.valid(),
        t.is_open(),
        final_seg >= 0,
        end_gen >= 0,
    ensures
        closes(*t, c, final_seg as int, end_gen as int, now as int),
        c.valid(),
        !c.is_open(),
{
    Trip {
        id: t.id,
        camera_id: t.camera_id,
        boot_id: t.boot_id.clone(),
        start_time_utc: t.start_time_utc,
        end_time_utc: Some(now),
        start_segment: t.start_segment,
        final_segment: Some(final_seg),
        start_clock_source: t.start_clock_source.clone(),
        end_clock_source: Some(String::from_str("boot")),
        note: match &t.note {
            Some(s) => Some(s.clone()),
            None => None,
        },
        start_gen: t.start_gen,
        end_gen: Some(end_gen),
        fully_evicted: t.fully_evicted,
        evicted_at_utc: t.evicted_at_utc,
    }
}

/// Two trips opened with the same identifiers and anchors are observationally
/// equal, and so are their closed forms when closed at the same position and
/// time: inserting a trip and finalizing it later leaves the same ledger row
/// as letting a close-then-open operation close it in passing.
pub proof fn lemma_insert_then_finalize_equals_new_trip(
    t1: Trip,
    t2: Trip,
    c1: Trip,
    c2: Trip,
    id: int,
    camera_id: int,
    boot_id: Seq<char>,
    start_segment: int,
    start_gen: int,
    opened_at: int,
    final_seg: int,
    end_gen: int,
    closed_at: int,
)
    requires
        opens(t1, id, camera_id, boot_id, start_segment, start_gen, opened_at),
        opens(t2, id, camera_id, boot_id, start_segment, start_gen, opened_at),
        closes(t1, c1, final_seg, end_gen, closed_at),
        closes(t2, c2, final_seg, end_gen, closed_at),
    ensures
        trip_obs_eq(t1, t2),
        trip_obs_eq(c1, c2),
{
}

/// The eviction rule: with the newest absolute position `abs_latest` in a
/// ring of `max` slots, a closed trip ending at `abs_end` has been fully
/// overwritten exactly when it lies before the earliest position that can
/// still be on disk, `abs_latest - (max - 1)` floored at zero. A trip's
/// `abs_end` is never negative, so the comparison against the unfloored
/// value decides identically.
pub open spec fn evict_rule(abs_end: int, abs_latest: int, max: int) -> bool {
    abs_end < abs_latest - (max - 1)
}

/// Whether a mark pass over the ledger stamps this trip.
pub open spec fn should_stamp(t: Trip, camera_id: int, abs_latest: int, max: int) -> bool {
    &&& t.camera_id == camera_id
    &&& !t.fully_evicted
    &&& !t.is_open()
    &&& evict_rule(t.abs_end(max), abs_latest, max)
}

/// `t` with the evicted stamp applied at time `now`.
pub open spec fn spec_stamped(t: Trip, now: int) -> Trip {
    Trip { fully_evicted: true, evicted_at_utc: Some(now as i64), ..t }
}

/// The ledger after one mark pass for `camera_id`: every matching trip is
/// stamped, every other row is untouched.
pub open spec fn spec_mark(
    trips: Seq<Trip>,
    camera_id: int,
    abs_latest: int,
    max: int,
    now: int,
) -> Seq<Trip> {
    Seq::new(
        trips.len(),
        |i: int|
            if should_stamp(trips[i], camera_id, abs_latest, max) {
                spec_stamped(trips[i], now)
            } else {
                trips[i]
            },
    )
}

/// How many trips one mark pass stamps.
pub open spec fn spec_mark_count(trips: Seq<Trip>, camera_id: int, abs_latest: int, max: int) -> int
    decreases trips.len(),
{
    if trips.len() == 0 {
        0
    } else {
        spec_mark_count(trips.drop_last(), camera_id, abs_latest, max) + if should_stamp(
            trips.last(),
            camera_id,
            abs_latest,
            max,
        ) {
            1int
        } else {
            0int
        }
    }
}

/// One more row extends the count by one exactly when that row matches.
pub proof fn lemma_mark_count_snoc(
    trips: Seq<Trip>,
    i: int,
    camera_id: int,
    abs_latest: int,
    max: int,
)
    requires
        0 <= i < trips.len(),
    ensures
        spec_mark_count(trips.subrange(0, i + 1), camera_id, abs_latest, max) == spec_mark_count(
            trips.subrange(0, i),
            camera_id,
            abs_latest,
            max,
        ) + if should_stamp(trips[i], camera_id, abs_latest, max) {
            1int
        } else {
            0int
        },
{
    let a = trips.subrange(0, i + 1);
    assert(a.drop_last() =~= trips.subrange(0, i));
    assert(a.last() == trips[i]);
}

/// The count never exceeds the number of rows.
pub proof fn lemma_mark_count_le_len(trips: Seq<Trip>, camera_id: int, abs_latest: int, max: int)
    ensures
        0 <= spec_mark_count(trips, camera_id, abs_latest, max) <= trips.len(),
    decreases trips.len(),
{
    if trips.len() > 0 {
        lemma_mark_count_le_len(trips.drop_last(), camera_id, abs_latest, max);
    }
}

/// A ledger in which no trip matches the rule is counted as zero.
proof fn lemma_mark_count_zero(trips: Seq<Trip>, camera_id: int, abs_latest: int, max: int)
    requires
        forall|i: int|
            0 <= i < trips.len() ==> !should_stamp(trips[i], camera_id, abs_latest, max),
    ensures
        spec_mark_count(trips, camera_id, abs_latest, max) == 0,
    decreases trips.len(),
{
    if trips.len() > 0 {
        lemma_mark_count_zero(trips.drop_last(), camera_id, abs_latest, max);
    }
}

/// Marking is idempotent: a second pass with the same ring position stamps
/// nothing and leaves every row exactly as the first pass left it.
pub proof fn lemma_mark_idempotent(
    trips: Seq<Trip>,
    camera_id: int,
    abs_latest: int,
    max: int,
    now1: int,
    now2: int,
)
    ensures
        spec_mark(spec_mark(trips, camera_id, abs_latest, max, now1), camera_id, abs_latest, max, now2)
            =~= spec_mark(trips, camera_id, abs_latest, max, now1),
        spec_mark_count(spec_mark(trips, camera_id, abs_latest, max, now1), camera_id, abs_latest, max)
            == 0,
{
    let once = spec_mark(trips, camera_id, abs_latest, max, now1);
    assert forall|i: int| 0 <= i < once.len() implies !should_stamp(
        once[i],
        camera_id,
        abs_latest,
        max,
    ) by {
        if should_stamp(trips[i], camera_id, abs_latest, max) {
            assert(once[i].fully_evicted);
        }
    }
    lemma_mark_count_zero(once, camera_id, abs_latest, max);
}

/// Any trip that a mark pass freshly stamps was closed and lay wholly before
/// the earliest still-on-disk absolute index at the moment of stamping.
pub proof fn lemma_stamp_is_justified(
    trips: Seq<Trip>,
    camera_id: int,
    abs_latest: int,
    max: int,
    now: int,
    i: int,
)
    requires
        0 <= i < trips.len(),
        spec_mark(trips, camera_id, abs_latest, max, now)[i].fully_evicted,
        !trips[i].fully_evicted,
    ensures
        !trips[i].is_open(),
        trips[i].abs_end(max) < abs_latest - (max - 1),
        trips[i].camera_id == camera_id,
{
}

} // verus!
