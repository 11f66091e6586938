//! Ring accountant: pure counter transitions for one `(camera, sink)` ring.
//!
//! A ring holds `max_segments` slots. `segment_index` is the slot the next
//! segment will be written to, `segment_generation` counts how often the
//! index wrapped back to zero, and `absolute_segments` counts every segment
//! ever written. The transitions here are total functions on a counter row;
//! the store commits them transactionally.

use vstd::prelude::*;

verus! {

/// Counter row for one `(camera, sink)` binding.
#[derive(Clone, Copy, Debug)]
pub struct CameraState {
    pub camera_id: i64,
    pub sink_id: i64,
    pub segment_index: i64,
    pub segment_generation: i64,
    pub absolute_segments: i64,
}

impl CameraState {
    /// All counters are non-negative.
    pub open spec fn valid(self) -> bool {
        &&& 0 <= self.segment_index
        &&& 0 <= self.segment_generation
        &&& 0 <= self.absolute_segments
    }

    /// Valid and with the index inside a ring of `max` slots.
    pub open spec fn wf(self, max: int) -> bool {
        self.valid() && self.segment_index < max
    }
}

/// How many slots the ring position advanced when it moved from `cur` to
/// `new` in a ring of `max` slots: a move backwards means a wrap occurred.
pub open spec fn ring_distance(cur: int, new: int, max: int) -> int {
    if new >= cur {
        new - cur
    } else {
        (max - cur) + new
    }
}

/// Counter row after one more segment was written.
pub open spec fn spec_increment(s: CameraState, max: int) -> CameraState {
    CameraState {
        segment_index: if s.segment_index + 1 >= max {
            0
        } else {
            (s.segment_index + 1) as i64
        },
        segment_generation: if s.segment_index + 1 >= max {
            (s.segment_generation + 1) as i64
        } else {
            s.segment_generation
        },
        absolute_segments: (s.absolute_segments + 1) as i64,
        ..s
    }
}

/// Counter row after the producer reported that it is about to use slot
/// `new_index`: the index is re-synced, a move backwards bumps the
/// generation, and the absolute count advances by the ring distance.
pub open spec fn spec_update_to(s: CameraState, new_index: int, max: int) -> CameraState {
    if new_index == s.segment_index {
        s
    } else {
        CameraState {
            segment_index: new_index as i64,
            segment_generation: if new_index < s.segment_index {
                (s.segment_generation + 1) as i64
            } else {
                s.segment_generation
            },
            absolute_segments: (s.absolute_segments + ring_distance(
                s.segment_index as int,
                new_index,
                max,
            )) as i64,
            ..s
        }
    }
}

/// Counter row with the index reduced modulo `max`; generation and absolute
/// count are untouched.
pub open spec fn spec_clamp(s: CameraState, max: int) -> CameraState {
    CameraState { segment_index: (s.segment_index as int % max) as i64, ..s }
}

impl CameraState {
    /// The row with only the ring index replaced.
    pub open spec fn with_index(self, value: i64) -> CameraState {
        CameraState { segment_index: value, ..self }
    }

    /// The row with only the wrap count replaced.
    pub open spec fn with_generation(self, value: i64) -> CameraState {
        CameraState { segment_generation: value, ..self }
    }

    /// The row with only the absolute count replaced.
    pub open spec fn with_absolute(self, value: i64) -> CameraState {
        CameraState { absolute_segments: value, ..self }
    }

    /// Replace the ring index.
    pub fn with_index_exec(&self, value: i64) -> (r: CameraState)
        ensures
            r == self.with_index(value),
    {
        CameraState { segment_index: value, ..*self }
    }

    /// Replace the wrap count.
    pub fn with_generation_exec(&self, value: i64) -> (r: CameraState)
        ensures
            r == self.with_generation(value),
    {
        CameraState { segment_generation: value, ..*self }
    }

    /// Replace the absolute count.
    pub fn with_absolute_exec(&self, value: i64) -> (r: CameraState)
        ensures
            r == self.with_absolute(value),
    {
        CameraState { absolute_segments: value, ..*self }
    }

    /// Post-increment transition: one more segment was written. An index at
    /// or above the ring size (possible after the ring was reconfigured
    /// smaller) wraps to zero like the last slot does.
    pub fn stepped(&self, max_segments: i64) -> (r: CameraState)
        requires
            max_segments >= 1,
            self.valid(),
            self.absolute_segments < i64::MAX,
            self.segment_generation < i64::MAX,
        ensures
            r == spec_increment(*self, max_segments as int),
            r.wf(max_segments as int),
            r.absolute_segments == self.absolute_segments + 1,
            r.camera_id == self.camera_id,
            r.sink_id == self.sink_id,
    {
        if self.segment_index >= max_segments - 1 {
            CameraState {
                segment_index: 0,
                segment_generation: self.segment_generation + 1,
                absolute_segments: self.absolute_segments + 1,
                ..*self
            }
        } else {
            CameraState {
                segment_index: self.segment_index + 1,
                absolute_segments: self.absolute_segments + 1,
                ..*self
            }
        }
    }

    /// Re-sync transition towards a reported ring index.
    pub fn updated_to(&self, new_index: i64, max_segments: i64) -> (r: CameraState)
        requires
            max_segments >= 1,
            self.wf(max_segments as int),
            0 <= new_index < max_segments,
            self.absolute_segments + max_segments <= i64::MAX,
            self.segment_generation < i64::MAX,
        ensures
            r == spec_update_to(*self, new_index as int, max_segments as int),
            r.wf(max_segments as int),
            r.absolute_segments >= self.absolute_segments,
            r.segment_index == new_index,
            r.absolute_segments == self.absolute_segments + ring_distance(
                self.segment_index as int,
                new_index as int,
                max_segments as int,
            ),
            new_index == self.segment_index ==> r == *self,
            r.camera_id == self.camera_id,
            r.sink_id == self.sink_id,
    {
        if new_index == self.segment_index {
            *self
        } else if new_index > self.segment_index {
            CameraState {
                segment_index: new_index,
                absolute_segments: self.absolute_segments + (new_index - self.segment_index),
                ..*self
            }
        } else {
            CameraState {
                segment_index: new_index,
                segment_generation: self.segment_generation + 1,
                absolute_segments: self.absolute_segments + ((max_segments - self.segment_index)
                    + new_index),
                ..*self
            }
        }
    }

    /// Clamp transition: reduce the index modulo `max_segments`.
    pub fn clamped(&self, max_segments: i64) -> (r: CameraState)
        requires
            max_segments >= 1,
            self.valid(),
        ensures
            r == spec_clamp(*self, max_segments as int),
            r.wf(max_segments as int),
            r.segment_generation == self.segment_generation,
            r.absolute_segments == self.absolute_segments,
            r.camera_id == self.camera_id,
            r.sink_id == self.sink_id,
    {
        CameraState { segment_index: self.segment_index % max_segments, ..*self }
    }
}

/// Re-syncing to the index the ring already holds changes nothing.
pub proof fn lemma_update_to_noop(s: CameraState, max: int)
    requires
        1 <= max <= i64::MAX,
        s.wf(max),
    ensures
        spec_update_to(s, s.segment_index as int, max) == s,
{
}

/// Clamping is idempotent: a second clamp with the same ring size is the
/// identity on the already clamped row.
pub proof fn lemma_clamp_idempotent(s: CameraState, max: int)
    requires
        1 <= max <= i64::MAX,
        s.valid(),
    ensures
        spec_clamp(spec_clamp(s, max), max) == spec_clamp(s, max),
{
    let c = spec_clamp(s, max);
    assert(0 <= c.segment_index < max) by {
        vstd::arithmetic::div_mod::lemma_mod_bound(s.segment_index as int, max);
    }
    assert(c.segment_index as int % max == c.segment_index as int) by {
        vstd::arithmetic::div_mod::lemma_small_mod(c.segment_index as nat, max as nat);
    }
}

/// The generation is the wrap count of the absolute position: when the
/// absolute count corresponds exactly to `generation * max + index`, both
/// an increment and a re-sync preserve that correspondence.
pub proof fn lemma_generation_is_wrap_count(s: CameraState, new_index: int, max: int)
    requires
        1 <= max <= i64::MAX,
        s.wf(max),
        0 <= new_index < max,
        s.absolute_segments == s.segment_generation * max + s.segment_index,
        s.absolute_segments < i64::MAX,
        s.segment_generation < i64::MAX,
        s.absolute_segments + max <= i64::MAX,
    ensures
        ({
            let r = spec_increment(s, max);
            r.absolute_segments == r.segment_generation * max + r.segment_index
        }),
        ({
            let r = spec_update_to(s, new_index, max);
            r.absolute_segments == r.segment_generation * max + r.segment_index
        }),
{
    let g = s.segment_generation as int;
    assert((g + 1) * max == g * max + max) by (nonlinear_arith);
}

/// An increment advances the absolute count by exactly one and keeps the
/// index inside the ring.
pub proof fn lemma_increment_counts_one(s: CameraState, max: int)
    requires
        1 <= max <= i64::MAX,
        s.wf(max),
        s.absolute_segments < i64::MAX,
        s.segment_generation < i64::MAX,
    ensures
        spec_increment(s, max).absolute_segments == s.absolute_segments + 1,
        spec_increment(s, max).wf(max),
{
}

} // verus!
