//! Segment naming: the file path every next segment is written to, the
//! in-memory ring position the producer advances on its hot path, and the
//! startup-cleanup test for live-view artefacts.

use vstd::prelude::*;

verus! {

/// The decimal digits of a non-negative number, most significant first.
pub open spec fn spec_dec(n: int) -> Seq<char>
    decreases n,
{
    if n < 10 {
        seq![spec_digit_char(n)]
    } else {
        spec_dec(n / 10).push(spec_digit_char(n % 10))
    }
}

/// The character for one decimal digit.
pub open spec fn spec_digit_char(d: int) -> char {
    if d == 0 {
        '0'
    } else if d == 1 {
        '1'
    } else if d == 2 {
        '2'
    } else if d == 3 {
        '3'
    } else if d == 4 {
        '4'
    } else if d == 5 {
        '5'
    } else if d == 6 {
        '6'
    } else if d == 7 {
        '7'
    } else if d == 8 {
        '8'
    } else {
        '9'
    }
}

/// One decimal digit as a string slice.
fn digit_str(d: i64) -> (r: &'static str)
    requires
        0 <= d <= 9,
    ensures
        r@ == seq![spec_digit_char(d as int)],
{
    proof {
        reveal_strlit("0");
        reveal_strlit("1");
        reveal_strlit("2");
        reveal_strlit("3");
        reveal_strlit("4");
        reveal_strlit("5");
        reveal_strlit("6");
        reveal_strlit("7");
        reveal_strlit("8");
        reveal_strlit("9");
    }
    let r: &'static str = if d == 0 {
        "0"
    } else if d == 1 {
        "1"
    } else if d == 2 {
        "2"
    } else if d == 3 {
        "3"
    } else if d == 4 {
        "4"
    } else if d == 5 {
        "5"
    } else if d == 6 {
        "6"
    } else if d == 7 {
        "7"
    } else if d == 8 {
        "8"
    } else {
        "9"
    };
    proof {
        assert(r@ =~= seq![spec_digit_char(d as int)]);
    }
    r
}

/// Format a non-negative number in decimal.
pub fn i64_to_dec(n: i64) -> (r: String)
    requires
        n >= 0,
    ensures
        r@ == spec_dec(n as int),
    decreases n,
{
    if n < 10 {
        digit_str(n).to_owned()
    } else {
        let mut s = i64_to_dec(n / 10);
        s.append(digit_str(n % 10));
        proof {
            assert(s@ =~= spec_dec(n as int));
        }
        s
    }
}

/// The path of the ring segment file at `index`, relative to the
/// recording directory: a bucket directory of a thousand files, then
/// `output_<index>.ts`.
pub open spec fn spec_segment_rel_path(index: int) -> Seq<char> {
    spec_dec(index / 1000) + "/output_"@ + spec_dec(index) + ".ts"@
}

/// The bucket directory holding the segment file at `index`.
pub fn segment_bucket_dir(recording_dir: &str, index: i64) -> (r: String)
    requires
        0 <= index,
    ensures
        r@ == recording_dir@ + "/"@ + spec_dec(index as int / 1000),
{
    let mut s = recording_dir.to_owned();
    s.append("/");
    let bucket = i64_to_dec(index / 1000);
    s.append(bucket.as_str());
    proof {
        assert(s@ =~= recording_dir@ + "/"@ + spec_dec(index as int / 1000));
    }
    s
}

/// The absolute path of the ring segment file at `index` under the
/// recording directory.
pub fn segment_file_path(recording_dir: &str, index: i64) -> (r: String)
    requires
        0 <= index,
    ensures
        r@ == recording_dir@ + "/"@ + spec_segment_rel_path(index as int),
{
    let mut s = recording_dir.to_owned();
    s.append("/");
    let bucket = i64_to_dec(index / 1000);
    s.append(bucket.as_str());
    s.append("/output_");
    let num = i64_to_dec(index);
    s.append(num.as_str());
    s.append(".ts");
    proof {
        assert(s@ =~= recording_dir@ + "/"@ + spec_segment_rel_path(index as int));
    }
    s
}

/// The ring index after one more segment.
pub open spec fn spec_next_index(cur: int, max: int) -> int {
    if cur + 1 >= max {
        0
    } else {
        cur + 1
    }
}

/// Per-binding segment namer: the producer's in-memory ring position,
/// advanced on the hot path without re-reading the store.
pub struct SegmentNamer {
    pub camera_id: i64,
    pub sink_id: i64,
    pub max_segments: i64,
    pub recording_dir: String,
    pub segment_index: i64,
}

impl SegmentNamer {
    /// The position stays inside the ring.
    pub open spec fn wf(self) -> bool {
        self.max_segments >= 1 && 0 <= self.segment_index < self.max_segments
    }

    /// Seed the namer with the last persisted ring index; a stale or
    /// sentinel value outside the ring starts over at slot zero.
    pub fn new(
        camera_id: i64,
        sink_id: i64,
        max_segments: i64,
        recording_dir: String,
        initial_index: i64,
    ) -> (r: SegmentNamer)
        requires
            max_segments >= 1,
        ensures
            r.wf(),
            r.camera_id == camera_id,
            r.sink_id == sink_id,
            r.max_segments == max_segments,
            r.recording_dir@ == recording_dir@,
            r.segment_index == if 0 <= initial_index < max_segments {
                initial_index as int
            } else {
                0
            },
    {
        let idx = if initial_index >= 0 && initial_index < max_segments {
            initial_index
        } else {
            0
        };
        SegmentNamer { camera_id, sink_id, max_segments, recording_dir, segment_index: idx }
    }

    /// The path the producer should write the next segment to. Advances the
    /// in-memory position and returns the new index, which the caller
    /// reports to the store.
    pub fn next_path(&mut self) -> (r: (String, i64))
        requires
            old(self).wf(),
        ensures
            final(self).wf(),
            final(self).camera_id == old(self).camera_id,
            final(self).sink_id == old(self).sink_id,
            final(self).max_segments == old(self).max_segments,
            final(self).recording_dir@ == old(self).recording_dir@,
            r.0@ == old(self).recording_dir@ + "/"@ + spec_segment_rel_path(
                old(self).segment_index as int,
            ),
            final(self).segment_index == spec_next_index(
                old(self).segment_index as int,
                old(self).max_segments as int,
            ),
            r.1 == final(self).segment_index,
    {
        let path = segment_file_path(self.recording_dir.as_str(), self.segment_index);
        let next = if self.segment_index >= self.max_segments - 1 {
            0
        } else {
            self.segment_index + 1
        };
        self.segment_index = next;
        (path, next)
    }
}

/// A name the startup cleanup removes: the live playlist itself, or a
/// live-view media segment `segment<digits>.ts`. Ring files
/// (`output_<n>.ts`) never match.
pub open spec fn spec_is_live_artifact(s: Seq<char>) -> bool {
    ||| s == "livestream.m3u8"@
    ||| {
        &&& s.len() >= 10
        &&& s.subrange(0, 7) == "segment"@
        &&& s.subrange(s.len() - 3, s.len() as int) == ".ts"@
        &&& forall|i: int| 7 <= i < s.len() - 3 ==> spec_is_digit(#[trigger] s[i])
    }
}

/// A decimal digit character.
pub open spec fn spec_is_digit(c: char) -> bool {
    48 <= c as int <= 57
}

/// Compare two strings by their characters.
fn str_chars_eq(a: &str, b: &str) -> (r: bool)
    ensures
        r == (a@ == b@),
{
    let na = a.unicode_len();
    let nb = b.unicode_len();
    if na != nb {
        return false;
    }
    let mut i: usize = 0;
    while i < na
        invariant
            na == a@.len(),
            na == b@.len(),
            i <= na,
            forall|q: int| 0 <= q < i ==> a@[q] == b@[q],
        decreases na - i,
    {
        if a.get_char(i) != b.get_char(i) {
            return false;
        }
        i += 1;
    }
    proof {
        assert(a@ =~= b@);
    }
    true
}

/// Decide whether a file name is a live-view artefact that the startup
/// cleanup removes.
pub fn is_live_artifact_name(name: &str) -> (r: bool)
    ensures
        r == spec_is_live_artifact(name@),
{
    proof {
        reveal_strlit("livestream.m3u8");
        reveal_strlit("segment");
        reveal_strlit(".ts");
    }
    if str_chars_eq(name, "livestream.m3u8") {
        return true;
    }
    let n = name.unicode_len();
    if n < 10 {
        return false;
    }
    if name.get_char(0) != 's' || name.get_char(1) != 'e' || name.get_char(2) != 'g'
        || name.get_char(3) != 'm' || name.get_char(4) != 'e' || name.get_char(5) != 'n'
        || name.get_char(6) != 't' {
        proof {
            assert(name@.subrange(0, 7) != "segment"@) by {
                if name@.subrange(0, 7) == "segment"@ {
                    assert(name@.subrange(0, 7)[0] == name@[0]);
                    assert(name@.subrange(0, 7)[1] == name@[1]);
                    assert(name@.subrange(0, 7)[2] == name@[2]);
                    assert(name@.subrange(0, 7)[3] == name@[3]);
                    assert(name@.subrange(0, 7)[4] == name@[4]);
                    assert(name@.subrange(0, 7)[5] == name@[5]);
                    assert(name@.subrange(0, 7)[6] == name@[6]);
                }
            }
        }
        return false;
    }
    if name.get_char(n - 3) != '.' || name.get_char(n - 2) != 't' || name.get_char(n - 1) != 's' {
        proof {
            let len = name@.len() as int;
            assert(name@.subrange(len - 3, len) != ".ts"@) by {
                if name@.subrange(len - 3, len) == ".ts"@ {
                    assert(name@.subrange(len - 3, len)[0] == name@[len - 3]);
                    assert(name@.subrange(len - 3, len)[1] == name@[len - 2]);
                    assert(name@.subrange(len - 3, len)[2] == name@[len - 1]);
                }
            }
        }
        return false;
    }
    let mut i: usize = 7;
    while i < n - 3
        invariant
            n == name@.len(),
            10 <= n,
            7 <= i <= n - 3,
            forall|q: int| 7 <= q < i ==> spec_is_digit(#[trigger] name@[q]),
            name@ != "livestream.m3u8"@,
        decreases n - 3 - i,
    {
        let c = name.get_char(i);
        if (c as u32) < 48 || (c as u32) > 57 {
            return false;
        }
        i += 1;
    }
    proof {
        assert(name@.subrange(0, 7) =~= "segment"@);
        assert(name@.subrange(name@.len() - 3, name@.len() as int) =~= ".ts"@);
    }
    true
}

} // verus!
