//! Tracks: clips arranged on a timeline.

use std::sync::Arc;
use vstd::prelude::*;
use crate::outline::{Clip, ClipRef, Sample, sample_or_silence};
use crate::compounds::Subclip;

verus! {

/// A clip placed on a timeline, starting at `position` (in samples).
pub struct ClipPosition {
    pub clip: ClipRef,
    pub position: u64,
}

/// The first sample time after the clip placed by `cp`.
pub open spec fn clip_end(cp: ClipPosition) -> int {
    cp.position + cp.clip.audio().len()
}

/// Whether the clip placed by `cp` sounds at time `t`.
pub open spec fn covers(cp: ClipPosition, t: int) -> bool {
    cp.position <= t < clip_end(cp)
}

/// Clips of a channel lie in order and do not overlap, and each ends within
/// the range of `u64`.
pub open spec fn side_wf(s: Seq<ClipPosition>) -> bool {
    &&& forall|i: int, j: int|
        0 <= i < j < s.len() ==> clip_end(#[trigger] s[i]) <= (#[trigger] s[j]).position
    &&& forall|i: int| 0 <= i < s.len() ==> clip_end(#[trigger] s[i]) <= u64::MAX
}

/// The index of the last clip that starts at or before `t`, or -1.
pub open spec fn last_starting_by(s: Seq<ClipPosition>, t: int) -> int
    decreases s.len(),
{
    if s.len() == 0 {
        -1
    } else if s.last().position <= t {
        s.len() - 1
    } else {
        last_starting_by(s.drop_last(), t)
    }
}

/// The sample a channel plays at time `t`: that of the clip sounding then, or
/// silence.
pub open spec fn side_sample(s: Seq<ClipPosition>, t: int) -> Sample
    decreases s,
{
    let k = last_starting_by(s, t);
    if 0 <= k < s.len() {
        sample_or_silence(s[k].clip.audio(), t - s[k].position)
    } else {
        0
    }
}

/// The time just after the last clip of a channel (0 for an empty channel).
pub open spec fn side_end(s: Seq<ClipPosition>) -> int {
    if s.len() == 0 {
        0
    } else {
        clip_end(s.last())
    }
}

/// What a channel plays at time `t` after `audio` was inserted at time `p`:
/// the old channel before `p`, the inserted audio from `p` on, and the old
/// channel, pushed back by the length of the inserted audio, after that.
pub open spec fn inserted_sample(s: Seq<ClipPosition>, audio: Seq<Sample>, p: int, t: int) -> Sample {
    if t < p {
        side_sample(s, t)
    } else if t < p + audio.len() {
        audio[t - p]
    } else {
        side_sample(s, t - audio.len())
    }
}

/// How a channel `n` arranges its clips after `c` was inserted into channel
/// `o` at time `p`, where `idx` clips of `o` start before `p`: a clip that
/// sounds across `p` is split in two around the new one; the new clip stands
/// at `p`; every clip after it is moved back by the new clip's length.
pub open spec fn inserted_arrangement(
    o: Seq<ClipPosition>,
    n: Seq<ClipPosition>,
    c: ClipRef,
    p: int,
    idx: int,
) -> bool {
    let d = c.audio().len() as int;
    &&& 0 <= idx <= o.len()
    &&& forall|j: int| 0 <= j < idx ==> (#[trigger] o[j]).position < p
    &&& forall|j: int| idx <= j < o.len() ==> (#[trigger] o[j]).position >= p
    &&& if 1 <= idx && p < clip_end(o[idx - 1]) {
        let split = p - o[idx - 1].position;
        let whole = o[idx - 1].clip.audio();
        &&& n.len() == o.len() + 2
        &&& forall|j: int| 0 <= j < idx - 1 ==> #[trigger] n[j] == o[j]
        &&& n[idx - 1].position == o[idx - 1].position
        &&& n[idx - 1].clip.audio() == whole.subrange(0, split)
        &&& n[idx].clip == c
        &&& n[idx].position == p
        &&& n[idx + 1].position == p + d
        &&& n[idx + 1].clip.audio() == whole.subrange(split, whole.len() as int)
        &&& forall|j: int|
            idx + 1 < j < n.len() ==> (#[trigger] n[j]).clip == o[j - 2].clip && n[j].position
                == o[j - 2].position + d
    } else {
        &&& n.len() == o.len() + 1
        &&& forall|j: int| 0 <= j < idx ==> #[trigger] n[j] == o[j]
        &&& n[idx].clip == c
        &&& n[idx].position == p
        &&& forall|j: int|
            idx < j < n.len() ==> (#[trigger] n[j]).clip == o[j - 1].clip && n[j].position
                == o[j - 1].position + d
    }
}

/// The law of inserting into an ordered, non-overlapping channel: the new
/// clip stands at its position, and the channel gains two entries when an
/// old clip sounds across that position (it is split around the new one),
/// one otherwise.
pub proof fn insertion_law(
    o: Seq<ClipPosition>,
    n: Seq<ClipPosition>,
    c: ClipRef,
    p: int,
    idx: int,
)
    requires
        side_wf(o),
        inserted_arrangement(o, n, c, p, idx),
    ensures
        exists|k: int| 0 <= k < n.len() && (#[trigger] n[k]).clip == c && n[k].position == p,
        n.len() == o.len() + if exists|j: int|
            0 <= j < o.len() && (#[trigger] o[j]).position < p < clip_end(o[j]) {
            2int
        } else {
            1int
        },
{
    assert(n[idx].clip == c && n[idx].position == p);
    if 1 <= idx && p < clip_end(o[idx - 1]) {
        assert(o[idx - 1].position < p);
    } else {
        assert forall|j: int| 0 <= j < o.len() implies !((#[trigger] o[j]).position < p < clip_end(
            o[j],
        )) by {
            if j < idx - 1 {
                assert(clip_end(o[j]) <= o[idx - 1].position);
            }
        }
    }
}

proof fn lemma_last_starting_by_bounds(s: Seq<ClipPosition>, t: int)
    ensures
        -1 <= last_starting_by(s, t) < s.len(),
        0 <= last_starting_by(s, t) ==> s[last_starting_by(s, t)].position <= t,
        forall|j: int|
            last_starting_by(s, t) < j < s.len() ==> (#[trigger] s[j]).position > t,
    decreases s.len(),
{
    if s.len() > 0 && s.last().position > t {
        lemma_last_starting_by_bounds(s.drop_last(), t);
        assert forall|j: int| last_starting_by(s, t) < j < s.len() implies (#[trigger] s[j]).position
            > t by {
            if j < s.len() - 1 {
                assert(s[j] == s.drop_last()[j]);
            }
        }
    }
}

proof fn lemma_last_starting_by_is(s: Seq<ClipPosition>, t: int, u: int)
    requires
        0 <= u <= s.len(),
        forall|j: int| 0 <= j < u ==> (#[trigger] s[j]).position <= t,
        forall|j: int| u <= j < s.len() ==> (#[trigger] s[j]).position > t,
    ensures
        last_starting_by(s, t) == u - 1,
{
    lemma_last_starting_by_bounds(s, t);
    let k = last_starting_by(s, t);
    if k < u - 1 {
        assert(s[u - 1].position <= t);
    }
    if k > u - 1 {
        assert(s[k].position > t);
    }
}

proof fn lemma_side_sample_covered(s: Seq<ClipPosition>, k: int, t: int)
    requires
        side_wf(s),
        0 <= k < s.len(),
        covers(s[k], t),
    ensures
        side_sample(s, t) == s[k].clip.audio()[t - s[k].position],
{
    lemma_last_starting_by_bounds(s, t);
    let m = last_starting_by(s, t);
    if m < k {
        assert(s[k].position > t);
    }
    if m > k {
        assert(clip_end(s[k]) <= s[m].position);
    }
}

proof fn lemma_side_sample_uncovered(s: Seq<ClipPosition>, t: int)
    requires
        side_wf(s),
        forall|k: int| 0 <= k < s.len() ==> !covers(#[trigger] s[k], t),
    ensures
        side_sample(s, t) == 0,
{
    lemma_last_starting_by_bounds(s, t);
    let m = last_starting_by(s, t);
    if 0 <= m {
        assert(!covers(s[m], t));
    }
}

proof fn lemma_ends_within(s: Seq<ClipPosition>)
    requires
        side_wf(s),
    ensures
        forall|j: int| 0 <= j < s.len() ==> clip_end(#[trigger] s[j]) <= side_end(s),
        forall|j: int| 0 <= j < s.len() ==> (#[trigger] s[j]).position <= side_end(s),
        side_end(s) <= u64::MAX,
{
    assert forall|j: int| 0 <= j < s.len() implies clip_end(#[trigger] s[j]) <= side_end(s) by {
        if j < s.len() - 1 {
            assert(clip_end(s[j]) <= s[s.len() - 1].position);
        }
    }
    if s.len() > 0 {
        assert(clip_end(s[s.len() - 1]) <= u64::MAX);
    }
}

/// After the end of a channel it plays silence.
pub proof fn side_silent_after_end(s: Seq<ClipPosition>, t: int)
    requires
        side_wf(s),
        t >= side_end(s),
    ensures
        side_sample(s, t) == 0,
{
    lemma_ends_within(s);
    lemma_side_sample_uncovered(s, t);
}

/// The number of clips that start at or before `t`.
fn count_starting_by(clips: &Vec<ClipPosition>, t: u64) -> (u: usize)
    requires
        side_wf(clips@),
    ensures
        u <= clips@.len(),
        forall|j: int| 0 <= j < u ==> (#[trigger] clips@[j]).position <= t,
        forall|j: int| u <= j < clips@.len() ==> (#[trigger] clips@[j]).position > t,
{
    let mut lo: usize = 0;
    let mut hi: usize = clips.len();
    while lo < hi
        invariant
            lo <= hi <= clips@.len(),
            side_wf(clips@),
            forall|j: int| 0 <= j < lo ==> (#[trigger] clips@[j]).position <= t,
            forall|j: int| hi <= j < clips@.len() ==> (#[trigger] clips@[j]).position > t,
        decreases hi - lo,
    {
        let mid = lo + (hi - lo) / 2;
        if clips[mid].position <= t {
            assert forall|j: int| 0 <= j < mid + 1 implies (#[trigger] clips@[j]).position <= t by {
                if j < mid {
                    assert(clip_end(clips@[j]) <= clips@[mid as int].position);
                }
            }
            lo = mid + 1;
        } else {
            assert forall|j: int| mid <= j < clips@.len() implies (#[trigger] clips@[j]).position
                > t by {
                if j > mid {
                    assert(clip_end(clips@[mid as int]) <= clips@[j].position);
                }
            }
            hi = mid;
        }
    }
    lo
}

/// The number of clips that start before `p`.
fn count_starting_before(clips: &Vec<ClipPosition>, p: u64) -> (u: usize)
    requires
        side_wf(clips@),
    ensures
        u <= clips@.len(),
        forall|j: int| 0 <= j < u ==> (#[trigger] clips@[j]).position < p,
        forall|j: int| u <= j < clips@.len() ==> (#[trigger] clips@[j]).position >= p,
{
    let mut lo: usize = 0;
    let mut hi: usize = clips.len();
    while lo < hi
        invariant
            lo <= hi <= clips@.len(),
            side_wf(clips@),
            forall|j: int| 0 <= j < lo ==> (#[trigger] clips@[j]).position < p,
            forall|j: int| hi <= j < clips@.len() ==> (#[trigger] clips@[j]).position >= p,
        decreases hi - lo,
    {
        let mid = lo + (hi - lo) / 2;
        if clips[mid].position < p {
            assert forall|j: int| 0 <= j < mid + 1 implies (#[trigger] clips@[j]).position < p by {
                if j < mid {
                    assert(clip_end(clips@[j]) <= clips@[mid as int].position);
                }
            }
            lo = mid + 1;
        } else {
            assert forall|j: int| mid <= j < clips@.len() implies (#[trigger] clips@[j]).position
                >= p by {
                if j > mid {
                    assert(clip_end(clips@[mid as int]) <= clips@[j].position);
                }
            }
            hi = mid;
        }
    }
    lo
}

proof fn lemma_plain_insert(
    o: Seq<ClipPosition>,
    n: Seq<ClipPosition>,
    c: ClipRef,
    p: int,
    idx: int,
)
    requires
        side_wf(o),
        0 <= idx <= o.len(),
        0 <= p,
        forall|j: int| 0 <= j < idx ==> clip_end(#[trigger] o[j]) <= p,
        forall|j: int| idx <= j < o.len() ==> (#[trigger] o[j]).position >= p,
        (if side_end(o) > p { side_end(o) } else { p }) + c.audio().len() <= u64::MAX,
        n.len() == o.len() + 1,
        forall|j: int| 0 <= j < idx ==> #[trigger] n[j] == o[j],
        n[idx].clip == c,
        n[idx].position == p,
        forall|j: int|
            idx < j < n.len() ==> (#[trigger] n[j]).clip == o[j - 1].clip && n[j].position
                == o[j - 1].position + c.audio().len(),
    ensures
        side_wf(n),
        side_end(n) == (if side_end(o) > p { side_end(o) } else { p }) + c.audio().len(),
        forall|t: int| #[trigger] side_sample(n, t) == inserted_sample(o, c.audio(), p, t),
{
    let d = c.audio().len() as int;
    lemma_ends_within(o);
    assert forall|i: int, j: int| 0 <= i < j < n.len() implies clip_end(#[trigger] n[i]) <= (
    #[trigger] n[j]).position by {
        if j < idx {
            assert(clip_end(o[i]) <= o[j].position);
        } else if j == idx {
        } else if i < idx {
            assert(o[j - 1].position >= p);
        } else if i == idx {
            assert(o[j - 1].position >= p);
        } else {
            assert(clip_end(o[i - 1]) <= o[j - 1].position);
        }
    }
    assert forall|i: int| 0 <= i < n.len() implies clip_end(#[trigger] n[i]) <= u64::MAX by {
        if i < idx {
        } else if i == idx {
        } else {
            assert(clip_end(o[i - 1]) <= side_end(o));
        }
    }
    if idx == o.len() {
        if o.len() > 0 {
            assert(clip_end(o[idx - 1]) <= p);
        }
    } else {
        assert(o[o.len() - 1].position >= p);
        assert(n[n.len() - 1].clip == o[o.len() - 1].clip);
    }
    assert forall|t: int| #[trigger] side_sample(n, t) == inserted_sample(o, c.audio(), p, t) by {
        if t < p {
            if exists|j: int| 0 <= j < o.len() && covers(#[trigger] o[j], t) {
                let j = choose|j: int| 0 <= j < o.len() && covers(#[trigger] o[j], t);
                if j >= idx {
                    assert(o[j].position >= p);
                }
                assert(n[j] == o[j]);
                lemma_side_sample_covered(o, j, t);
                lemma_side_sample_covered(n, j, t);
            } else {
                assert forall|m: int| 0 <= m < n.len() implies !covers(#[trigger] n[m], t) by {
                    if m < idx {
                        assert(n[m] == o[m]);
                    } else if m > idx {
                        assert(o[m - 1].position >= p);
                    }
                }
                lemma_side_sample_uncovered(o, t);
                lemma_side_sample_uncovered(n, t);
            }
        } else if t < p + d {
            assert(covers(n[idx], t));
            lemma_side_sample_covered(n, idx, t);
        } else {
            let t2 = t - d;
            if exists|j: int| 0 <= j < o.len() && covers(#[trigger] o[j], t2) {
                let j = choose|j: int| 0 <= j < o.len() && covers(#[trigger] o[j], t2);
                if j < idx {
                    assert(clip_end(o[j]) <= p);
                }
                assert(n[j + 1].clip == o[j].clip);
                assert(covers(n[j + 1], t));
                lemma_side_sample_covered(o, j, t2);
                lemma_side_sample_covered(n, j + 1, t);
            } else {
                assert forall|m: int| 0 <= m < n.len() implies !covers(#[trigger] n[m], t) by {
                    if m < idx {
                        assert(n[m] == o[m]);
                        assert(clip_end(o[m]) <= p);
                    } else if m > idx {
                        assert(!covers(o[m - 1], t2));
                    }
                }
                lemma_side_sample_uncovered(o, t2);
                lemma_side_sample_uncovered(n, t);
            }
        }
    }
}

proof fn lemma_split_insert(
    o: Seq<ClipPosition>,
    n: Seq<ClipPosition>,
    c: ClipRef,
    p: int,
    idx: int,
)
    requires
        side_wf(o),
        1 <= idx <= o.len(),
        o[idx - 1].position < p < clip_end(o[idx - 1]),
        forall|j: int| idx <= j < o.len() ==> (#[trigger] o[j]).position >= p,
        (if side_end(o) > p { side_end(o) } else { p }) + c.audio().len() <= u64::MAX,
        n.len() == o.len() + 2,
        forall|j: int| 0 <= j < idx - 1 ==> #[trigger] n[j] == o[j],
        n[idx - 1].position == o[idx - 1].position,
        n[idx - 1].clip.audio() == o[idx - 1].clip.audio().subrange(
            0,
            p - o[idx - 1].position,
        ),
        n[idx].clip == c,
        n[idx].position == p,
        n[idx + 1].position == p + c.audio().len(),
        n[idx + 1].clip.audio() == o[idx - 1].clip.audio().subrange(
            p - o[idx - 1].position,
            o[idx - 1].clip.audio().len() as int,
        ),
        forall|j: int|
            idx + 1 < j < n.len() ==> (#[trigger] n[j]).clip == o[j - 2].clip && n[j].position
                == o[j - 2].position + c.audio().len(),
    ensures
        side_wf(n),
        side_end(n) == (if side_end(o) > p { side_end(o) } else { p }) + c.audio().len(),
        forall|t: int| #[trigger] side_sample(n, t) == inserted_sample(o, c.audio(), p, t),
{
    let d = c.audio().len() as int;
    let prev = idx - 1;
    let sp = p - o[prev].position;
    lemma_ends_within(o);
    assert(clip_end(n[prev]) == p);
    assert(clip_end(n[idx + 1]) == clip_end(o[prev]) + d);
    assert forall|i: int, j: int| 0 <= i < j < n.len() implies clip_end(#[trigger] n[i]) <= (
    #[trigger] n[j]).position by {
        if j < prev {
            assert(clip_end(o[i]) <= o[j].position);
        } else if j == prev {
            assert(clip_end(o[i]) <= o[prev].position);
        } else if j == idx || j == idx + 1 {
            if i < prev {
                assert(clip_end(o[i]) <= o[prev].position);
            }
        } else {
            assert(o[j - 2].position >= p);
            if i < prev {
                assert(clip_end(o[i]) <= o[prev].position);
            } else if i == idx + 1 {
                assert(clip_end(o[prev]) <= o[j - 2].position);
            } else if i > idx + 1 {
                assert(clip_end(o[i - 2]) <= o[j - 2].position);
            }
        }
    }
    assert forall|i: int| 0 <= i < n.len() implies clip_end(#[trigger] n[i]) <= u64::MAX by {
        if i < prev {
        } else if i <= idx {
        } else if i == idx + 1 {
            assert(clip_end(o[prev]) <= side_end(o));
        } else {
            assert(clip_end(o[i - 2]) <= side_end(o));
        }
    }
    if idx == o.len() {
        assert(side_end(o) == clip_end(o[prev]));
    } else {
        assert(o[o.len() - 1].position >= p);
        assert(n[n.len() - 1].clip == o[o.len() - 1].clip);
    }
    assert forall|t: int| #[trigger] side_sample(n, t) == inserted_sample(o, c.audio(), p, t) by {
        if t < p {
            if exists|j: int| 0 <= j < o.len() && covers(#[trigger] o[j], t) {
                let j = choose|j: int| 0 <= j < o.len() && covers(#[trigger] o[j], t);
                if j >= idx {
                    assert(o[j].position >= p);
                }
                lemma_side_sample_covered(o, j, t);
                if j < prev {
                    assert(n[j] == o[j]);
                    lemma_side_sample_covered(n, j, t);
                } else {
                    assert(covers(n[prev], t));
                    lemma_side_sample_covered(n, prev, t);
                }
            } else {
                assert forall|m: int| 0 <= m < n.len() implies !covers(#[trigger] n[m], t) by {
                    if m < prev {
                        assert(n[m] == o[m]);
                    } else if m == prev {
                        assert(!covers(o[prev], t));
                    } else if m > idx + 1 {
                        assert(o[m - 2].position >= p);
                    }
                }
                lemma_side_sample_uncovered(o, t);
                lemma_side_sample_uncovered(n, t);
            }
        } else if t < p + d {
            assert(covers(n[idx], t));
            lemma_side_sample_covered(n, idx, t);
        } else {
            let t2 = t - d;
            if exists|j: int| 0 <= j < o.len() && covers(#[trigger] o[j], t2) {
                let j = choose|j: int| 0 <= j < o.len() && covers(#[trigger] o[j], t2);
                if j < prev {
                    assert(clip_end(o[j]) <= o[prev].position);
                }
                lemma_side_sample_covered(o, j, t2);
                if j == prev {
                    assert(covers(n[idx + 1], t));
                    lemma_side_sample_covered(n, idx + 1, t);
                } else {
                    assert(n[j + 2].clip == o[j].clip);
                    assert(covers(n[j + 2], t));
                    lemma_side_sample_covered(n, j + 2, t);
                }
            } else {
                assert forall|m: int| 0 <= m < n.len() implies !covers(#[trigger] n[m], t) by {
                    if m < prev {
                        assert(n[m] == o[m]);
                        assert(clip_end(o[m]) <= o[prev].position);
                    } else if m == idx + 1 {
                        assert(!covers(o[prev], t2));
                    } else if m > idx + 1 {
                        assert(!covers(o[m - 2], t2));
                    }
                }
                lemma_side_sample_uncovered(o, t2);
                lemma_side_sample_uncovered(n, t);
            }
        }
    }
}

/// A channel of a track seen as a clip.
pub struct TrackClip {
    sample_rate: u32,
    duration: u64,
    clips: Vec<ClipPosition>,
}

impl TrackClip {
    #[verifier::type_invariant]
    spec fn arranged(self) -> bool {
        side_wf(self.clips@)
    }

    /// What the channel plays over its first `duration` sample times.
    pub closed spec fn audio(self) -> Seq<Sample>
        decreases self,
    {
        Seq::new(self.duration as nat, |t: int| side_sample(self.clips@, t))
    }

    pub closed spec fn rate(self) -> u32
        decreases self,
    {
        self.sample_rate
    }

    pub fn length(&self) -> (d: u64)
        ensures
            d == self.audio().len(),
    {
        self.duration
    }

    pub fn rate_hz(&self) -> (r: u32)
        ensures
            r == self.rate(),
    {
        self.sample_rate
    }

    /// The sample at a point: that of the clip sounding then, or 0.
    pub fn sample(&self, sample_at: u64) -> (s: Sample)
        ensures
            s == sample_or_silence(self.audio(), sample_at as int),
        decreases self,
    {
        proof {
            use_type_invariant(self);
        }
        if sample_at >= self.duration {
            return 0;
        }
        let u = count_starting_by(&self.clips, sample_at);
        proof {
            lemma_last_starting_by_is(self.clips@, sample_at as int, u as int);
        }
        if u == 0 {
            0
        } else {
            let k = u - 1;
            self.clips[k].clip.sample(sample_at - self.clips[k].position)
        }
    }
}

impl Clip for TrackClip {
    open spec fn clip_audio(&self) -> Seq<Sample> {
        self.audio()
    }

    open spec fn clip_rate(&self) -> u32 {
        self.rate()
    }

    fn duration(&self) -> (d: u64) {
        self.length()
    }

    /// Returns the number of samples per second of this clip.
    fn sample_rate(&self) -> (r: u32) {
        self.rate_hz()
    }

    /// Gets the sample at a point.
    fn get(&self, sample_at: u64) -> (s: Sample) {
        self.sample(sample_at)
    }
}

/// Moves every clip from index `from` on later by `d` samples.
fn shift_from(side: &mut Vec<ClipPosition>, from: usize, d: u64)
    requires
        from <= old(side)@.len(),
        forall|j: int|
            from <= j < old(side)@.len() ==> (#[trigger] old(side)@[j]).position + d <= u64::MAX,
    ensures
        final(side)@.len() == old(side)@.len(),
        forall|j: int| 0 <= j < from ==> #[trigger] final(side)@[j] == old(side)@[j],
        forall|j: int|
            from <= j < old(side)@.len() ==> (#[trigger] final(side)@[j]).clip == old(side)@[j].clip
                && final(side)@[j].position == old(side)@[j].position + d,
{
    let ghost before = side@;
    let mut i = from;
    while i < side.len()
        invariant
            from <= i <= side@.len(),
            side@.len() == before.len(),
            forall|j: int| 0 <= j < from ==> #[trigger] side@[j] == before[j],
            forall|j: int|
                from <= j < i ==> (#[trigger] side@[j]).clip == before[j].clip && side@[j].position
                    == before[j].position + d,
            forall|j: int| i <= j < side@.len() ==> #[trigger] side@[j] == before[j],
            forall|j: int| from <= j < before.len() ==> (#[trigger] before[j]).position + d <= u64::MAX,
        decreases side@.len() - i,
    {
        let moved = ClipPosition { clip: side[i].clip.share(), position: side[i].position + d };
        side.set(i, moved);
        i = i + 1;
    }
}

/// A named track of mono audio: clips arranged on a timeline, kept as a left
/// and a right channel that carry the same audio.
pub struct Track {
    name: String,
    sample_rate: u32,
    left_clips: Vec<ClipPosition>,
    right_clips: Vec<ClipPosition>,
}

impl Track {
    #[verifier::type_invariant]
    spec fn channels_consistent(self) -> bool {
        &&& side_wf(self.left_clips@)
        &&& side_wf(self.right_clips@)
        &&& side_end(self.left_clips@) == side_end(self.right_clips@)
        &&& forall|t: int|
            #[trigger] side_sample(self.left_clips@, t) == side_sample(self.right_clips@, t)
    }

    /// The track's name.
    pub closed spec fn name_view(self) -> Seq<char> {
        self.name@
    }

    /// The track's sample rate.
    pub closed spec fn rate(self) -> u32 {
        self.sample_rate
    }

    /// The clips of the left channel with their positions, in order.
    pub closed spec fn left_arrangement(self) -> Seq<ClipPosition> {
        self.left_clips@
    }

    /// The clips of the right channel with their positions, in order.
    pub closed spec fn right_arrangement(self) -> Seq<ClipPosition> {
        self.right_clips@
    }

    /// What the left channel plays at time `t`.
    pub open spec fn left_at(self, t: int) -> Sample {
        side_sample(self.left_arrangement(), t)
    }

    /// What the right channel plays at time `t`.
    pub open spec fn right_at(self, t: int) -> Sample {
        side_sample(self.right_arrangement(), t)
    }

    /// The end of the longer channel.
    pub open spec fn length(self) -> nat {
        let l = side_end(self.left_arrangement());
        let r = side_end(self.right_arrangement());
        if r > l {
            r as nat
        } else {
            l as nat
        }
    }

    /// What the left channel plays over the track's duration.
    pub open spec fn left_audio(self) -> Seq<Sample> {
        Seq::new(self.length() as nat, |t: int| self.left_at(t))
    }

    /// What the right channel plays over the track's duration.
    pub open spec fn right_audio(self) -> Seq<Sample> {
        Seq::new(self.length() as nat, |t: int| self.right_at(t))
    }

    /// Creates a new, empty track with a given name and sample rate.
    ///
    /// # Example
    /// let track = Track::new("my_track".to_owned(), 44100);
    pub fn new(name: String, sample_rate: u32) -> (r: Self)
        ensures
            r.name_view() == name@,
            r.rate() == sample_rate,
            r.length() == 0,
            r.left_arrangement().len() == 0,
            r.right_arrangement().len() == 0,
            forall|t: int| #[trigger] r.left_at(t) == 0 && r.right_at(t) == 0,
    {
        Track { name, sample_rate, left_clips: Vec::new(), right_clips: Vec::new() }
    }

    /// The track's name.
    pub fn name(&self) -> (r: &str)
        ensures
            r@ == self.name_view(),
    {
        self.name.as_str()
    }

    /// The track's sample rate.
    pub fn sample_rate(&self) -> (r: u32)
        ensures
            r == self.rate(),
    {
        self.sample_rate
    }

    /// Inserts a clip into both channels at `position`, shifting later clips
    /// by the inserted clip's duration. A clip that sounds across `position`
    /// is split around the new one. Returns false, and leaves the track as
    /// it was, when the clip's sample rate differs from the track's.
    pub fn insert_mono(&mut self, clip: ClipRef, position: u64) -> (r: bool)
        requires
            clip.rate() == old(self).rate() ==> (if old(self).length() > position {
                old(self).length() as int
            } else {
                position as int
            }) + clip.audio().len() <= u64::MAX,
        ensures
            r == (clip.rate() == old(self).rate()),
            !r ==> *final(self) == *old(self),
            final(self).name_view() == old(self).name_view(),
            final(self).rate() == old(self).rate(),
            r ==> final(self).length() == (if old(self).length() > position {
                old(self).length() as int
            } else {
                position as int
            }) + clip.audio().len(),
            r ==> forall|t: int| #[trigger]
                final(self).left_at(t) == (if t < position {
                    old(self).left_at(t)
                } else if t < position + clip.audio().len() {
                    clip.audio()[t - position]
                } else {
                    old(self).left_at(t - clip.audio().len())
                }),
            r ==> forall|t: int| #[trigger]
                final(self).right_at(t) == (if t < position {
                    old(self).right_at(t)
                } else if t < position + clip.audio().len() {
                    clip.audio()[t - position]
                } else {
                    old(self).right_at(t - clip.audio().len())
                }),
            forall|t: int| #[trigger] final(self).left_at(t) == final(self).right_at(t),
            side_wf(final(self).left_arrangement()),
            side_wf(final(self).right_arrangement()),
            r ==> exists|idx: int|
                inserted_arrangement(
                    old(self).left_arrangement(),
                    final(self).left_arrangement(),
                    clip,
                    position as int,
                    idx,
                ),
            r ==> exists|idx: int|
                inserted_arrangement(
                    old(self).right_arrangement(),
                    final(self).right_arrangement(),
                    clip,
                    position as int,
                    idx,
                ),
    {
        proof {
            use_type_invariant(&*self);
        }
        if clip.rate_hz() != self.sample_rate {
            return false;
        }
        let mut taken = Track::new(String::new(), 0);
        std::mem::swap(self, &mut taken);
        proof {
            use_type_invariant(&taken);
        }
        let Track { name, sample_rate, mut left_clips, mut right_clips } = taken;
        let ghost old_left = left_clips@;
        let ghost old_right = right_clips@;
        let ghost audio = clip.audio();
        let ghost inserted = clip;
        let other = clip.share();
        Self::insert(&mut left_clips, other, position);
        Self::insert(&mut right_clips, clip, position);
        let ghost li = choose|idx: int|
            inserted_arrangement(old_left, left_clips@, inserted, position as int, idx);
        let ghost ri = choose|idx: int|
            inserted_arrangement(old_right, right_clips@, inserted, position as int, idx);
        proof {
            assert forall|t: int| #[trigger]
                side_sample(left_clips@, t) == side_sample(right_clips@, t) by {
                assert(side_sample(old_left, t) == side_sample(old_right, t));
                assert(side_sample(old_left, t - audio.len()) == side_sample(
                    old_right,
                    t - audio.len(),
                ));
            }
        }
        *self = Track { name, sample_rate, left_clips, right_clips };
        assert(inserted_arrangement(
            old(self).left_arrangement(),
            self.left_arrangement(),
            inserted,
            position as int,
            li,
        ));
        assert(inserted_arrangement(
            old(self).right_arrangement(),
            self.right_arrangement(),
            inserted,
            position as int,
            ri,
        ));
        true
    }

    /// Returns the duration of the entire Track. If the mono and stereo
    /// channels have different durations, the longer one is returned.
    pub fn duration(&self) -> (d: u64)
        ensures
            d == self.length(),
            forall|t: int| t >= d ==> #[trigger] self.left_at(t) == 0 && self.right_at(t) == 0,
    {
        proof {
            use_type_invariant(self);
            lemma_ends_within(self.left_clips@);
            lemma_ends_within(self.right_clips@);
            assert forall|t: int| t >= self.length() implies #[trigger] self.left_at(t) == 0
                && self.right_at(t) == 0 by {
                side_silent_after_end(self.left_clips@, t);
                side_silent_after_end(self.right_clips@, t);
            }
        }
        let left_dur = if self.left_clips.len() == 0 {
            0
        } else {
            let last = &self.left_clips[self.left_clips.len() - 1];
            last.position + last.clip.length()
        };
        let right_dur = if self.right_clips.len() == 0 {
            0
        } else {
            let last = &self.right_clips[self.right_clips.len() - 1];
            last.position + last.clip.length()
        };
        if right_dur > left_dur {
            right_dur
        } else {
            left_dur
        }
    }

    // A channel of this track as a clip lasting as long as the track.
    fn track_to_clip(&self, side: &Vec<ClipPosition>) -> (r: ClipRef)
        requires
            side_wf(side@),
        ensures
            r.audio() == Seq::new(self.length() as nat, |t: int| side_sample(side@, t)),
            r.rate() == self.rate(),
    {
        let tc = TrackClip {
            sample_rate: self.sample_rate,
            duration: self.duration(),
            clips: copy_side(side),
        };
        ClipRef::Track(Arc::new(tc))
    }

    /// The left channel as a clip as long as the track.
    pub fn left_channel_as_clip(&self) -> (r: ClipRef)
        ensures
            r.audio() == self.left_audio(),
            r.rate() == self.rate(),
    {
        proof {
            use_type_invariant(self);
        }
        let r = self.track_to_clip(&self.left_clips);
        proof {
            assert(r.audio() =~= Seq::new(self.length() as nat, |t: int| self.left_at(t)));
        }
        r
    }

    /// The right channel as a clip as long as the track.
    pub fn right_channel_as_clip(&self) -> (r: ClipRef)
        ensures
            r.audio() == self.right_audio(),
            r.rate() == self.rate(),
    {
        proof {
            use_type_invariant(self);
        }
        let r = self.track_to_clip(&self.right_clips);
        proof {
            assert(r.audio() =~= Seq::new(self.length() as nat, |t: int| self.right_at(t)));
        }
        r
    }

    // Inserts a clip into one channel at `position`: a clip sounding at that
    // point is split around the new one, and every later clip is moved back
    // by the inserted clip's duration.
    fn insert(side: &mut Vec<ClipPosition>, clip: ClipRef, position: u64)
        requires
            side_wf(old(side)@),
            (if side_end(old(side)@) > position { side_end(old(side)@) } else { position as int })
                + clip.audio().len() <= u64::MAX,
        ensures
            side_wf(final(side)@),
            side_end(final(side)@) == (if side_end(old(side)@) > position {
                side_end(old(side)@)
            } else {
                position as int
            }) + clip.audio().len(),
            forall|t: int| #[trigger]
                side_sample(final(side)@, t) == inserted_sample(
                    old(side)@,
                    clip.audio(),
                    position as int,
                    t,
                ),
            exists|idx: int| inserted_arrangement(old(side)@, final(side)@, clip, position as int, idx),
    {
        let ghost o = side@;
        let idx = count_starting_before(side, position);
        if idx < side.len() && side[idx].position == position {
            proof {
                assert forall|j: int| 0 <= j < idx implies clip_end(#[trigger] o[j]) <= position by {
                    assert(clip_end(o[j]) <= o[idx as int].position);
                }
            }
            insert_without_split(side, clip, position, idx);
        } else if idx == 0 {
            insert_without_split(side, clip, position, 0);
        } else {
            let split_index = idx - 1;
            let split_duration = side[split_index].clip.length();
            let split_position = side[split_index].position;
            let split_point = position - split_position;
            if split_duration > split_point {
                insert_splitting(side, clip, position, idx);
            } else {
                proof {
                    assert forall|j: int| 0 <= j < idx implies clip_end(#[trigger] o[j]) <= position by {
                        if j < idx - 1 {
                            assert(clip_end(o[j]) <= o[idx - 1].position);
                        }
                    }
                }
                insert_without_split(side, clip, position, idx);
            }
        }
    }
}

// Another handle to each clip of a channel, at the same positions.
fn copy_side(side: &Vec<ClipPosition>) -> (r: Vec<ClipPosition>)
    ensures
        r@ == side@,
{
    let mut r: Vec<ClipPosition> = Vec::new();
    let mut i: usize = 0;
    while i < side.len()
        invariant
            i <= side@.len(),
            r@ == side@.subrange(0, i as int),
        decreases side@.len() - i,
    {
        r.push(ClipPosition { clip: side[i].clip.share(), position: side[i].position });
        i = i + 1;
    }
    assert(side@.subrange(0, side@.len() as int) =~= side@);
    r
}

// Inserts `clip` at index `idx` of a channel where no clip sounds across
// `position`, and moves the later clips back.
fn insert_without_split(side: &mut Vec<ClipPosition>, clip: ClipRef, position: u64, idx: usize)
    requires
        side_wf(old(side)@),
        idx <= old(side)@.len(),
        forall|j: int| 0 <= j < idx ==> (#[trigger] old(side)@[j]).position < position,
        forall|j: int| 0 <= j < idx ==> clip_end(#[trigger] old(side)@[j]) <= position,
        forall|j: int| idx <= j < old(side)@.len() ==> (#[trigger] old(side)@[j]).position >= position,
        (if side_end(old(side)@) > position { side_end(old(side)@) } else { position as int })
            + clip.audio().len() <= u64::MAX,
    ensures
        side_wf(final(side)@),
        side_end(final(side)@) == (if side_end(old(side)@) > position {
            side_end(old(side)@)
        } else {
            position as int
        }) + clip.audio().len(),
        forall|t: int| #[trigger]
            side_sample(final(side)@, t) == inserted_sample(old(side)@, clip.audio(), position as int, t),
        inserted_arrangement(old(side)@, final(side)@, clip, position as int, idx as int),
{
    let ghost o = side@;
    let ghost c = clip;
    proof {
        lemma_ends_within(o);
    }
    let dur = clip.length();
    side.insert(idx, ClipPosition { clip, position });
    assert(idx < side.len());
    let ghost pre = side@;
    shift_from(side, idx + 1, dur);
    proof {
        assert forall|j: int| idx < j < side@.len() implies (#[trigger] side@[j]).clip == o[j
            - 1].clip && side@[j].position == o[j - 1].position + c.audio().len() by {
            assert(pre[j] == o[j - 1]);
        }
        assert forall|j: int| 0 <= j < idx implies #[trigger] side@[j] == o[j] by {
            assert(pre[j] == o[j]);
        }
        lemma_plain_insert(o, side@, c, position as int, idx as int);
    }
}

// Inserts `clip` at `position`, inside the clip at index `idx - 1`: that clip
// is split in two around the new one, and the later clips move back.
fn insert_splitting(side: &mut Vec<ClipPosition>, clip: ClipRef, position: u64, idx: usize)
    requires
        side_wf(old(side)@),
        1 <= idx <= old(side)@.len(),
        forall|j: int| 0 <= j < idx ==> (#[trigger] old(side)@[j]).position < position,
        old(side)@[idx - 1].position < position < clip_end(old(side)@[idx - 1]),
        forall|j: int| idx <= j < old(side)@.len() ==> (#[trigger] old(side)@[j]).position >= position,
        (if side_end(old(side)@) > position { side_end(old(side)@) } else { position as int })
            + clip.audio().len() <= u64::MAX,
    ensures
        side_wf(final(side)@),
        side_end(final(side)@) == (if side_end(old(side)@) > position {
            side_end(old(side)@)
        } else {
            position as int
        }) + clip.audio().len(),
        forall|t: int| #[trigger]
            side_sample(final(side)@, t) == inserted_sample(old(side)@, clip.audio(), position as int, t),
        inserted_arrangement(old(side)@, final(side)@, clip, position as int, idx as int),
{
    let ghost o = side@;
    let ghost c = clip;
    proof {
        lemma_ends_within(o);
    }
    let dur = clip.length();
    let split_index = idx - 1;
    let split_position = side[split_index].position;
    let split_point = position - split_position;
    let split_clip = side[split_index].clip.share();
    if let Some((l, r)) = Subclip::split(split_clip, split_point) {
        side.set(split_index, ClipPosition { clip: ClipRef::Sub(l), position: split_position });
        side.insert(idx, ClipPosition { clip, position });
        assert(idx < side.len());
        let tail_position = position + dur;
        side.insert(idx + 1, ClipPosition { clip: ClipRef::Sub(r), position: tail_position });
        assert(idx + 1 < side.len());
        let ghost pre = side@;
        shift_from(side, idx + 2, dur);
        proof {
            assert forall|j: int| 0 <= j < idx - 1 implies #[trigger] side@[j] == o[j] by {
                assert(pre[j] == o[j]);
            }
            assert forall|j: int| idx + 1 < j < side@.len() implies (#[trigger] side@[j]).clip
                == o[j - 2].clip && side@[j].position == o[j - 2].position + c.audio().len() by {
                assert(pre[j] == o[j - 2]);
            }
            assert(side@[split_index as int] == pre[split_index as int]);
            assert(side@[idx as int] == pre[idx as int]);
            assert(side@[idx + 1] == pre[idx + 1]);
            lemma_split_insert(o, side@, c, position as int, idx as int);
        }
    }
}

} // verus!
