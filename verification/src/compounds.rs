//! Compound clips: a window into another clip, the joining of two clips, and
//! a clip played backwards. Each refers to its parts through `ClipRef`.

use std::sync::Arc;
use vstd::prelude::*;
use crate::outline::{Clip, ClipRef, Sample, Time, sample_or_silence};

verus! {

/// A struct used to represent a subset of audio data within a larger set via
/// reference. Good for working with smaller chunks of data out of a
/// SampleArray.
pub struct Subclip {
    clip: ClipRef,
    start: u64,
    duration: u64,
}

impl Subclip {
    #[verifier::type_invariant]
    spec fn within_source(self) -> bool {
        &&& self.start + self.duration <= self.clip.audio().len()
        &&& self.clip.audio().len() <= u64::MAX
    }

    /// The samples `start .. start + duration` of the source clip.
    pub closed spec fn audio(self) -> Seq<Sample>
        decreases self,
    {
        self.clip.audio().subrange(self.start as int, self.start + self.duration)
    }

    /// The sample rate of the source clip.
    pub closed spec fn rate(self) -> u32
        decreases self,
    {
        self.clip.rate()
    }

    /// The split time (start_time + duration_time) must be within the
    /// duration of the clip, else None is returned.
    pub fn new<S: Time, T: Time>(clip: ClipRef, start_time: S, duration_time: T) -> (r: Option<
        Arc<Self>,
    >)
        ensures
            ({
                let start = start_time.samples_in(clip.rate()) as int;
                let duration = duration_time.samples_in(clip.rate()) as int;
                match r {
                    Some(s) => {
                        &&& start + duration <= clip.audio().len()
                        &&& s.audio() == clip.audio().subrange(start, start + duration)
                        &&& s.rate() == clip.rate()
                    },
                    None => start + duration > clip.audio().len(),
                }
            }),
    {
        let spc = clip.rate_hz();
        let start = start_time.to_samples(spc);
        let duration = duration_time.to_samples(spc);
        let available = clip.length();
        match start.checked_add(duration) {
            Some(end) => {
                if available < end {
                    None
                } else {
                    proof {
                        assert(clip.audio().len() <= u64::MAX);
                    }
                    Some(Arc::new(Subclip { clip, start, duration }))
                }
            },
            None => None,
        }
    }

    /// Returns a Subclip from the beginning of the source clip to a specified
    /// time into the clip.
    pub fn from_start<T: Time>(clip: ClipRef, duration_time: T) -> (r: Option<Arc<Self>>)
        ensures
            ({
                let duration = duration_time.samples_in(clip.rate()) as int;
                match r {
                    Some(s) => {
                        &&& duration <= clip.audio().len()
                        &&& s.audio() == clip.audio().subrange(0, duration)
                        &&& s.rate() == clip.rate()
                    },
                    None => duration > clip.audio().len(),
                }
            }),
    {
        Self::new(clip, 0u64, duration_time)
    }

    /// Returns a Subclip from the specified start time to the end of the
    /// source clip. None when the start lies past the end.
    pub fn to_end<T: Time>(clip: ClipRef, start_time: T) -> (r: Option<Arc<Self>>)
        ensures
            ({
                let start = start_time.samples_in(clip.rate()) as int;
                match r {
                    Some(s) => {
                        &&& start <= clip.audio().len()
                        &&& s.audio() == clip.audio().subrange(start, clip.audio().len() as int)
                        &&& s.rate() == clip.rate()
                    },
                    None => start > clip.audio().len(),
                }
            }),
    {
        let spc = clip.rate_hz();
        let start = start_time.to_samples(spc);
        let duration = clip.length();
        if start > duration {
            None
        } else {
            Self::new(clip, start, duration - start)
        }
    }

    /// Returns two Subclips, one from the beginning of the source clip to the
    /// split point, and one from the split point to the end of the source
    /// clip. None when the split point lies past the end of the clip.
    pub fn split<T: Time>(clip: ClipRef, split_time: T) -> (r: Option<(Arc<Self>, Arc<Self>)>)
        ensures
            ({
                let split = split_time.samples_in(clip.rate()) as int;
                let audio = clip.audio();
                match r {
                    Some((first, second)) => {
                        &&& split <= audio.len()
                        &&& first.audio() == audio.subrange(0, split)
                        &&& second.audio() == audio.subrange(split, audio.len() as int)
                        &&& first.audio() + second.audio() == audio
                        &&& first.rate() == clip.rate()
                        &&& second.rate() == clip.rate()
                    },
                    None => split > audio.len(),
                }
            }),
    {
        let spc = clip.rate_hz();
        let split = split_time.to_samples(spc);
        let clip2 = clip.share();
        if let Some(first_half) = Self::from_start(clip, split) {
            if let Some(second_half) = Self::to_end(clip2, split) {
                proof {
                    let audio = clip2.audio();
                    assert(audio.subrange(0, split as int) + audio.subrange(
                        split as int,
                        audio.len() as int,
                    ) =~= audio);
                }
                return Some((first_half, second_half));
            }
        }
        None
    }

    /// The duration in samples.
    pub fn length(&self) -> (d: u64)
        ensures
            d == self.audio().len(),
    {
        proof {
            use_type_invariant(self);
        }
        self.duration
    }

    /// The number of samples per second of the source clip.
    pub fn rate_hz(&self) -> (r: u32)
        ensures
            r == self.rate(),
        decreases self,
    {
        self.clip.rate_hz()
    }

    /// The sample at a point, or 0 out of range.
    pub fn sample(&self, sample_at: u64) -> (s: Sample)
        ensures
            s == sample_or_silence(self.audio(), sample_at as int),
        decreases self,
    {
        proof {
            use_type_invariant(self);
        }
        if sample_at < self.duration {
            self.clip.sample(self.start + sample_at)
        } else {
            0
        }
    }
}

impl Clip for Subclip {
    open spec fn clip_audio(&self) -> Seq<Sample> {
        self.audio()
    }

    open spec fn clip_rate(&self) -> u32 {
        self.rate()
    }

    /// Returns the duration in samples.
    fn duration(&self) -> (d: u64) {
        self.length()
    }

    /// Returns the number of samples per second of this clip.
    fn sample_rate(&self) -> (r: u32) {
        self.rate_hz()
    }

    /// Gets the sample at a point.
    fn get(&self, sample_at: u64) -> (s: Sample) {
        self.sample(sample_at)
    }
}

/// A struct used to represent the joining of two Clip objects.
/// Good for chaining together Subclips.
pub struct Concat {
    left: ClipRef,
    right: ClipRef,
    left_duration: u64,
    total_duration: u64,
}

impl Concat {
    #[verifier::type_invariant]
    spec fn consistent(self) -> bool {
        &&& self.left_duration == self.left.audio().len()
        &&& self.total_duration == self.left_duration + self.right.audio().len()
        &&& self.left.rate() == self.right.rate()
    }

    /// The samples of the left clip followed by those of the right clip.
    pub closed spec fn audio(self) -> Seq<Sample>
        decreases self,
    {
        self.left.audio() + self.right.audio()
    }

    /// The common sample rate of both parts.
    pub closed spec fn rate(self) -> u32
        decreases self,
    {
        self.left.rate()
    }

    /// The two clips to be joined must use the same sample rate, or else None
    /// is returned.
    pub fn new(left: ClipRef, right: ClipRef) -> (r: Option<Arc<Self>>)
        requires
            left.rate() == right.rate() ==> left.audio().len() + right.audio().len() <= u64::MAX,
        ensures
            r is Some <==> left.rate() == right.rate(),
            r matches Some(c) ==> c.audio() == left.audio() + right.audio() && c.rate()
                == left.rate(),
    {
        if left.rate_hz() == right.rate_hz() {
            let left_duration = left.length();
            let total_duration = left_duration + right.length();
            Some(Arc::new(Concat { left, right, left_duration, total_duration }))
        } else {
            None
        }
    }

    /// The duration in samples.
    pub fn length(&self) -> (d: u64)
        ensures
            d == self.audio().len(),
    {
        proof {
            use_type_invariant(self);
        }
        self.total_duration
    }

    /// The number of samples per second.
    pub fn rate_hz(&self) -> (r: u32)
        ensures
            r == self.rate(),
        decreases self,
    {
        self.left.rate_hz()
    }

    /// The sample at a point: from the left clip before its end, from the
    /// right clip after it, 0 out of range.
    pub fn sample(&self, sample_at: u64) -> (s: Sample)
        ensures
            s == sample_or_silence(self.audio(), sample_at as int),
        decreases self,
    {
        proof {
            use_type_invariant(self);
        }
        if sample_at >= self.left_duration {
            self.right.sample(sample_at - self.left_duration)
        } else {
            self.left.sample(sample_at)
        }
    }
}

impl Clip for Concat {
    open spec fn clip_audio(&self) -> Seq<Sample> {
        self.audio()
    }

    open spec fn clip_rate(&self) -> u32 {
        self.rate()
    }

    /// Returns the duration in samples.
    fn duration(&self) -> (d: u64) {
        self.length()
    }

    /// Returns the number of samples per second of this clip.
    fn sample_rate(&self) -> (r: u32) {
        self.rate_hz()
    }

    /// Gets the sample at a point.
    fn get(&self, sample_at: u64) -> (s: Sample) {
        self.sample(sample_at)
    }
}

/// A simple struct to represent the reverse of a clip.
pub struct Reverse(ClipRef);

impl Reverse {
    /// The samples of the inner clip in reverse order.
    pub closed spec fn audio(self) -> Seq<Sample>
        decreases self,
    {
        self.0.audio().reverse()
    }

    /// The sample rate of the inner clip.
    pub closed spec fn rate(self) -> u32
        decreases self,
    {
        self.0.rate()
    }

    pub fn new(clip: ClipRef) -> (r: Self)
        ensures
            r.audio() == clip.audio().reverse(),
            r.rate() == clip.rate(),
    {
        Reverse(clip)
    }

    /// The duration in samples.
    pub fn length(&self) -> (d: u64)
        ensures
            d == self.audio().len(),
        decreases self,
    {
        self.0.length()
    }

    /// The number of samples per second.
    pub fn rate_hz(&self) -> (r: u32)
        ensures
            r == self.rate(),
        decreases self,
    {
        self.0.rate_hz()
    }

    /// Samples are got by inverting the index: 0 gives the last sample of the
    /// inner clip, 1 the one before it, and so on; 0 out of range.
    pub fn sample(&self, sample_at: u64) -> (s: Sample)
        ensures
            s == sample_or_silence(self.audio(), sample_at as int),
        decreases self,
    {
        let n = self.0.length();
        if sample_at < n {
            self.0.sample(n - sample_at - 1)
        } else {
            0
        }
    }
}

impl Clip for Reverse {
    open spec fn clip_audio(&self) -> Seq<Sample> {
        self.audio()
    }

    open spec fn clip_rate(&self) -> u32 {
        self.rate()
    }

    /// Returns the duration in samples.
    fn duration(&self) -> (d: u64) {
        self.length()
    }

    /// Returns the number of samples per second of this clip.
    fn sample_rate(&self) -> (r: u32) {
        self.rate_hz()
    }

    /// Gets the sample at a point. Samples are got by inverting the index.
    fn get(&self, sample_at: u64) -> (s: Sample) {
        self.sample(sample_at)
    }
}

/// Playing a reversed clip backwards gives back the clip.
pub proof fn reverse_twice_restores(clip: ClipRef)
    ensures
        clip.audio().reverse().reverse() == clip.audio(),
{
    assert(clip.audio().reverse().reverse() =~= clip.audio());
}

/// Splitting a clip at any point inside it and joining the halves gives back
/// the clip: the parts returned by `Subclip::split` concatenate to the
/// source.
pub proof fn split_then_join_restores(audio: Seq<Sample>, split: int)
    requires
        0 <= split <= audio.len(),
    ensures
        audio.subrange(0, split) + audio.subrange(split, audio.len() as int) == audio,
{
    assert(audio.subrange(0, split) + audio.subrange(split, audio.len() as int) =~= audio);
}

} // verus!
