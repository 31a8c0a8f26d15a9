//! The core traits for structs that represent audio data, and `ClipRef`,
//! the shared handle through which compound clips refer to other clips.

use std::sync::Arc;
use vstd::prelude::*;
use crate::samplearray::SampleArray;
use crate::compounds::{Subclip, Concat, Reverse};
use crate::track::TrackClip;

verus! {

/// A type to represent the size of one unit of audio data.
pub type Sample = i16;

/// The value a clip holding `audio` reports at `index`: the sample there, or
/// silence (0) when `index` is out of range.
pub open spec fn sample_or_silence(audio: Seq<Sample>, index: int) -> Sample {
    if 0 <= index < audio.len() {
        audio[index]
    } else {
        0
    }
}

/// Moments and durations are represented by types that implement `Time`.
/// Convertible to/from the equivalent number of samples. This allows time to
/// be represented in different ways, e.g. measures+beats, seconds+millis, etc.
pub trait Time: Sized {
    /// The number of samples that takes up the same amount of time as `self`.
    spec fn samples_in(&self, sample_rate: u32) -> u64;

    /// The value that stands for `num_samples` samples.
    spec fn time_of(&self, num_samples: u64, sample_rate: u32) -> Self;

    /// The number of samples that takes up the same amount of time as self.
    fn to_samples(&self, sample_rate: u32) -> (n: u64)
        ensures
            n == self.samples_in(sample_rate),
    ;

    /// Returns a value representing the length of time in `num_samples`.
    fn from_samples(&self, num_samples: u64, sample_rate: u32) -> (t: Self)
        ensures
            t == self.time_of(num_samples, sample_rate),
    ;
}

/// `u64`s are treated as the raw sample count.
impl Time for u64 {
    open spec fn samples_in(&self, sample_rate: u32) -> u64 {
        *self
    }

    open spec fn time_of(&self, num_samples: u64, sample_rate: u32) -> u64 {
        num_samples
    }

    fn to_samples(&self, _sample_rate: u32) -> (n: u64) {
        *self
    }

    fn from_samples(&self, num_samples: u64, _sample_rate: u32) -> (t: u64) {
        num_samples
    }
}

/// The core functionality required by any struct that is to hold or represent
/// audio data. A clip stands for a finite sequence of samples
/// (`clip_audio`) played at `clip_rate` samples per second.
pub trait Clip {
    /// The samples this clip stands for, in playing order.
    spec fn clip_audio(&self) -> Seq<Sample>;

    /// The number of samples per second.
    spec fn clip_rate(&self) -> u32;

    /// Returns the duration of this clip in number of samples.
    fn duration(&self) -> (d: u64)
        ensures
            d == self.clip_audio().len(),
    ;

    /// Returns the number of samples per second of this clip.
    fn sample_rate(&self) -> (r: u32)
        ensures
            r == self.clip_rate(),
    ;

    /// Gets the sample at a point. Returns 0 if out of range.
    fn get(&self, sample_at: u64) -> (s: Sample)
        ensures
            s == sample_or_silence(self.clip_audio(), sample_at as int),
    ;
}

/// What linear interpolation at `sample_at + fractional` (with
/// `0 <= fractional < 1`) has to work from.
pub enum InterpolationPoints {
    /// `sample_at` lies at or past the end of the clip.
    OutOfRange,
    /// `sample_at` is the last sample: there is only this value.
    Single(Sample),
    /// The samples at `sample_at` and `sample_at + 1`.
    Pair(Sample, Sample),
}

/// Chooses the samples between which a clip is interpolated at
/// `sample_at + fractional`. The value is then `a + (b - a) * fractional`
/// rounded, for `Pair(a, b)`, and `a` for `Single(a)`; this is computed in
/// floating point by the caller.
pub fn interpolation_points<C: Clip>(clip: &C, sample_at: u64) -> (r: InterpolationPoints)
    ensures
        ({
            let audio = clip.clip_audio();
            if sample_at >= audio.len() {
                r == InterpolationPoints::OutOfRange
            } else if sample_at == audio.len() - 1 {
                r == InterpolationPoints::Single(audio[sample_at as int])
            } else {
                r == InterpolationPoints::Pair(audio[sample_at as int], audio[sample_at + 1])
            }
        }),
{
    let dur = clip.duration();
    if sample_at >= dur {
        InterpolationPoints::OutOfRange
    } else if sample_at == dur - 1 {
        InterpolationPoints::Single(clip.get(sample_at))
    } else {
        let b = clip.get(sample_at + 1);
        let a = clip.get(sample_at);
        InterpolationPoints::Pair(a, b)
    }
}

/// Any filter-style modification of audio data can be achieved by
/// implementing structs following this trait.
pub trait Filter {
    /// The samples a clip holding `audio` holds after the filter is applied
    /// to `duration` samples from `start`.
    spec fn filtered(&self, audio: Seq<Sample>, start: u64, duration: u64) -> Seq<Sample>;

    /// Applies the filter to `duration` samples of `clip` from `start`. The
    /// clip keeps its sample rate.
    fn apply_sample<C: Clip>(&self, clip: &mut C, start: u64, duration: u64)
        ensures
            final(clip).clip_audio() == self.filtered(old(clip).clip_audio(), start, duration),
            final(clip).clip_rate() == old(clip).clip_rate(),
    ;

    /// Applies the filter from `start` for `duration`, both converted to
    /// samples at the clip's sample rate.
    fn apply<C: Clip, S: Time, T: Time>(&self, clip: &mut C, start: S, duration: T)
        ensures
            final(clip).clip_audio() == self.filtered(
                old(clip).clip_audio(),
                start.samples_in(old(clip).clip_rate()),
                duration.samples_in(old(clip).clip_rate()),
            ),
            final(clip).clip_rate() == old(clip).clip_rate(),
    {
        let spc = clip.sample_rate();
        let start_samples = start.to_samples(spc);
        let duration_samples = duration.to_samples(spc);
        self.apply_sample(clip, start_samples, duration_samples)
    }
}

/// A trait for reading audio data into clips.
pub trait AudioReader {
    /// Converts n-channel audio into a vector of n reference-counted
    /// SampleArrays. Returns None upon failure.
    fn read(&mut self) -> Option<Vec<Arc<SampleArray>>>;
}

/// A trait for writing clips as audio data.
pub trait AudioWriter {
    /// Writes a Clip (one channel); returns whether it succeeded.
    fn write<C: Clip>(&mut self, clip: &C) -> bool;
}

/// A shared handle to any clip of this library. Compound clips hold their
/// parts through it, so one clip can take part in several compounds.
pub enum ClipRef {
    Samples(Arc<SampleArray>),
    Sub(Arc<Subclip>),
    Cat(Arc<Concat>),
    Rev(Arc<Reverse>),
    Track(Arc<TrackClip>),
}

impl ClipRef {
    /// The samples the referenced clip stands for.
    pub open spec fn audio(self) -> Seq<Sample>
        decreases self,
    {
        match self {
            ClipRef::Samples(a) => a.samples@,
            ClipRef::Sub(s) => s.audio(),
            ClipRef::Cat(c) => c.audio(),
            ClipRef::Rev(r) => r.audio(),
            ClipRef::Track(t) => t.audio(),
        }
    }

    /// The sample rate of the referenced clip.
    pub open spec fn rate(self) -> u32
        decreases self,
    {
        match self {
            ClipRef::Samples(a) => a.sample_rate,
            ClipRef::Sub(s) => s.rate(),
            ClipRef::Cat(c) => c.rate(),
            ClipRef::Rev(r) => r.rate(),
            ClipRef::Track(t) => t.rate(),
        }
    }

    /// Another handle to the same clip.
    pub fn share(&self) -> (r: ClipRef)
        ensures
            r == *self,
    {
        match self {
            ClipRef::Samples(a) => ClipRef::Samples(Arc::clone(a)),
            ClipRef::Sub(s) => ClipRef::Sub(Arc::clone(s)),
            ClipRef::Cat(c) => ClipRef::Cat(Arc::clone(c)),
            ClipRef::Rev(r) => ClipRef::Rev(Arc::clone(r)),
            ClipRef::Track(t) => ClipRef::Track(Arc::clone(t)),
        }
    }

    /// The number of samples of the referenced clip.
    pub fn length(&self) -> (d: u64)
        ensures
            d == self.audio().len(),
        decreases self,
    {
        match self {
            ClipRef::Samples(a) => a.length(),
            ClipRef::Sub(s) => s.length(),
            ClipRef::Cat(c) => c.length(),
            ClipRef::Rev(r) => r.length(),
            ClipRef::Track(t) => t.length(),
        }
    }

    /// The sample rate of the referenced clip.
    pub fn rate_hz(&self) -> (r: u32)
        ensures
            r == self.rate(),
        decreases self,
    {
        match self {
            ClipRef::Samples(a) => a.sample_rate,
            ClipRef::Sub(s) => s.rate_hz(),
            ClipRef::Cat(c) => c.rate_hz(),
            ClipRef::Rev(r) => r.rate_hz(),
            ClipRef::Track(t) => t.rate_hz(),
        }
    }

    /// The sample at `sample_at`, or 0 out of range.
    pub fn sample(&self, sample_at: u64) -> (s: Sample)
        ensures
            s == sample_or_silence(self.audio(), sample_at as int),
        decreases self,
    {
        match self {
            ClipRef::Samples(a) => a.sample(sample_at),
            ClipRef::Sub(s) => s.sample(sample_at),
            ClipRef::Cat(c) => c.sample(sample_at),
            ClipRef::Rev(r) => r.sample(sample_at),
            ClipRef::Track(t) => t.sample(sample_at),
        }
    }
}

impl Clip for ClipRef {
    open spec fn clip_audio(&self) -> Seq<Sample> {
        self.audio()
    }

    open spec fn clip_rate(&self) -> u32 {
        self.rate()
    }

    fn duration(&self) -> (d: u64) {
        self.length()
    }

    fn sample_rate(&self) -> (r: u32) {
        self.rate_hz()
    }

    fn get(&self, sample_at: u64) -> (s: Sample) {
        self.sample(sample_at)
    }
}

} // verus!
