//! A clip implementation to hold audio data in a vector.

use vstd::prelude::*;
use crate::outline::{Clip, Sample, sample_or_silence};

verus! {

/// A Clip implementation that maintains audio data as a vector of Samples.
/// A common use for this object would be to hold the raw data, which you then
/// reference throughout a project.
pub struct SampleArray {
    pub sample_rate: u32,
    pub samples: Vec<Sample>,
}

impl SampleArray {
    pub fn new(sample_rate: u32, samples: Vec<Sample>) -> (r: Self)
        ensures
            r.sample_rate == sample_rate,
            r.samples@ == samples@,
    {
        SampleArray { sample_rate, samples }
    }

    /// The duration in samples.
    pub fn length(&self) -> (d: u64)
        ensures
            d == self.samples@.len(),
    {
        self.samples.len() as u64
    }

    /// The sample at `sample_at`, or 0 for out-of-bounds access.
    pub fn sample(&self, sample_at: u64) -> (s: Sample)
        ensures
            s == sample_or_silence(self.samples@, sample_at as int),
    {
        if sample_at < self.samples.len() as u64 {
            self.samples[sample_at as usize]
        } else {
            0
        }
    }
}

impl Clip for SampleArray {
    open spec fn clip_audio(&self) -> Seq<Sample> {
        self.samples@
    }

    open spec fn clip_rate(&self) -> u32 {
        self.sample_rate
    }

    /// Returns the duration in samples.
    fn duration(&self) -> (d: u64) {
        self.length()
    }

    /// Returns the number of samples per second of this clip.
    fn sample_rate(&self) -> (r: u32) {
        self.sample_rate
    }

    /// Gets the sample at a point. Returns 0 for out-of-bounds access.
    fn get(&self, sample_at: u64) -> (s: Sample) {
        self.sample(sample_at)
    }
}

} // verus!
