//! Time signatures.

use vstd::prelude::*;
use crate::text::{decimal, push_char, push_decimal};

verus! {

/// A time signature: `beats` beats to the measure, each a `beat_unit` note.
#[derive(Debug)]
pub struct TimeSignature {
    beats: u16,
    beat_unit: u16,
}

impl TimeSignature {
    /// The number of beats per measure (the 3 of 3/8).
    pub closed spec fn spec_beats(self) -> u16 {
        self.beats
    }

    /// The note value of one beat (the 8 of 3/8).
    pub closed spec fn spec_beat_unit(self) -> u16 {
        self.beat_unit
    }

    pub fn new(beats: u16, beat_unit: u16) -> (r: Self)
        ensures
            r.spec_beats() == beats,
            r.spec_beat_unit() == beat_unit,
    {
        TimeSignature { beats, beat_unit }
    }

    /// 4/4.
    pub fn common_time() -> (r: Self)
        ensures
            r.spec_beats() == 4,
            r.spec_beat_unit() == 4,
    {
        Self::new(4, 4)
    }

    /// 2/2.
    pub fn cut_time() -> (r: Self)
        ensures
            r.spec_beats() == 2,
            r.spec_beat_unit() == 2,
    {
        Self::new(2, 2)
    }

    /// The number of beats per measure.
    pub fn beats(&self) -> (r: u16)
        ensures
            r == self.spec_beats(),
    {
        self.beats
    }

    /// The note value of one beat.
    pub fn beat_unit(&self) -> (r: u16)
        ensures
            r == self.spec_beat_unit(),
    {
        self.beat_unit
    }

    /// The signature written as `beats/beat_unit`, such as "3/8".
    pub fn to_string(&self) -> (r: String)
        ensures
            r@ == decimal(self.spec_beats() as nat) + seq!['/'] + decimal(
                self.spec_beat_unit() as nat,
            ),
    {
        let mut s = String::new();
        push_decimal(&mut s, self.beats as u64);
        push_char(&mut s, '/');
        push_decimal(&mut s, self.beat_unit as u64);
        assert(s@ =~= decimal(self.spec_beats() as nat) + seq!['/'] + decimal(
            self.spec_beat_unit() as nat,
        ));
        s
    }
}

} // verus!
