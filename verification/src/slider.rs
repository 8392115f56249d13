//! A slider's range and where it stands.

use vstd::prelude::*;

use crate::readout::{below, is_nan};
use crate::ytdlp::Single;

verus! {

/// The range, the distance between two stops, and the value.
#[derive(Debug, Clone, Copy, PartialEq, Eq, Structural)]
pub struct SliderState {
    pub min: Single,
    pub max: Single,
    pub step: Single,
    pub value: Single,
}

/// A value brought into a range.
pub open spec fn clamped(value: Single, min: Single, max: Single) -> Single {
    if below(value, min) {
        min
    } else if below(max, value) {
        max
    } else {
        value
    }
}

impl SliderState {
    /// The range has an order.
    pub open spec fn wf(self) -> bool {
        !is_nan(self.min) && !is_nan(self.max) && !below(self.max, self.min)
    }

    /// From nothing to one, a hundredth at a time.
    pub fn new() -> (r: SliderState)
        ensures
            r.min.bits == 0,
            r.max.bits == 0x3f80_0000,
            r.step.bits == 0x3c23_d70a,
            r.value.bits == 0,
    {
        SliderState {
            min: Single { bits: 0 },
            max: Single { bits: 0x3f80_0000 },
            step: Single { bits: 0x3c23_d70a },
            value: Single { bits: 0 },
        }
    }

    pub fn min(self, min: Single) -> (r: SliderState)
        ensures
            r == (SliderState { min, ..self }),
    {
        SliderState { min, max: self.max, step: self.step, value: self.value }
    }

    pub fn max(self, max: Single) -> (r: SliderState)
        ensures
            r == (SliderState { max, ..self }),
    {
        SliderState { min: self.min, max, step: self.step, value: self.value }
    }

    pub fn step(self, step: Single) -> (r: SliderState)
        ensures
            r == (SliderState { step, ..self }),
    {
        SliderState { min: self.min, max: self.max, step, value: self.value }
    }

    pub fn default_value(self, value: Single) -> (r: SliderState)
        ensures
            r == (SliderState { value, ..self }),
    {
        SliderState { min: self.min, max: self.max, step: self.step, value }
    }

    pub fn value(&self) -> (r: Single)
        ensures
            r == self.value,
    {
        self.value
    }

    /// Moves to a value, or as far towards it as the range goes.
    pub fn set_value(&mut self, value: Single)
        requires
            old(self).wf(),
        ensures
            *final(self) == (SliderState {
                value: clamped(value, old(self).min, old(self).max),
                ..*old(self)
            }),
    {
        if value.is_below(self.min) {
            self.value = self.min;
        } else if self.max.is_below(value) {
            self.value = self.max;
        } else {
            self.value = value;
        }
    }
}

/// A slider never leaves its range, and going where it already stands changes
/// nothing.
pub proof fn lemma_values_stay_within(value: Single, min: Single, max: Single)
    requires
        !is_nan(min) && !is_nan(max) && !below(max, min),
    ensures
        !below(clamped(value, min, max), min),
        !below(max, clamped(value, min, max)),
        clamped(clamped(value, min, max), min, max) == clamped(value, min, max),
{
}

/// A value within the range is kept; below it is the least, above it the most.
pub proof fn lemma_value_within_the_range_is_kept(value: Single, min: Single, max: Single)
    requires
        !is_nan(min) && !is_nan(max) && !below(max, min),
    ensures
        below(value, min) ==> clamped(value, min, max) == min,
        below(max, value) ==> clamped(value, min, max) == max,
        !below(value, min) && !below(max, value) ==> clamped(value, min, max) == value,
{
}

} // verus!
