//! The sizes of one correlation: what is validated and derived from the two
//! channel lengths before any sample is touched.

use crate::lag_window::lag_count;
use crate::smooth::is_seven_smooth;
use crate::transform_length::{
    find_transform_length, is_transform_length, largest_minimum,
    lemma_transform_length_below_double,
};
use vstd::prelude::*;

verus! {

/// Why a correlation was refused.
#[derive(Clone, Copy, Debug, PartialEq, Eq, Structural)]
pub enum CorrelationError {
    /// The two channels differ in length.
    InvalidInput,
}

impl CorrelationError {
    /// The rule that the refused input broke, in words.
    pub fn message(&self) -> (text: &'static str)
        ensures
            text@ == "channels must have equal length"@,
    {
        "channels must have equal length"
    }
}

/// The sizes of one correlation of two channels of equal length.
#[derive(Clone, Copy, Debug, PartialEq, Eq, Structural)]
pub struct CorrelationPlan {
    /// Samples in each channel.
    pub signal_length: usize,
    /// Samples in each padded buffer and in the circular correlation.
    pub transform_length: usize,
}

impl CorrelationPlan {
    /// The transform length is the smallest seven-smooth number that is at
    /// least twice the signal length.
    pub open spec fn well_formed(&self) -> bool {
        is_transform_length((2 * self.signal_length) as nat, self.transform_length as nat)
    }

    /// Frequency bins of the transform of a real buffer: half the transform
    /// length, rounded down, and one more.
    pub fn spectrum_length(&self) -> (bins: usize)
        ensures
            bins == self.transform_length / 2 + 1,
    {
        self.transform_length / 2 + 1
    }

    /// Values in the lag window: one for each lag from `-(l - 1)` to `l - 1`,
    /// none for empty channels.
    pub fn lag_count(&self) -> (count: usize)
        requires
            self.well_formed(),
        ensures
            count == lag_count(self.signal_length as nat),
    {
        if self.signal_length == 0 {
            0
        } else {
            2 * self.signal_length - 1
        }
    }
}

/// A well-formed plan has a positive, seven-smooth transform length that
/// holds every lag of the window apart, and is at least the signal length.
pub proof fn lemma_plan_holds_the_window(plan: CorrelationPlan)
    requires
        plan.well_formed(),
    ensures
        plan.transform_length >= 1,
        is_seven_smooth(plan.transform_length as nat),
        plan.transform_length >= 2 * plan.signal_length,
        plan.transform_length >= lag_count(plan.signal_length as nat),
        plan.transform_length >= plan.signal_length,
        plan.signal_length >= 1 ==> plan.transform_length < 4 * plan.signal_length,
        lag_count(plan.signal_length as nat) <= usize::MAX,
{
    if plan.signal_length >= 1 {
        lemma_transform_length_below_double(
            (2 * plan.signal_length) as nat,
            plan.transform_length as nat,
        );
    }
}

/// Validates the two channel lengths and derives the sizes of their
/// correlation.
///
/// Channels of different lengths are refused with `InvalidInput`. For
/// channels of equal length the plan holds that length and the smallest
/// seven-smooth transform length that is at least twice as large.
pub fn plan_correlation(
    left_length: usize,
    right_length: usize,
) -> (plan: Result<CorrelationPlan, CorrelationError>)
    requires
        left_length == right_length ==> 2 * left_length <= largest_minimum(),
    ensures
        plan is Err <==> left_length != right_length,
        plan matches Err(error) ==> error == CorrelationError::InvalidInput,
        plan matches Ok(sizes) ==> sizes.signal_length == left_length && sizes.well_formed(),
{
    if left_length != right_length {
        return Err(CorrelationError::InvalidInput);
    }
    let transform_length = find_transform_length(2 * left_length);
    Ok(CorrelationPlan { signal_length: left_length, transform_length })
}

} // verus!
