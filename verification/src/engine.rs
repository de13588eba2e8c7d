//! Decisions the wake-word engine takes on plain values: whether and from
//! which rate audio is resampled, and which output of the second-stage model
//! holds the class logits.

use vstd::prelude::*;
use resampler::SampleRate;

verus! {

/// Sample rate the models were trained at.
pub const TARGET_SAMPLE_RATE: u32 = 16000;

/// Number of classes the second-stage model scores.
pub const LOGITS_LEN: usize = 2;

/// An input sample rate the resampler accepts.
#[derive(PartialEq, Eq, Structural, Clone, Copy, Debug)]
pub enum InputRate {
    Hz22050,
    Hz16000,
    Hz32000,
    Hz44100,
    Hz48000,
    Hz88200,
    Hz96000,
    Hz176400,
    Hz192000,
    Hz384000,
}

/// The accepted rate of `hz` Hz, if the resampler accepts it.
pub open spec fn spec_input_rate(hz: u32) -> Option<InputRate> {
    if hz == 22050 {
        Some(InputRate::Hz22050)
    } else if hz == 16000 {
        Some(InputRate::Hz16000)
    } else if hz == 32000 {
        Some(InputRate::Hz32000)
    } else if hz == 44100 {
        Some(InputRate::Hz44100)
    } else if hz == 48000 {
        Some(InputRate::Hz48000)
    } else if hz == 88200 {
        Some(InputRate::Hz88200)
    } else if hz == 96000 {
        Some(InputRate::Hz96000)
    } else if hz == 176400 {
        Some(InputRate::Hz176400)
    } else if hz == 192000 {
        Some(InputRate::Hz192000)
    } else if hz == 384000 {
        Some(InputRate::Hz384000)
    } else {
        None
    }
}

/// Calls `<resampler::SampleRate as TryFrom<u32>>::try_from` and tells its
/// variants apart. The crate accepts exactly the ten rates listed in
/// `spec_input_rate`, each as the variant of the same name, and refuses every
/// other value.
#[verifier::external_body]
fn input_rate_from_hz(hz: u32) -> (r: Option<InputRate>)
    ensures
        r == spec_input_rate(hz),
{
    match SampleRate::try_from(hz) {
        Ok(SampleRate::Hz22050) => Some(InputRate::Hz22050),
        Ok(SampleRate::Hz16000) => Some(InputRate::Hz16000),
        Ok(SampleRate::Hz32000) => Some(InputRate::Hz32000),
        Ok(SampleRate::Hz44100) => Some(InputRate::Hz44100),
        Ok(SampleRate::Hz48000) => Some(InputRate::Hz48000),
        Ok(SampleRate::Hz88200) => Some(InputRate::Hz88200),
        Ok(SampleRate::Hz96000) => Some(InputRate::Hz96000),
        Ok(SampleRate::Hz176400) => Some(InputRate::Hz176400),
        Ok(SampleRate::Hz192000) => Some(InputRate::Hz192000),
        Ok(SampleRate::Hz384000) => Some(InputRate::Hz384000),
        Err(()) => None,
    }
}

/// How incoming audio reaches the target rate.
#[derive(PartialEq, Eq, Structural, Clone, Copy, Debug)]
pub enum ResamplePlan {
    /// Audio already is at the target rate.
    Passthrough,
    /// Audio at the given rate is converted.
    Convert(InputRate),
}

/// The requested input rate cannot be resampled.
#[derive(PartialEq, Eq, Structural, Clone, Copy, Debug)]
pub struct UnsupportedSampleRate {
    pub hz: u32,
}

/// Decide how audio at `sample_rate` Hz is brought to `TARGET_SAMPLE_RATE`:
/// unchanged at that rate, converted from any other rate the resampler
/// accepts, refused otherwise.
pub fn plan_resampling(sample_rate: u32) -> (r: Result<ResamplePlan, UnsupportedSampleRate>)
    ensures
        r == (if sample_rate == TARGET_SAMPLE_RATE {
            Ok(ResamplePlan::Passthrough)
        } else {
            match spec_input_rate(sample_rate) {
                Some(rate) => Ok(ResamplePlan::Convert(rate)),
                None => Err(UnsupportedSampleRate { hz: sample_rate }),
            }
        }),
{
    if sample_rate == TARGET_SAMPLE_RATE {
        return Ok(ResamplePlan::Passthrough);
    }
    match input_rate_from_hz(sample_rate) {
        Some(rate) => Ok(ResamplePlan::Convert(rate)),
        None => Err(UnsupportedSampleRate { hz: sample_rate }),
    }
}

/// Which of the second-stage model's two outputs holds the logits; the other
/// is the new hidden state.
#[derive(PartialEq, Eq, Structural, Clone, Copy, Debug)]
pub enum LogitsSlot {
    First,
    Second,
}

/// Neither output of the second-stage model has `LOGITS_LEN` elements.
#[derive(PartialEq, Eq, Structural, Clone, Copy, Debug)]
pub struct Layer2ShapeError {
    pub first_len: usize,
    pub second_len: usize,
}

/// Pick the logits among two outputs of `first_len` and `second_len`
/// elements: the first when it has `LOGITS_LEN` elements, else the second
/// when it has, else an error naming both sizes.
pub fn locate_logits(first_len: usize, second_len: usize) -> (r: Result<LogitsSlot, Layer2ShapeError>)
    ensures
        first_len == LOGITS_LEN ==> r == Ok::<LogitsSlot, Layer2ShapeError>(LogitsSlot::First),
        first_len != LOGITS_LEN && second_len == LOGITS_LEN ==> r == Ok::<
            LogitsSlot,
            Layer2ShapeError,
        >(LogitsSlot::Second),
        first_len != LOGITS_LEN && second_len != LOGITS_LEN ==> r == Err::<
            LogitsSlot,
            Layer2ShapeError,
        >(Layer2ShapeError { first_len, second_len }),
{
    if first_len == LOGITS_LEN {
        Ok(LogitsSlot::First)
    } else if second_len == LOGITS_LEN {
        Ok(LogitsSlot::Second)
    } else {
        Err(Layer2ShapeError { first_len, second_len })
    }
}

} // verus!
