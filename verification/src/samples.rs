//! Input-side sample policy: format normalization and channel downmix.
//!
//! Audio arrives as a decoded container record.  Every recognized sample
//! format is normalized to `[-1, 1]` by dividing by the format's true
//! full-scale value — notably `2^23` for 24-bit words, not `2^31` — and
//! stereo is averaged down to mono, pair by pair.  The divisions themselves
//! run in the floating-point shell; this module decides, exactly, which
//! formats are admitted, by what divisor, and how many mono samples come out.

use vstd::prelude::*;
use crate::error::CodecError;

verus! {

/// How one sample is stored in the container.
#[derive(Clone, Copy, Debug, PartialEq, Eq, Structural)]
pub enum SampleEncoding {
    /// Signed integer words.
    Int,
    /// IEEE floating-point words.
    Float,
}

/// The divisor that maps a recognized format to full scale `[-1, 1]`, or the
/// error for a format the codec does not admit.
pub open spec fn spec_sample_divisor(encoding: SampleEncoding, bits_per_sample: u16) -> Result<
    u32,
    CodecError,
> {
    match (encoding, bits_per_sample) {
        (SampleEncoding::Int, 8) => Ok(127),
        (SampleEncoding::Int, 16) => Ok(32767),
        (SampleEncoding::Int, 24) => Ok(8388608),
        (SampleEncoding::Int, 32) => Ok(2147483647),
        (SampleEncoding::Float, 32) => Ok(1),
        _ => Err(CodecError::UnsupportedFormat { bits_per_sample }),
    }
}

/// Mono samples obtained from `total_samples` interleaved samples over
/// `channels` channels: stereo pairs collapse to one sample each, a single
/// channel passes through, and more than two channels is refused.
pub open spec fn spec_mono_sample_count(total_samples: usize, channels: u16) -> Result<
    usize,
    CodecError,
> {
    if channels > 2 {
        Err(CodecError::UnsupportedChannels { channels })
    } else if channels == 2 {
        Ok((total_samples as int / 2) as usize)
    } else {
        Ok(total_samples)
    }
}

/// Full-scale divisor for a sample format, 8/16/24/32-bit integer or 32-bit
/// float; anything else aborts the job as unsupported.
pub fn sample_divisor(encoding: SampleEncoding, bits_per_sample: u16) -> (r: Result<
    u32,
    CodecError,
>)
    ensures
        r == spec_sample_divisor(encoding, bits_per_sample),
{
    match (encoding, bits_per_sample) {
        (SampleEncoding::Int, 8) => Ok(127),
        (SampleEncoding::Int, 16) => Ok(32767),
        (SampleEncoding::Int, 24) => Ok(8388608),
        (SampleEncoding::Int, 32) => Ok(2147483647),
        (SampleEncoding::Float, 32) => Ok(1),
        _ => Err(CodecError::UnsupportedFormat { bits_per_sample }),
    }
}

/// Mono sample count after the downmix policy is applied.
pub fn mono_sample_count(total_samples: usize, channels: u16) -> (r: Result<usize, CodecError>)
    ensures
        r == spec_mono_sample_count(total_samples, channels),
{
    if channels > 2 {
        Err(CodecError::UnsupportedChannels { channels })
    } else if channels == 2 {
        Ok(total_samples / 2)
    } else {
        Ok(total_samples)
    }
}

} // verus!
