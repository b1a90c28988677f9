//! Errors that abort a conversion job.
//!
//! Only unrecoverable conditions are represented here.  A header that cannot
//! be parsed back out of a file name is recovered locally with documented
//! defaults (see `header`), and an all-zero spectrum is rendered as silence by
//! the resynthesis path rather than reported, so neither appears as a variant.

use vstd::prelude::*;

verus! {

/// Why a conversion job was aborted.
#[derive(Clone, Copy, Debug, PartialEq, Eq, Structural)]
pub enum CodecError {
    /// The audio carries a sample type or bit depth the codec cannot
    /// normalize to full scale.
    UnsupportedFormat { bits_per_sample: u16 },
    /// The audio has more channels than the mono/stereo policy admits.
    UnsupportedChannels { channels: u16 },
    /// The input file extension names neither an audio nor an image source.
    UnsupportedExtension,
    /// The waveform is shorter than one analysis window; no frame can be cut
    /// from it and the codec does not zero-pad.
    InsufficientSamples { samples: usize, fft_size: usize },
}

} // verus!
