//! The configuration record of the codec, with its validation rules.
//!
//! The record is supplied once per run and is immutable for the duration of a
//! single encode or decode call.  This module holds the discrete fields: the
//! window geometry (`fft_size`, `hop_size`), the two encoding switches, and
//! the iteration count exposed for a magnitude-only refinement.  The
//! continuous tuning values (frequency limits, the dB range, the
//! high-frequency boost) are floating-point and belong to the shell that owns
//! the signal path; the shell persists the whole record and hands this part
//! to the codec pre-validated.

use vstd::prelude::*;

verus! {

/// A transform size the codec accepts: a power of two from 256 through 16384.
pub open spec fn valid_fft_size(n: int) -> bool {
    ||| n == 256
    ||| n == 512
    ||| n == 1024
    ||| n == 2048
    ||| n == 4096
    ||| n == 8192
    ||| n == 16384
}

/// The discrete transform parameters.
#[derive(Clone, Copy, Debug, PartialEq, Eq, Structural)]
pub struct SpectrogramConfig {
    /// Points per analysis window.  Larger trades time resolution for
    /// frequency resolution.
    pub fft_size: usize,
    /// Sample advance between consecutive windows.  Smaller widens the image
    /// and deepens the overlap.
    pub hop_size: usize,
    /// Whether hue carries phase.  When off, the image is grayscale and the
    /// decode path estimates phase instead.
    pub use_phase_encoding: bool,
    /// Whether the bins are remapped onto a logarithmic frequency axis.
    pub use_log_scale: bool,
    /// Iteration count exposed for an iterative magnitude-only
    /// reconstruction; the decode path currently runs a single-pass
    /// estimator and leaves this count unread.
    pub griffin_lim_iterations: usize,
}

/// A record the codec will accept: a valid transform size and a hop that is
/// positive and no larger than the window.
pub open spec fn config_wf(c: SpectrogramConfig) -> bool {
    &&& valid_fft_size(c.fft_size as int)
    &&& 1 <= c.hop_size <= c.fft_size
}

/// The record validation leaves behind: an out-of-range window size falls
/// back to the default first, then a hop that is zero or larger than the
/// surviving window falls back to its default; all other fields are kept.
pub open spec fn spec_validated(c: SpectrogramConfig) -> SpectrogramConfig {
    let fft_size = if valid_fft_size(c.fft_size as int) {
        c.fft_size
    } else {
        4096usize
    };
    let hop_size = if 1 <= c.hop_size <= fft_size {
        c.hop_size
    } else {
        128usize
    };
    SpectrogramConfig { fft_size, hop_size, ..c }
}

/// Default window size.
pub fn default_fft_size() -> (r: usize)
    ensures
        r == 4096,
{
    4096
}

/// Default hop size.
pub fn default_hop_size() -> (r: usize)
    ensures
        r == 128,
{
    128
}

/// Phase is carried in hue unless switched off.
pub fn default_use_phase_encoding() -> (r: bool)
    ensures
        r == true,
{
    true
}

/// The logarithmic frequency axis is the default; it spaces musical notes
/// evenly.
pub fn default_use_log_scale() -> (r: bool)
    ensures
        r == true,
{
    true
}

/// Default iteration count for the magnitude-only refinement.
pub fn default_griffin_lim_iterations() -> (r: usize)
    ensures
        r == 30,
{
    30
}

/// The record every field of a freshly created configuration holds.
pub open spec fn spec_default_config() -> SpectrogramConfig {
    SpectrogramConfig {
        fft_size: 4096,
        hop_size: 128,
        use_phase_encoding: true,
        use_log_scale: true,
        griffin_lim_iterations: 30,
    }
}

impl Default for SpectrogramConfig {
    /// The documented defaults; they satisfy `config_wf`.
    fn default() -> (r: Self)
        ensures
            r == spec_default_config(),
            config_wf(r),
    {
        SpectrogramConfig {
            fft_size: default_fft_size(),
            hop_size: default_hop_size(),
            use_phase_encoding: default_use_phase_encoding(),
            use_log_scale: default_use_log_scale(),
            griffin_lim_iterations: default_griffin_lim_iterations(),
        }
    }
}

impl SpectrogramConfig {
    /// Whether `fft_size` is a transform size the codec accepts.
    pub fn has_valid_fft_size(&self) -> (r: bool)
        ensures
            r == valid_fft_size(self.fft_size as int),
    {
        let n = self.fft_size;
        n == 256 || n == 512 || n == 1024 || n == 2048 || n == 4096 || n == 8192 || n == 16384
    }

    /// Replaces out-of-range fields with their defaults: first the window
    /// size, then the hop, which must be positive and fit inside the window
    /// that survived the first check.  A record that comes out always
    /// satisfies `config_wf`, and fields that were already acceptable are
    /// kept exactly.
    pub fn validate_and_fix(&mut self)
        ensures
            *final(self) == spec_validated(*old(self)),
            config_wf(*final(self)),
    {
        if !self.has_valid_fft_size() {
            self.fft_size = default_fft_size();
        }
        if self.hop_size == 0 || self.hop_size > self.fft_size {
            self.hop_size = default_hop_size();
        }
    }
}

/// Validation is idempotent: a record that already went through it comes
/// out unchanged.
pub proof fn lemma_validation_idempotent(c: SpectrogramConfig)
    ensures
        spec_validated(spec_validated(c)) == spec_validated(c),
{
}

/// Validation never touches a record the codec already accepts.
pub proof fn lemma_validation_keeps_wf(c: SpectrogramConfig)
    requires
        config_wf(c),
    ensures
        spec_validated(c) == c,
{
}

} // verus!
