//! Grid geometry shared by both directions of the codec.
//!
//! A transform of `fft_size` points keeps only its non-negative frequencies,
//! so a spectral grid has `fft_size / 2 + 1` rows; the image carries one pixel
//! row per bin and one column per analysis frame, with row 0 holding the
//! highest frequency.  Everything here is exact integer arithmetic, and the
//! two directions are proved to agree: the frame count never reaches past the
//! end of the waveform, and the transform size is recovered from the image
//! height it produced.

use vstd::prelude::*;
use crate::error::CodecError;

verus! {

/// Rows of a spectral grid for a transform of `fft_size` points: the bins of
/// the non-negative frequencies, `fft_size / 2 + 1`.
pub open spec fn spec_num_bins(fft_size: int) -> int {
    fft_size / 2 + 1
}

/// Transform size recovered from an image of `height` pixel rows,
/// `(height - 1) * 2`.
pub open spec fn spec_fft_size_for_height(height: int) -> int {
    (height - 1) * 2
}

/// Analysis frames cut from `num_samples` samples: frame `k` covers samples
/// `[k * hop_size, k * hop_size + fft_size)`, so
/// `(num_samples - fft_size) / hop_size + 1` frames fit.
pub open spec fn spec_num_frames(num_samples: int, fft_size: int, hop_size: int) -> int {
    (num_samples - fft_size) / hop_size + 1
}

/// Samples covered by `num_frames` overlapped frames laid down `hop_size`
/// apart: the resynthesis buffer length.
pub open spec fn spec_output_len(num_frames: int, fft_size: int, hop_size: int) -> int {
    (num_frames - 1) * hop_size + fft_size
}

/// Image row that carries bin `bin` of a grid `height` rows tall: the image
/// is flipped so the lowest frequency sits on the bottom row.
pub open spec fn spec_flip_row(height: int, bin: int) -> int {
    height - 1 - bin
}

/// Number of pixel rows for a transform of `fft_size` points.
pub fn num_bins(fft_size: usize) -> (r: usize)
    ensures
        r == spec_num_bins(fft_size as int),
{
    fft_size / 2 + 1
}

/// Transform size that produced an image of `height` pixel rows.
pub fn fft_size_for_height(height: usize) -> (r: usize)
    requires
        1 <= height,
        (height - 1) * 2 <= usize::MAX,
    ensures
        r == spec_fft_size_for_height(height as int),
{
    (height - 1) * 2
}

/// Number of analysis frames, or the error that aborts the job when the
/// waveform is shorter than one window.
pub fn num_frames(num_samples: usize, fft_size: usize, hop_size: usize) -> (r: Result<
    usize,
    CodecError,
>)
    requires
        1 <= fft_size,
        1 <= hop_size,
    ensures
        num_samples >= fft_size ==> r == Ok::<usize, CodecError>(
            spec_num_frames(num_samples as int, fft_size as int, hop_size as int) as usize,
        ),
        num_samples < fft_size ==> r == Err::<usize, CodecError>(
            CodecError::InsufficientSamples { samples: num_samples, fft_size },
        ),
{
    if num_samples < fft_size {
        Err(CodecError::InsufficientSamples { samples: num_samples, fft_size })
    } else {
        Ok((num_samples - fft_size) / hop_size + 1)
    }
}

/// Length of the resynthesis buffer for `num_frames` frames.
pub fn output_len(num_frames: usize, fft_size: usize, hop_size: usize) -> (r: usize)
    requires
        1 <= num_frames,
        spec_output_len(num_frames as int, fft_size as int, hop_size as int) <= usize::MAX,
    ensures
        r == spec_output_len(num_frames as int, fft_size as int, hop_size as int),
{
    (num_frames - 1) * hop_size + fft_size
}

/// Image row for `bin`, counted from the top.
pub fn flip_row(height: usize, bin: usize) -> (r: usize)
    requires
        bin < height,
    ensures
        r == spec_flip_row(height as int, bin as int),
        r < height,
{
    height - 1 - bin
}

/// Slot that carries the complex conjugate of `bin` in a full spectrum of
/// `fft_size` entries.  The synthesizer mirrors bins `1..fft_size / 2` there
/// so the inverse transform comes out real; the ensured bound shows a
/// mirrored entry never lands on a retained bin.
pub fn mirror_bin(fft_size: usize, bin: usize) -> (r: usize)
    requires
        1 <= bin < fft_size,
    ensures
        r == fft_size - bin,
        r < fft_size,
        2 * bin < fft_size ==> r > spec_num_bins(fft_size as int) - 1,
{
    fft_size - bin
}

/// The image height determines the transform size and vice versa: for an even
/// transform size, the grid of `fft_size / 2 + 1` rows leads back to exactly
/// `fft_size`.  An image of even height, by contrast, was not produced by
/// this codec, since `(height - 1) * 2 / 2 + 1 == height` forces the height
/// to be one more than half an even number.
pub proof fn lemma_dimension_round_trip(fft_size: int)
    requires
        0 <= fft_size,
        fft_size % 2 == 0,
    ensures
        spec_fft_size_for_height(spec_num_bins(fft_size)) == fft_size,
{
    vstd::arithmetic::div_mod::lemma_fundamental_div_mod(fft_size, 2);
}

/// And in the other direction: any image height leads to a transform size
/// whose grid has exactly that height again.
pub proof fn lemma_height_round_trip(height: int)
    requires
        1 <= height,
    ensures
        spec_num_bins(spec_fft_size_for_height(height)) == height,
{
    vstd::arithmetic::div_mod::lemma_fundamental_div_mod((height - 1) * 2, 2);
    assert((height - 1) * 2 % 2 == 0) by {
        vstd::arithmetic::div_mod::lemma_mod_multiples_basic(height - 1, 2);
    }
}

/// Every analysis frame lies inside the waveform: frame `k` ends at
/// `k * hop_size + fft_size`, which never passes `num_samples`.
pub proof fn lemma_frame_in_bounds(num_samples: int, fft_size: int, hop_size: int, k: int)
    requires
        1 <= fft_size <= num_samples,
        1 <= hop_size,
        0 <= k < spec_num_frames(num_samples, fft_size, hop_size),
    ensures
        k * hop_size + fft_size <= num_samples,
{
    let q = (num_samples - fft_size) / hop_size;
    vstd::arithmetic::div_mod::lemma_fundamental_div_mod(num_samples - fft_size, hop_size);
    vstd::arithmetic::div_mod::lemma_mod_division_less_than_divisor(
        num_samples - fft_size,
        hop_size,
    );
    assert(k * hop_size <= q * hop_size) by {
        vstd::arithmetic::mul::lemma_mul_inequality(k, q, hop_size);
    }
    assert(q * hop_size == hop_size * q);
}

/// The resynthesis buffer never reaches past the analyzed waveform: laying
/// the frames back down covers at most the samples that were cut into frames.
pub proof fn lemma_output_len_bounded(num_samples: int, fft_size: int, hop_size: int)
    requires
        1 <= fft_size <= num_samples,
        1 <= hop_size,
    ensures
        spec_output_len(
            spec_num_frames(num_samples, fft_size, hop_size),
            fft_size,
            hop_size,
        ) <= num_samples,
{
    let frames = spec_num_frames(num_samples, fft_size, hop_size);
    vstd::arithmetic::div_mod::lemma_div_pos_is_pos(num_samples - fft_size, hop_size);
    lemma_frame_in_bounds(num_samples, fft_size, hop_size, frames - 1);
}

/// Flipping a row twice gives the row back: the vertical flip applied at
/// encode time is undone by the same flip at decode time.
pub proof fn lemma_flip_row_involution(height: int, bin: int)
    requires
        0 <= bin < height,
    ensures
        spec_flip_row(height, spec_flip_row(height, bin)) == bin,
{
}

} // verus!
