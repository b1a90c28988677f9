//! Conversion-job dispatch.
//!
//! The direction of a conversion is decided once, at the boundary, from the
//! input file's extension: audio becomes an image, an image becomes audio,
//! anything else is refused.  The comparison folds ASCII letter case, so
//! `WAV` and `wav` name the same source kind.  This module also predicts the
//! width of the image a waveform will produce, which the shell shows before
//! a conversion is started.

use vstd::prelude::*;
use vstd::string::*;
use crate::error::CodecError;
use crate::geometry;
use crate::samples;

verus! {

/// The two directions a conversion job can take.
#[derive(Clone, Copy, Debug, PartialEq, Eq, Structural)]
pub enum JobKind {
    /// Decode audio samples, render the spectrogram image.
    AudioToImage,
    /// Read the spectrogram image, resynthesize audio.
    ImageToAudio,
}

/// ASCII upper-case letters folded to lower case; all else kept.
pub open spec fn spec_ascii_lower_char(c: char) -> char {
    if 'A' as int <= c as int && c as int <= 'Z' as int {
        (c as int + 32) as char
    } else {
        c
    }
}

/// Character-wise ASCII case fold.
pub open spec fn spec_ascii_lower(s: Seq<char>) -> Seq<char> {
    s.map_values(|c: char| spec_ascii_lower_char(c))
}

/// Job kind for a file extension, case-insensitively: `wav` starts the
/// audio-to-image direction, `png`/`jpg`/`jpeg` the image-to-audio one, and
/// any other extension is refused.
pub open spec fn spec_classify_extension(ext: Seq<char>) -> Result<JobKind, CodecError> {
    let l = spec_ascii_lower(ext);
    if l == seq!['w', 'a', 'v'] {
        Ok(JobKind::AudioToImage)
    } else if l == seq!['p', 'n', 'g'] || l == seq!['j', 'p', 'g'] || l == seq![
        'j',
        'p',
        'e',
        'g',
    ] {
        Ok(JobKind::ImageToAudio)
    } else {
        Err(CodecError::UnsupportedExtension)
    }
}

/// Whether `s`, folded to lower case, equals `target` exactly.
fn matches_lower(s: &str, target: &str) -> (r: bool)
    ensures
        r == (spec_ascii_lower(s@) == target@),
{
    let n = s.unicode_len();
    let m = target.unicode_len();
    if n != m {
        proof {
            assert(spec_ascii_lower(s@).len() == s@.len());
        }
        return false;
    }
    let mut i: usize = 0;
    while i < n
        invariant
            i <= n,
            n == s@.len(),
            n == target@.len(),
            forall|k: int| 0 <= k < i ==> spec_ascii_lower(s@)[k] == target@[k],
        decreases n - i,
    {
        let c = s.get_char(i);
        let v = c as u32;
        let folded: char = if v >= 65 && v <= 90 {
            ((v + 32) as u8) as char
        } else {
            c
        };
        proof {
            assert(spec_ascii_lower(s@)[i as int] == spec_ascii_lower_char(s@[i as int]));
        }
        if folded != target.get_char(i) {
            proof {
                assert(spec_ascii_lower(s@)[i as int] != target@[i as int]);
            }
            return false;
        }
        i += 1;
    }
    proof {
        assert(spec_ascii_lower(s@) =~= target@);
    }
    true
}

/// Decides the direction of a job from the input's file extension.
pub fn classify_extension(ext: &str) -> (r: Result<JobKind, CodecError>)
    ensures
        r == spec_classify_extension(ext@),
{
    proof {
        reveal_strlit("wav");
        reveal_strlit("png");
        reveal_strlit("jpg");
        reveal_strlit("jpeg");
        assert("wav"@ =~= seq!['w', 'a', 'v']);
        assert("png"@ =~= seq!['p', 'n', 'g']);
        assert("jpg"@ =~= seq!['j', 'p', 'g']);
        assert("jpeg"@ =~= seq!['j', 'p', 'e', 'g']);
    }
    if matches_lower(ext, "wav") {
        Ok(JobKind::AudioToImage)
    } else if matches_lower(ext, "png") || matches_lower(ext, "jpg") || matches_lower(
        ext,
        "jpeg",
    ) {
        Ok(JobKind::ImageToAudio)
    } else {
        Err(CodecError::UnsupportedExtension)
    }
}

/// Width of the image a waveform will produce: the mono sample count after
/// the downmix policy, cut into frames.  Fails exactly where the policy or
/// the framing fails.
pub fn estimated_width(
    total_samples: usize,
    channels: u16,
    fft_size: usize,
    hop_size: usize,
) -> (r: Result<usize, CodecError>)
    requires
        1 <= fft_size,
        1 <= hop_size,
    ensures
        ({
            match samples::spec_mono_sample_count(total_samples, channels) {
                Err(e) => r == Err::<usize, CodecError>(e),
                Ok(mono) => if mono >= fft_size {
                    r == Ok::<usize, CodecError>(
                        geometry::spec_num_frames(
                            mono as int,
                            fft_size as int,
                            hop_size as int,
                        ) as usize,
                    )
                } else {
                    r == Err::<usize, CodecError>(
                        CodecError::InsufficientSamples { samples: mono, fft_size },
                    )
                },
            }
        }),
{
    let mono = samples::mono_sample_count(total_samples, channels)?;
    geometry::num_frames(mono, fft_size, hop_size)
}

} // verus!
