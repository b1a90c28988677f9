use spectro_codec::error::CodecError;
use spectro_codec::job::{classify_extension, estimated_width, JobKind};
use spectro_codec::samples::{mono_sample_count, sample_divisor, SampleEncoding};

#[test]
fn divisors_of_recognized_formats() {
    assert_eq!(sample_divisor(SampleEncoding::Int, 8), Ok(127));
    assert_eq!(sample_divisor(SampleEncoding::Int, 16), Ok(32767));
    assert_eq!(sample_divisor(SampleEncoding::Int, 24), Ok(8388608));
    assert_eq!(sample_divisor(SampleEncoding::Int, 32), Ok(2147483647));
    assert_eq!(sample_divisor(SampleEncoding::Float, 32), Ok(1));
}

#[test]
fn unrecognized_formats_are_refused() {
    assert_eq!(
        sample_divisor(SampleEncoding::Float, 16),
        Err(CodecError::UnsupportedFormat { bits_per_sample: 16 })
    );
    assert_eq!(
        sample_divisor(SampleEncoding::Int, 20),
        Err(CodecError::UnsupportedFormat { bits_per_sample: 20 })
    );
}

#[test]
fn mono_passes_through() {
    assert_eq!(mono_sample_count(10, 1), Ok(10));
}

#[test]
fn stereo_pairs_collapse() {
    assert_eq!(mono_sample_count(10, 2), Ok(5));
    assert_eq!(mono_sample_count(11, 2), Ok(5));
}

#[test]
fn more_than_two_channels_are_refused() {
    assert_eq!(
        mono_sample_count(10, 3),
        Err(CodecError::UnsupportedChannels { channels: 3 })
    );
    assert_eq!(
        mono_sample_count(10, 6),
        Err(CodecError::UnsupportedChannels { channels: 6 })
    );
}

#[test]
fn extension_picks_the_direction() {
    assert_eq!(classify_extension("wav"), Ok(JobKind::AudioToImage));
    assert_eq!(classify_extension("png"), Ok(JobKind::ImageToAudio));
    assert_eq!(classify_extension("jpg"), Ok(JobKind::ImageToAudio));
    assert_eq!(classify_extension("jpeg"), Ok(JobKind::ImageToAudio));
}

#[test]
fn extension_case_is_folded() {
    assert_eq!(classify_extension("WAV"), Ok(JobKind::AudioToImage));
    assert_eq!(classify_extension("Png"), Ok(JobKind::ImageToAudio));
    assert_eq!(classify_extension("JPEG"), Ok(JobKind::ImageToAudio));
}

#[test]
fn unknown_extensions_are_refused() {
    assert_eq!(classify_extension("txt"), Err(CodecError::UnsupportedExtension));
    assert_eq!(classify_extension("wavx"), Err(CodecError::UnsupportedExtension));
    assert_eq!(classify_extension(""), Err(CodecError::UnsupportedExtension));
}

#[test]
fn width_of_a_stereo_second() {
    assert_eq!(estimated_width(88200, 2, 4096, 128), Ok(313));
}

#[test]
fn width_fails_on_channel_policy() {
    assert_eq!(
        estimated_width(88200, 4, 4096, 128),
        Err(CodecError::UnsupportedChannels { channels: 4 })
    );
}

#[test]
fn width_fails_on_short_input() {
    assert_eq!(
        estimated_width(2000, 2, 4096, 128),
        Err(CodecError::InsufficientSamples { samples: 1000, fft_size: 4096 })
    );
}
