use spectro_codec::error::CodecError;
use spectro_codec::geometry::{
    fft_size_for_height, flip_row, mirror_bin, num_bins, num_frames, output_len,
};

#[test]
fn bins_for_default_fft() {
    assert_eq!(num_bins(4096), 2049);
    assert_eq!(num_bins(2048), 1025);
    assert_eq!(num_bins(256), 129);
}

#[test]
fn fft_recovered_from_height() {
    assert_eq!(fft_size_for_height(2049), 4096);
    assert_eq!(fft_size_for_height(1025), 2048);
    assert_eq!(fft_size_for_height(129), 256);
}

#[test]
fn dimensions_round_trip() {
    for fft in [256usize, 512, 1024, 2048, 4096, 8192, 16384] {
        assert_eq!(fft_size_for_height(num_bins(fft)), fft);
    }
}

#[test]
fn frame_count_of_one_second() {
    assert_eq!(num_frames(44100, 4096, 128), Ok(313));
}

#[test]
fn one_window_exactly_gives_one_frame() {
    assert_eq!(num_frames(4096, 4096, 128), Ok(1));
}

#[test]
fn short_waveform_is_refused() {
    assert_eq!(
        num_frames(1000, 2048, 512),
        Err(CodecError::InsufficientSamples { samples: 1000, fft_size: 2048 })
    );
}

#[test]
fn resynthesis_length_stays_within_input() {
    let frames = match num_frames(44100, 4096, 128) {
        Ok(n) => n,
        Err(_) => panic!("framing failed"),
    };
    let len = output_len(frames, 4096, 128);
    assert_eq!(len, 44032);
    assert!(len <= 44100);
}

#[test]
fn rows_flip_and_flip_back() {
    assert_eq!(flip_row(2049, 0), 2048);
    assert_eq!(flip_row(2049, 2048), 0);
    for bin in [0usize, 1, 77, 2048] {
        assert_eq!(flip_row(2049, flip_row(2049, bin)), bin);
    }
}

#[test]
fn mirrored_bins_avoid_retained_rows() {
    assert_eq!(mirror_bin(2048, 1), 2047);
    assert_eq!(mirror_bin(2048, 1023), 1025);
    for bin in 1..1024usize {
        assert!(mirror_bin(2048, bin) > 1024);
    }
}
