use spectro_codec::header::{parse_header, output_stem, CodecHeader, PhaseMode, ScaleMode};

#[test]
fn parse_defaults_when_no_tokens() {
    let h = parse_header("clip");
    assert_eq!(h.sample_rate, 44100);
    assert_eq!(h.scale, ScaleMode::Linear);
    assert_eq!(h.phase, PhaseMode::PhaseEncoded);
}

#[test]
fn parse_full_name() {
    let h = parse_header("song_SR48000_LOG_PHASE");
    assert_eq!(h.sample_rate, 48000);
    assert_eq!(h.scale, ScaleMode::Logarithmic);
    assert_eq!(h.phase, PhaseMode::PhaseEncoded);
}

#[test]
fn parse_linear_magnitude_only() {
    let h = parse_header("take_SR22050_LIN_MAG");
    assert_eq!(h.sample_rate, 22050);
    assert_eq!(h.scale, ScaleMode::Linear);
    assert_eq!(h.phase, PhaseMode::MagnitudeOnly);
}

#[test]
fn parse_marker_without_digits_falls_back() {
    let h = parse_header("x_SR_LIN_PHASE");
    assert_eq!(h.sample_rate, 44100);
    assert_eq!(h.scale, ScaleMode::Linear);
}

#[test]
fn parse_rate_too_large_falls_back() {
    let h = parse_header("x_SR99999999999_LOG_PHASE");
    assert_eq!(h.sample_rate, 44100);
    assert_eq!(h.scale, ScaleMode::Logarithmic);
}

#[test]
fn parse_reads_last_marker() {
    let h = parse_header("mix_SR8000_demo_SR48000_LIN_PHASE");
    assert_eq!(h.sample_rate, 48000);
}

#[test]
fn parse_tokens_are_case_sensitive() {
    let h = parse_header("clip_sr48000_log_mag");
    assert_eq!(h.sample_rate, 44100);
    assert_eq!(h.scale, ScaleMode::Linear);
    assert_eq!(h.phase, PhaseMode::PhaseEncoded);
}

#[test]
fn parse_leading_zeros_are_read() {
    let h = parse_header("a_SR0044100_LIN_PHASE");
    assert_eq!(h.sample_rate, 44100);
}

#[test]
fn encode_log_phase_suffix() {
    let h = CodecHeader {
        sample_rate: 44100,
        scale: ScaleMode::Logarithmic,
        phase: PhaseMode::PhaseEncoded,
    };
    assert_eq!(output_stem("song", &h), "song_SR44100_LOG_PHASE");
}

#[test]
fn encode_lin_mag_suffix() {
    let h = CodecHeader {
        sample_rate: 22050,
        scale: ScaleMode::Linear,
        phase: PhaseMode::MagnitudeOnly,
    };
    assert_eq!(output_stem("x", &h), "x_SR22050_LIN_MAG");
}

#[test]
fn encode_zero_rate() {
    let h = CodecHeader {
        sample_rate: 0,
        scale: ScaleMode::Linear,
        phase: PhaseMode::PhaseEncoded,
    };
    assert_eq!(output_stem("a", &h), "a_SR0_LIN_PHASE");
}

#[test]
fn round_trip_all_modes() {
    let rates = [8000u32, 22050, 44100, 48000, 192000, u32::MAX];
    let scales = [ScaleMode::Linear, ScaleMode::Logarithmic];
    let phases = [PhaseMode::PhaseEncoded, PhaseMode::MagnitudeOnly];
    for &sample_rate in rates.iter() {
        for &scale in scales.iter() {
            for &phase in phases.iter() {
                let h = CodecHeader { sample_rate, scale, phase };
                let name = output_stem("recording", &h);
                assert_eq!(parse_header(&name), h);
            }
        }
    }
}

#[test]
fn token_in_base_name_overrides_linear_axis() {
    // A base name that itself carries an axis token defeats the round trip
    // for the scale field -- the rate still comes back, since the decoder
    // reads the last marker.
    let h = CodecHeader {
        sample_rate: 48000,
        scale: ScaleMode::Linear,
        phase: PhaseMode::PhaseEncoded,
    };
    let name = output_stem("my_LOG_mix", &h);
    let parsed = parse_header(&name);
    assert_eq!(parsed.scale, ScaleMode::Logarithmic);
    assert_eq!(parsed.sample_rate, 48000);
    assert_eq!(parsed.phase, PhaseMode::PhaseEncoded);
}

#[test]
fn round_trip_keeps_rate_despite_marker_in_stem() {
    let h = CodecHeader {
        sample_rate: 48000,
        scale: ScaleMode::Linear,
        phase: PhaseMode::PhaseEncoded,
    };
    let name = output_stem("mix_SR8000", &h);
    assert_eq!(parse_header(&name), h);
}
