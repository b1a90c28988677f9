use spectro_codec::config::{
    default_fft_size, default_griffin_lim_iterations, default_hop_size, default_use_log_scale,
    default_use_phase_encoding, SpectrogramConfig,
};

#[test]
fn documented_defaults() {
    assert_eq!(default_fft_size(), 4096);
    assert_eq!(default_hop_size(), 128);
    assert!(default_use_phase_encoding());
    assert!(default_use_log_scale());
    assert_eq!(default_griffin_lim_iterations(), 30);
}

#[test]
fn default_record_uses_documented_defaults() {
    let c = SpectrogramConfig::default();
    assert_eq!(c.fft_size, 4096);
    assert_eq!(c.hop_size, 128);
    assert!(c.use_phase_encoding);
    assert!(c.use_log_scale);
    assert_eq!(c.griffin_lim_iterations, 30);
}

#[test]
fn valid_record_is_kept() {
    let mut c = SpectrogramConfig { fft_size: 2048, hop_size: 512, ..SpectrogramConfig::default() };
    c.validate_and_fix();
    assert_eq!(c.fft_size, 2048);
    assert_eq!(c.hop_size, 512);
}

#[test]
fn non_power_of_two_fft_is_replaced() {
    let mut c = SpectrogramConfig { fft_size: 1000, hop_size: 100, ..SpectrogramConfig::default() };
    c.validate_and_fix();
    assert_eq!(c.fft_size, 4096);
    assert_eq!(c.hop_size, 100);
}

#[test]
fn out_of_range_fft_is_replaced() {
    let mut c = SpectrogramConfig { fft_size: 128, hop_size: 64, ..SpectrogramConfig::default() };
    c.validate_and_fix();
    assert_eq!(c.fft_size, 4096);
    let mut c = SpectrogramConfig {
        fft_size: 32768,
        hop_size: 64,
        ..SpectrogramConfig::default()
    };
    c.validate_and_fix();
    assert_eq!(c.fft_size, 4096);
}

#[test]
fn zero_hop_is_replaced() {
    let mut c = SpectrogramConfig { fft_size: 2048, hop_size: 0, ..SpectrogramConfig::default() };
    c.validate_and_fix();
    assert_eq!(c.hop_size, 128);
}

#[test]
fn hop_larger_than_window_is_replaced() {
    let mut c = SpectrogramConfig {
        fft_size: 2048,
        hop_size: 4096,
        ..SpectrogramConfig::default()
    };
    c.validate_and_fix();
    assert_eq!(c.fft_size, 2048);
    assert_eq!(c.hop_size, 128);
}

#[test]
fn hop_is_checked_against_replaced_window() {
    let mut c = SpectrogramConfig {
        fft_size: 100000,
        hop_size: 50000,
        ..SpectrogramConfig::default()
    };
    c.validate_and_fix();
    assert_eq!(c.fft_size, 4096);
    assert_eq!(c.hop_size, 128);
}

#[test]
fn validation_is_idempotent() {
    let mut c = SpectrogramConfig {
        fft_size: 100000,
        hop_size: 50000,
        ..SpectrogramConfig::default()
    };
    c.validate_and_fix();
    let once = c;
    c.validate_and_fix();
    assert_eq!(c, once);
}

#[test]
fn other_fields_survive_validation() {
    let mut c = SpectrogramConfig {
        fft_size: 1,
        hop_size: 0,
        use_phase_encoding: false,
        use_log_scale: false,
        griffin_lim_iterations: 7,
    };
    c.validate_and_fix();
    assert!(!c.use_phase_encoding);
    assert!(!c.use_log_scale);
    assert_eq!(c.griffin_lim_iterations, 7);
}
