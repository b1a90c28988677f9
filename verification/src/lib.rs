//! Spectral codec support library.
//!
//! The codec turns a mono waveform into a still image whose pixels carry the
//! short-time spectrum (magnitude as brightness, phase as hue), and turns such
//! an image back into audio.  This crate holds the discrete backbone of that
//! codec, specified and verified: the grid geometry shared by both directions,
//! the out-of-band header that travels in the artifact's file name, the
//! configuration record with its validation rules, the sample-format policy,
//! and the conversion-job dispatch.  The continuous signal path (windowed
//! Fourier transforms, color-space conversion, overlap-add resynthesis) is
//! floating-point throughout and lives with the unverified shell that drives
//! this library.

pub mod config;
pub mod error;
pub mod geometry;
pub mod header;
pub mod job;
pub mod samples;
