//! A deterministic fixed-point sound synthesis engine.
//!
//! Twelve quantized control levels decode into integer coefficients that drive
//! a phase-modulated sine oscillator with table-driven wave folding. The
//! resulting 8-bit waveform is computed incrementally, cached, and offered
//! through random access with optional loop wraparound.
pub mod mapping;
pub mod engine;
pub mod synth;
pub mod codec;
pub mod midi;
pub mod iff;
pub mod sample_file;
