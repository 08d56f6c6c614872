use std::sync::Arc;

use cinter::engine::{CinterEngine, CinterInstrument, PARAMETER_COUNT};
use cinter::mapping::{envfun, pitchfun3};

fn sine_table() -> Vec<i16> {
    (0..16384)
        .map(|i| ((i as f32 / 16384.0 * (2.0 * std::f32::consts::PI)).sin() * 16384.0).round() as i16)
        .collect()
}

fn semitone_table() -> Vec<u32> {
    (0..96).map(|k| (256.0 * (k as f32 / 12.0).exp2()).round() as u32).collect()
}

fn decay_table() -> Vec<u32> {
    (0..=100)
        .map(|n| {
            let v = n as f32 / 50.0 - 1.0;
            ((0.0008 * v + 0.1 * v.powi(7)).exp() * 65536.0).round() as u32
        })
        .collect()
}

fn legacy_decay_table() -> Vec<u32> {
    (0..=100)
        .map(|n| {
            let v = n as f32;
            ((-0.000002 * v * v).exp() * 65536.0).round() as u32
        })
        .collect()
}

fn engine() -> Arc<CinterEngine> {
    Arc::new(
        CinterEngine::new(sine_table(), semitone_table(), decay_table(), legacy_decay_table())
            .expect("tables are well formed"),
    )
}

const DEFAULT_LEVELS: [u32; PARAMETER_COUNT] = [5, 40, 53, 50, 65, 50, 20, 40, 0, 0, 1, 2];

#[test]
fn engine_rejects_tables_of_wrong_size() {
    assert!(CinterEngine::new(vec![0; 100], semitone_table(), decay_table(), legacy_decay_table()).is_none());
    assert!(CinterEngine::new(sine_table(), vec![0; 95], decay_table(), legacy_decay_table()).is_none());
    assert!(CinterEngine::new(sine_table(), semitone_table(), vec![0; 100], legacy_decay_table()).is_none());
    assert!(CinterEngine::new(sine_table(), semitone_table(), decay_table(), vec![0; 102]).is_none());
}

#[test]
fn engine_rejects_decreasing_tables() {
    let mut decay = decay_table();
    decay[50] = 0;
    assert!(CinterEngine::new(sine_table(), semitone_table(), decay, legacy_decay_table()).is_none());
    let mut semitones = semitone_table();
    semitones[0] = 100;
    assert!(CinterEngine::new(sine_table(), semitones, decay_table(), legacy_decay_table()).is_none());
}

#[test]
fn engine_lookups() {
    let e = engine();
    assert_eq!(e.sine(0), 0);
    assert_eq!(e.sine(4096), 16384);
    assert_eq!(e.sine(12288), -16384);
    assert_eq!(e.pitchfun(0), 0);
    assert_eq!(e.pitchfun(1), 16);
    assert_eq!(e.pitchfun(4), 128);
    assert_eq!(e.pitchfun(5), 256);
    assert_eq!(e.pitchfun(17), 512);
    assert_eq!(e.pitchfun(29), 1024);
    assert_eq!(e.decayfun(50), 65536);
    assert_eq!(e.decayfun3(0), 65536);
}

#[test]
fn envelope_steps() {
    assert_eq!(envfun(0), 10000);
    assert_eq!(envfun(1), 5000);
    assert_eq!(envfun(5), 384);
    assert_eq!(envfun(40), 6);
    assert_eq!(envfun(100), 0);
}

#[test]
fn legacy_pitch_steps() {
    assert_eq!(pitchfun3(0), 0);
    assert_eq!(pitchfun3(10), 5120);
    assert_eq!(pitchfun3(100), 51200);
}

#[test]
fn parameter_names() {
    assert_eq!(CinterEngine::get_parameter_name(0), "attack");
    assert_eq!(CinterEngine::get_parameter_name(3), "mpitchdecay");
    assert_eq!(CinterEngine::get_parameter_name(6), "mod");
    assert_eq!(CinterEngine::get_parameter_name(11), "fdist");
    assert_eq!(CinterEngine::get_parameter_name(12), "");
    assert_eq!(CinterEngine::get_parameter_name(-1), "");
}

#[test]
fn default_timbre_starts_with_two_zeros_and_is_reproducible() {
    let e = engine();
    let mut a = CinterInstrument::new(e.clone(), &DEFAULT_LEVELS, None, None);
    let mut b = CinterInstrument::new(e, &DEFAULT_LEVELS, None, None);
    assert_eq!(a.length(), 65534);
    assert_eq!(a.get_sample(0), 0);
    assert_eq!(a.get_sample(1), 0);
    let first: Vec<i8> = (0..5000).map(|i| a.get_sample(i)).collect();
    let second: Vec<i8> = (0..5000).map(|i| b.get_sample(i)).collect();
    assert_eq!(first, second);
    assert!(first.iter().any(|&s| s != 0));
}

#[test]
fn access_order_does_not_matter() {
    let e = engine();
    let mut a = CinterInstrument::new(e.clone(), &DEFAULT_LEVELS, None, None);
    let mut b = CinterInstrument::new(e, &DEFAULT_LEVELS, None, None);
    let backwards: Vec<i8> = (0..3000).rev().map(|i| b.get_sample(i)).collect();
    let forwards: Vec<i8> = (0..3000).map(|i| a.get_sample(i)).collect();
    let mut reversed = backwards.clone();
    reversed.reverse();
    assert_eq!(forwards, reversed);
}

#[test]
fn repeated_reads_agree() {
    let mut a = CinterInstrument::new(engine(), &DEFAULT_LEVELS, None, None);
    let later = a.get_sample(1234);
    for i in 0..2000 {
        a.get_sample(i);
    }
    assert_eq!(a.get_sample(1234), later);
    assert_eq!(a.get_sample_raw(1234), later);
}

#[test]
fn loop_wraps_around() {
    let mut a = CinterInstrument::new(engine(), &DEFAULT_LEVELS, Some(1000), Some(600));
    assert_eq!(a.repeat_start(), Some(600));
    for k in 0..1500 {
        let looped = a.get_sample(1000 + k);
        assert_eq!(looped, a.get_sample(600 + k % 400));
    }
    assert_eq!(a.repeated_index(999), Some(999));
    assert_eq!(a.repeated_index(1000), Some(600));
    assert_eq!(a.repeated_index(1401), Some(601));
}

#[test]
fn silence_beyond_length_without_loop() {
    let mut a = CinterInstrument::new(engine(), &DEFAULT_LEVELS, Some(500), None);
    assert!((0..500).any(|i| a.get_sample(i) != 0));
    for i in 500..2000 {
        assert_eq!(a.get_sample(i), 0);
    }
    assert_eq!(a.repeated_index(500), None);
}

#[test]
fn loop_point_at_or_beyond_length_is_dropped() {
    let a = CinterInstrument::new(engine(), &DEFAULT_LEVELS, Some(100), Some(100));
    assert_eq!(a.repeat_start(), None);
    let b = CinterInstrument::new(engine(), &DEFAULT_LEVELS, Some(100), Some(99));
    assert_eq!(b.repeat_start(), Some(99));
}

#[test]
fn shortening_drops_a_loop_beyond_the_end() {
    let mut a = CinterInstrument::new(engine(), &DEFAULT_LEVELS, Some(1000), Some(600));
    a.set_length(800);
    assert_eq!(a.length(), 800);
    assert_eq!(a.repeat_start(), Some(600));
    a.set_length(600);
    assert_eq!(a.repeat_start(), None);
}

#[test]
fn raw_reads_ignore_the_loop_and_stop_at_capacity() {
    let mut looped = CinterInstrument::new(engine(), &DEFAULT_LEVELS, Some(100), Some(50));
    let mut plain = CinterInstrument::new(engine(), &DEFAULT_LEVELS, None, None);
    for i in 0..3000 {
        assert_eq!(looped.get_sample_raw(i), plain.get_sample(i));
    }
    assert_eq!(plain.capacity(), 65534);
    assert_eq!(plain.get_sample_raw(65534), 0);
    assert_eq!(plain.get_sample_raw(usize::MAX), 0);
}

#[test]
fn silent_timbre_is_silent() {
    let levels = [0, 0, 0, 0, 0, 0, 0, 0, 0, 0, 0, 0];
    let mut a = CinterInstrument::new(engine(), &levels, None, None);
    assert!((0..1000).all(|i| a.get_sample(i) == 0));
    assert_eq!(a.compute_length(), 2);
}

#[test]
fn natural_length_cuts_trailing_silence() {
    let mut a = CinterInstrument::new(engine(), &DEFAULT_LEVELS, None, None);
    let l = a.compute_length();
    assert!(l >= 2 && l <= 65534);
    assert_eq!(l % 2, 0);
    for i in l..65534 {
        assert_eq!(a.get_sample_raw(i), 0);
    }
    assert!(a.get_sample_raw(l - 1) != 0 || a.get_sample_raw(l - 2) != 0);
}

#[test]
fn render_gives_samples_as_bytes() {
    let mut a = CinterInstrument::new(engine(), &DEFAULT_LEVELS, Some(300), Some(100));
    let bytes = a.render(700);
    assert_eq!(bytes.len(), 700);
    for i in 0..700 {
        assert_eq!(bytes[i], a.get_sample(i) as u8);
    }
}
