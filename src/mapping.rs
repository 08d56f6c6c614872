//! Quantized control levels and their mapping to synthesis coefficients.
use vstd::prelude::*;

verus! {

/// Number of control levels in a parameter vector.
pub const PARAMETER_COUNT: usize = 12;

/// The first this many levels are percentages (0..=100), the rest deciles (0..=10).
pub const PERCENT_FIELDS: usize = 8;

/// Largest percentage level.
pub const MAX_PERCENT: u32 = 100;

/// Largest decile level.
pub const MAX_DECILE: u32 = 10;

/// Number of distinct percentage levels.
pub const LEVEL_COUNT: usize = 101;

/// Number of semitone steps above the reference pitch (levels 5..=100).
pub const SEMITONE_COUNT: usize = 96;

/// Largest attack or decay step of the amplitude envelope.
pub const MAX_ENVELOPE_STEP: i32 = 10000;

/// Largest level that field `i` of a parameter vector may hold.
pub open spec fn level_limit(i: int) -> u32 {
    if i < PERCENT_FIELDS as int {
        MAX_PERCENT
    } else {
        MAX_DECILE
    }
}

/// A parameter vector: twelve levels, each within its field's range.
pub open spec fn levels_valid(levels: Seq<u32>) -> bool {
    &&& levels.len() == PARAMETER_COUNT
    &&& forall|i: int| 0 <= i < PARAMETER_COUNT ==> #[trigger] levels[i] <= level_limit(i)
}

/// Envelope step for percentage `n`: fast for small `n`, slow for large `n`.
pub open spec fn env_step(n: int) -> int {
    10000int / (1 + n * n)
}

/// Pitch increment for percentage `n`: silence at 0, octave steps below 5,
/// and above that the semitone table (one entry per semitone).
pub open spec fn pitch_step(semitones: Seq<u32>, n: int) -> u32 {
    if n == 0 {
        0
    } else if n < 5 {
        8u32 << (n as u32)
    } else {
        semitones[n - 5]
    }
}

/// Pitch increment of the three-digit legacy scheme for percentage `n`.
pub open spec fn legacy_pitch_step(n: int) -> int {
    n * 512
}

/// Envelope step (attack or decay rate) for a percentage level.
pub fn envfun(level: u32) -> (r: i32)
    requires
        level <= MAX_PERCENT,
    ensures
        r == env_step(level as int),
        0 <= r <= MAX_ENVELOPE_STEP,
{
    let v = level as i32;
    proof {
        assert(0 <= v * v <= 10000) by (nonlinear_arith)
            requires
                0 <= v <= 100,
        ;
    }
    10000 / (1 + v * v)
}

/// Pitch increment of the three-digit legacy scheme.
pub fn pitchfun3(level: u32) -> (r: u32)
    requires
        level <= MAX_PERCENT,
    ensures
        r == legacy_pitch_step(level as int),
{
    level * 512
}

} // verus!
