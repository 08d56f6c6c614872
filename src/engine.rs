//! The shared lookup tables and the synthesis instrument.
use vstd::prelude::*;

use crate::mapping::{LEVEL_COUNT, MAX_PERCENT, SEMITONE_COUNT, pitch_step};

pub use crate::mapping::PARAMETER_COUNT;
pub use crate::synth::CinterInstrument;

verus! {

/// Number of entries of the sine table.
pub const SINE_TABLE_SIZE: usize = 16384;

/// Mathematical content of an engine: its lookup tables.
pub struct EngineTables {
    /// `round(sin(2*pi*i/16384) * 16384)` for each index `i`.
    pub sine: Seq<i16>,
    /// `round(256 * 2^(k/12))` for each semitone step `k`.
    pub semitones: Seq<u32>,
    /// Q16 per-sample decay factor for each percentage level.
    pub decay: Seq<u32>,
    /// Q16 decay factor of the three-digit legacy scheme for each percentage level.
    pub legacy_decay: Seq<u32>,
}

/// A sequence that never decreases.
pub open spec fn non_decreasing(s: Seq<u32>) -> bool {
    forall|i: int, j: int| 0 <= i <= j < s.len() ==> s[i] <= s[j]
}

impl EngineTables {
    /// Pitch increment for a percentage level.
    pub open spec fn pitch(self, n: int) -> u32 {
        pitch_step(self.semitones, n)
    }

    /// The pitch increments of all percentage levels, in order.
    pub open spec fn pitch_table(self) -> Seq<u32> {
        Seq::new(LEVEL_COUNT as nat, |n: int| self.pitch(n))
    }

    /// The tables have their sizes and the current-scheme coefficients grow with the level,
    /// as a search over them requires.
    pub open spec fn valid(self) -> bool {
        &&& self.sine.len() == SINE_TABLE_SIZE
        &&& self.semitones.len() == SEMITONE_COUNT
        &&& self.decay.len() == LEVEL_COUNT
        &&& self.legacy_decay.len() == LEVEL_COUNT
        &&& non_decreasing(self.pitch_table())
        &&& non_decreasing(self.decay)
    }
}

/// Lookup tables shared read-only by every instrument.
pub struct CinterEngine {
    sine_table: Vec<i16>,
    semitone_table: Vec<u32>,
    pitch_table: Vec<u32>,
    decay_table: Vec<u32>,
    legacy_decay_table: Vec<u32>,
}

impl View for CinterEngine {
    type V = EngineTables;

    closed spec fn view(&self) -> EngineTables {
        EngineTables {
            sine: self.sine_table@,
            semitones: self.semitone_table@,
            decay: self.decay_table@,
            legacy_decay: self.legacy_decay_table@,
        }
    }
}

impl CinterEngine {
    #[verifier::type_invariant]
    closed spec fn inv(&self) -> bool {
        &&& self@.valid()
        &&& self.pitch_table@ == self@.pitch_table()
    }

    /// Builds an engine from its precomputed tables. Returns `None` when a table
    /// has the wrong size, or when the pitch or decay coefficients decrease
    /// somewhere along the levels.
    pub fn new(
        sine_table: Vec<i16>,
        semitone_table: Vec<u32>,
        decay_table: Vec<u32>,
        legacy_decay_table: Vec<u32>,
    ) -> (r: Option<CinterEngine>)
        ensures
            r is Some <==> (EngineTables {
                sine: sine_table@,
                semitones: semitone_table@,
                decay: decay_table@,
                legacy_decay: legacy_decay_table@,
            }).valid(),
            r matches Some(e) ==> e@ == (EngineTables {
                sine: sine_table@,
                semitones: semitone_table@,
                decay: decay_table@,
                legacy_decay: legacy_decay_table@,
            }),
    {
        let ghost tables = EngineTables {
            sine: sine_table@,
            semitones: semitone_table@,
            decay: decay_table@,
            legacy_decay: legacy_decay_table@,
        };
        if sine_table.len() != SINE_TABLE_SIZE || semitone_table.len() != SEMITONE_COUNT
            || decay_table.len() != LEVEL_COUNT || legacy_decay_table.len() != LEVEL_COUNT {
            return None;
        }
        let mut pitch_table: Vec<u32> = Vec::new();
        let mut n: usize = 0;
        while n < LEVEL_COUNT
            invariant
                n <= LEVEL_COUNT,
                semitone_table@.len() == SEMITONE_COUNT,
                pitch_table@ == tables.pitch_table().take(n as int),
                tables.semitones == semitone_table@,
            decreases LEVEL_COUNT - n,
        {
            let p = if n == 0 {
                0u32
            } else if n < 5 {
                8u32 << (n as u32)
            } else {
                semitone_table[n - 5]
            };
            pitch_table.push(p);
            n = n + 1;
            assert(pitch_table@ =~= tables.pitch_table().take(n as int));
        }
        assert(pitch_table@ =~= tables.pitch_table());
        if !is_non_decreasing(&pitch_table) || !is_non_decreasing(&decay_table) {
            return None;
        }
        Some(CinterEngine { sine_table, semitone_table, pitch_table, decay_table, legacy_decay_table })
    }

    /// Value of the sine table at `index`.
    pub fn sine(&self, index: usize) -> (r: i16)
        requires
            index < SINE_TABLE_SIZE,
        ensures
            r == self@.sine[index as int],
            self@.valid(),
    {
        proof {
            use_type_invariant(self);
        }
        self.sine_table[index]
    }

    /// Pitch increment for a percentage level.
    pub fn pitchfun(&self, level: u32) -> (r: u32)
        requires
            level <= MAX_PERCENT,
        ensures
            r == self@.pitch(level as int),
            self@.valid(),
    {
        proof {
            use_type_invariant(self);
        }
        self.pitch_table[level as usize]
    }

    /// Q16 decay factor for a percentage level.
    pub fn decayfun(&self, level: u32) -> (r: u32)
        requires
            level <= MAX_PERCENT,
        ensures
            r == self@.decay[level as int],
            self@.valid(),
    {
        proof {
            use_type_invariant(self);
        }
        self.decay_table[level as usize]
    }

    /// Q16 decay factor of the three-digit legacy scheme for a percentage level.
    pub fn decayfun3(&self, level: u32) -> (r: u32)
        requires
            level <= MAX_PERCENT,
        ensures
            r == self@.legacy_decay[level as int],
            self@.valid(),
    {
        proof {
            use_type_invariant(self);
        }
        self.legacy_decay_table[level as usize]
    }

    /// The pitch increments of all percentage levels.
    pub fn pitch_levels(&self) -> (r: &[u32])
        ensures
            r@ == self@.pitch_table(),
            self@.valid(),
    {
        proof {
            use_type_invariant(self);
        }
        self.pitch_table.as_slice()
    }

    /// The decay factors of all percentage levels.
    pub fn decay_levels(&self) -> (r: &[u32])
        ensures
            r@ == self@.decay,
            self@.valid(),
    {
        proof {
            use_type_invariant(self);
        }
        self.decay_table.as_slice()
    }
}

/// Name of the parameter with the given index; empty beyond the last.
pub open spec fn parameter_name(index: i32) -> Seq<char> {
    if index == 0 {
        "attack"@
    } else if index == 1 {
        "decay"@
    } else if index == 2 {
        "mpitch"@
    } else if index == 3 {
        "mpitchdecay"@
    } else if index == 4 {
        "bpitch"@
    } else if index == 5 {
        "bpitchdecay"@
    } else if index == 6 {
        "mod"@
    } else if index == 7 {
        "moddecay"@
    } else if index == 8 {
        "mdist"@
    } else if index == 9 {
        "bdist"@
    } else if index == 10 {
        "vpower"@
    } else if index == 11 {
        "fdist"@
    } else {
        ""@
    }
}

impl CinterEngine {
    /// Name of the parameter with the given index; empty beyond the last.
    pub fn get_parameter_name(index: i32) -> (r: String)
        ensures
            r@ == parameter_name(index),
    {
        let name = match index {
            0 => "attack",
            1 => "decay",
            2 => "mpitch",
            3 => "mpitchdecay",
            4 => "bpitch",
            5 => "bpitchdecay",
            6 => "mod",
            7 => "moddecay",
            8 => "mdist",
            9 => "bdist",
            10 => "vpower",
            11 => "fdist",
            _ => "",
        };
        name.to_owned()
    }
}

/// Whether the values never decrease from one entry to the next.
fn is_non_decreasing(v: &Vec<u32>) -> (r: bool)
    ensures
        r == non_decreasing(v@),
{
    let mut i: usize = 1;
    if v.len() == 0 {
        return true;
    }
    while i < v.len()
        invariant
            1 <= i <= v@.len(),
            non_decreasing(v@.take(i as int)),
        decreases v@.len() - i,
    {
        if v[i - 1] > v[i] {
            return false;
        }
        assert forall|a: int, b: int| 0 <= a <= b < i + 1 implies v@[a] <= v@[b] by {
            if b == i && a < i {
                assert(v@.take(i as int)[a] <= v@.take(i as int)[i - 1]);
            } else if b < i {
                assert(v@.take(i as int)[a] <= v@.take(i as int)[b]);
            }
        }
        i = i + 1;
    }
    assert(v@.take(i as int) =~= v@);
    true
}

} // verus!
