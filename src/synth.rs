//! The synthesis recurrence: a mathematical model of one step, and the
//! instrument that runs it incrementally behind a sample cache.
use vstd::prelude::*;

use std::sync::Arc;

use crate::engine::{CinterEngine, EngineTables, SINE_TABLE_SIZE};
use crate::mapping::{levels_valid, env_step, envfun, MAX_ENVELOPE_STEP, PARAMETER_COUNT};

verus! {

/// Length of a waveform when none is given.
pub const DEFAULT_LENGTH: usize = 65534;

/// No instrument computes samples at or beyond this index: the phase counter
/// must stay within 32 bits.
pub const MAX_CAPACITY: usize = 0x7fff_ffff;

/// Number of leading silent samples before the recurrence starts.
pub const LEAD_IN: usize = 2;

/// Full scale of the amplitude envelope.
pub const FULL_SCALE: i32 = 32767;

/// Decoded synthesis coefficients, fixed when an instrument is made.
#[derive(Clone, Copy, Debug)]
pub struct Coefficients {
    pub attack: i32,
    pub decay: i32,
    pub mpitch: u32,
    pub bpitch: u32,
    pub modulation: u32,
    pub mpitch_decay: u32,
    pub bpitch_decay: u32,
    pub mod_decay: u32,
    pub mdist: u32,
    pub bdist: u32,
    pub vpower: u32,
    pub fdist: u32,
}

impl Coefficients {
    /// Envelope steps are within their range.
    pub open spec fn valid(self) -> bool {
        &&& 0 <= self.attack <= MAX_ENVELOPE_STEP
        &&& 0 <= self.decay <= MAX_ENVELOPE_STEP
    }
}

/// The coefficients that a parameter vector decodes to.
pub open spec fn coefficients_for(t: EngineTables, levels: Seq<u32>) -> Coefficients {
    Coefficients {
        attack: env_step(levels[0] as int) as i32,
        decay: env_step(levels[1] as int) as i32,
        mpitch: t.pitch(levels[2] as int) << 16u32,
        mpitch_decay: t.decay[levels[3] as int],
        bpitch: t.pitch(levels[4] as int) << 16u32,
        bpitch_decay: t.decay[levels[5] as int],
        modulation: (levels[6] * 65536) as u32,
        mod_decay: t.decay[levels[7] as int],
        mdist: levels[8],
        bdist: levels[9],
        vpower: levels[10],
        fdist: levels[11],
    }
}

/// The live state of the oscillator and envelope.
#[derive(Clone, Copy, Debug)]
pub struct SynthState {
    pub phase: i32,
    pub amp: i32,
    pub amp_delta: i32,
    pub mpitch: u32,
    pub bpitch: u32,
    pub modulation: u32,
}

/// State before the first step.
pub open spec fn initial_state(c: Coefficients) -> SynthState {
    SynthState {
        phase: 0,
        amp: 0,
        amp_delta: c.attack,
        mpitch: c.mpitch,
        bpitch: c.bpitch,
        modulation: c.modulation,
    }
}

/// Oscillator lookup: a quarter-resolution index into the sine table, wrapping.
pub open spec fn lookup(table: Seq<i16>, arg: i32) -> i32 {
    table[((arg >> 2u32) & 16383i32) as int] as i32
}

/// `k` oscillator lookups applied in sequence.
pub open spec fn fold(table: Seq<i16>, val: i32, k: nat) -> i32
    decreases k,
{
    if k == 0 {
        val
    } else {
        fold(table, lookup(table, val), (k - 1) as nat)
    }
}

/// Phase coupling: `(v * (p >> 2)) >> 16`, computed in 64 bits and truncated to 32.
pub open spec fn scale(v: i32, p: u32) -> i32 {
    (((v as i64 * (p >> 2u32) as i64) as i64) >> 16u32) as i32
}

/// Division rounding toward zero.
pub open spec fn trunc_div(x: int, d: int) -> int {
    if x >= 0 {
        x / d
    } else {
        -((-x) / d)
    }
}

/// `n` multiplications by the envelope amplitude taken as a fraction of 32768.
pub open spec fn shape(val: int, amp: int, n: nat) -> int
    decreases n,
{
    if n == 0 {
        val
    } else {
        shape(trunc_div(val * amp, 32768), amp, (n - 1) as nat)
    }
}

/// Modulator value of a state.
pub open spec fn modulator(table: Seq<i16>, c: Coefficients, s: SynthState) -> i32 {
    fold(table, lookup(table, scale(s.phase, s.mpitch)), c.mdist as nat)
}

/// Base value of a state, phase-modulated by the modulator.
pub open spec fn carrier(table: Seq<i16>, c: Coefficients, s: SynthState) -> i32 {
    let arg = scale(s.phase, s.bpitch).wrapping_add(scale(modulator(table, c, s), s.modulation));
    fold(table, lookup(table, arg), c.bdist as nat)
}

/// The sample that a state emits: shaped by the envelope, folded, shifted
/// right by 7, capped at 127 and truncated to 8 bits.
pub open spec fn output(table: Seq<i16>, c: Coefficients, s: SynthState) -> i8 {
    let shaped = shape(carrier(table, c, s) as int, s.amp as int, (c.vpower + 1) as nat);
    let v = fold(table, shaped as i32, c.fdist as nat) >> 7u32;
    (if v > 127 {
        127
    } else {
        v
    }) as i8
}

/// Q16 multiplicative decay, truncated to 32 bits.
pub open spec fn decay_q16(v: u32, f: u32) -> u32 {
    ((v as int * f as int) / 65536) as u32
}

/// The state after one step.
pub open spec fn next_state(c: Coefficients, s: SynthState) -> SynthState {
    let a = s.amp + s.amp_delta;
    SynthState {
        phase: (s.phase + 1) as i32,
        amp: if a > FULL_SCALE {
            FULL_SCALE
        } else if a < 0 {
            0
        } else {
            a as i32
        },
        amp_delta: if a > FULL_SCALE {
            (-c.decay) as i32
        } else {
            s.amp_delta
        },
        mpitch: decay_q16(s.mpitch, c.mpitch_decay),
        bpitch: decay_q16(s.bpitch, c.bpitch_decay),
        modulation: decay_q16(s.modulation, c.mod_decay),
    }
}

/// The state after `k` steps.
pub open spec fn state_at(c: Coefficients, k: nat) -> SynthState
    decreases k,
{
    if k == 0 {
        initial_state(c)
    } else {
        next_state(c, state_at(c, (k - 1) as nat))
    }
}

/// Sample `i` of the unbounded waveform: two leading zeros, then one output per step.
pub open spec fn wave(table: Seq<i16>, c: Coefficients, i: int) -> i8 {
    if i < LEAD_IN {
        0
    } else {
        output(table, c, state_at(c, (i - LEAD_IN) as nat))
    }
}

/// The amplitude stays within `0..=32767`, the step is the attack or the negated
/// decay, and the phase counts the steps.
pub proof fn lemma_state_bounds(c: Coefficients, k: nat)
    requires
        c.valid(),
        k < MAX_CAPACITY,
    ensures
        0 <= state_at(c, k).amp <= FULL_SCALE,
        state_at(c, k).amp_delta == c.attack || state_at(c, k).amp_delta == -c.decay,
        state_at(c, k).phase == k,
    decreases k,
{
    if k > 0 {
        lemma_state_bounds(c, (k - 1) as nat);
    }
}

/// Whatever the coefficients, the envelope amplitude never leaves `0..=32767`.
pub proof fn lemma_envelope_bound(c: Coefficients, k: nat)
    ensures
        0 <= state_at(c, k).amp <= FULL_SCALE,
    decreases k,
{
    if k > 0 {
        lemma_envelope_bound(c, (k - 1) as nat);
    }
}

/// Mathematical content of an instrument.
pub struct InstrumentModel {
    pub table: Seq<i16>,
    pub coefficients: Coefficients,
    pub length: usize,
    pub repeat_start: Option<usize>,
}

impl InstrumentModel {
    /// A loop point, when present, lies before the end.
    pub open spec fn valid(self) -> bool {
        &&& self.table.len() == SINE_TABLE_SIZE
        &&& self.coefficients.valid()
        &&& (self.repeat_start matches Some(r) ==> r < self.length)
    }

    /// Indices below this are computed; the rest read as silence.
    pub open spec fn capacity(self) -> int {
        let c = if self.length > DEFAULT_LENGTH {
            self.length as int
        } else {
            DEFAULT_LENGTH as int
        };
        if c > MAX_CAPACITY {
            MAX_CAPACITY as int
        } else {
            c
        }
    }

    /// Sample `i` without loop remapping.
    pub open spec fn raw(self, i: int) -> i8 {
        if i < self.capacity() {
            wave(self.table, self.coefficients, i)
        } else {
            0
        }
    }

    /// Where index `i` reads from: itself before the end, the loop beyond it.
    pub open spec fn repeated_index(self, i: int) -> Option<int> {
        if i < self.length {
            Some(i)
        } else {
            match self.repeat_start {
                Some(r) => Some(r + (i - self.length) % (self.length - r)),
                None => None,
            }
        }
    }

    /// Sample `i` as played: looped beyond the end, or silent without a loop.
    pub open spec fn sample(self, i: int) -> i8 {
        match self.repeated_index(i) {
            Some(j) => self.raw(j),
            None => 0,
        }
    }

    /// Length after trailing silence is cut back from `l`, keeping at least two samples.
    pub open spec fn trimmed_length(self, l: int) -> int
        decreases l,
    {
        if l <= LEAD_IN || self.raw(l - 1) != 0 {
            l
        } else {
            self.trimmed_length(l - 1)
        }
    }

    /// The natural length of the sound: the default length with trailing silence
    /// (read without loop remapping) removed, rounded up to an even count.
    pub open spec fn natural_length(self) -> int {
        let l = self.trimmed_length(DEFAULT_LENGTH as int);
        if l % 2 == 0 {
            l
        } else {
            l + 1
        }
    }
}

/// The loop point that a requested one becomes: dropped unless it lies before the end.
pub open spec fn effective_repeat_start(length: usize, repeat_start: Option<usize>) -> Option<usize> {
    match repeat_start {
        Some(r) => if r < length {
            Some(r)
        } else {
            None
        },
        None => None,
    }
}

/// The instrument that a parameter vector and a length and loop configuration give.
pub open spec fn model_for(
    t: EngineTables,
    levels: Seq<u32>,
    length: Option<usize>,
    repeat_start: Option<usize>,
) -> InstrumentModel {
    let len = match length {
        Some(l) => l,
        None => DEFAULT_LENGTH,
    };
    InstrumentModel {
        table: t.sine,
        coefficients: coefficients_for(t, levels),
        length: len,
        repeat_start: effective_repeat_start(len, repeat_start),
    }
}


/// Oscillator lookup through the engine's sine table.
fn sintab(engine: &CinterEngine, i: i32) -> (r: i32)
    ensures
        r == lookup(engine@.sine, i),
        -32768 <= r <= 32767,
{
    let idx = (i >> 2) & 16383;
    proof {
        assert(0 <= (i >> 2u32) & 16383i32 <= 16383) by (bit_vector);
    }
    engine.sine(idx as usize) as i32
}

/// Applies the oscillator lookup `shift` times to `val`.
fn distort(engine: &CinterEngine, val: i32, shift: u32) -> (r: i32)
    ensures
        r == fold(engine@.sine, val, shift as nat),
        shift > 0 ==> -32768 <= r <= 32767,
{
    let mut v = val;
    let mut k = shift;
    while k > 0
        invariant
            fold(engine@.sine, v, k as nat) == fold(engine@.sine, val, shift as nat),
            k < shift ==> -32768 <= v <= 32767,
            k <= shift,
        decreases k,
    {
        v = sintab(engine, v);
        k = k - 1;
    }
    v
}

/// Phase coupling of a value with a 32-bit increment.
fn mul(v16: i32, v32: u32) -> (r: i32)
    ensures
        r == scale(v16, v32),
{
    let q = v32 >> 2;
    proof {
        assert(v32 >> 2u32 <= 0x3fff_ffffu32) by (bit_vector);
        assert(-0x8000_0000 * 0x4000_0000 <= v16 * q <= 0x7fff_ffff * 0x4000_0000)
            by (nonlinear_arith)
            requires
                -0x8000_0000 <= v16 <= 0x7fff_ffff,
                0 <= q <= 0x4000_0000,
        ;
    }
    let r = (#[verifier::truncate] (((v16 as i64 * q as i64) >> 16) as i32));
    r
}

/// One multiplication by the amplitude taken as a fraction of 32768.
fn apply_amp(val: i32, amp: i32) -> (r: i32)
    requires
        -32768 <= val <= 32767,
        0 <= amp <= FULL_SCALE,
    ensures
        r as int == trunc_div(val * amp, 32768),
        -32768 <= r <= 32767,
{
    proof {
        assert(-32768 * 32767 <= val * amp <= 32767 * 32767) by (nonlinear_arith)
            requires
                -32768 <= val <= 32767,
                0 <= amp <= 32767,
        ;
    }
    val * amp / 32768
}

/// Q16 multiplicative decay.
fn decay_step(v: u32, f: u32) -> (r: u32)
    ensures
        r == decay_q16(v, f),
{
    proof {
        assert(v * f <= 0xffff_ffff * 0xffff_ffff) by (nonlinear_arith)
            requires
                v <= 0xffff_ffff,
                f <= 0xffff_ffff,
        ;
    }
    let x: u64 = v as u64 * f as u64;
    proof {
        assert(x >> 16u64 == x / 65536u64) by (bit_vector);
    }
    let r = (#[verifier::truncate] ((x >> 16) as u32));
    r
}

/// The sample that the current state emits.
fn emit(engine: &CinterEngine, c: &Coefficients, s: &SynthState) -> (r: i8)
    requires
        0 <= s.amp <= FULL_SCALE,
    ensures
        r == output(engine@.sine, *c, *s),
{
    let ghost table = engine@.sine;
    let mval = distort(engine, sintab(engine, crate::synth::mul(s.phase, s.mpitch)), c.mdist);
    assert(mval == modulator(table, *c, *s));
    let arg = crate::synth::mul(s.phase, s.bpitch).wrapping_add(crate::synth::mul(mval, s.modulation));
    let base = distort(engine, sintab(engine, arg), c.bdist);
    assert(base == carrier(table, *c, *s));
    let mut val = base;
    let mut p: i64 = c.vpower as i64;
    while p >= 0
        invariant
            -1 <= p <= c.vpower,
            -32768 <= val <= 32767,
            0 <= s.amp <= FULL_SCALE,
            shape(val as int, s.amp as int, (p + 1) as nat) == shape(
                base as int,
                s.amp as int,
                (c.vpower + 1) as nat,
            ),
        decreases p + 1,
    {
        val = apply_amp(val, s.amp);
        p = p - 1;
    }
    let folded = distort(engine, val, c.fdist) >> 7;
    let capped = if folded > 127 {
        127
    } else {
        folded
    };
    capped as i8
}


/// A synthesis instance: fixed coefficients, live oscillator state, and the
/// cache of samples computed so far.
#[derive(Clone)]
pub struct CinterInstrument {
    engine: Arc<CinterEngine>,
    coef: Coefficients,
    length: usize,
    repeat_start: Option<usize>,
    state: SynthState,
    data: Vec<i8>,
}

impl View for CinterInstrument {
    type V = InstrumentModel;

    closed spec fn view(&self) -> InstrumentModel {
        InstrumentModel {
            table: self.engine@.sine,
            coefficients: self.coef,
            length: self.length,
            repeat_start: self.repeat_start,
        }
    }
}

impl CinterInstrument {
    /// The cache holds the waveform's first samples and the state matches the
    /// number of steps taken.
    pub closed spec fn wf(&self) -> bool {
        &&& self@.valid()
        &&& self.engine@.valid()
        &&& LEAD_IN <= self.data@.len() <= MAX_CAPACITY
        &&& self.state == state_at(self.coef, (self.data@.len() - LEAD_IN) as nat)
        &&& forall|i: int|
            0 <= i < self.data@.len() ==> #[trigger] self.data@[i] == wave(
                self.engine@.sine,
                self.coef,
                i,
            )
    }

    /// Decodes a parameter vector into a new instrument. Without a length the
    /// default is used; a loop point at or beyond the length is dropped.
    pub fn new(
        engine: Arc<CinterEngine>,
        params: &[u32; PARAMETER_COUNT],
        length: Option<usize>,
        repeat_start: Option<usize>,
    ) -> (r: Self)
        requires
            levels_valid(params@),
        ensures
            r.wf(),
            r@.valid(),
            r@ == model_for(engine@, params@, length, repeat_start),
    {
        let length = match length {
            Some(l) => l,
            None => DEFAULT_LENGTH,
        };
        let repeat_start = match repeat_start {
            Some(start) => if start >= length {
                None
            } else {
                Some(start)
            },
            None => None,
        };
        assert(params@[6] <= 100 && params@[8] <= 10 && params@[9] <= 10 && params@[10] <= 10
            && params@[11] <= 10);
        let m6 = params[6];
        proof {
            assert(m6 <= 100u32 ==> m6 << 16u32 == m6 * 65536u32) by (bit_vector);
        }
        let coef = Coefficients {
            attack: envfun(params[0]),
            decay: envfun(params[1]),
            mpitch: engine.pitchfun(params[2]) << 16,
            mpitch_decay: engine.decayfun(params[3]),
            bpitch: engine.pitchfun(params[4]) << 16,
            bpitch_decay: engine.decayfun(params[5]),
            modulation: m6 << 16,
            mod_decay: engine.decayfun(params[7]),
            mdist: params[8],
            bdist: params[9],
            vpower: params[10],
            fdist: params[11],
        };
        let mut data: Vec<i8> = Vec::new();
        data.push(0);
        data.push(0);
        let state = SynthState {
            phase: 0,
            amp: 0,
            amp_delta: coef.attack,
            mpitch: coef.mpitch,
            bpitch: coef.bpitch,
            modulation: coef.modulation,
        };
        let r = CinterInstrument { engine, coef, length, repeat_start, state, data };
        assert(r@ =~= model_for(engine@, params@, Some(length), repeat_start));
        r
    }

    /// Length of the waveform before the loop (or silence) begins.
    pub fn length(&self) -> (r: usize)
        ensures
            r == self@.length,
    {
        self.length
    }

    /// Start of the loop, if there is one.
    pub fn repeat_start(&self) -> (r: Option<usize>)
        ensures
            r == self@.repeat_start,
    {
        self.repeat_start
    }

    /// Changes the length; a loop point that no longer lies before the end is dropped.
    pub fn set_length(&mut self, length: usize)
        requires
            old(self).wf(),
        ensures
            final(self).wf(),
            final(self)@ == (InstrumentModel {
                length,
                repeat_start: effective_repeat_start(length, old(self)@.repeat_start),
                ..old(self)@
            }),
    {
        self.length = length;
        if let Some(start) = self.repeat_start {
            if start >= length {
                self.repeat_start = None;
            }
        }
    }

    /// Largest index plus one that is computed; indices from here on read as silence.
    pub fn capacity(&self) -> (r: usize)
        ensures
            r == self@.capacity(),
    {
        let c = if self.length > DEFAULT_LENGTH {
            self.length
        } else {
            DEFAULT_LENGTH
        };
        if c > MAX_CAPACITY {
            MAX_CAPACITY
        } else {
            c
        }
    }

    /// The index that `index` reads from: itself before the end, a position in
    /// the loop beyond it, or nothing when there is no loop.
    pub fn repeated_index(&self, index: usize) -> (r: Option<usize>)
        requires
            self.wf(),
        ensures
            r is Some <==> self@.repeated_index(index as int) is Some,
            r matches Some(j) ==> self@.repeated_index(index as int) == Some(j as int),
    {
        if index < self.length {
            Some(index)
        } else {
            match self.repeat_start {
                Some(repeat_start) => {
                    let span = self.length - repeat_start;
                    let offset = (index - self.length) % span;
                    assert(offset < span);
                    Some(repeat_start + offset)
                },
                None => None,
            }
        }
    }

    /// Sample `index` as played: remapped into the loop beyond the end, silent
    /// beyond the end without a loop.
    pub fn get_sample(&mut self, index: usize) -> (r: i8)
        requires
            old(self).wf(),
        ensures
            final(self).wf(),
            final(self)@.valid(),
            final(self)@ == old(self)@,
            r == old(self)@.sample(index as int),
    {
        if let Some(index) = self.repeated_index(index) {
            self.get_sample_raw(index)
        } else {
            0
        }
    }

    /// Sample `index` without loop remapping, computing and caching every sample
    /// up to it. Indices at or beyond the capacity read as silence.
    pub fn get_sample_raw(&mut self, index: usize) -> (r: i8)
        requires
            old(self).wf(),
        ensures
            final(self).wf(),
            final(self)@ == old(self)@,
            r == old(self)@.raw(index as int),
    {
        if index >= self.capacity() {
            return 0;
        }
        while self.data.len() <= index
            invariant
                self.wf(),
                self@ == old(self)@,
                index < self@.capacity(),
            decreases index + 1 - self.data@.len(),
        {
            let sample = self.compute_sample();
            self.data.push(sample);
            assert forall|i: int| 0 <= i < self.data@.len() implies #[trigger] self.data@[i]
                == wave(self.engine@.sine, self.coef, i) by {
                if i == self.data@.len() - 1 {
                } else {
                }
            }
        }
        self.data[index]
    }

    /// Runs one step of the recurrence and returns the sample it emits.
    fn compute_sample(&mut self) -> (r: i8)
        requires
            old(self).coef.valid(),
            old(self).data@.len() >= LEAD_IN,
            old(self).data@.len() < MAX_CAPACITY,
            old(self).state == state_at(old(self).coef, (old(self).data@.len() - LEAD_IN) as nat),
        ensures
            final(self).state == next_state(old(self).coef, old(self).state),
            r == output(old(self).engine@.sine, old(self).coef, old(self).state),
            final(self).engine == old(self).engine,
            final(self).coef == old(self).coef,
            final(self).length == old(self).length,
            final(self).repeat_start == old(self).repeat_start,
            final(self).data == old(self).data,
    {
        proof {
            lemma_state_bounds(self.coef, (self.data@.len() - LEAD_IN) as nat);
        }
        let val = emit(&self.engine, &self.coef, &self.state);
        self.state.mpitch = decay_step(self.state.mpitch, self.coef.mpitch_decay);
        self.state.bpitch = decay_step(self.state.bpitch, self.coef.bpitch_decay);
        self.state.modulation = decay_step(self.state.modulation, self.coef.mod_decay);
        self.state.amp = self.state.amp + self.state.amp_delta;
        if self.state.amp > FULL_SCALE {
            self.state.amp = FULL_SCALE;
            self.state.amp_delta = -self.coef.decay;
        } else if self.state.amp < 0 {
            self.state.amp = 0;
        }
        self.state.phase = self.state.phase + 1;
        val
    }

    /// The first `count` samples as played, as unsigned bytes.
    pub fn render(&mut self, count: usize) -> (r: Vec<u8>)
        requires
            old(self).wf(),
        ensures
            final(self).wf(),
            final(self)@ == old(self)@,
            r@.len() == count,
            forall|i: int| 0 <= i < count ==> #[trigger] r@[i] == old(self)@.sample(i) as u8,
    {
        let mut out: Vec<u8> = Vec::new();
        let mut i: usize = 0;
        while i < count
            invariant
                self.wf(),
                self@ == old(self)@,
                i <= count,
                out@.len() == i,
                forall|j: int| 0 <= j < i ==> #[trigger] out@[j] == old(self)@.sample(j) as u8,
            decreases count - i,
        {
            let s = self.get_sample(i);
            out.push(s as u8);
            i = i + 1;
        }
        out
    }

    /// The natural length of the sound (see `InstrumentModel::natural_length`).
    pub fn compute_length(&mut self) -> (r: usize)
        requires
            old(self).wf(),
        ensures
            final(self).wf(),
            final(self)@ == old(self)@,
            r == old(self)@.natural_length(),
    {
        let mut length: usize = DEFAULT_LENGTH;
        while length > LEAD_IN && self.get_sample_raw(length - 1) == 0
            invariant
                self.wf(),
                self@ == old(self)@,
                LEAD_IN <= length <= DEFAULT_LENGTH,
                self@.trimmed_length(length as int) == self@.trimmed_length(DEFAULT_LENGTH as int),
            decreases length,
        {
            length = length - 1;
        }
        if length % 2 == 0 {
            length
        } else {
            length + 1
        }
    }
}


/// Two instruments made from the same tables, parameter vector, length and loop
/// point hold the same waveform: every index reads the same sample from both,
/// since each read returns the sample that the model fixes, whatever was read before.
pub proof fn lemma_determinism(
    a: InstrumentModel,
    b: InstrumentModel,
    t: EngineTables,
    levels: Seq<u32>,
    length: Option<usize>,
    repeat_start: Option<usize>,
    i: int,
)
    requires
        a == model_for(t, levels, length, repeat_start),
        b == model_for(t, levels, length, repeat_start),
    ensures
        a.sample(i) == b.sample(i),
        a.raw(i) == b.raw(i),
{
}

/// Reading an index again, after any other reads, gives the value first observed:
/// reads leave the model unchanged, and each returns the model's sample.
pub proof fn lemma_cache_stable(before: InstrumentModel, after: InstrumentModel, i: int, first: i8)
    requires
        first == before.sample(i),
        after == before,
    ensures
        after.sample(i) == first,
{
}

/// Beyond the end, a looped instrument repeats the section from the loop point:
/// sample `length + k` equals sample `repeat_start + k mod (length - repeat_start)`.
pub proof fn lemma_loop_wraparound(m: InstrumentModel, k: int)
    requires
        m.valid(),
        m.repeat_start is Some,
        k >= 0,
    ensures
        m.sample(m.length + k) == m.sample(
            m.repeat_start->0 + k % (m.length - m.repeat_start->0),
        ),
{
    let r = m.repeat_start->0 as int;
    let span = m.length - r;
    assert(0 <= k % span < span);
    assert(m.repeated_index(m.length + k) == Some(r + k % span));
    assert(m.repeated_index(r + k % span) == Some(r + k % span));
}

/// Without a loop point every index at or beyond the length is silent.
pub proof fn lemma_silence_beyond_length(m: InstrumentModel, i: int)
    requires
        m.repeat_start is None,
        i >= m.length,
    ensures
        m.sample(i) == 0,
{
}

} // verus!
