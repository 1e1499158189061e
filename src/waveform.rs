//! Oscillators. Time is a frame index at a sample rate in hertz, frequency is in
//! millihertz, and an output of `WAVE_ONE` stands for full scale.
use vstd::prelude::*;
use vstd::arithmetic::div_mod::{
    lemma_fundamental_div_mod, lemma_fundamental_div_mod_converse, lemma_mod_multiples_vanish,
};

verus! {

/// Full-scale oscillator output.
pub const WAVE_ONE: i32 = 65536;

/// Frequencies are counted in thousandths of a hertz.
pub const MILLIHERTZ_PER_HERTZ: u64 = 1000;

/// Frequency units times frames that make one cycle.
pub open spec fn cycle_len(sample_rate: int) -> int {
    1000 * sample_rate
}

/// `2 * (x - floor(1/2 + x))` scaled by `WAVE_ONE` and rounded down, where
/// `x = freq * frame / cycle_len(sample_rate)` counts the cycles run so far.
pub open spec fn saw_value(freq: int, frame: int, sample_rate: int) -> int {
    let n = freq * frame;
    let q = cycle_len(sample_rate);
    (2 * WAVE_ONE * (n - q * ((2 * n + q) / (2 * q)))) / q
}

/// The sign of a sine of the same frequency: full scale up in the first half of
/// each cycle (its zero crossing excluded), full scale down in the second.
pub open spec fn square_value(freq: int, frame: int, sample_rate: int) -> int {
    let ph = (freq * frame) % cycle_len(sample_rate);
    if 0 < ph && 2 * ph < cycle_len(sample_rate) {
        WAVE_ONE as int
    } else {
        -WAVE_ONE
    }
}

/// The sawtooth through the position `ph` within a cycle of length `q`.
pub open spec fn saw_of_phase(ph: int, q: int) -> int {
    if 2 * ph < q {
        (2 * WAVE_ONE * ph) / q
    } else {
        (2 * WAVE_ONE * ph) / q - 2 * WAVE_ONE
    }
}

proof fn lemma_saw_by_phase(freq: int, frame: int, sample_rate: int)
    requires
        freq > 0,
        frame >= 0,
        sample_rate > 0,
    ensures
        saw_value(freq, frame, sample_rate) == saw_of_phase(
            (freq * frame) % cycle_len(sample_rate),
            cycle_len(sample_rate),
        ),
{
    let n = freq * frame;
    let q = cycle_len(sample_rate);
    assert(n >= 0) by (nonlinear_arith)
        requires
            n == freq * frame,
            freq > 0,
            frame >= 0,
    ;
    lemma_fundamental_div_mod(n, q);
    let k = n / q;
    let ph = n % q;
    let b: int = if 2 * ph < q {
        0
    } else {
        1
    };
    assert(2 * n + q == (k + b) * (2 * q) + (2 * ph + q - 2 * q * b)) by (nonlinear_arith)
        requires
            n == q * k + ph,
    ;
    lemma_fundamental_div_mod_converse(2 * n + q, 2 * q, k + b, 2 * ph + q - 2 * q * b);
    assert(n - q * (k + b) == ph - q * b) by (nonlinear_arith)
        requires
            n == q * k + ph,
    ;
    let m = 2 * WAVE_ONE * ph;
    lemma_fundamental_div_mod(m, q);
    assert(2 * WAVE_ONE * (ph - q * b) == (m / q - 2 * WAVE_ONE * b) * q + m % q) by (
    nonlinear_arith)
        requires
            m == q * (m / q) + m % q,
            m == 2 * WAVE_ONE * ph,
    ;
    lemma_fundamental_div_mod_converse(
        2 * WAVE_ONE * (ph - q * b),
        q,
        m / q - 2 * WAVE_ONE * b,
        m % q,
    );
}

proof fn lemma_phase_shift(freq: int, frame: int, k: int, sample_rate: int)
    requires
        freq > 0,
        frame >= 0,
        k >= 0,
        sample_rate > 0,
        (k * freq) % cycle_len(sample_rate) == 0,
    ensures
        (freq * (frame + k)) % cycle_len(sample_rate) == (freq * frame) % cycle_len(sample_rate),
{
    let q = cycle_len(sample_rate);
    lemma_fundamental_div_mod(k * freq, q);
    let j = (k * freq) / q;
    assert(freq * (frame + k) == q * j + freq * frame) by (nonlinear_arith)
        requires
            k * freq == q * j + 0,
    ;
    lemma_mod_multiples_vanish(j, freq * frame, q);
}

/// The sawtooth repeats after any number of frames that is a whole number of
/// its periods.
pub proof fn lemma_sawtooth_periodic(freq: int, frame: int, k: int, sample_rate: int)
    requires
        freq > 0,
        frame >= 0,
        k >= 0,
        sample_rate > 0,
        (k * freq) % cycle_len(sample_rate) == 0,
    ensures
        saw_value(freq, frame + k, sample_rate) == saw_value(freq, frame, sample_rate),
{
    lemma_phase_shift(freq, frame, k, sample_rate);
    lemma_saw_by_phase(freq, frame, sample_rate);
    lemma_saw_by_phase(freq, frame + k, sample_rate);
}

/// Where one period `1 / freq` is a whole number of frames, the sawtooth takes
/// the same value one period later.
pub proof fn lemma_sawtooth_one_period(freq: int, frame: int, sample_rate: int)
    requires
        freq > 0,
        frame >= 0,
        sample_rate > 0,
        cycle_len(sample_rate) % freq == 0,
    ensures
        saw_value(freq, frame + cycle_len(sample_rate) / freq, sample_rate) == saw_value(
            freq,
            frame,
            sample_rate,
        ),
{
    let q = cycle_len(sample_rate);
    let p = q / freq;
    lemma_fundamental_div_mod(q, freq);
    assert(p * freq == q);
    assert(p >= 0) by (nonlinear_arith)
        requires
            p * freq == q,
            q > 0,
            freq > 0,
    ;
    vstd::arithmetic::div_mod::lemma_mod_self_0(q);
    lemma_sawtooth_periodic(freq, frame, p, sample_rate);
}

/// The square wave repeats after any number of frames that is a whole number of
/// its periods.
pub proof fn lemma_square_periodic(freq: int, frame: int, k: int, sample_rate: int)
    requires
        freq > 0,
        frame >= 0,
        k >= 0,
        sample_rate > 0,
        (k * freq) % cycle_len(sample_rate) == 0,
    ensures
        square_value(freq, frame + k, sample_rate) == square_value(freq, frame, sample_rate),
{
    lemma_phase_shift(freq, frame, k, sample_rate);
}

/// The sawtooth stays within full scale.
pub proof fn lemma_saw_within(freq: int, frame: int, sample_rate: int)
    requires
        freq > 0,
        frame >= 0,
        sample_rate > 0,
    ensures
        -WAVE_ONE <= saw_value(freq, frame, sample_rate) < WAVE_ONE,
{
    let q = cycle_len(sample_rate);
    let ph = (freq * frame) % q;
    lemma_saw_by_phase(freq, frame, sample_rate);
    vstd::arithmetic::div_mod::lemma_mod_bound(freq * frame, q);
    if 2 * ph < q {
        assert(0 <= (131072 * ph) / q < 65536) by (nonlinear_arith)
            requires
                0 <= ph,
                2 * ph < q,
                q > 0,
        ;
    } else {
        assert(65536 <= (131072 * ph) / q < 131072) by (nonlinear_arith)
            requires
                ph < q,
                2 * ph >= q,
                q > 0,
        ;
    }
}

/// Position within the current cycle, in frequency units times frames.
fn phase(freq: u32, t: u64, sample_rate: u32) -> (ph: u64)
    requires
        sample_rate > 0,
    ensures
        ph == (freq * t) % cycle_len(sample_rate as int),
        ph < cycle_len(sample_rate as int),
{
    let q: u64 = MILLIHERTZ_PER_HERTZ * sample_rate as u64;
    assert(freq as u128 * t as u128 <= 0xffff_ffff_ffff_ffff_ffff_ffff_ffff_ffff) by (nonlinear_arith);
    let n: u128 = freq as u128 * t as u128;
    (n % q as u128) as u64
}

/// The sawtooth `2 * (t*f - floor(0.5 + t*f))` at frame `t`, for a frequency
/// `freq` in millihertz.
pub fn sawtooth(freq: u32, t: u64, sample_rate: u32) -> (r: i32)
    requires
        freq > 0,
        sample_rate > 0,
    ensures
        r == saw_value(freq as int, t as int, sample_rate as int),
        -WAVE_ONE <= r < WAVE_ONE,
{
    let q: u64 = MILLIHERTZ_PER_HERTZ * sample_rate as u64;
    let ph = phase(freq, t, sample_rate);
    proof {
        lemma_saw_by_phase(freq as int, t as int, sample_rate as int);
    }
    let scaled: u64 = 131072 * ph / q;
    assert((131072 * ph) as int / (q as int) < 131072) by (nonlinear_arith)
        requires
            ph < q,
            q > 0,
    ;
    if 2 * ph < q {
        assert((131072 * ph) as int / (q as int) < 65536) by (nonlinear_arith)
            requires
                2 * ph < q,
                q > 0,
        ;
        scaled as i32
    } else {
        assert((131072 * ph) as int / (q as int) >= 65536) by (nonlinear_arith)
            requires
                2 * ph >= q,
                q > 0,
        ;
        scaled as i32 - 131072
    }
}

/// A square wave: the sign of a sine of frequency `freq` (millihertz) at frame `t`.
pub fn square(freq: u32, t: u64, sample_rate: u32) -> (r: i32)
    requires
        sample_rate > 0,
    ensures
        r == square_value(freq as int, t as int, sample_rate as int),
{
    let q: u64 = MILLIHERTZ_PER_HERTZ * sample_rate as u64;
    let ph = phase(freq, t, sample_rate);
    if 0 < ph && 2 * ph < q {
        WAVE_ONE
    } else {
        -WAVE_ONE
    }
}

} // verus!
