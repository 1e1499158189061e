//! The attack / decay / sustain / release gain envelope, a pure function of the
//! time spent in the held or released phase. Durations count sample frames;
//! gains are fixed-point with `GAIN_ONE` standing for 1.
use vstd::prelude::*;
use vstd::arithmetic::div_mod::{lemma_div_is_ordered, lemma_div_pos_is_pos, lemma_fundamental_div_mod};
use vstd::arithmetic::mul::{lemma_mul_inequality, lemma_mul_nonnegative};
use crate::note::NoteState;

verus! {

/// The gain that stands for 1.
pub const GAIN_ONE: u32 = 65536;

#[derive(Clone, Copy, PartialEq, Eq, Structural, Debug)]
pub struct Envelope {
    /// Frames from silence to the peak.
    pub attack_duration: u32,
    /// The peak gain, reached at the end of the attack.
    pub attack_amplitude: u32,
    /// Frames from the peak down to the sustain level.
    pub decay_duration: u32,
    /// The gain held for as long as the key stays down after the decay.
    pub sustain_amplitude: u32,
    /// Frames from the gain at release down to silence.
    pub release_duration: u32,
}

/// `from` at `t == 0`, falling in a straight line to `to` at `t == span`, rounded down.
pub open spec fn falling(from: int, to: int, span: int, t: int) -> int {
    to + (from - to) * (span - t) / span
}

impl Envelope {
    /// A peak above silence and no louder than 1, and a sustain level no louder than the peak.
    pub open spec fn wf(&self) -> bool {
        &&& 0 < self.attack_amplitude <= GAIN_ONE
        &&& self.sustain_amplitude <= self.attack_amplitude
    }

    /// The gain `e` frames after the key went down, while it is still held.
    pub open spec fn held_gain(&self, e: int) -> int {
        let a = self.attack_duration as int;
        let d = self.decay_duration as int;
        let p = self.attack_amplitude as int;
        let s = self.sustain_amplitude as int;
        if e < a {
            p * e / a
        } else if e < a + d {
            falling(p, s, d, e - a)
        } else {
            s
        }
    }

    /// The gain `e` frames after a release that came `held` frames after the
    /// key went down: from the gain at that moment straight down to silence.
    pub open spec fn released_gain(&self, held: int, e: int) -> int {
        let r = self.release_duration as int;
        if e < r {
            falling(self.held_gain(held), 0, r, e)
        } else {
            0
        }
    }

    pub open spec fn gain(&self, state: NoteState) -> int {
        match state {
            NoteState::Held(e) => self.held_gain(e as int),
            NoteState::Released { held_for, elapsed } => self.released_gain(
                held_for as int,
                elapsed as int,
            ),
        }
    }

    /// The largest change of gain from one frame to the next while held.
    pub open spec fn max_step(&self) -> int {
        let up = if self.attack_duration > 0 {
            self.attack_amplitude / self.attack_duration + 1
        } else {
            0
        };
        let down = if self.decay_duration > 0 {
            (self.attack_amplitude - self.sustain_amplitude) / (self.decay_duration as int) + 1
        } else {
            0
        };
        if up >= down {
            up
        } else {
            down
        }
    }

    /// The gain for a note in `state`.
    pub fn amplitude(&self, state: NoteState) -> (r: u32)
        requires
            self.wf(),
        ensures
            r == self.gain(state),
            r <= self.attack_amplitude,
    {
        match state {
            NoteState::Held(elapsed) => self.held_amplitude(elapsed),
            NoteState::Released { held_for, elapsed } => {
                if elapsed < self.release_duration as u64 {
                    let level = self.held_amplitude(held_for);
                    self.release_amplitude(level, elapsed)
                } else {
                    0
                }
            },
        }
    }

    fn held_amplitude(&self, elapsed: u64) -> (r: u32)
        requires
            self.wf(),
        ensures
            r == self.held_gain(elapsed as int),
            r <= self.attack_amplitude,
    {
        if elapsed < self.attack_duration as u64 {
            self.attack_amplitude(elapsed)
        } else if elapsed < self.attack_duration as u64 + self.decay_duration as u64 {
            self.decay_amplitude(elapsed - self.attack_duration as u64)
        } else {
            self.sustain_amplitude
        }
    }

    fn attack_amplitude(&self, t: u64) -> (r: u32)
        requires
            self.wf(),
            t < self.attack_duration,
        ensures
            r == self.held_gain(t as int),
            r <= self.attack_amplitude,
    {
        rising(self.attack_amplitude, self.attack_duration, t)
    }

    fn decay_amplitude(&self, t: u64) -> (r: u32)
        requires
            self.wf(),
            t < self.decay_duration,
        ensures
            r == self.held_gain(self.attack_duration + t),
            r <= self.attack_amplitude,
    {
        lower(self.attack_amplitude, self.sustain_amplitude, self.decay_duration, t)
    }

    fn release_amplitude(&self, level: u32, t: u64) -> (r: u32)
        requires
            t < self.release_duration,
        ensures
            r == falling(level as int, 0, self.release_duration as int, t as int),
            r <= level,
    {
        lower(level, 0, self.release_duration, t)
    }
}

/// `to * t / span`: from silence at `t == 0` towards `to` at `t == span`.
fn rising(to: u32, span: u32, t: u64) -> (r: u32)
    requires
        t < span,
    ensures
        r == (to * t) / (span as int),
        r <= to,
{
    proof {
        lemma_scaled_within(to as int, t as int, span as int);
    }
    assert(to * t <= 0xffff_ffff * 0xffff_ffff) by (nonlinear_arith)
        requires
            t < span,
    ;
    (to as u64 * t / span as u64) as u32
}

/// The straight line from `from` at `t == 0` down to `to` at `t == span`.
fn lower(from: u32, to: u32, span: u32, t: u64) -> (r: u32)
    requires
        to <= from,
        t < span,
    ensures
        r == falling(from as int, to as int, span as int, t as int),
        to <= r <= from,
{
    proof {
        lemma_scaled_within((from - to) as int, (span - t) as int, span as int);
    }
    assert((from - to) * (span - t) <= 0xffff_ffff * 0xffff_ffff) by (nonlinear_arith)
        requires
            t < span,
            to <= from,
    ;
    to + ((from - to) as u64 * (span as u64 - t) / span as u64) as u32
}

/// `0 <= x * n / d <= x` for `0 <= n <= d`.
proof fn lemma_scaled_within(x: int, n: int, d: int)
    requires
        x >= 0,
        0 <= n <= d,
        d > 0,
    ensures
        0 <= x * n / d <= x,
        x * n <= x * d,
{
    lemma_mul_nonnegative(x, n);
    lemma_mul_inequality(n, d, x);
    assert(x * n <= x * d) by (nonlinear_arith)
        requires
            x >= 0,
            n <= d,
    ;
    lemma_div_is_ordered(x * n, x * d, d);
    vstd::arithmetic::div_mod::lemma_div_multiples_vanish(x, d);
    lemma_div_pos_is_pos(x * n, d);
}

/// Adding `c` to the numerator raises the quotient by at most `c / d + 1`.
proof fn lemma_quotient_step(x: int, c: int, d: int)
    requires
        x >= 0,
        c >= 0,
        d > 0,
    ensures
        x / d <= (x + c) / d <= x / d + c / d + 1,
{
    lemma_fundamental_div_mod(x, d);
    lemma_fundamental_div_mod(c, d);
    lemma_fundamental_div_mod(x + c, d);
    lemma_div_is_ordered(x, x + c, d);
    assert((x + c) / d <= x / d + c / d + 1) by (nonlinear_arith)
        requires
            x == d * (x / d) + x % d,
            c == d * (c / d) + c % d,
            x + c == d * ((x + c) / d) + (x + c) % d,
            0 <= x % d < d,
            0 <= c % d < d,
            0 <= (x + c) % d < d,
            d > 0,
    ;
}

/// While the key is held the gain stays between silence and the peak, and it
/// moves by no more than one step of the steeper ramp from one frame to the
/// next: attack, decay and sustain join without a jump. The decay ramp starts
/// at the peak and ends at the sustain level. (A zero-length decay with a
/// sustain level below the peak is an intended drop at the end of the attack.)
pub proof fn lemma_held_gain_continuous(env: Envelope, e: int)
    requires
        env.wf(),
        e >= 0,
        env.decay_duration > 0 || env.sustain_amplitude == env.attack_amplitude,
    ensures
        0 <= env.held_gain(e) <= env.attack_amplitude,
        -env.max_step() <= env.held_gain(e + 1) - env.held_gain(e) <= env.max_step(),
        env.decay_duration > 0 ==> env.held_gain(env.attack_duration as int)
            == env.attack_amplitude,
        env.held_gain(env.attack_duration + env.decay_duration) == env.sustain_amplitude,
{
    let a = env.attack_duration as int;
    let d = env.decay_duration as int;
    let p = env.attack_amplitude as int;
    let s = env.sustain_amplitude as int;
    lemma_gain_bounds(env, e);
    lemma_gain_bounds(env, e + 1);
    if d > 0 {
        vstd::arithmetic::div_mod::lemma_div_multiples_vanish(p - s, d);
        assert((p - s) * d == d * (p - s)) by (nonlinear_arith);
    }
    if e + 1 < a {
        lemma_quotient_step(p * e, p, a);
        assert(p * (e + 1) == p * e + p) by (nonlinear_arith);
        lemma_mul_nonnegative(p, e);
        assert(env.held_gain(e + 1) == (p * e + p) / a);
        assert(env.held_gain(e) == (p * e) / a);
        assert(env.max_step() >= p / a + 1);
    } else if e + 1 == a {
        assert(p * e + p == p * a) by (nonlinear_arith)
            requires
                e + 1 == a,
        ;
        lemma_mul_nonnegative(p, e);
        lemma_quotient_step(p * e, p, a);
        vstd::arithmetic::div_mod::lemma_div_multiples_vanish(p, a);
        assert(p * a == a * p) by (nonlinear_arith);
        assert(env.held_gain(e + 1) == p);
        assert(env.held_gain(e) == (p * e) / a);
        assert(env.max_step() >= p / a + 1);
    } else if e + 1 < a + d {
        let m = a + d - e - 1;
        lemma_mul_nonnegative(p - s, m);
        lemma_quotient_step((p - s) * m, p - s, d);
        assert((p - s) * (m + 1) == (p - s) * m + (p - s)) by (nonlinear_arith);
        assert(env.held_gain(e + 1) == s + ((p - s) * m) / d);
        assert(env.held_gain(e) == s + ((p - s) * m + (p - s)) / d);
        assert(env.max_step() >= (p - s) / d + 1);
    } else if e + 1 == a + d && e >= a {
        lemma_quotient_step(0, p - s, d);
        assert((p - s) * (a + d - e) == p - s) by (nonlinear_arith)
            requires
                e + 1 == a + d,
        ;
        assert(env.max_step() >= (p - s) / d + 1);
    }
}

proof fn lemma_gain_bounds(env: Envelope, e: int)
    requires
        env.wf(),
        e >= 0,
    ensures
        0 <= env.sustain_amplitude <= env.attack_amplitude,
        0 <= env.held_gain(e) <= env.attack_amplitude,
        env.held_gain(e) <= GAIN_ONE,
{
    let a = env.attack_duration as int;
    let d = env.decay_duration as int;
    let p = env.attack_amplitude as int;
    let s = env.sustain_amplitude as int;
    if e < a {
        lemma_scaled_within(p, e, a);
    } else if e < a + d {
        lemma_scaled_within(p - s, a + d - e, d);
    }
}

/// In every state the gain lies between silence and the peak.
pub proof fn lemma_gain_within(env: Envelope, state: NoteState)
    requires
        env.wf(),
    ensures
        0 <= env.gain(state) <= env.attack_amplitude,
{
    match state {
        NoteState::Held(e) => lemma_gain_bounds(env, e as int),
        NoteState::Released { held_for, elapsed } => {
            lemma_gain_bounds(env, held_for as int);
            lemma_released_gain_falls(env, held_for as int, 0, elapsed as int);
            if env.release_duration > 0 {
                lemma_release_starts_from_held(env, held_for as int, 0);
            }
        },
    }
}

/// After a release the gain never rises, is exactly silent once
/// `release_duration` frames have passed, and stays silent from then on.
pub proof fn lemma_released_gain_falls(env: Envelope, held: int, e1: int, e2: int)
    requires
        env.wf(),
        held >= 0,
        0 <= e1 <= e2,
    ensures
        0 <= env.released_gain(held, e2) <= env.released_gain(held, e1),
        env.released_gain(held, env.release_duration as int) == 0,
        e2 >= env.release_duration ==> env.released_gain(held, e2) == 0,
{
    let r = env.release_duration as int;
    let l = env.held_gain(held);
    lemma_gain_bounds(env, held);
    if e2 < r {
        lemma_scaled_within(l, r - e2, r);
        lemma_scaled_within(l, r - e1, r);
        assert(l * (r - e2) <= l * (r - e1)) by (nonlinear_arith)
            requires
                l >= 0,
                e1 <= e2,
        ;
        lemma_div_is_ordered(l * (r - e2), l * (r - e1), r);
    } else if e1 < r {
        lemma_scaled_within(l, r - e1, r);
    }
}

/// A release starts from the gain the note had at that moment, whatever the
/// phase it was in, and falls from there: no jump to or from the sustain level.
pub proof fn lemma_release_starts_from_held(env: Envelope, held: int, e: int)
    requires
        env.wf(),
        held >= 0,
        e >= 0,
        env.release_duration > 0,
    ensures
        env.released_gain(held, 0) == env.held_gain(held),
        env.released_gain(held, e) <= env.held_gain(held),
{
    let r = env.release_duration as int;
    let l = env.held_gain(held);
    lemma_gain_bounds(env, held);
    vstd::arithmetic::div_mod::lemma_div_multiples_vanish(l, r);
    assert(l * r == r * l) by (nonlinear_arith);
    lemma_released_gain_falls(env, held, 0, e);
}

/// A note released at the very start of a non-empty attack is silent at once
/// and stays silent through its release.
pub proof fn lemma_release_at_onset(env: Envelope, e: int)
    requires
        env.wf(),
        env.attack_duration > 0,
        e >= 0,
    ensures
        env.held_gain(0) == 0,
        env.released_gain(0, e) == 0,
{
    assert(env.held_gain(0) == 0);
    if e < env.release_duration {
        assert(0int * (env.release_duration - e) == 0) by (nonlinear_arith);
    }
}

} // verus!
