//! One voice: a frequency, the frame its key went down, and the frame it was
//! released, if it has been.
use vstd::prelude::*;
use crate::envelope::Envelope;
use crate::waveform::{sawtooth, saw_value};

verus! {

/// Where a note stands in its envelope.
#[derive(Clone, Copy, PartialEq, Eq, Structural, Debug)]
pub enum NoteState {
    /// Held, this many frames after the key went down.
    Held(u64),
    /// Released `elapsed` frames ago, after being held for `held_for` frames.
    Released { held_for: u64, elapsed: u64 },
}

#[derive(Clone, Copy, PartialEq, Eq, Structural, Debug)]
pub struct Note {
    /// The frame the key went down.
    pub start: u64,
    /// Frequency in millihertz.
    pub freq: u32,
    /// The frame the key was released, once it has been.
    pub released_at: Option<u64>,
}

impl Note {
    /// A positive frequency, and a release no earlier than the start.
    pub open spec fn wf(&self) -> bool {
        &&& self.freq > 0
        &&& self.released_at matches Some(r) ==> self.start <= r
    }

    /// Whether frame `t` lies no earlier than every moment this note has recorded.
    pub open spec fn reached(&self, t: int) -> bool {
        &&& self.start <= t
        &&& self.released_at matches Some(r) ==> r <= t
    }

    pub open spec fn state_at(&self, t: int) -> NoteState {
        match self.released_at {
            Some(r) => NoteState::Released { held_for: (r - self.start) as u64, elapsed: (t - r) as u64 },
            None => NoteState::Held((t - self.start) as u64),
        }
    }

    /// Envelope gain times the sawtooth, in units of `GAIN_ONE * WAVE_ONE`.
    pub open spec fn sample_at(&self, envelope: Envelope, t: int, sample_rate: int) -> int {
        envelope.gain(self.state_at(t)) * saw_value(self.freq as int, t, sample_rate)
    }

    /// Released, and at frame `t` the release has run its whole length.
    pub open spec fn finished_at(&self, envelope: Envelope, t: int) -> bool {
        self.released_at matches Some(r) && t - r >= envelope.release_duration
    }

    /// A note whose key went down at frame `t`.
    pub fn new(freq: u32, t: u64) -> (r: Self)
        requires
            freq > 0,
        ensures
            r == (Note { start: t, freq, released_at: None }),
            r.wf(),
    {
        Self { start: t, freq, released_at: None }
    }

    /// Records the release at frame `t`. A second release changes nothing.
    pub fn release(&mut self, t: u64)
        requires
            old(self).wf(),
            old(self).start <= t,
        ensures
            final(self).wf(),
            old(self).released_at is None ==> *final(self) == (Note { released_at: Some(t), ..*old(self) }),
            old(self).released_at is Some ==> *final(self) == *old(self),
    {
        if self.released_at.is_none() {
            self.released_at = Some(t);
        }
    }

    /// The note's output at frame `t`.
    pub fn sample(&self, t: u64, envelope: &Envelope, sample_rate: u32) -> (r: i64)
        requires
            self.wf(),
            self.reached(t as int),
            envelope.wf(),
            sample_rate > 0,
        ensures
            r == self.sample_at(*envelope, t as int, sample_rate as int),
            -(65536 * 65536) <= r <= 65536 * 65536,
    {
        let amp = envelope.amplitude(self.note_state(t));
        let wave = sawtooth(self.freq, t, sample_rate);
        assert(-(65536 * 65536) <= amp * wave <= 65536 * 65536) by (nonlinear_arith)
            requires
                amp <= 65536,
                -65536 <= wave <= 65536,
        ;
        amp as i64 * wave as i64
    }

    fn note_state(&self, t: u64) -> (r: NoteState)
        requires
            self.wf(),
            self.reached(t as int),
        ensures
            r == self.state_at(t as int),
    {
        if let Some(released_at) = self.released_at {
            NoteState::Released { held_for: released_at - self.start, elapsed: t - released_at }
        } else {
            NoteState::Held(t - self.start)
        }
    }

    /// Whether the release has run its whole length at frame `t`.
    pub fn is_finished(&self, envelope: &Envelope, t: u64) -> (r: bool)
        requires
            self.reached(t as int),
        ensures
            r == self.finished_at(*envelope, t as int),
    {
        match self.released_at {
            Some(released_at) => t - released_at >= envelope.release_duration as u64,
            None => false,
        }
    }
}

/// A sample is the product of a gain no louder than 1 and a wave within full scale.
pub proof fn lemma_sample_within(n: Note, envelope: Envelope, t: int, sample_rate: int)
    requires
        envelope.wf(),
        sample_rate > 0,
        n.wf(),
        n.reached(t),
    ensures
        -0x1_0000_0000 <= n.sample_at(envelope, t, sample_rate) <= 0x1_0000_0000,
{
    let g = envelope.gain(n.state_at(t));
    let w = saw_value(n.freq as int, t, sample_rate);
    crate::envelope::lemma_gain_within(envelope, n.state_at(t));
    crate::waveform::lemma_saw_within(n.freq as int, t, sample_rate);
    assert(-0x1_0000_0000 <= g * w <= 0x1_0000_0000) by (nonlinear_arith)
        requires
            0 <= g <= 65536,
            -65536 <= w <= 65536,
    ;
}

} // verus!
