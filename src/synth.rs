//! The synthesizer: the sample clock, the envelope, the key table and the
//! voices, with the control step (press, release) and the render step.
use vstd::prelude::*;
use vstd::arithmetic::div_mod::lemma_fundamental_div_mod_converse;
use crate::clock::SampleClock;
use crate::envelope::Envelope;
use crate::keys::KeyTable;
use crate::note::Note;
use crate::registry::{
    frame_value, lemma_mix_bound, lemma_prune_keeps_mix,
    lemma_prune_twice, lemma_pruned_wf, lemma_voice_count, mix_sum, pressed, pruned, released,
    voices_wf, note_released, VOICE_ATTENUATION, OUTPUT_ONE,
};

verus! {

broadcast use vstd::seq_lib::group_seq_properties;

/// Frames in a buffer of `len` samples with `channels` samples per frame, the
/// last frame possibly short.
pub open spec fn frame_count(len: int, channels: int) -> int {
    if channels == 0 {
        0
    } else {
        (len + channels - 1) / channels
    }
}

pub struct Synth {
    clock: SampleClock,
    envelope: Envelope,
    keys: KeyTable,
    voices: Vec<(char, Note)>,
}

impl Synth {
    /// The current frame.
    pub closed spec fn now(&self) -> int {
        self.clock.elapsed as int
    }

    pub closed spec fn rate(&self) -> int {
        self.clock.sample_rate as int
    }

    pub closed spec fn env(&self) -> Envelope {
        self.envelope
    }

    pub closed spec fn key_map(&self) -> Map<char, u32> {
        self.keys@
    }

    /// The voices, in the order they were first pressed.
    pub closed spec fn voice_seq(&self) -> Seq<(char, Note)> {
        self.voices@
    }

    pub closed spec fn wf(&self) -> bool {
        &&& self.clock.wf()
        &&& self.envelope.wf()
        &&& self.keys.wf()
        &&& voices_wf(self.voices@, self.clock.elapsed as int)
    }

    /// A silent synthesizer at frame zero.
    pub fn new(sample_rate: u32, envelope: Envelope, keys: KeyTable) -> (r: Self)
        requires
            sample_rate > 0,
            envelope.wf(),
            keys.wf(),
        ensures
            r.wf(),
            r.now() == 0,
            r.rate() == sample_rate,
            r.env() == envelope,
            r.key_map() == keys@,
            r.voice_seq() == Seq::<(char, Note)>::empty(),
    {
        Self { clock: SampleClock::new(sample_rate), envelope, keys, voices: Vec::new() }
    }

    /// The current frame.
    pub fn time(&self) -> (r: u64)
        ensures
            r == self.now(),
    {
        self.clock.time()
    }

    pub fn sample_rate(&self) -> (r: u32)
        ensures
            r == self.rate(),
    {
        self.clock.sample_rate
    }

    pub fn envelope(&self) -> (r: Envelope)
        ensures
            r == self.env(),
    {
        self.envelope
    }

    /// How many voices the registry holds.
    pub fn voice_count(&self) -> (r: usize)
        ensures
            r == self.voice_seq().len(),
    {
        self.voices.len()
    }

    /// The note sounding for `key`, if any.
    pub fn voice(&self, key: char) -> (r: Option<Note>)
        requires
            self.wf(),
        ensures
            r matches Some(n) ==> self.voice_seq().contains((key, n)),
            r is None ==> !crate::registry::has_key(self.voice_seq(), key),
    {
        match self.find_voice(key) {
            Some(i) => {
                assert(self.voices@[i as int] == (key, self.voices@[i as int].1));
                Some(self.voices[i].1)
            },
            None => None,
        }
    }

    /// Replaces the envelope; sounding notes follow the new one from the next frame.
    pub fn set_envelope(&mut self, envelope: Envelope)
        requires
            old(self).wf(),
            envelope.wf(),
        ensures
            final(self).wf(),
            final(self).env() == envelope,
            final(self).now() == old(self).now(),
            final(self).rate() == old(self).rate(),
            final(self).key_map() == old(self).key_map(),
            final(self).voice_seq() == old(self).voice_seq(),
    {
        self.envelope = envelope;
    }

    fn find_voice(&self, key: char) -> (r: Option<usize>)
        ensures
            r matches Some(i) ==> i < self.voices@.len() && self.voices@[i as int].0 == key,
            r is None ==> forall|i: int| 0 <= i < self.voices@.len() ==> self.voices@[i].0 != key,
    {
        let mut i: usize = 0;
        while i < self.voices.len()
            invariant
                i <= self.voices@.len(),
                forall|j: int| 0 <= j < i ==> self.voices@[j].0 != key,
            decreases self.voices@.len() - i,
        {
            if self.voices[i].0 == key {
                return Some(i);
            }
            i += 1;
        }
        None
    }

    /// A key went down: a key of the table starts a note at the current frame,
    /// in place of any voice the key had; another key is ignored.
    pub fn press(&mut self, key: char)
        requires
            old(self).wf(),
        ensures
            final(self).wf(),
            final(self).now() == old(self).now(),
            final(self).rate() == old(self).rate(),
            final(self).env() == old(self).env(),
            final(self).key_map() == old(self).key_map(),
            final(self).voice_seq() == if old(self).key_map().contains_key(key) {
                pressed(
                    old(self).voice_seq(),
                    key,
                    Note {
                        start: old(self).now() as u64,
                        freq: old(self).key_map()[key],
                        released_at: None,
                    },
                )
            } else {
                old(self).voice_seq()
            },
    {
        let ghost s = self.voices@;
        if let Some(freq) = self.keys.get(key) {
            let note = Note::new(freq, self.clock.time());
            match self.find_voice(key) {
                Some(i) => {
                    self.voices[i] = (key, note);
                    proof {
                        assert(crate::registry::has_key(s, key));
                        assert(self.voices@ =~= pressed(s, key, note));
                    }
                },
                None => {
                    self.voices.push((key, note));
                    proof {
                        assert(!crate::registry::has_key(s, key));
                    }
                },
            }
            assert(voices_wf(self.voices@, self.clock.elapsed as int));
        }
    }

    /// A key came up: its voice, if it has one, is released at the current frame.
    /// A key with no voice, or one released before, changes nothing.
    pub fn release(&mut self, key: char)
        requires
            old(self).wf(),
        ensures
            final(self).wf(),
            final(self).now() == old(self).now(),
            final(self).rate() == old(self).rate(),
            final(self).env() == old(self).env(),
            final(self).key_map() == old(self).key_map(),
            final(self).voice_seq() == released(old(self).voice_seq(), key, old(self).now()),
    {
        let ghost s = self.voices@;
        let t = self.clock.time();
        match self.find_voice(key) {
            Some(i) => {
                assert(s[i as int].1.wf());
                let mut note = self.voices[i].1;
                note.release(t);
                self.voices[i] = (key, note);
                proof {
                    assert(note == note_released(s[i as int].1, t as int));
                }
            },
            None => {},
        }
        assert(self.voices@ =~= released(s, key, t as int));
        assert forall|i: int, j: int|
            0 <= i < self.voices@.len() && 0 <= j < self.voices@.len() && i != j implies #[trigger] self.voices@[i].0
            != #[trigger] self.voices@[j].0 by {
            assert(s[i].0 != s[j].0);
        }
        assert forall|i: int| 0 <= i < self.voices@.len() implies #[trigger] self.voices@[i].1.wf()
            && self.voices@[i].1.reached(t as int) by {
            assert(s[i].1.wf());
        }
    }

    /// The output of the current frame.
    fn mix_at(&self) -> (r: i64)
        requires
            self.wf(),
        ensures
            r == frame_value(self.voices@, self.envelope, self.now(), self.rate()),
    {
        let t = self.clock.time();
        let sample_rate = self.clock.sample_rate;
        let ghost s = self.voices@;
        proof {
            lemma_voice_count(s);
        }
        let mut acc: i64 = 0;
        let mut i: usize = 0;
        while i < self.voices.len()
            invariant
                self.wf(),
                t == self.now(),
                sample_rate == self.rate(),
                s == self.voices@,
                s.len() <= 0x110000,
                i <= s.len(),
                acc == mix_sum(s.take(i as int), self.envelope, t as int, sample_rate as int),
            decreases s.len() - i,
        {
            let ghost p = s.take(i as int + 1);
            proof {
                assert(p.drop_last() == s.take(i as int));
                assert forall|k: int| 0 <= k < p.len() implies #[trigger] p[k].1.wf() && p[k].1.reached(
                    t as int,
                ) by {
                    assert(p[k] == s[k]);
                }
                lemma_mix_bound(p, self.envelope, t as int, sample_rate as int);
                lemma_mix_bound(s.take(i as int), self.envelope, t as int, sample_rate as int);
            }
            assert(s[i as int].1.wf());
            let x = self.voices[i].1.sample(t, &self.envelope, sample_rate);
            acc = acc + x;
            i += 1;
        }
        assert(s.take(s.len() as int) == s);
        proof {
            assert forall|k: int| 0 <= k < s.len() implies #[trigger] s[k].1.wf() && s[k].1.reached(
                t as int,
            ) by {
                assert(s[k].1.wf());
            }
            lemma_mix_bound(s, self.envelope, t as int, sample_rate as int);
        }
        let d: i64 = VOICE_ATTENUATION * OUTPUT_ONE;
        if acc >= 0 {
            acc / d
        } else {
            -((-acc) / d)
        }
    }

    /// Drops the voices whose release has run out at the current frame.
    fn prune(&mut self)
        requires
            old(self).wf(),
        ensures
            final(self).wf(),
            final(self).clock == old(self).clock,
            final(self).envelope == old(self).envelope,
            final(self).keys == old(self).keys,
            final(self).voices@ == pruned(old(self).voices@, old(self).envelope, old(self).now()),
    {
        let t = self.clock.time();
        let ghost s = self.voices@;
        let len = self.voices.len();
        let mut w: usize = 0;
        let mut i: usize = 0;
        while i < len
            invariant
                w <= i <= len,
                len == s.len(),
                self.voices@.len() == len,
                self.clock == old(self).clock,
                self.envelope == old(self).envelope,
                self.keys == old(self).keys,
                s == old(self).voices@,
                t == old(self).now(),
                old(self).wf(),
                self.voices@.take(w as int) == pruned(s.take(i as int), self.envelope, t as int),
                forall|k: int| i <= k < len ==> self.voices@[k] == s[k],
            decreases len - i,
        {
            let v = self.voices[i];
            proof {
                assert(s.take(i as int + 1) == s.take(i as int).push(v));
                crate::registry::lemma_pruned_push(s.take(i as int), v, self.envelope, t as int);
                assert(v == s[i as int]);
                assert(s[i as int].1.wf());
            }
            if !v.1.is_finished(&self.envelope, t) {
                let ghost before = self.voices@;
                self.voices[w] = v;
                proof {
                    assert(self.voices@.take(w as int + 1) == before.take(w as int).push(v));
                }
                w += 1;
            }
            i += 1;
        }
        self.voices.truncate(w);
        proof {
            assert(s.take(len as int) == s);
            assert(self.voices@ == self.voices@.take(w as int));
            lemma_pruned_wf(s, self.envelope, t as int, t as int);
        }
    }

    /// Renders `out.len() / channels` frames, the last one possibly short: each
    /// frame's output is the attenuated sum of the voices at the current frame,
    /// written to each of its channels; the voices whose release has run out are
    /// dropped, and the clock advances by one frame. With no channels nothing
    /// happens.
    pub fn render(&mut self, out: &mut [i64], channels: usize)
        requires
            old(self).wf(),
            old(self).now() + old(out)@.len() <= u64::MAX,
        ensures
            final(self).wf(),
            final(self).rate() == old(self).rate(),
            final(self).env() == old(self).env(),
            final(self).key_map() == old(self).key_map(),
            final(self).now() == old(self).now() + frame_count(old(out)@.len() as int, channels as int),
            final(out)@.len() == old(out)@.len(),
            channels == 0 ==> final(out)@ == old(out)@,
            channels > 0 ==> forall|i: int|
                0 <= i < old(out)@.len() ==> #[trigger] final(out)@[i] == frame_value(
                    old(self).voice_seq(),
                    old(self).env(),
                    old(self).now() + i / (channels as int),
                    old(self).rate(),
                ),
            final(self).voice_seq() == if frame_count(old(out)@.len() as int, channels as int) == 0 {
                old(self).voice_seq()
            } else {
                pruned(
                    old(self).voice_seq(),
                    old(self).env(),
                    old(self).now() + frame_count(old(out)@.len() as int, channels as int) - 1,
                )
            },
    {
        if channels == 0 {
            return;
        }
        let ghost s = self.voices@;
        let ghost t0 = self.now();
        let ghost ch = channels as int;
        let len = out.len();
        let mut pos: usize = 0;
        let ghost mut f: int = 0;
        while pos < len
            invariant
                self.wf(),
                ch == channels as int,
                ch > 0,
                len == out@.len(),
                len == old(out)@.len(),
                t0 == old(self).now(),
                s == old(self).voices@,
                t0 + len <= u64::MAX,
                self.envelope == old(self).envelope,
                self.keys == old(self).keys,
                self.clock.sample_rate == old(self).clock.sample_rate,
                0 <= f,
                pos <= len,
                f <= pos,
                pos == (if f * ch <= len { f * ch } else { len as int }),
                f > 0 ==> (f - 1) * ch < len,
                self.now() == t0 + f,
                forall|i: int|
                    0 <= i < pos ==> #[trigger] out@[i] == frame_value(
                        s,
                        self.envelope,
                        t0 + i / ch,
                        self.rate(),
                    ),
                self.voices@ == (if f == 0 {
                    s
                } else {
                    pruned(s, self.envelope, t0 + f - 1)
                }),
            decreases len - pos,
        {
            let ghost t = self.now();
            assert(pos == f * ch);
            proof {
                if f > 0 {
                    lemma_prune_keeps_mix(s, self.envelope, t - 1, t, self.rate());
                }
            }
            let v = self.mix_at();
            assert(v == frame_value(s, self.envelope, t, self.rate()));
            self.prune();
            proof {
                if f > 0 {
                    lemma_prune_twice(s, self.envelope, t - 1, t);
                }
            }
            let end = if len - pos < channels {
                len
            } else {
                pos + channels
            };
            assert((f + 1) * ch == f * ch + ch) by (nonlinear_arith);
            let mut j = pos;
            while j < end
                invariant
                    pos <= j <= end,
                    end <= len,
                    len == out@.len(),
                    pos == f * ch,
                    end <= f * ch + ch,
                    ch > 0,
                    f >= 0,
                    forall|i: int|
                        0 <= i < j ==> #[trigger] out@[i] == frame_value(
                            s,
                            self.envelope,
                            t0 + i / ch,
                            self.rate(),
                        ),
                    v == frame_value(s, self.envelope, t0 + f, self.rate()),
                decreases end - j,
            {
                proof {
                    lemma_fundamental_div_mod_converse(j as int, ch, f, j - f * ch);
                }
                out[j] = v;
                j += 1;
            }
            pos = end;
            assert(f <= f * ch) by (nonlinear_arith)
                requires
                    f >= 0,
                    ch > 0,
            ;
            self.clock.tick();
            proof {
                let vs = self.voices@;
                assert forall|k: int| 0 <= k < vs.len() implies #[trigger] vs[k].1.wf() && vs[k].1.reached(
                    t + 1,
                ) by {
                    assert(vs[k].1.wf());
                }
                f = f + 1;
            }
        }
        proof {
            assert(pos == len);
            if len > 0 {
                assert((f - 1) * ch == f * ch - ch) by (nonlinear_arith);
                lemma_fundamental_div_mod_converse(len + ch - 1, ch, f, len + ch - 1 - f * ch);
            } else {
                assert(f == 0);
                lemma_fundamental_div_mod_converse(ch - 1, ch, 0, ch - 1);
            }
        }
    }
}

} // verus!
