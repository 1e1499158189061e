//! The voices that sound, one per key, as a sequence of `(key, note)` pairs, and
//! what pressing, releasing, mixing and pruning do to it.
use vstd::prelude::*;
use vstd::set_lib::{lemma_int_range, lemma_len_subset, set_int_range};
use crate::envelope::Envelope;
use crate::note::Note;

verus! {

broadcast use vstd::seq_lib::group_seq_properties;

/// Each voice sounds at `1 / VOICE_ATTENUATION` of its level, so that several
/// voices together do not clip.
pub const VOICE_ATTENUATION: i64 = 10;

/// Output sample that stands for full scale.
pub const OUTPUT_ONE: i64 = 65536;

/// No key has two voices.
pub open spec fn keys_unique(s: Seq<(char, Note)>) -> bool {
    forall|i: int, j: int|
        0 <= i < s.len() && 0 <= j < s.len() && i != j ==> #[trigger] s[i].0 != #[trigger] s[j].0
}

/// Keys unique, and each note sound and started no later than frame `now`.
pub open spec fn voices_wf(s: Seq<(char, Note)>, now: int) -> bool {
    &&& keys_unique(s)
    &&& forall|i: int| 0 <= i < s.len() ==> #[trigger] s[i].1.wf() && s[i].1.reached(now)
}

pub open spec fn has_key(s: Seq<(char, Note)>, key: char) -> bool {
    exists|i: int| 0 <= i < s.len() && #[trigger] s[i].0 == key
}

/// After a press of `key` that starts `note`: the key's voice is replaced, or
/// the note is added at the end.
pub open spec fn pressed(s: Seq<(char, Note)>, key: char, note: Note) -> Seq<(char, Note)> {
    if has_key(s, key) {
        s.map_values(|v: (char, Note)| if v.0 == key { (key, note) } else { v })
    } else {
        s.push((key, note))
    }
}

/// `note` released at frame `t`, unless it was released before.
pub open spec fn note_released(note: Note, t: int) -> Note {
    if note.released_at is None {
        Note { released_at: Some(t as u64), ..note }
    } else {
        note
    }
}

/// After a release of `key` at frame `t`.
pub open spec fn released(s: Seq<(char, Note)>, key: char, t: int) -> Seq<(char, Note)> {
    s.map_values(
        |v: (char, Note)|
            if v.0 == key {
                (v.0, note_released(v.1, t))
            } else {
                v
            },
    )
}

/// Sum of the voices' samples at frame `t`.
pub open spec fn mix_sum(s: Seq<(char, Note)>, envelope: Envelope, t: int, sample_rate: int) -> int
    decreases s.len(),
{
    if s.len() == 0 {
        0
    } else {
        mix_sum(s.drop_last(), envelope, t, sample_rate) + s.last().1.sample_at(
            envelope,
            t,
            sample_rate,
        )
    }
}

/// A mix in units of `GAIN_ONE * WAVE_ONE`, attenuated per voice and brought to
/// `OUTPUT_ONE` for full scale, rounded toward zero.
pub open spec fn attenuate(mix: int) -> int {
    let d = VOICE_ATTENUATION * 65536;
    if mix >= 0 {
        mix / d
    } else {
        -((-mix) / d)
    }
}

/// The output of one frame at frame `t`.
pub open spec fn frame_value(s: Seq<(char, Note)>, envelope: Envelope, t: int, sample_rate: int) -> int {
    attenuate(mix_sum(s, envelope, t, sample_rate))
}

/// The voices left once those whose release has run out at frame `t` are dropped.
pub open spec fn pruned(s: Seq<(char, Note)>, envelope: Envelope, t: int) -> Seq<(char, Note)> {
    s.filter(still_sounding(envelope, t))
}

pub open spec fn still_sounding(envelope: Envelope, t: int) -> spec_fn((char, Note)) -> bool {
    |v: (char, Note)| !v.1.finished_at(envelope, t)
}

/// Pruning a sequence with one more voice at its end.
pub proof fn lemma_pruned_push(d: Seq<(char, Note)>, x: (char, Note), envelope: Envelope, t: int)
    ensures
        pruned(d.push(x), envelope, t) == if x.1.finished_at(envelope, t) {
            pruned(d, envelope, t)
        } else {
            pruned(d, envelope, t).push(x)
        },
{
    d.lemma_filter_push(x, still_sounding(envelope, t));
}

/// Voices with distinct keys number no more than there are characters.
pub proof fn lemma_voice_count(s: Seq<(char, Note)>)
    requires
        keys_unique(s),
    ensures
        s.len() <= 0x110000,
{
    let ks = s.map_values(|v: (char, Note)| v.0 as u32 as int);
    assert(ks.no_duplicates()) by {
        assert forall|i: int, j: int| 0 <= i < ks.len() && 0 <= j < ks.len() && i != j implies ks[i]
            != ks[j] by {
            assert(s[i].0 != s[j].0);
            vstd::utf8::char_u32_cast(s[i].0, s[i].0 as u32);
            vstd::utf8::char_u32_cast(s[j].0, s[j].0 as u32);
        }
    }
    ks.unique_seq_to_set();
    lemma_int_range(0, 0x110000);
    assert(ks.to_set().subset_of(set_int_range(0, 0x110000))) by {
        assert forall|x: int| ks.to_set().contains(x) implies set_int_range(0, 0x110000).contains(
            x,
        ) by {
            let i = choose|i: int| 0 <= i < ks.len() && ks[i] == x;
            assert(ks[i] == s[i].0 as u32 as int);
            vstd::utf8::char_is_scalar(s[i].0);
        }
    }
    lemma_len_subset(ks.to_set(), set_int_range(0, 0x110000));
}

/// Each voice's sample is within one full-scale product, so a mix is bounded
/// by the number of voices.
pub proof fn lemma_mix_bound(s: Seq<(char, Note)>, envelope: Envelope, t: int, sample_rate: int)
    requires
        envelope.wf(),
        sample_rate > 0,
        t >= 0,
        forall|i: int| 0 <= i < s.len() ==> #[trigger] s[i].1.wf() && s[i].1.reached(t),
    ensures
        -(s.len() * 0x1_0000_0000) <= mix_sum(s, envelope, t, sample_rate) <= s.len()
            * 0x1_0000_0000,
    decreases s.len(),
{
    if s.len() > 0 {
        let d = s.drop_last();
        assert forall|i: int| 0 <= i < d.len() implies #[trigger] d[i].1.wf() && d[i].1.reached(t) by {
            assert(d[i] == s[i]);
        }
        lemma_mix_bound(d, envelope, t, sample_rate);
        crate::note::lemma_sample_within(s.last().1, envelope, t, sample_rate);
    }
}

/// A finished note is silent.
proof fn lemma_finished_is_silent(n: Note, envelope: Envelope, t: int, sample_rate: int)
    requires
        n.finished_at(envelope, t),
        t <= u64::MAX,
    ensures
        n.sample_at(envelope, t, sample_rate) == 0,
{
    let g = envelope.gain(n.state_at(t));
    assert(g == 0);
    assert(g * crate::waveform::saw_value(n.freq as int, t, sample_rate) == 0) by (nonlinear_arith)
        requires
            g == 0,
    ;
}

/// Dropping finished voices keeps the order and the others, and leaves the mix
/// at any later frame as it was.
pub proof fn lemma_prune_keeps_mix(
    s: Seq<(char, Note)>,
    envelope: Envelope,
    t1: int,
    t2: int,
    sample_rate: int,
)
    requires
        t1 <= t2 <= u64::MAX,
    ensures
        mix_sum(pruned(s, envelope, t1), envelope, t2, sample_rate) == mix_sum(
            s,
            envelope,
            t2,
            sample_rate,
        ),
    decreases s.len(),
{
    if s.len() > 0 {
        let d = s.drop_last();
        let x = s.last();
        assert(s == d.push(x));
        lemma_pruned_push(d, x, envelope, t1);
        lemma_prune_keeps_mix(d, envelope, t1, t2, sample_rate);
        let pd = pruned(d, envelope, t1);
        if x.1.finished_at(envelope, t1) {
            assert(pruned(s, envelope, t1) == pd);
            lemma_finished_is_silent(x.1, envelope, t2, sample_rate);
        } else {
            assert(pruned(s, envelope, t1) == pd.push(x));
            assert(pd.push(x).drop_last() == pd);
        }
    }
}

/// Pruning at one frame and again at a later one is the same as pruning at the later one.
pub proof fn lemma_prune_twice(s: Seq<(char, Note)>, envelope: Envelope, t1: int, t2: int)
    requires
        t1 <= t2,
    ensures
        pruned(pruned(s, envelope, t1), envelope, t2) == pruned(s, envelope, t2),
    decreases s.len(),
{
    if s.len() > 0 {
        let d = s.drop_last();
        let x = s.last();
        assert(s == d.push(x));
        lemma_pruned_push(d, x, envelope, t1);
        lemma_pruned_push(d, x, envelope, t2);
        lemma_prune_twice(d, envelope, t1, t2);
        let pd = pruned(d, envelope, t1);
        if !x.1.finished_at(envelope, t1) {
            lemma_pruned_push(pd, x, envelope, t2);
        }
    }
}

/// Every voice left after pruning was there before.
proof fn lemma_pruned_from(s: Seq<(char, Note)>, envelope: Envelope, t: int)
    ensures
        pruned(s, envelope, t).len() <= s.len(),
        forall|i: int|
            0 <= i < pruned(s, envelope, t).len() ==> exists|j: int|
                0 <= j < s.len() && #[trigger] pruned(s, envelope, t)[i] == s[j],
    decreases s.len(),
{
    if s.len() > 0 {
        let d = s.drop_last();
        let x = s.last();
        assert(s == d.push(x));
        lemma_pruned_push(d, x, envelope, t);
        lemma_pruned_from(d, envelope, t);
        let pd = pruned(d, envelope, t);
        let ps = pruned(s, envelope, t);
        assert forall|i: int| 0 <= i < ps.len() implies exists|j: int|
            0 <= j < s.len() && #[trigger] ps[i] == s[j] by {
            if i < pd.len() {
                assert(ps[i] == pd[i]);
                let j = choose|j: int| 0 <= j < d.len() && pd[i] == d[j];
                assert(s[j] == d[j]);
            } else {
                assert(ps[i] == s[s.len() - 1]);
            }
        }
    }
}

/// Pruning keeps the registry sound.
pub proof fn lemma_pruned_wf(s: Seq<(char, Note)>, envelope: Envelope, t: int, now: int)
    requires
        voices_wf(s, now),
    ensures
        voices_wf(pruned(s, envelope, t), now),
    decreases s.len(),
{
    lemma_pruned_from(s, envelope, t);
    if s.len() > 0 {
        let d = s.drop_last();
        let x = s.last();
        assert(s == d.push(x));
        lemma_pruned_push(d, x, envelope, t);
        assert(voices_wf(d, now)) by {
            assert forall|i: int, j: int|
                0 <= i < d.len() && 0 <= j < d.len() && i != j implies #[trigger] d[i].0
                != #[trigger] d[j].0 by {
                assert(d[i] == s[i] && d[j] == s[j]);
            }
            assert forall|i: int| 0 <= i < d.len() implies #[trigger] d[i].1.wf() && d[i].1.reached(now) by {
                assert(d[i] == s[i]);
            }
        }
        lemma_pruned_wf(d, envelope, t, now);
        lemma_pruned_from(d, envelope, t);
        let pd = pruned(d, envelope, t);
        let ps = pruned(s, envelope, t);
        if !x.1.finished_at(envelope, t) {
            assert(ps == pd.push(x));
            assert forall|i: int, j: int|
                0 <= i < ps.len() && 0 <= j < ps.len() && i != j implies #[trigger] ps[i].0
                != #[trigger] ps[j].0 by {
                if i < pd.len() && j < pd.len() {
                    assert(ps[i] == pd[i] && ps[j] == pd[j]);
                } else if i < pd.len() {
                    let k = choose|k: int| 0 <= k < d.len() && #[trigger] pd[i] == d[k];
                    assert(s[k] == d[k]);
                    assert(ps[i] == pd[i]);
                    assert(ps[j] == s[s.len() - 1]);
                } else {
                    let k = choose|k: int| 0 <= k < d.len() && #[trigger] pd[j] == d[k];
                    assert(s[k] == d[k]);
                    assert(ps[j] == pd[j]);
                    assert(ps[i] == s[s.len() - 1]);
                }
            }
            assert forall|i: int| 0 <= i < ps.len() implies #[trigger] ps[i].1.wf() && ps[i].1.reached(now) by {
                let k = choose|k: int| 0 <= k < s.len() && #[trigger] ps[i] == s[k];
            }
        } else {
            assert(ps == pd);
        }
    }
}

/// Pruning drops exactly the voices whose release has run out: a released voice
/// leaves once `release_duration` frames have passed since its release, never
/// before, and the registry is then strictly smaller.
pub proof fn lemma_prune_reclaims(s: Seq<(char, Note)>, envelope: Envelope, t: int, i: int)
    requires
        0 <= i < s.len(),
    ensures
        pruned(s, envelope, t).contains(s[i]) <==> !(s[i].1.released_at matches Some(r) && t - r
            >= envelope.release_duration),
        s[i].1.finished_at(envelope, t) ==> pruned(s, envelope, t).len() < s.len(),
    decreases s.len(),
{
    let ps = pruned(s, envelope, t);
    let pred = still_sounding(envelope, t);
    assert(ps == s.filter(pred));
    if pred(s[i]) {
        s.lemma_filter_contains(pred, i);
    } else {
        if ps.contains(s[i]) {
            let k = choose|k: int| 0 <= k < ps.len() && ps[k] == s[i];
            s.lemma_filter_pred(pred, k);
        }
    }
    let d = s.drop_last();
    let x = s.last();
    assert(s == d.push(x));
    lemma_pruned_push(d, x, envelope, t);
    lemma_pruned_from(d, envelope, t);
    if !pred(s[i]) {
        if i == s.len() - 1 {
            assert(ps == pruned(d, envelope, t));
        } else {
            assert(s[i] == d[i]);
            lemma_prune_reclaims(d, envelope, t, i);
        }
    }
}

/// Pressing a key that already sounds replaces its voice in place: the count of
/// voices stays, the key still has one voice, and it is the new note.
pub proof fn lemma_press_replaces(s: Seq<(char, Note)>, key: char, note: Note, i: int)
    requires
        keys_unique(s),
        0 <= i < s.len(),
        s[i].0 == key,
    ensures
        pressed(s, key, note).len() == s.len(),
        pressed(s, key, note)[i] == (key, note),
        keys_unique(pressed(s, key, note)),
        forall|j: int| 0 <= j < s.len() && j != i ==> #[trigger] pressed(s, key, note)[j] == s[j],
{
    assert(has_key(s, key));
}

/// Pressing two different keys on a silent registry gives a mix that is the sum
/// of the two notes' own samples, and a frame that is that sum attenuated.
pub proof fn lemma_two_keys_superpose(
    k1: char,
    n1: Note,
    k2: char,
    n2: Note,
    envelope: Envelope,
    t: int,
    sample_rate: int,
)
    requires
        k1 != k2,
    ensures
        mix_sum(pressed(pressed(Seq::empty(), k1, n1), k2, n2), envelope, t, sample_rate) == n1.sample_at(
            envelope,
            t,
            sample_rate,
        ) + n2.sample_at(envelope, t, sample_rate),
        frame_value(pressed(pressed(Seq::empty(), k1, n1), k2, n2), envelope, t, sample_rate)
            == attenuate(n1.sample_at(envelope, t, sample_rate) + n2.sample_at(envelope, t, sample_rate)),
{
    let s0 = Seq::<(char, Note)>::empty();
    assert(!has_key(s0, k1));
    let s1 = pressed(s0, k1, n1);
    assert(s1 == seq![(k1, n1)]);
    assert(!has_key(s1, k2));
    let s2 = pressed(s1, k2, n2);
    assert(s2 == s1.push((k2, n2)));
    assert(s2.drop_last() == s1);
    assert(s1.drop_last() == s0);
    assert(mix_sum(s0, envelope, t, sample_rate) == 0);
    assert(mix_sum(s1, envelope, t, sample_rate) == n1.sample_at(envelope, t, sample_rate));
    assert(mix_sum(s2, envelope, t, sample_rate) == mix_sum(s1, envelope, t, sample_rate) + n2.sample_at(envelope, t, sample_rate));
}

} // verus!
