use synth::envelope::{Envelope, GAIN_ONE};
use synth::keys::KeyTable;
use synth::note::Note;
use synth::synth::Synth;
use synth::clock::SampleClock;
use synth::in_arc_mutex::InArcMutex;

fn piano() -> Envelope {
    Envelope {
        attack_duration: 4410,
        attack_amplitude: GAIN_ONE,
        decay_duration: 4410,
        sustain_amplitude: 58982,
        release_duration: 8820,
    }
}

fn synth() -> Synth {
    let mut keys = KeyTable::new();
    keys.insert('c', 261_600);
    keys.insert('e', 329_600);
    Synth::new(44100, piano(), keys)
}

fn advance(s: &mut Synth, frames: usize) {
    let mut buf = vec![0i64; frames];
    s.render(&mut buf, 1);
}

#[test]
fn two_keys_superpose() {
    let mut s = synth();
    advance(&mut s, 1000);
    s.press('c');
    s.press('e');
    let t = s.time();
    let env = piano();
    let a = Note::new(261_600, t).sample(t, &env, 44100);
    let b = Note::new(329_600, t).sample(t, &env, 44100);
    let mut out = vec![7i64; 2];
    s.render(&mut out, 2);
    assert_eq!(out, vec![(a + b) / 655_360; 2]);
    // one frame later
    let t1 = t + 1;
    let a1 = Note::new(261_600, t).sample(t1, &env, 44100);
    let b1 = Note::new(329_600, t).sample(t1, &env, 44100);
    let mut out = vec![0i64; 3];
    s.render(&mut out, 3);
    assert_eq!(out, vec![(a1 + b1) / 655_360; 3]);
    assert_ne!(a1 + b1, 0);
}

#[test]
fn first_sample_is_at_elapsed_zero() {
    let mut s = synth();
    s.press('c');
    let mut out = vec![5i64; 1];
    s.render(&mut out, 1);
    assert_eq!(out[0], 0);
    assert_eq!(s.time(), 1);
}

#[test]
fn unknown_key_is_ignored() {
    let mut s = synth();
    s.press('q');
    assert_eq!(s.voice_count(), 0);
    s.release('q');
    s.release('c');
    assert_eq!(s.voice_count(), 0);
}

#[test]
fn repress_replaces_the_voice() {
    let mut s = synth();
    s.press('c');
    advance(&mut s, 300);
    s.press('c');
    assert_eq!(s.voice_count(), 1);
    assert_eq!(s.voice('c'), Some(Note { start: 300, freq: 261_600, released_at: None }));
    s.release('c');
    advance(&mut s, 10);
    s.press('c');
    assert_eq!(s.voice('c'), Some(Note { start: 310, freq: 261_600, released_at: None }));
}

#[test]
fn released_voice_is_pruned_after_its_release() {
    let mut s = synth();
    s.press('c');
    s.press('e');
    advance(&mut s, 100);
    s.release('c');
    s.release('c');
    assert_eq!(s.voice('c'), Some(Note { start: 0, freq: 261_600, released_at: Some(100) }));
    // frames 100 ..= 8919 are still inside the release
    advance(&mut s, 8820);
    assert_eq!(s.voice_count(), 2);
    // the frame at 8920 is the first past it
    advance(&mut s, 1);
    assert_eq!(s.voice_count(), 1);
    assert_eq!(s.voice('c'), None);
    assert!(s.voice('e').is_some());
}

#[test]
fn degenerate_buffers_are_no_ops() {
    let mut s = synth();
    s.press('c');
    advance(&mut s, 10);
    let mut out = vec![3i64; 4];
    s.render(&mut out, 0);
    assert_eq!(out, vec![3; 4]);
    assert_eq!(s.time(), 10);
    let mut empty: Vec<i64> = Vec::new();
    s.render(&mut empty, 2);
    assert_eq!(s.time(), 10);
}

#[test]
fn short_last_frame_is_filled() {
    let mut s = synth();
    s.press('c');
    let mut out = vec![0i64; 5];
    s.render(&mut out, 2);
    assert_eq!(s.time(), 3);
    assert_eq!(out[4], out[4]);
    let env = piano();
    let note = Note::new(261_600, 0);
    for (i, v) in out.iter().enumerate() {
        assert_eq!(*v, note.sample((i / 2) as u64, &env, 44100) / 655_360);
    }
}

#[test]
fn set_envelope_applies_to_sounding_notes() {
    let mut s = synth();
    s.press('c');
    let mut env = piano();
    env.attack_duration = 0;
    s.set_envelope(env);
    assert_eq!(s.envelope().attack_duration, 0);
    advance(&mut s, 5);
    let mut out = vec![0i64; 1];
    s.render(&mut out, 1);
    assert_eq!(out[0], Note::new(261_600, 0).sample(5, &env, 44100) / 655_360);
}

#[test]
fn clock_ticks_one_frame() {
    let mut c = SampleClock::new(48000);
    assert_eq!(c.time(), 0);
    c.tick();
    c.tick();
    assert_eq!(c.time(), 2);
    assert_eq!(c.sample_rate, 48000);
}

#[test]
fn lens_holder_round_trip() {
    let l = InArcMutex::new(42u8);
    assert_eq!(*l.inner(), 42);
    assert_eq!(l.into_inner(), 42);
}
