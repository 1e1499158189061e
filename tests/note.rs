use synth::envelope::{Envelope, GAIN_ONE};
use synth::note::{Note, NoteState};
use synth::waveform::sawtooth;

fn piano() -> Envelope {
    Envelope {
        attack_duration: 4410,
        attack_amplitude: GAIN_ONE,
        decay_duration: 4410,
        sustain_amplitude: 58982,
        release_duration: 8820,
    }
}

#[test]
fn middle_c_mid_attack() {
    let env = piano();
    let note = Note::new(261_600, 0);
    // 0.05 s at 44100 Hz: halfway up the attack.
    let t = 2205;
    assert_eq!(env.amplitude(NoteState::Held(t)), GAIN_ONE / 2);
    let expected = (GAIN_ONE / 2) as i64 * sawtooth(261_600, t, 44100) as i64;
    assert_eq!(note.sample(t, &env, 44100), expected);
    assert_ne!(expected, 0);
}

#[test]
fn release_is_recorded_once() {
    let mut note = Note::new(261_600, 10);
    assert_eq!(note.released_at, None);
    note.release(50);
    assert_eq!(note.released_at, Some(50));
    note.release(80);
    assert_eq!(note.released_at, Some(50));
    assert_eq!(note.start, 10);
}

#[test]
fn released_note_follows_release_ramp() {
    let env = piano();
    let mut note = Note::new(441_000, 0);
    note.release(20_000);
    let t = 20_000 + 4410 + 25;
    // 4435 frames into an 8820-frame release from 58982: 58982 * 4385 / 8820
    let gain = 58982i64 * 4385 / 8820;
    assert_eq!(note.sample(t, &env, 44100), gain * sawtooth(441_000, t, 44100) as i64);
    assert!(!note.is_finished(&env, 20_000 + 8819));
    assert!(note.is_finished(&env, 20_000 + 8820));
}
