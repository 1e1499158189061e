use synth::envelope::{Envelope, GAIN_ONE};
use synth::note::NoteState;

// 0.1 s attack to full scale, 0.1 s decay to 0.9, 0.2 s release, at 44100 Hz.
fn piano() -> Envelope {
    Envelope {
        attack_duration: 4410,
        attack_amplitude: GAIN_ONE,
        decay_duration: 4410,
        sustain_amplitude: 58982,
        release_duration: 8820,
    }
}

#[test]
fn attack_is_linear() {
    let env = piano();
    assert_eq!(env.amplitude(NoteState::Held(0)), 0);
    assert_eq!(env.amplitude(NoteState::Held(2205)), 32768);
    assert_eq!(env.amplitude(NoteState::Held(4409)), 65536 * 4409 / 4410);
}

#[test]
fn decay_runs_from_peak_to_sustain() {
    let env = piano();
    assert_eq!(env.amplitude(NoteState::Held(4410)), GAIN_ONE);
    // halfway down the decay: 58982 + (65536 - 58982) / 2
    assert_eq!(env.amplitude(NoteState::Held(6615)), 58982 + 3277);
    assert_eq!(env.amplitude(NoteState::Held(8820)), 58982);
    assert_eq!(env.amplitude(NoteState::Held(1_000_000)), 58982);
}

#[test]
fn zero_attack_jumps_to_peak() {
    let mut env = piano();
    env.attack_duration = 0;
    assert_eq!(env.amplitude(NoteState::Held(0)), GAIN_ONE);
    env.decay_duration = 0;
    assert_eq!(env.amplitude(NoteState::Held(0)), 58982);
}

#[test]
fn held_gain_moves_in_small_steps() {
    let env = piano();
    let step = (65536 / 4410 + 1) as i64;
    let mut prev = env.amplitude(NoteState::Held(0)) as i64;
    for e in 1..10_000u64 {
        let g = env.amplitude(NoteState::Held(e)) as i64;
        assert!(g >= 0 && g <= GAIN_ONE as i64);
        assert!((g - prev).abs() <= step, "jump at {}", e);
        prev = g;
    }
}

#[test]
fn release_falls_to_silence_and_stays() {
    let env = piano();
    let held_for = 20_000u64;
    assert_eq!(env.amplitude(NoteState::Released { held_for, elapsed: 0 }), 58982);
    let mut prev = u32::MAX;
    for elapsed in 0..9000u64 {
        let g = env.amplitude(NoteState::Released { held_for, elapsed });
        assert!(g <= prev);
        prev = g;
    }
    assert_eq!(env.amplitude(NoteState::Released { held_for, elapsed: 4410 }), 29491);
    assert_eq!(env.amplitude(NoteState::Released { held_for, elapsed: 8820 }), 0);
    assert_eq!(env.amplitude(NoteState::Released { held_for, elapsed: 100_000 }), 0);
}

#[test]
fn release_during_attack_starts_from_current_gain() {
    let env = piano();
    assert_eq!(env.amplitude(NoteState::Released { held_for: 2205, elapsed: 0 }), 32768);
    assert_eq!(env.amplitude(NoteState::Released { held_for: 2205, elapsed: 4410 }), 16384);
    for elapsed in 0..10_000u64 {
        assert_eq!(env.amplitude(NoteState::Released { held_for: 0, elapsed }), 0);
    }
}

#[test]
fn zero_release_is_silent_at_once() {
    let mut env = piano();
    env.release_duration = 0;
    assert_eq!(env.amplitude(NoteState::Released { held_for: 9000, elapsed: 0 }), 0);
}
