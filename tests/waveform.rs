use synth::waveform::{sawtooth, square, WAVE_ONE};

#[test]
fn sawtooth_known_values() {
    // 441 Hz at 44100 Hz: a period of 100 frames.
    assert_eq!(sawtooth(441_000, 0, 44100), 0);
    assert_eq!(sawtooth(441_000, 25, 44100), WAVE_ONE / 2);
    assert_eq!(sawtooth(441_000, 49, 44100), 2 * WAVE_ONE * 49 / 100);
    assert_eq!(sawtooth(441_000, 50, 44100), -WAVE_ONE);
    assert_eq!(sawtooth(441_000, 75, 44100), -WAVE_ONE / 2);
}

#[test]
fn sawtooth_is_periodic() {
    for t in 0..1000u64 {
        assert_eq!(sawtooth(441_000, t, 44100), sawtooth(441_000, t + 100, 44100));
        let v = sawtooth(261_600, t, 44100);
        assert!(v >= -WAVE_ONE && v < WAVE_ONE);
    }
    // 261.6 Hz at 44100 Hz repeats after 44100000 / gcd(261600, 44100000) = 18375 frames.
    assert_eq!(sawtooth(261_600, 7, 44100), sawtooth(261_600, 7 + 18375, 44100));
}

#[test]
fn square_known_values() {
    assert_eq!(square(441_000, 0, 44100), -WAVE_ONE);
    assert_eq!(square(441_000, 10, 44100), WAVE_ONE);
    assert_eq!(square(441_000, 49, 44100), WAVE_ONE);
    assert_eq!(square(441_000, 50, 44100), -WAVE_ONE);
    assert_eq!(square(441_000, 110, 44100), WAVE_ONE);
}
