//! A polyphonic synthesizer core: envelopes, oscillators, voices and the
//! renderer that mixes them.
//!
//! Time is counted in sample frames, frequencies in millihertz, gains in
//! fixed point (`envelope::GAIN_ONE` is 1), oscillator output against
//! `waveform::WAVE_ONE` and rendered output against `registry::OUTPUT_ONE`.
pub mod waveform;
pub mod envelope;
pub mod note;
pub mod registry;
pub mod clock;
pub mod keys;
pub mod synth;
pub mod in_arc_mutex;
