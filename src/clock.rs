//! The sample clock: the one source of the current time, counted in frames.
use vstd::prelude::*;

verus! {

pub struct SampleClock {
    /// Frames per second.
    pub sample_rate: u32,
    /// Frames rendered so far.
    pub elapsed: u64,
}

impl SampleClock {
    pub open spec fn wf(&self) -> bool {
        self.sample_rate > 0
    }

    /// A clock at frame zero.
    pub fn new(sample_rate: u32) -> (r: Self)
        requires
            sample_rate > 0,
        ensures
            r.wf(),
            r.sample_rate == sample_rate,
            r.elapsed == 0,
    {
        Self { sample_rate, elapsed: 0 }
    }

    /// Advances by one frame, that is by `1 / sample_rate` seconds.
    pub fn tick(&mut self)
        requires
            old(self).elapsed < u64::MAX,
        ensures
            final(self).elapsed == old(self).elapsed + 1,
            final(self).sample_rate == old(self).sample_rate,
    {
        self.elapsed = self.elapsed + 1;
    }

    /// The current frame.
    pub fn time(&self) -> (r: u64)
        ensures
            r == self.elapsed,
    {
        self.elapsed
    }
}

/// The whole number of frames in `ms` milliseconds at `sample_rate`, rounded down.
pub fn millis_to_frames(ms: u32, sample_rate: u32) -> (r: u32)
    requires
        ms * sample_rate / 1000 <= u32::MAX,
    ensures
        r == ms * sample_rate / 1000,
{
    assert(ms * sample_rate <= 0xffff_ffff * 0xffff_ffff) by (nonlinear_arith);
    (ms as u64 * sample_rate as u64 / 1000) as u32
}

} // verus!
