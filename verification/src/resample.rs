//! The bookkeeping around resampling a recording to the target rate.

use crate::audio::AudioError;
use crate::config::TARGET_SAMPLE_RATE;
use vstd::prelude::*;

verus! {

/// Frames per FFT chunk. Larger is marginally more efficient; smaller keeps the
/// tail handling cheap. At 48 kHz this is ~21 ms.
pub const CHUNK: usize = 1024;

/// How many samples `input_len` samples at `rate` come to at the target rate.
pub open spec fn target_len(input_len: nat, rate: nat) -> nat {
    input_len * TARGET_SAMPLE_RATE as nat / rate
}

/// How many samples `input_len` samples at `rate` come to at the target rate.
pub fn expected_len(input_len: usize, rate: u32) -> (r: usize)
    requires
        rate > 0,
        input_len * TARGET_SAMPLE_RATE <= u64::MAX,
        target_len(input_len as nat, rate as nat) <= usize::MAX,
    ensures
        r == target_len(input_len as nat, rate as nat),
{
    ((input_len as u64) * (TARGET_SAMPLE_RATE as u64) / (rate as u64)) as usize
}

/// What has to be done to a recording.
#[derive(Clone, Copy, Debug, PartialEq, Eq)]
pub enum Plan {
    /// It is at the target rate already.
    Untouched,
    /// There is nothing to resample.
    Empty,
    /// Resample into a buffer of `capacity`, and keep `expected` samples of it.
    Resample { expected: usize, capacity: usize },
}

/// What has to be done to `input_len` samples at `rate`.
pub fn to_target(input_len: usize, rate: u32) -> (r: Result<Plan, AudioError>)
    requires
        input_len * TARGET_SAMPLE_RATE <= u64::MAX,
        rate > 0 ==> target_len(input_len as nat, rate as nat) + 2 * CHUNK <= usize::MAX,
    ensures
        match r {
            Ok(Plan::Untouched) => rate == TARGET_SAMPLE_RATE,
            Ok(Plan::Empty) => rate != TARGET_SAMPLE_RATE && rate > 0 && input_len == 0,
            Ok(Plan::Resample { expected, capacity }) => {
                &&& rate != TARGET_SAMPLE_RATE && rate > 0 && input_len > 0
                &&& expected == target_len(input_len as nat, rate as nat)
                &&& capacity == expected + 2 * CHUNK
            },
            Err(e) => rate == 0 && (e matches AudioError::Resample(reason) && reason@
                == "input sample rate is zero"@),
        },
{
    if rate == TARGET_SAMPLE_RATE {
        return Ok(Plan::Untouched);
    }
    if rate == 0 {
        return Err(AudioError::Resample("input sample rate is zero".to_owned()));
    }
    if input_len == 0 {
        return Ok(Plan::Empty);
    }
    let expected: usize = expected_len(input_len, rate);
    // The resampler writes whole chunks, so the buffer must have room to overshoot.
    Ok(Plan::Resample { expected, capacity: expected + 2 * CHUNK })
}

/// How far resampling has got.
#[derive(Clone, Copy, Debug, PartialEq, Eq)]
pub struct Cursor {
    /// Samples read so far.
    pub input_offset: usize,
    /// Samples written so far.
    pub written: usize,
    /// Samples not yet read.
    pub left: usize,
}

/// What to hand to the resampler next.
#[derive(Clone, Copy, Debug, PartialEq, Eq, Structural)]
pub enum Step {
    /// A whole chunk.
    Whole,
    /// The final, short chunk, which the resampler pads with silence.
    Last { left: usize },
}

impl Cursor {
    /// The cursor is in a recording of `total` samples.
    pub open spec fn within(self, total: nat) -> bool {
        self.input_offset + self.left == total
    }

    pub fn new(input_len: usize) -> (r: Self)
        ensures
            r.within(input_len as nat),
            r.input_offset == 0,
            r.written == 0,
    {
        Cursor { input_offset: 0, written: 0, left: input_len }
    }

    /// What to hand to a resampler that wants `next` samples.
    pub fn step(&self, next: usize) -> (r: Step)
        ensures
            r == (if self.left >= next {
                Step::Whole
            } else {
                Step::Last { left: self.left }
            }),
    {
        if self.left >= next {
            Step::Whole
        } else {
            Step::Last { left: self.left }
        }
    }

    /// A whole chunk was read and resampled.
    pub fn advance(&mut self, consumed: usize, produced: usize)
        requires
            consumed <= old(self).left,
            old(self).input_offset + old(self).left <= usize::MAX,
            old(self).written + produced <= usize::MAX,
        ensures
            final(self).input_offset == old(self).input_offset + consumed,
            final(self).left == old(self).left - consumed,
            final(self).written == old(self).written + produced,
            forall|total: nat| old(self).within(total) ==> final(self).within(total),
    {
        self.input_offset += consumed;
        self.written += produced;
        self.left -= consumed;
    }

    /// How many samples to keep once the last chunk is written: no more than were
    /// written, and no more than were expected.
    pub fn keep(&self, produced: usize, expected: usize) -> (r: usize)
        requires
            self.written + produced <= usize::MAX,
        ensures
            r == (if self.written + produced < expected {
                self.written + produced
            } else {
                expected as int
            }),
    {
        let written: usize = self.written + produced;
        if written < expected {
            written
        } else {
            expected
        }
    }
}

/// Resampling keeps the length of time: as many samples as fit in it at sixteen
/// thousand a second.
pub proof fn law_resampling_keeps_the_time(input_len: nat, rate: nat)
    requires
        rate > 0,
    ensures
        target_len(input_len, rate) * rate <= input_len * 16_000,
        input_len * 16_000 < (target_len(input_len, rate) + 1) * rate,
        target_len(input_len, 16_000) == input_len,
{
    let n = (input_len * 16_000) as int;
    vstd::arithmetic::div_mod::lemma_fundamental_div_mod(n, rate as int);
    vstd::arithmetic::div_mod::lemma_mod_bound(n, rate as int);
    let q = n / rate as int;
    assert(q * rate <= n < (q + 1) * rate) by (nonlinear_arith)
        requires
            n == rate * q + n % (rate as int),
            0 <= n % (rate as int) < rate,
    ;
}

} // verus!
