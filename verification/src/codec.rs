//! Desktop codec framing: 20 ms frames of 48 kHz mono PCM and their
//! timestamps.
use vstd::prelude::*;

verus! {

/// Codec errors.
#[derive(Debug)]
pub enum CodecError {
    EncoderError(String),
    DecoderError(String),
    InvalidFrameSize(usize),
    InvalidSampleRate(u32),
}

/// Sample rate (Opus native).
pub const SAMPLE_RATE: u32 = 48000;
/// Frame duration in ms.
pub const FRAME_DURATION_MS: u32 = 20;
/// Samples per frame.
pub const FRAME_SIZE: usize = 960;

/// A frame of PCM samples with its capture time.
#[derive(Debug, Clone)]
pub struct AudioFrame {
    pub samples: Vec<i16>,
    pub timestamp: u64,
}

impl AudioFrame {
    /// `size` silent samples at time 0.
    pub fn new(size: usize) -> (f: Self)
        ensures
            f.samples@ == Seq::new(size as nat, |i: int| 0i16),
            f.timestamp == 0,
    {
        let mut samples: Vec<i16> = Vec::with_capacity(size);
        let mut i: usize = 0;
        while i < size
            invariant
                i <= size,
                samples@ == Seq::new(i as nat, |j: int| 0i16),
            decreases size - i,
        {
            samples.push(0);
            i = i + 1;
            assert(samples@ =~= Seq::new(i as nat, |j: int| 0i16));
        }
        AudioFrame { samples, timestamp: 0 }
    }

    /// A frame of `samples` captured at `timestamp`.
    pub fn from_samples(samples: Vec<i16>, timestamp: u64) -> (f: Self)
        ensures
            f.samples@ == samples@,
            f.timestamp == timestamp,
    {
        AudioFrame { samples, timestamp }
    }

    /// Whole milliseconds of audio in the frame.
    pub fn duration_ms(&self) -> (d: u32)
        requires
            self.samples@.len() * 1000 <= u32::MAX,
        ensures
            d == (self.samples@.len() * 1000) as int / 48000,
    {
        (self.samples.len() as u32 * 1000) / SAMPLE_RATE
    }
}

} // verus!
