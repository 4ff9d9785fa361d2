//! PCM frames and the record/playback state of the iOS audio side.
use vstd::prelude::*;
use vstd::bytes::*;

verus! {

/// Sample rate (48 kHz, as Opus wants).
pub const SAMPLE_RATE: u32 = 48000;
/// Samples per 20 ms frame at 48 kHz.
pub const FRAME_SIZE: usize = 960;

/// Audio errors.
#[derive(Debug, Clone, Copy, PartialEq, Eq, Structural)]
pub enum AudioError {
    BufferOverflow,
    BufferUnderflow,
    /// A byte buffer of odd length.
    InvalidFrameSize(usize),
    NotRecording,
    NotPlaying,
}

/// A frame of PCM samples.
#[derive(Debug, Clone)]
pub struct AudioFrame {
    pub samples: Vec<i16>,
    pub sample_rate: u32,
}

/// Two little-endian bytes per sample.
pub open spec fn samples_le_bytes(s: Seq<i16>) -> Seq<u8>
    decreases s.len(),
{
    if s.len() == 0 {
        Seq::empty()
    } else {
        samples_le_bytes(s.drop_last()) + spec_u16_to_le_bytes(s.last() as u16)
    }
}

/// The samples encoded by little-endian byte pairs.
pub open spec fn le_samples(b: Seq<u8>) -> Seq<i16> {
    Seq::new(b.len() / 2, |i: int| spec_u16_from_le_bytes(b.subrange(2 * i, 2 * i + 2)) as i16)
}

proof fn lemma_samples_le_bytes_len(s: Seq<i16>)
    ensures
        samples_le_bytes(s).len() == 2 * s.len(),
    decreases s.len(),
{
    lemma_auto_spec_u16_to_from_le_bytes();
    if s.len() > 0 {
        lemma_samples_le_bytes_len(s.drop_last());
        assert(spec_u16_to_le_bytes(s.last() as u16).len() == 2);
    }
}

proof fn lemma_samples_le_bytes_at(s: Seq<i16>, i: int)
    requires
        0 <= i < s.len(),
    ensures
        samples_le_bytes(s).subrange(2 * i, 2 * i + 2) == spec_u16_to_le_bytes(s[i] as u16),
    decreases s.len(),
{
    lemma_samples_le_bytes_len(s.drop_last());
    lemma_auto_spec_u16_to_from_le_bytes();
    let head = samples_le_bytes(s.drop_last());
    let tail = spec_u16_to_le_bytes(s.last() as u16);
    assert(tail.len() == 2);
    assert(samples_le_bytes(s) == head + tail);
    if i == s.len() - 1 {
        assert((head + tail).subrange(2 * i, 2 * i + 2) =~= tail);
    } else {
        lemma_samples_le_bytes_at(s.drop_last(), i);
        assert((head + tail).subrange(2 * i, 2 * i + 2) =~= head.subrange(2 * i, 2 * i + 2));
    }
}

impl AudioFrame {
    /// A 48 kHz frame of `samples`.
    pub fn new(samples: Vec<i16>) -> (f: Self)
        ensures
            f.samples@ == samples@,
            f.sample_rate == SAMPLE_RATE,
    {
        AudioFrame { samples, sample_rate: SAMPLE_RATE }
    }

    /// The samples as little-endian byte pairs.
    pub fn to_bytes(&self) -> (b: Vec<u8>)
        requires
            2 * self.samples@.len() <= usize::MAX,
        ensures
            b@ == samples_le_bytes(self.samples@),
    {
        let mut bytes: Vec<u8> = Vec::with_capacity(self.samples.len() * 2);
        let mut i: usize = 0;
        while i < self.samples.len()
            invariant
                i <= self.samples@.len(),
                bytes@ == samples_le_bytes(self.samples@.take(i as int)),
            decreases self.samples@.len() - i,
        {
            let pair = u16_to_le_bytes(self.samples[i] as u16);
            let ghost before = bytes@;
            bytes.push(pair[0]);
            bytes.push(pair[1]);
            proof {
                assert(self.samples@.take(i + 1).drop_last() =~= self.samples@.take(i as int));
                assert(bytes@ =~= before + pair@);
            }
            i = i + 1;
        }
        assert(self.samples@.take(i as int) =~= self.samples@);
        bytes
    }

    /// Samples from little-endian byte pairs; an odd length is an error.
    pub fn from_bytes(bytes: &[u8]) -> (r: Result<Self, AudioError>)
        ensures
            match r {
                Ok(f) => bytes@.len() % 2 == 0 && f.samples@ == le_samples(bytes@) && f.sample_rate == SAMPLE_RATE,
                Err(e) => bytes@.len() % 2 == 1 && e == AudioError::InvalidFrameSize(bytes@.len() as usize),
            },
    {
        if bytes.len() % 2 != 0 {
            return Err(AudioError::InvalidFrameSize(bytes.len()));
        }
        let len = bytes.len();
        let n = len / 2;
        let mut samples: Vec<i16> = Vec::with_capacity(n);
        let mut i: usize = 0;
        while i < n
            invariant
                len == bytes@.len(),
                n == bytes@.len() / 2,
                i <= n,
                samples@ =~= le_samples(bytes@).take(i as int),
            decreases n - i,
        {
            let pair: [u8; 2] = [bytes[2 * i], bytes[2 * i + 1]];
            assert(pair@ =~= bytes@.subrange(2 * i, 2 * i + 2));
            let v = u16_from_le_bytes(&pair);
            samples.push(v as i16);
            i = i + 1;
        }
        Ok(Self::new(samples))
    }
}

/// Decoding the bytes of a frame gives its samples back.
pub proof fn lemma_frame_bytes_round_trip(s: Seq<i16>)
    ensures
        samples_le_bytes(s).len() == 2 * s.len(),
        le_samples(samples_le_bytes(s)) == s,
{
    lemma_samples_le_bytes_len(s);
    let b = samples_le_bytes(s);
    assert forall|i: int| 0 <= i < s.len() implies #[trigger] le_samples(b)[i] == s[i] by {
        lemma_samples_le_bytes_at(s, i);
        lemma_auto_spec_u16_to_from_le_bytes();
        assert(spec_u16_to_le_bytes(s[i] as u16).len() == 2);
        let x = s[i];
        assert((x as u16) as i16 == x) by (bit_vector);
    }
    assert(le_samples(b) =~= s);
}

/// Record / playback state.
#[derive(Debug, Clone, Copy, PartialEq, Eq, Structural)]
pub enum AudioState {
    Idle,
    Recording,
    Playing,
    RecordingAndPlaying,
}

impl AudioState {
    /// Whether the microphone side is on.
    pub open spec fn recording(self) -> bool {
        self is Recording || self is RecordingAndPlaying
    }

    /// Whether the speaker side is on.
    pub open spec fn playing(self) -> bool {
        self is Playing || self is RecordingAndPlaying
    }

    /// The state with the given sides on.
    pub open spec fn of(recording: bool, playing: bool) -> AudioState {
        if recording && playing {
            AudioState::RecordingAndPlaying
        } else if recording {
            AudioState::Recording
        } else if playing {
            AudioState::Playing
        } else {
            AudioState::Idle
        }
    }

    /// Turn recording on, keeping playback as it is.
    pub fn start_recording(self) -> (s: AudioState)
        ensures
            s == self.start_recording_spec(),
    {
        match self {
            AudioState::Idle => AudioState::Recording,
            AudioState::Playing => AudioState::RecordingAndPlaying,
            other => other,
        }
    }

    /// Turn recording off, keeping playback as it is.
    pub fn stop_recording(self) -> (s: AudioState)
        ensures
            s == self.stop_recording_spec(),
    {
        match self {
            AudioState::Recording => AudioState::Idle,
            AudioState::RecordingAndPlaying => AudioState::Playing,
            other => other,
        }
    }

    /// Turn playback on, keeping recording as it is.
    pub fn start_playing(self) -> (s: AudioState)
        ensures
            s == self.start_playing_spec(),
    {
        match self {
            AudioState::Idle => AudioState::Playing,
            AudioState::Recording => AudioState::RecordingAndPlaying,
            other => other,
        }
    }

    /// Turn playback off, keeping recording as it is.
    pub fn stop_playing(self) -> (s: AudioState)
        ensures
            s == self.stop_playing_spec(),
    {
        match self {
            AudioState::Playing => AudioState::Idle,
            AudioState::RecordingAndPlaying => AudioState::Recording,
            other => other,
        }
    }
}

/// Starting and then stopping a side gives back the state before, when
/// that side was off.
pub proof fn lemma_start_stop_inverse(s: AudioState)
    ensures
        !s.recording() ==> s.start_recording_spec().stop_recording_spec() == s,
        !s.playing() ==> s.start_playing_spec().stop_playing_spec() == s,
{
}

impl AudioState {
    /// What `start_recording` gives.
    pub open spec fn start_recording_spec(self) -> AudioState {
        AudioState::of(true, self.playing())
    }

    /// What `stop_recording` gives.
    pub open spec fn stop_recording_spec(self) -> AudioState {
        AudioState::of(false, self.playing())
    }

    /// What `start_playing` gives.
    pub open spec fn start_playing_spec(self) -> AudioState {
        AudioState::of(self.recording(), true)
    }

    /// What `stop_playing` gives.
    pub open spec fn stop_playing_spec(self) -> AudioState {
        AudioState::of(self.recording(), false)
    }
}

/// Samples a ring buffer holds (one second).
pub const BUFFER_SIZE: usize = 48000;

/// A `ringbuf` heap ring buffer of samples, split into its producer and
/// consumer ends (both kept here).
#[verifier::external_body]
pub struct PcmRing {
    producer: ringbuf::HeapProducer<i16>,
    consumer: ringbuf::HeapConsumer<i16>,
}

/// The samples in a ring, oldest first.
pub uninterp spec fn ring_contents(r: PcmRing) -> Seq<i16>;

/// How many samples a ring can hold.
pub uninterp spec fn ring_capacity(r: PcmRing) -> nat;

/// `HeapRb::new(capacity).split()`: an empty ring. `new` panics on a zero
/// capacity, which `requires` rules out.
#[verifier::external_body]
fn ring_new(capacity: usize) -> (r: PcmRing)
    requires
        capacity > 0,
    ensures
        ring_contents(r) == Seq::<i16>::empty(),
        ring_capacity(r) == capacity,
{
    let (producer, consumer) = ringbuf::HeapRb::<i16>::new(capacity).split();
    PcmRing { producer, consumer }
}

/// `Producer::push_slice`: appends as many samples from the front of
/// `elems` as there is room for and returns that count.
#[verifier::external_body]
fn ring_push_slice(r: &mut PcmRing, elems: &[i16]) -> (n: usize)
    ensures
        ring_capacity(*final(r)) == ring_capacity(*old(r)),
        n == (if elems@.len() <= ring_capacity(*old(r)) - ring_contents(*old(r)).len() {
            elems@.len() as int
        } else {
            ring_capacity(*old(r)) - ring_contents(*old(r)).len()
        }),
        ring_contents(*final(r)) == ring_contents(*old(r)) + elems@.take(n as int),
{
    r.producer.push_slice(elems)
}

/// `Consumer::pop_slice`: moves the oldest samples into the front of
/// `out`, as many as fit and are there, and returns that count.
#[verifier::external_body]
fn ring_pop_slice(r: &mut PcmRing, out: &mut [i16]) -> (n: usize)
    ensures
        ring_capacity(*final(r)) == ring_capacity(*old(r)),
        n == (if old(out)@.len() <= ring_contents(*old(r)).len() {
            old(out)@.len() as int
        } else {
            ring_contents(*old(r)).len() as int
        }),
        ring_contents(*final(r)) == ring_contents(*old(r)).skip(n as int),
        final(out)@ == ring_contents(*old(r)).take(n as int) + old(out)@.skip(n as int),
{
    r.consumer.pop_slice(out)
}

/// `Consumer::len`: how many samples are stored.
#[verifier::external_body]
fn ring_len(r: &PcmRing) -> (n: usize)
    ensures
        n == ring_contents(*r).len(),
{
    r.consumer.len()
}

/// `Producer::free_len`: how many more samples fit.
#[verifier::external_body]
fn ring_free_len(r: &PcmRing) -> (n: usize)
    ensures
        n == ring_capacity(*r) - ring_contents(*r).len(),
{
    r.producer.free_len()
}

/// The iOS audio engine: record/playback state and two sample rings, from
/// the microphone to the sender and from the receiver to the speaker.
pub struct AudioEngine {
    state: AudioState,
    input: PcmRing,
    output: PcmRing,
}

impl AudioEngine {
    /// The record/playback state.
    pub closed spec fn state_spec(&self) -> AudioState {
        self.state
    }

    /// Samples waiting to be sent.
    pub closed spec fn input_spec(&self) -> Seq<i16> {
        ring_contents(self.input)
    }

    /// Samples waiting to be played.
    pub closed spec fn output_spec(&self) -> Seq<i16> {
        ring_contents(self.output)
    }

    /// Both rings hold one second.
    pub closed spec fn wf(&self) -> bool {
        ring_capacity(self.input) == BUFFER_SIZE && ring_capacity(self.output) == BUFFER_SIZE
    }

    /// Idle, with empty rings.
    pub fn new() -> (e: Self)
        ensures
            e.wf(),
            e.state_spec() == AudioState::Idle,
            e.input_spec() == Seq::<i16>::empty(),
            e.output_spec() == Seq::<i16>::empty(),
    {
        AudioEngine { state: AudioState::Idle, input: ring_new(BUFFER_SIZE), output: ring_new(BUFFER_SIZE) }
    }

    /// Turn recording on.
    pub fn start_recording(&mut self) -> (r: Result<(), AudioError>)
        ensures
            r is Ok,
            final(self).state_spec() == old(self).state_spec().start_recording_spec(),
            final(self).input_spec() == old(self).input_spec(),
            final(self).output_spec() == old(self).output_spec(),
            old(self).wf() ==> final(self).wf(),
    {
        self.state = self.state.start_recording();
        Ok(())
    }

    /// Turn recording off.
    pub fn stop_recording(&mut self) -> (r: Result<(), AudioError>)
        ensures
            r is Ok,
            final(self).state_spec() == old(self).state_spec().stop_recording_spec(),
            final(self).input_spec() == old(self).input_spec(),
            final(self).output_spec() == old(self).output_spec(),
            old(self).wf() ==> final(self).wf(),
    {
        self.state = self.state.stop_recording();
        Ok(())
    }

    /// Turn playback on.
    pub fn start_playing(&mut self) -> (r: Result<(), AudioError>)
        ensures
            r is Ok,
            final(self).state_spec() == old(self).state_spec().start_playing_spec(),
            final(self).input_spec() == old(self).input_spec(),
            final(self).output_spec() == old(self).output_spec(),
            old(self).wf() ==> final(self).wf(),
    {
        self.state = self.state.start_playing();
        Ok(())
    }

    /// Turn playback off.
    pub fn stop_playing(&mut self) -> (r: Result<(), AudioError>)
        ensures
            r is Ok,
            final(self).state_spec() == old(self).state_spec().stop_playing_spec(),
            final(self).input_spec() == old(self).input_spec(),
            final(self).output_spec() == old(self).output_spec(),
            old(self).wf() ==> final(self).wf(),
    {
        self.state = self.state.stop_playing();
        Ok(())
    }

    /// Queue microphone samples; those that do not fit are lost and the
    /// call reports an overflow.
    pub fn write_input(&mut self, samples: &[i16]) -> (r: Result<(), AudioError>)
        requires
            old(self).wf(),
        ensures
            final(self).wf(),
            final(self).state_spec() == old(self).state_spec(),
            final(self).output_spec() == old(self).output_spec(),
            ({
                let room = BUFFER_SIZE - old(self).input_spec().len();
                let n = if samples@.len() <= room { samples@.len() as int } else { room };
                &&& final(self).input_spec() == old(self).input_spec() + samples@.take(n)
                &&& (r is Ok <==> samples@.len() <= room)
                &&& r is Err ==> r == Err::<(), AudioError>(AudioError::BufferOverflow)
            }),
    {
        let written = ring_push_slice(&mut self.input, samples);
        if written < samples.len() {
            return Err(AudioError::BufferOverflow);
        }
        Ok(())
    }

    /// Take one frame of microphone samples; an underflow when fewer are
    /// queued.
    pub fn read_input_frame(&mut self) -> (r: Result<AudioFrame, AudioError>)
        requires
            old(self).wf(),
        ensures
            final(self).wf(),
            final(self).state_spec() == old(self).state_spec(),
            final(self).output_spec() == old(self).output_spec(),
            match r {
                Ok(f) => old(self).input_spec().len() >= FRAME_SIZE
                    && f.samples@ == old(self).input_spec().take(FRAME_SIZE as int)
                    && f.sample_rate == SAMPLE_RATE
                    && final(self).input_spec() == old(self).input_spec().skip(FRAME_SIZE as int),
                Err(e) => old(self).input_spec().len() < FRAME_SIZE && e == AudioError::BufferUnderflow
                    && final(self).input_spec() == old(self).input_spec(),
            },
    {
        if ring_len(&self.input) < FRAME_SIZE {
            return Err(AudioError::BufferUnderflow);
        }
        let mut samples: Vec<i16> = vec![0i16; FRAME_SIZE];
        let read = ring_pop_slice(&mut self.input, samples.as_mut_slice());
        if read < FRAME_SIZE {
            return Err(AudioError::BufferUnderflow);
        }
        proof {
            assert(samples@ =~= old(self).input_spec().take(FRAME_SIZE as int));
        }
        Ok(AudioFrame::new(samples))
    }

    /// Queue a received frame for the speaker; what does not fit is lost
    /// and the call reports an overflow.
    pub fn write_output_frame(&mut self, frame: &AudioFrame) -> (r: Result<(), AudioError>)
        requires
            old(self).wf(),
        ensures
            final(self).wf(),
            final(self).state_spec() == old(self).state_spec(),
            final(self).input_spec() == old(self).input_spec(),
            ({
                let room = BUFFER_SIZE - old(self).output_spec().len();
                let n = if frame.samples@.len() <= room { frame.samples@.len() as int } else { room };
                &&& final(self).output_spec() == old(self).output_spec() + frame.samples@.take(n)
                &&& (r is Ok <==> frame.samples@.len() <= room)
                &&& r is Err ==> r == Err::<(), AudioError>(AudioError::BufferOverflow)
            }),
    {
        let written = ring_push_slice(&mut self.output, frame.samples.as_slice());
        if written < frame.samples.len() {
            return Err(AudioError::BufferOverflow);
        }
        Ok(())
    }

    /// Fill the front of `buffer` with the oldest speaker samples; returns
    /// how many were written.
    pub fn read_output(&mut self, buffer: &mut [i16]) -> (r: Result<usize, AudioError>)
        requires
            old(self).wf(),
        ensures
            final(self).wf(),
            final(self).state_spec() == old(self).state_spec(),
            final(self).input_spec() == old(self).input_spec(),
            ({
                let have = old(self).output_spec().len();
                let n = if old(buffer)@.len() <= have { old(buffer)@.len() as int } else { have as int };
                &&& r == Ok::<usize, AudioError>(n as usize)
                &&& final(self).output_spec() == old(self).output_spec().skip(n)
                &&& final(buffer)@ == old(self).output_spec().take(n) + old(buffer)@.skip(n)
            }),
    {
        let n = ring_pop_slice(&mut self.output, buffer);
        Ok(n)
    }

    /// The record/playback state.
    pub fn state(&self) -> (s: AudioState)
        ensures
            s == self.state_spec(),
    {
        self.state
    }

    /// Microphone samples waiting to be sent.
    pub fn input_available(&self) -> (n: usize)
        ensures
            n == self.input_spec().len(),
    {
        ring_len(&self.input)
    }

    /// Room left for speaker samples.
    pub fn output_available(&self) -> (n: usize)
        requires
            self.wf(),
        ensures
            n == BUFFER_SIZE - self.output_spec().len(),
    {
        ring_free_len(&self.output)
    }
}

impl Default for AudioEngine {
    fn default() -> (e: Self)
        ensures
            e.wf(),
            e.state_spec() == AudioState::Idle,
            e.input_spec() == Seq::<i16>::empty(),
            e.output_spec() == Seq::<i16>::empty(),
    {
        Self::new()
    }
}

} // verus!
