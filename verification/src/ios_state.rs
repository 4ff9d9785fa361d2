//! The iOS push-to-talk state machine: what each button press, connection
//! change and received packet does to the app state, the transmit and
//! receive flags and the audio engine. The host app runs the threads,
//! the codec and the socket, and asks this machine what to do.
use vstd::prelude::*;
use crate::ios_audio::{AudioEngine, AudioError, AudioFrame, AudioState, BUFFER_SIZE};
use crate::text::{decimal, i32_to_decimal};

verus! {

/// State machine errors.
#[derive(Debug)]
pub enum StateError {
    AudioError(String),
    CodecError(String),
    TransportError(String),
    InvalidStateTransition,
    NotConnected,
    AlreadyTransmitting,
}

/// What the app is doing.
#[derive(Debug, Clone, Copy, PartialEq, Eq, Structural)]
pub enum AppState {
    Idle,
    Connecting,
    Connected,
    Transmitting,
    Receiving,
    Error,
}

/// The message of an audio error.
pub open spec fn audio_error_text(e: AudioError) -> Seq<char> {
    match e {
        AudioError::BufferOverflow => "Buffer overflow"@,
        AudioError::BufferUnderflow => "Buffer underflow"@,
        AudioError::InvalidFrameSize(_) => "Invalid frame size"@,
        AudioError::NotRecording => "Not recording"@,
        AudioError::NotPlaying => "Not playing"@,
    }
}

fn audio_error(e: AudioError) -> (s: StateError)
    ensures
        s matches StateError::AudioError(m) && m@ == audio_error_text(e),
{
    let m = match e {
        AudioError::BufferOverflow => "Buffer overflow",
        AudioError::BufferUnderflow => "Buffer underflow",
        AudioError::InvalidFrameSize(_) => "Invalid frame size",
        AudioError::NotRecording => "Not recording",
        AudioError::NotPlaying => "Not playing",
    };
    StateError::AudioError(m.to_owned())
}

/// The state, flags and audio of one iOS device.
pub struct StateMachine {
    state: AppState,
    device_id: u32,
    device_name: String,
    current_channel: u8,
    audio: AudioEngine,
    is_transmitting: bool,
    should_stop_tx: bool,
    should_stop_rx: bool,
    psk: Option<[u8; 32]>,
}

impl StateMachine {
    /// The app state.
    pub closed spec fn state_spec(&self) -> AppState {
        self.state
    }

    /// Whether a transmission is under way.
    pub closed spec fn transmitting(&self) -> bool {
        self.is_transmitting
    }

    /// Whether the transmit loop has been told to stop.
    pub closed spec fn stop_tx(&self) -> bool {
        self.should_stop_tx
    }

    /// Whether the receive loop has been told to stop.
    pub closed spec fn stop_rx(&self) -> bool {
        self.should_stop_rx
    }

    /// The channel.
    pub closed spec fn channel_spec(&self) -> u8 {
        self.current_channel
    }

    /// The audio engine's record/playback state.
    pub closed spec fn audio_state(&self) -> AudioState {
        self.audio.state_spec()
    }

    /// Microphone samples waiting to be sent.
    pub closed spec fn input_queued(&self) -> Seq<i16> {
        self.audio.input_spec()
    }

    /// Speaker samples waiting to be played.
    pub closed spec fn output_queued(&self) -> Seq<i16> {
        self.audio.output_spec()
    }

    /// The pre-shared key, when one is installed.
    pub closed spec fn psk_spec(&self) -> Option<[u8; 32]> {
        self.psk
    }

    /// The device id.
    pub closed spec fn device_id_spec(&self) -> u32 {
        self.device_id
    }

    /// The device name.
    pub closed spec fn device_name_spec(&self) -> Seq<char> {
        self.device_name@
    }

    /// The audio rings have their size, and transmitting means the
    /// microphone is on.
    pub closed spec fn wf(&self) -> bool {
        &&& self.audio.wf()
        &&& self.is_transmitting ==> self.audio.state_spec().recording()
    }

    /// A machine for a random device id (see [`Self::with_device_id`]).
    pub fn new() -> (m: Self)
        ensures
            m.wf(),
            m.state_spec() == AppState::Idle,
            m.device_name_spec() == "iPhone-"@ + decimal((m.device_id_spec() % 10000) as nat),
            m.channel_spec() == 1,
            !m.transmitting(),
            !m.stop_tx(),
            !m.stop_rx(),
            m.audio_state() == AudioState::Idle,
            m.psk_spec() is None,
    {
        Self::with_device_id(crate::primitives::random_u32())
    }

    /// Idle on channel 1, named `iPhone-<id mod 10000>`.
    pub fn with_device_id(device_id: u32) -> (m: Self)
        ensures
            m.wf(),
            m.state_spec() == AppState::Idle,
            m.device_id_spec() == device_id,
            m.device_name_spec() == "iPhone-"@ + decimal((device_id % 10000) as nat),
            m.channel_spec() == 1,
            !m.transmitting(),
            !m.stop_tx(),
            !m.stop_rx(),
            m.audio_state() == AudioState::Idle,
            m.psk_spec() is None,
    {
        let suffix = i32_to_decimal((device_id % 10000) as i32);
        let mut name = "iPhone-".to_owned();
        name.append(suffix.as_str());
        StateMachine {
            state: AppState::Idle,
            device_id,
            device_name: name,
            current_channel: 1,
            audio: AudioEngine::new(),
            is_transmitting: false,
            should_stop_tx: false,
            should_stop_rx: false,
            psk: None,
        }
    }

    /// Install a pre-shared key.
    pub fn set_psk(&mut self, key: &[u8; 32])
        requires
            old(self).wf(),
        ensures
            final(self).wf(),
            final(self).psk_spec() == Some(*key),
            final(self).state_spec() == old(self).state_spec(),
            final(self).transmitting() == old(self).transmitting(),
    {
        self.psk = Some(*key);
    }

    /// Set the channel.
    pub fn set_channel(&mut self, channel: u8)
        requires
            old(self).wf(),
        ensures
            final(self).wf(),
            final(self).channel_spec() == channel,
            final(self).state_spec() == old(self).state_spec(),
            final(self).transmitting() == old(self).transmitting(),
    {
        self.current_channel = channel;
    }

    /// The channel.
    pub fn get_channel(&self) -> (c: u8)
        ensures
            c == self.channel_spec(),
    {
        self.current_channel
    }

    /// The app state.
    pub fn current_state(&self) -> (s: AppState)
        ensures
            s == self.state_spec(),
    {
        self.state
    }

    /// Push-to-talk pressed: refused while transmitting; otherwise the
    /// microphone goes on and the state becomes `Transmitting` (the caller
    /// then starts its transmit loop).
    pub fn on_ptt_press(&mut self) -> (r: Result<(), StateError>)
        requires
            old(self).wf(),
        ensures
            final(self).wf(),
            final(self).channel_spec() == old(self).channel_spec(),
            old(self).transmitting() ==> (r matches Err(StateError::AlreadyTransmitting)
                && final(self).state_spec() == old(self).state_spec() && final(self).transmitting()),
            !old(self).transmitting() ==> r is Ok
                && final(self).state_spec() == AppState::Transmitting
                && final(self).transmitting()
                && !final(self).stop_tx()
                && final(self).stop_rx() == old(self).stop_rx()
                && final(self).audio_state() == old(self).audio_state().start_recording_spec(),
    {
        if self.is_transmitting {
            return Err(StateError::AlreadyTransmitting);
        }
        let started = self.audio.start_recording();
        if let Err(e) = started {
            return Err(audio_error(e));
        }
        self.state = AppState::Transmitting;
        self.is_transmitting = true;
        self.should_stop_tx = false;
        Ok(())
    }

    /// Push-to-talk released: nothing when not transmitting; otherwise the
    /// transmit loop is told to stop, the microphone goes off and the state
    /// becomes `Connected`.
    pub fn on_ptt_release(&mut self) -> (r: Result<(), StateError>)
        requires
            old(self).wf(),
        ensures
            final(self).wf(),
            r is Ok,
            final(self).channel_spec() == old(self).channel_spec(),
            !old(self).transmitting() ==> *final(self) == *old(self),
            old(self).transmitting() ==> final(self).state_spec() == AppState::Connected
                && !final(self).transmitting()
                && final(self).stop_tx()
                && final(self).stop_rx() == old(self).stop_rx()
                && final(self).audio_state() == old(self).audio_state().stop_recording_spec(),
    {
        if !self.is_transmitting {
            return Ok(());
        }
        self.should_stop_tx = true;
        let stopped = self.audio.stop_recording();
        if let Err(e) = stopped {
            return Err(audio_error(e));
        }
        self.state = AppState::Connected;
        self.is_transmitting = false;
        Ok(())
    }

    /// Start listening: the speaker goes on and the receive loop may run.
    pub fn start_listening(&mut self) -> (r: Result<(), StateError>)
        requires
            old(self).wf(),
        ensures
            final(self).wf(),
            r is Ok,
            final(self).state_spec() == old(self).state_spec(),
            final(self).transmitting() == old(self).transmitting(),
            final(self).channel_spec() == old(self).channel_spec(),
            !final(self).stop_rx(),
            final(self).stop_tx() == old(self).stop_tx(),
            final(self).audio_state() == old(self).audio_state().start_playing_spec(),
    {
        let started = self.audio.start_playing();
        if let Err(e) = started {
            return Err(audio_error(e));
        }
        self.should_stop_rx = false;
        Ok(())
    }

    /// Connect: the state becomes `Connected` and listening starts.
    pub fn connect_to_device(&mut self, _device_id: u32) -> (r: Result<(), StateError>)
        requires
            old(self).wf(),
        ensures
            final(self).wf(),
            r is Ok,
            final(self).state_spec() == AppState::Connected,
            final(self).transmitting() == old(self).transmitting(),
            !final(self).stop_rx(),
            final(self).audio_state() == old(self).audio_state().start_playing_spec(),
    {
        self.state = AppState::Connected;
        self.start_listening()
    }

    /// Disconnect: the receive loop is told to stop, the speaker goes off
    /// and the state becomes `Idle`.
    pub fn disconnect(&mut self) -> (r: Result<(), StateError>)
        requires
            old(self).wf(),
        ensures
            final(self).wf(),
            r is Ok,
            final(self).state_spec() == AppState::Idle,
            final(self).transmitting() == old(self).transmitting(),
            final(self).stop_rx(),
            final(self).audio_state() == old(self).audio_state().stop_playing_spec(),
    {
        self.should_stop_rx = true;
        let stopped = self.audio.stop_playing();
        if let Err(e) = stopped {
            return Err(audio_error(e));
        }
        self.state = AppState::Idle;
        Ok(())
    }

    /// Microphone samples from the host app.
    pub fn process_audio_input(&mut self, samples: &[i16]) -> (r: Result<(), StateError>)
        requires
            old(self).wf(),
        ensures
            final(self).wf(),
            final(self).state_spec() == old(self).state_spec(),
            final(self).transmitting() == old(self).transmitting(),
            (r is Ok) <==> samples@.len() <= BUFFER_SIZE - old(self).input_queued().len(),
    {
        match self.audio.write_input(samples) {
            Ok(()) => Ok(()),
            Err(e) => Err(audio_error(e)),
        }
    }

    /// Speaker samples for the host app; returns how many were written.
    pub fn get_audio_output(&mut self, buffer: &mut [i16]) -> (r: Result<usize, StateError>)
        requires
            old(self).wf(),
        ensures
            final(self).wf(),
            final(self).state_spec() == old(self).state_spec(),
            final(self).transmitting() == old(self).transmitting(),
            (r matches Ok(n) && n as int == (if old(buffer)@.len() <= old(self).output_queued().len() {
                old(buffer)@.len() as int
            } else {
                old(self).output_queued().len() as int
            })),
    {
        let room = buffer.len();
        assert(old(buffer)@.len() == room);
        match self.audio.read_output(buffer) {
            Ok(n) => Ok(n),
            Err(e) => Err(audio_error(e)),
        }
    }

    /// The next frame for the transmit loop, when a whole one is queued.
    pub fn next_tx_frame(&mut self) -> (f: Option<AudioFrame>)
        requires
            old(self).wf(),
        ensures
            final(self).wf(),
            final(self).state_spec() == old(self).state_spec(),
            final(self).transmitting() == old(self).transmitting(),
            (f is Some) <==> old(self).input_queued().len() >= crate::ios_audio::FRAME_SIZE,
    {
        match self.audio.read_input_frame() {
            Ok(frame) => Some(frame),
            Err(_) => None,
        }
    }

    /// Decoded audio received on `channel`: played and the state becomes
    /// `Receiving` when it is the current channel; ignored otherwise.
    /// Returns whether it was taken.
    pub fn on_audio_received(&mut self, channel: u8, samples: Vec<i16>) -> (taken: bool)
        requires
            old(self).wf(),
        ensures
            final(self).wf(),
            taken == (channel == old(self).channel_spec()),
            final(self).transmitting() == old(self).transmitting(),
            taken ==> final(self).state_spec() == AppState::Receiving,
            !taken ==> *final(self) == *old(self),
    {
        if channel != self.current_channel {
            return false;
        }
        let frame = AudioFrame::new(samples);
        let _ = self.audio.write_output_frame(&frame);
        self.state = AppState::Receiving;
        true
    }

    /// Shutdown: both loops are told to stop.
    pub fn shutdown(&mut self) -> (r: Result<(), StateError>)
        requires
            old(self).wf(),
        ensures
            final(self).wf(),
            r is Ok,
            final(self).stop_tx(),
            final(self).stop_rx(),
            final(self).state_spec() == old(self).state_spec(),
    {
        self.should_stop_tx = true;
        self.should_stop_rx = true;
        Ok(())
    }
}

} // verus!
