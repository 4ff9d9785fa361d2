//! SassyTalkie: verified wire formats, session bookkeeping and audio-queue
//! logic for a push-to-talk walkie-talkie family.

pub mod buf;
pub mod text;
pub mod strmap;
pub mod idmap;
pub mod protocol;
pub mod wire;
pub mod primitives;
pub mod sealed;
pub mod liveness;
pub mod control;
pub mod cellular;
pub mod audio_cache;
pub mod cohort_history;
pub mod packet;
pub mod crypto;
pub mod peers;
pub mod transport;
pub mod pqc;
pub mod vault;
pub mod security;
pub mod rx_pool;
pub mod device_checks;
pub mod der;
pub mod ios_control;
pub mod ios_audio;
pub mod ios_bluetooth;
pub mod rt_queue;
pub mod ios_state;
pub mod bluetooth;
pub mod codec;
pub mod ios_peers;
pub mod heartbeat;
