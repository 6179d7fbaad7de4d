//! CastScreen: the media core of a dual-PC game-streaming tool.
//!
//! The MPEG-TS multiplexer and demultiplexer, the 90 kHz presentation clock,
//! PCM transport packing, the stream configuration and the small decision
//! rules that the sender and receiver applications run.
pub mod crc;
pub mod media;
pub mod mpegts;
pub mod stream_laws;
pub mod clock;
pub mod version;
pub mod config;
pub mod ui;
pub mod mixer;
pub mod transport;
pub mod receiver;
pub mod pcm;
pub mod jpeg;
pub mod video;
pub mod discovery;
pub mod release;
pub mod frame;
pub mod capture;
pub mod audio;
pub mod pacing;
pub mod launch;
pub mod update;
