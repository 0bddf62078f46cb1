//! Core logic of a local dictation daemon that streams microphone audio to a
//! cloud speech-recognition service and returns transcript events to a local
//! client.
//!
//! This crate holds the verified parts: the binary frame codec for the wire
//! protocol, the streaming resampler and chunker for the audio path, the
//! incremental transcript aggregator, and the state machines that drive one
//! recognition session and the per-client command loop.  The surrounding
//! process (sockets, the audio device, the WebSocket transport) lives outside
//! and talks to this crate through plain values.

pub mod text;
pub mod protocol;
pub mod transcript;
pub mod audio;
pub mod ipc;
pub mod errors;
pub mod config;
pub mod json;
pub mod session;
pub mod control;
pub mod pool;
