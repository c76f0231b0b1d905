//! Chunk transfer between peers over an unreliable datagram transport:
//! the wire messages and their byte format, the piece-indexed stream cache,
//! the download and upload session state machines, and the registries that
//! tie them together.
//!
//! Everything here is a pure function of its arguments. Sending, waiting and
//! clocks belong to the caller: a function that wants a message sent returns
//! it, and a function that depends on the time takes the time.

pub mod cache;
pub mod channel;
pub mod download;
pub mod downloader;
pub mod encode;
pub mod error;
pub mod flags;
pub mod laws;
pub mod manager;
pub mod packet;
pub mod protocol;
pub mod raw;
pub mod speed;
pub mod stream;
pub mod types;
pub mod upload;
