//! The core of an Icecast-compatible streaming server: transfer decoding,
//! in-band metadata, and the graph of sources and listeners.

pub mod admin;
pub mod broadcaster;
pub mod client;
pub mod control;
pub mod delivery;
pub mod icy;
pub mod ingest;
pub mod listener;
pub mod logger;
pub mod lookup;
pub mod relay;
pub mod request;
pub mod response;
pub mod server;
pub mod source;
pub mod stream_decoder;
pub mod text;
