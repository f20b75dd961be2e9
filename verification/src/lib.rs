//! Real-time speech pipeline building blocks: PCM buffering and G.711
//! decoding, WAV parsing, deterministic audio augmentation, streaming
//! windows and transcript merging, transcript routing agents, and the
//! decisions of a phone call.

pub mod agent;
pub mod audio;
pub mod augment;
pub mod call;
pub mod config;
pub mod engine;
pub mod json;
pub mod stream;
pub mod text;
pub mod transport;
pub mod wav;
