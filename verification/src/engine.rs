//! The speech-to-text engine interface and the transcript segments engines
//! produce.
use vstd::prelude::*;

verus! {

/// A speech-to-text engine that transcribes 16 kHz mono 16-bit PCM.
pub trait SttEngine: Send + Sync {
    /// Transcribe audio samples into one or more text segments.
    fn transcribe(&self, samples: &[i16]) -> Result<Vec<String>, String>;
}

/// A transcribed segment with its start and end in milliseconds.
#[derive(Debug, Clone)]
pub struct Segment {
    pub text: String,
    pub t0_ms: i64,
    pub t1_ms: i64,
}

} // verus!
