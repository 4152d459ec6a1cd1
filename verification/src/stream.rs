//! Streaming decoding: one byte in, one event out.
pub mod dec;

pub use dec::{lemma_step_wf, Fed, PixelsIter, StreamDecoder, StreamDecoderOutput, StreamDecoderState, StreamModel};
