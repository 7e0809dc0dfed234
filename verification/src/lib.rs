//! Pocket TTS: text to 24 kHz speech, on device.
//!
//! Text is tokenized, a flow-matching language model turns the tokens into codec latents, and
//! the codec decoder turns those into PCM. This crate holds the rules of that pipeline: text
//! normalization, budgets and stopping, the checkpoint key mapping and the checks around it, the
//! session and decoding state machines, and what a server answers.
use vstd::prelude::*;

pub mod asr;
pub mod asr_quantizer;
pub mod audio;
pub mod bindings;
pub mod browser;
pub mod conditioners;
pub mod error;
pub mod flow_lm;
pub mod loader;
pub mod plan;
pub mod preprocess;
pub mod server;
pub mod synth;
pub mod text;
pub mod web;

pub use error::{Error, Result};

verus! {

} // verus!
