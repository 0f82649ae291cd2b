//! A provider abstraction for structured output from large-language-model
//! vendors: one adapter contract, request/response normalization, streamed
//! response reassembly, JSON extraction and schema validation, and a
//! bounded retry policy with backoff.
pub mod engine;
pub mod errors;
pub mod extract;
pub mod gemini;
pub mod json;
pub mod llm_model;

pub use gemini::GoogleModels;
pub use llm_model::LLMModel;

use vstd::prelude::*;

verus! {

/// Static per-model capacity: requests per minute and tokens per minute.
#[derive(Clone, Copy, PartialEq, Eq, Structural, Debug)]
pub struct RateLimit {
    /// Tokens per minute.
    pub tpm: u32,
    /// Requests per minute.
    pub rpm: u32,
}

impl RateLimit {
    /// A rate limit is meaningful only when both ceilings are positive.
    pub open spec fn wf(self) -> bool {
        self.rpm > 0 && self.tpm > 0
    }
}

} // verus!
