//! Failure kinds of one call attempt, and the terminal error of a run.
use vstd::prelude::*;

verus! {

/// What went wrong during a single call attempt.
#[derive(Debug)]
pub enum Failure {
    /// Connection or timeout trouble before a status line was seen.
    Transport,
    /// A non-success HTTP status, with the raw response body for diagnostics.
    HttpStatus(u16, Vec<u8>),
    /// A streamed unit whose framing or JSON could not be decoded.
    MalformedChunk,
    /// No JSON value could be located in the response text.
    Extraction,
    /// A JSON value was located but does not conform to the schema.
    SchemaMismatch,
    /// A required environment-derived value is absent.
    Configuration,
}

/// The terminal outcome of a completion run that did not produce a value.
#[derive(Debug)]
pub enum EngineError {
    /// A failure that must not be retried, surfaced at once.
    Fatal(Failure),
    /// The retry budget ran out; carries the attempt count and the last cause.
    RetriesExhausted { attempts: u32, last: Failure },
}

impl Failure {
    /// A short stable name for the failure kind.
    pub fn kind_name(&self) -> (r: &'static str)
        ensures
            r@ == self.spec_kind_name(),
    {
        match self {
            Failure::Transport => "transport",
            Failure::HttpStatus(_, _) => "http_status",
            Failure::MalformedChunk => "malformed_chunk",
            Failure::Extraction => "extraction",
            Failure::SchemaMismatch => "schema_mismatch",
            Failure::Configuration => "configuration",
        }
    }

    pub open spec fn spec_kind_name(&self) -> Seq<char> {
        match self {
            Failure::Transport => "transport"@,
            Failure::HttpStatus(_, _) => "http_status"@,
            Failure::MalformedChunk => "malformed_chunk"@,
            Failure::Extraction => "extraction"@,
            Failure::SchemaMismatch => "schema_mismatch"@,
            Failure::Configuration => "configuration"@,
        }
    }
}

} // verus!
