//! The contract every vendor adapter satisfies: wire name, token ceiling,
//! endpoint resolution, body building, response-text extraction and rate
//! limit, each pinned to an adapter-supplied specification function.
use vstd::prelude::*;
use crate::RateLimit;
use crate::errors::Failure;
use crate::gemini::EnvConfig;
use crate::json::Json;
use crate::json::JsonV;

verus! {

pub trait LLMModel: Sized {
    /// The vendor/model wire name.
    spec fn spec_name(&self) -> Seq<char>;

    /// Which URL the model resolves to under the given environment-derived
    /// values, or why it cannot.
    spec fn spec_endpoint(&self, region: Option<Seq<char>>, project: Option<Seq<char>>) -> Result<
        Seq<char>,
        Failure,
    >;

    /// The vendor body built from a request envelope.
    spec fn spec_body(&self, instr: Seq<u8>, schema: JsonV, function_call: bool, temp: u32) -> JsonV;

    /// The text handed on by the extraction step.
    spec fn spec_data(&self, response_text: Seq<u8>, function_call: bool) -> Seq<u8>;

    /// The model's static rate limit.
    spec fn spec_rate_limit(&self) -> RateLimit;

    /// The token ceiling used when the caller does not override it.
    spec fn spec_default_max_tokens(&self) -> usize;

    fn as_str(&self) -> (r: &'static str)
        ensures
            r@ == self.spec_name(),
    ;

    fn default_max_tokens(&self) -> (r: usize)
        ensures
            r == self.spec_default_max_tokens(),
            r >= 1,
    ;

    fn get_endpoint(&self, env: &EnvConfig) -> (r: Result<String, Failure>)
        ensures
            (r matches Ok(u) ==> self.spec_endpoint(env.region_v(), env.project_v()) == Ok::<
                Seq<char>,
                Failure,
            >(u@)),
            (r matches Err(f) ==> self.spec_endpoint(env.region_v(), env.project_v()) == Err::<
                Seq<char>,
                Failure,
            >(f)),
    ;

    fn get_body(
        &self,
        instructions: &Vec<u8>,
        json_schema: &Json,
        function_call: bool,
        max_tokens: &usize,
        temperature: &u32,
    ) -> (r: Json)
        ensures
            r@ == self.spec_body(instructions@, json_schema@, function_call, *temperature),
    ;

    fn get_data(&self, response_text: &Vec<u8>, function_call: bool) -> (r: Result<
        Vec<u8>,
        Failure,
    >)
        ensures
            r matches Ok(t) && t@ == self.spec_data(response_text@, function_call),
    ;

    /// Every adapter reports a positive rate limit.
    fn get_rate_limit(&self) -> (r: RateLimit)
        ensures
            r == self.spec_rate_limit(),
            r.wf(),
    ;
}

} // verus!
