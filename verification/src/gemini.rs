//! The Google Gemini adapter: model identities, endpoints, request bodies
//! and the decoding of streamed responses.
use vstd::prelude::*;
use vstd::string::StrSliceExecFns;
use vstd::string::StringSliceAdditionalSpecFns;
use vstd::string::StringExecFns;
use crate::RateLimit;
use crate::errors::Failure;
use crate::llm_model::LLMModel;
use crate::json::Json;
use crate::json::JsonV;
use crate::json::ser;
use crate::json::push_bytes;
use crate::json::vmembers;

verus! {

/// The supported Gemini deployments: the public API and the managed-cloud
/// endpoint share a wire name but differ in routing.
#[derive(Clone, Copy, PartialEq, Eq, Structural, Debug)]
pub enum GoogleModels {
    GeminiPro,
    GeminiProVertex,
}

/// Environment-derived routing values, handed in by the caller.
pub struct EnvConfig {
    /// Deployment region; a default exists.
    pub region: Option<String>,
    /// Project identifier; required for the managed-cloud endpoint.
    pub project_id: Option<String>,
}

impl EnvConfig {
    pub open spec fn region_v(&self) -> Option<Seq<char>> {
        match self.region {
            Some(ref r) => Some(r@),
            None => None,
        }
    }

    pub open spec fn project_v(&self) -> Option<Seq<char>> {
        match self.project_id {
            Some(ref p) => Some(p@),
            None => None,
        }
    }
}

/// The fixed public-API endpoint.
pub open spec fn gemini_url() -> Seq<char> {
    "https://generativelanguage.googleapis.com/v1beta/models/gemini-pro:streamGenerateContent"@
}

/// The region used when none is configured.
pub open spec fn default_region() -> Seq<char> {
    "us-central1"@
}

pub open spec fn region_or_default(r: Option<Seq<char>>) -> Seq<char> {
    match r {
        Some(x) => x,
        None => default_region(),
    }
}

/// The managed-cloud endpoint for a region and project.
pub open spec fn vertex_url(r: Seq<char>, p: Seq<char>) -> Seq<char> {
    "https://"@ + r + "-aiplatform.googleapis.com/v1/projects/"@ + p + "/locations/"@ + r
        + "/publishers/google/models/gemini-pro:streamGenerateContent"@
}

/// Which URL a model resolves to, or why it cannot.
pub open spec fn endpoint_of(m: GoogleModels, region: Option<Seq<char>>, project: Option<
    Seq<char>,
>) -> Result<Seq<char>, Failure> {
    match m {
        GoogleModels::GeminiPro => Ok(gemini_url()),
        GoogleModels::GeminiProVertex => match project {
            None => Err(Failure::Configuration),
            Some(p) => Ok(vertex_url(region_or_default(region), p)),
        },
    }
}

/// The fixed instructions that open every request body.
pub open spec fn base_instr(function_call: bool) -> Seq<u8> {
    if function_call {
        "You are a function that answers by calling the provided tool. Respond only with a single valid JSON object that conforms to the schema below; output no other text.".spec_bytes()
    } else {
        "You are a function. Respond only with a single valid JSON object that conforms to the schema below; output no other text.".spec_bytes()
    }
}

/// The label placed before the serialized schema.
pub open spec fn schema_note() -> Seq<u8> {
    "'Output Json schema': ".spec_bytes()
}

/// One message part carrying plain text.
pub open spec fn text_part_v(t: Seq<u8>) -> JsonV {
    JsonV::Obj(seq![("text".spec_bytes(), JsonV::Str(t))])
}

/// The decimal digits of `n`.
pub open spec fn dec_rep(n: nat) -> Seq<u8>
    decreases n,
{
    if n < 10 {
        seq![(0x30 + n) as u8]
    } else {
        dec_rep(n / 10).push((0x30 + n % 10) as u8)
    }
}

/// The complete vendor body: the three ordered parts (base instructions,
/// schema rendering, caller instructions) under one user-role content, and
/// the generation configuration carrying the temperature.
pub open spec fn body_of(instr: Seq<u8>, schema: JsonV, function_call: bool, temp: u32) -> JsonV {
    JsonV::Obj(
        seq![
            (
                "contents".spec_bytes(),
                JsonV::Obj(
                    seq![
                        ("role".spec_bytes(), JsonV::Str("user".spec_bytes())),
                        (
                            "parts".spec_bytes(),
                            JsonV::Arr(
                                seq![
                                    text_part_v(base_instr(function_call)),
                                    text_part_v(schema_note() + ser(schema)),
                                    text_part_v(instr),
                                ],
                            ),
                        ),
                    ],
                ),
            ),
            (
                "generationConfig".spec_bytes(),
                JsonV::Obj(seq![("temperature".spec_bytes(), JsonV::Num(dec_rep(temp as nat)))]),
            ),
        ],
    )
}

/// Writes the decimal digits of `n`.
fn u32_digits(n: u32) -> (r: Vec<u8>)
    ensures
        r@ == dec_rep(n as nat),
    decreases n,
{
    if n < 10 {
        let mut v: Vec<u8> = Vec::new();
        v.push(0x30u8 + n as u8);
        assert(v@ =~= dec_rep(n as nat));
        v
    } else {
        let mut v = u32_digits(n / 10);
        v.push(0x30u8 + (n % 10) as u8);
        assert(v@ =~= dec_rep(n as nat));
        v
    }
}

/// Builds one text part.
fn text_part(t: Vec<u8>) -> (r: Json)
    ensures
        r@ == text_part_v(t@),
{
    let mut fields: Vec<(Vec<u8>, Json)> = Vec::new();
    let key = "text".as_bytes_vec();
    fields.push((key, Json::Str(t)));
    let r = Json::Obj(fields);
    proof {
        crate::json::lemma_vmembers(fields@, 0);
        assert(crate::json::vmembers(fields@, 0) =~= seq![
            ("text".spec_bytes(), JsonV::Str(t@)),
        ]);
    }
    r
}

impl LLMModel for GoogleModels {
    open spec fn spec_name(&self) -> Seq<char> {
        "gemini-pro"@
    }

    open spec fn spec_endpoint(&self, region: Option<Seq<char>>, project: Option<Seq<char>>) -> Result<
        Seq<char>,
        Failure,
    > {
        endpoint_of(*self, region, project)
    }

    open spec fn spec_body(&self, instr: Seq<u8>, schema: JsonV, function_call: bool, temp: u32) -> JsonV {
        body_of(instr, schema, function_call, temp)
    }

    open spec fn spec_data(&self, response_text: Seq<u8>, function_call: bool) -> Seq<u8> {
        response_text
    }

    open spec fn spec_rate_limit(&self) -> RateLimit {
        google_rate_limit(*self)
    }

    open spec fn spec_default_max_tokens(&self) -> usize {
        32000
    }

    /// The wire name shared by both deployments.
    fn as_str(&self) -> (r: &'static str) {
        match self {
            GoogleModels::GeminiPro | GoogleModels::GeminiProVertex => "gemini-pro",
        }
    }

    /// The token ceiling used when the caller does not override it.
    fn default_max_tokens(&self) -> (r: usize) {
        match self {
            GoogleModels::GeminiPro | GoogleModels::GeminiProVertex => 32000,
        }
    }

    /// Resolves the endpoint URL from the model and the environment-derived
    /// values. The region falls back to a documented default; a missing
    /// project identifier is a configuration failure.
    fn get_endpoint(&self, env: &EnvConfig) -> (r: Result<String, Failure>) {
        match self {
            GoogleModels::GeminiPro => Ok(
                "https://generativelanguage.googleapis.com/v1beta/models/gemini-pro:streamGenerateContent".to_owned(),
            ),
            GoogleModels::GeminiProVertex => {
                let region: &str = match &env.region {
                    Some(r) => r.as_str(),
                    None => "us-central1",
                };
                assert(region@ == region_or_default(env.region_v()));
                match &env.project_id {
                    None => Err(Failure::Configuration),
                    Some(p) => {
                        let mut url = "https://".to_owned();
                        url.append(region);
                        url.append("-aiplatform.googleapis.com/v1/projects/");
                        url.append(p.as_str());
                        url.append("/locations/");
                        url.append(region);
                        url.append("/publishers/google/models/gemini-pro:streamGenerateContent");
                        proof {
                            assert(url@ =~= vertex_url(region_or_default(env.region_v()), p@));
                        }
                        Ok(url)
                    },
                }
            },
        }
    }

    /// Builds the vendor body for one request. Pure in its inputs; the
    /// `max_tokens` value does not appear in this vendor's body.
    fn get_body(
        &self,
        instructions: &Vec<u8>,
        json_schema: &Json,
        function_call: bool,
        _max_tokens: &usize,
        temperature: &u32,
    ) -> (r: Json) {
        let base = if function_call {
            "You are a function that answers by calling the provided tool. Respond only with a single valid JSON object that conforms to the schema below; output no other text.".as_bytes_vec()
        } else {
            "You are a function. Respond only with a single valid JSON object that conforms to the schema below; output no other text.".as_bytes_vec()
        };

        let mut schema_text = "'Output Json schema': ".as_bytes_vec();
        let schema_bytes = crate::json::to_bytes(json_schema);
        push_bytes(&mut schema_text, &schema_bytes);

        let instr = crate::json::copy_range(instructions, 0, instructions.len());
        assert(instr@ =~= instructions@);

        let mut parts: Vec<Json> = Vec::new();
        parts.push(text_part(base));
        parts.push(text_part(schema_text));
        parts.push(text_part(instr));
        proof {
            crate::json::lemma_velems(parts@, 0);
            assert(crate::json::velems(parts@, 0) =~= seq![
                text_part_v(base_instr(function_call)),
                text_part_v(schema_note() + ser(json_schema@)),
                text_part_v(instructions@),
            ]);
        }

        let mut contents: Vec<(Vec<u8>, Json)> = Vec::new();
        contents.push(("role".as_bytes_vec(), Json::Str("user".as_bytes_vec())));
        contents.push(("parts".as_bytes_vec(), Json::Arr(parts)));
        proof {
            crate::json::lemma_vmembers(contents@, 0);
            assert(crate::json::vmembers(contents@, 0) =~= seq![
                ("role".spec_bytes(), JsonV::Str("user".spec_bytes())),
                (
                    "parts".spec_bytes(),
                    JsonV::Arr(
                        seq![
                            text_part_v(base_instr(function_call)),
                            text_part_v(schema_note() + ser(json_schema@)),
                            text_part_v(instructions@),
                        ],
                    ),
                ),
            ]);
        }

        let mut gen_config: Vec<(Vec<u8>, Json)> = Vec::new();
        gen_config.push(("temperature".as_bytes_vec(), Json::Num(u32_digits(*temperature))));
        proof {
            crate::json::lemma_vmembers(gen_config@, 0);
            assert(crate::json::vmembers(gen_config@, 0) =~= seq![
                ("temperature".spec_bytes(), JsonV::Num(dec_rep(*temperature as nat))),
            ]);
        }

        let mut top: Vec<(Vec<u8>, Json)> = Vec::new();
        top.push(("contents".as_bytes_vec(), Json::Obj(contents)));
        top.push(("generationConfig".as_bytes_vec(), Json::Obj(gen_config)));
        let r = Json::Obj(top);
        proof {
            crate::json::lemma_vmembers(top@, 0);
            let bodyv = body_of(instructions@, json_schema@, function_call, *temperature);
            assert(vmembers(top@, 0).len() == 2);
            assert(vmembers(top@, 0)[0].1 =~~= bodyv->Obj_0[0].1);
            assert(vmembers(top@, 0)[1].1 =~~= bodyv->Obj_0[1].1);
            assert(vmembers(top@, 0) =~~= bodyv->Obj_0);
            assert(r@ =~~= bodyv);
        }
        r
    }

    /// For this vendor the streamed call already yields final text, so the
    /// extraction step passes the input through unchanged.
    fn get_data(&self, response_text: &Vec<u8>, _function_call: bool) -> (r: Result<
        Vec<u8>,
        Failure,
    >) {
        Ok(crate::json::copy_range(response_text, 0, response_text.len()))
    }

    /// The published request ceiling; tokens per minute is derived from it
    /// and the default token ceiling.
    fn get_rate_limit(&self) -> (r: RateLimit) {
        RateLimit { tpm: 60 * 32000, rpm: 60 }
    }
}

/// The rate limit attached to each model identity.
pub open spec fn google_rate_limit(m: GoogleModels) -> RateLimit {
    RateLimit { tpm: 1920000, rpm: 60 }
}


/// The framing prefix of one streamed unit.
pub open spec fn data_prefix() -> Seq<u8> {
    "data: ".spec_bytes()
}

/// A streamed line with its framing prefix removed, when present.
pub open spec fn chunk_payload(line: Seq<u8>) -> Seq<u8> {
    if line.len() >= 6 && line.subrange(0, 6) == data_prefix() {
        line.subrange(6, line.len() as int)
    } else {
        line
    }
}

/// Concatenated text of the parts of one candidate, from `k` on; `None`
/// when a part does not have the expected shape.
pub open spec fn parts_text(ps: Seq<JsonV>, k: int) -> Option<Seq<u8>>
    decreases ps.len() - k,
{
    if !(0 <= k < ps.len()) {
        Some(Seq::empty())
    } else {
        match ps[k] {
            JsonV::Obj(pf) => match crate::extract::lookup(pf, "text".spec_bytes()) {
                Some(JsonV::Str(t)) => match parts_text(ps, k + 1) {
                    Some(rest) => Some(t + rest),
                    None => None,
                },
                _ => None,
            },
            _ => None,
        }
    }
}

/// Text contributed by one candidate: its concatenated part texts when its
/// role is the model role, nothing otherwise; `None` on a malformed shape.
pub open spec fn cand_text(c: JsonV) -> Option<Seq<u8>> {
    match c {
        JsonV::Obj(fields) => match crate::extract::lookup(fields, "content".spec_bytes()) {
            Some(JsonV::Obj(cf)) => {
                let role = crate::extract::lookup(cf, "role".spec_bytes());
                if role matches Some(rv) && !(rv is Str) {
                    None
                } else {
                    match crate::extract::lookup(cf, "parts".spec_bytes()) {
                        Some(JsonV::Arr(ps)) => match parts_text(ps, 0) {
                            Some(t) => if role == Some(JsonV::Str("model".spec_bytes())) {
                                Some(t)
                            } else {
                                Some(Seq::empty())
                            },
                            None => None,
                        },
                        _ => None,
                    }
                }
            },
            _ => None,
        },
        _ => None,
    }
}

/// Concatenated candidate texts from `k` on, in arrival order.
pub open spec fn cands_text(cs: Seq<JsonV>, k: int) -> Option<Seq<u8>>
    decreases cs.len() - k,
{
    if !(0 <= k < cs.len()) {
        Some(Seq::empty())
    } else {
        match cand_text(cs[k]) {
            Some(t) => match cands_text(cs, k + 1) {
                Some(rest) => Some(t + rest),
                None => None,
            },
            None => None,
        }
    }
}

/// The text carried by one parsed chunk document.
pub open spec fn chunk_text_of(v: JsonV) -> Option<Seq<u8>> {
    match v {
        JsonV::Obj(fields) => match crate::extract::lookup(fields, "candidates".spec_bytes()) {
            Some(JsonV::Arr(cs)) => cands_text(cs, 0),
            _ => None,
        },
        _ => None,
    }
}

/// The text of one streamed unit: prefix stripped, JSON parsed, candidates
/// filtered to the model role and concatenated.
pub open spec fn decode_unit_s(line: Seq<u8>) -> Option<Seq<u8>> {
    match crate::json::parse_doc(chunk_payload(line)) {
        Some(v) => chunk_text_of(v),
        None => None,
    }
}

/// First newline position at or after `i`, or the end of the stream.
pub open spec fn line_end(s: Seq<u8>, i: int) -> int
    decreases s.len() - i,
{
    if 0 <= i < s.len() && s[i] != 0x0a {
        line_end(s, i + 1)
    } else {
        i
    }
}

/// The whole text of a streamed response: each newline-delimited unit
/// decoded in arrival order, blank separator lines skipped; `None` as soon
/// as one unit is malformed.
pub open spec fn stream_text(s: Seq<u8>, i: int) -> Option<Seq<u8>>
    decreases s.len() - i + 1,
{
    if !(0 <= i < s.len()) {
        Some(Seq::empty())
    } else {
        let e = line_end(s, i);
        if !(i <= e <= s.len()) {
            None
        } else {
            let line = s.subrange(i, e);
            if line.len() == 0 {
                stream_text(s, e + 1)
            } else {
                match decode_unit_s(line) {
                    Some(t) => match stream_text(s, e + 1) {
                        Some(rest) => Some(t + rest),
                        None => None,
                    },
                    None => None,
                }
            }
        }
    }
}

/// Strips the framing prefix from one unit, when present.
fn strip_data_prefix(line: &Vec<u8>) -> (r: Vec<u8>)
    ensures
        r@ == chunk_payload(line@),
{
    let pref = "data: ".as_bytes_vec();
    if line.len() >= 6 && pref.len() == 6 && line[0] == pref[0] && line[1] == pref[1] && line[2]
        == pref[2] && line[3] == pref[3] && line[4] == pref[4] && line[5] == pref[5] {
        proof {
            assert(line@.subrange(0, 6) =~= data_prefix());
        }
        crate::json::copy_range(line, 6, line.len())
    } else {
        proof {
            if line@.len() >= 6 && line@.subrange(0, 6) == data_prefix() {
                assert(line@[0] == line@.subrange(0, 6)[0]);
                assert(line@[1] == line@.subrange(0, 6)[1]);
                assert(line@[2] == line@.subrange(0, 6)[2]);
                assert(line@[3] == line@.subrange(0, 6)[3]);
                assert(line@[4] == line@.subrange(0, 6)[4]);
                assert(line@[5] == line@.subrange(0, 6)[5]);
            }
        }
        let r = crate::json::copy_range(line, 0, line.len());
        assert(r@ =~= line@);
        r
    }
}

/// Concatenates the texts of the parts of one candidate.
#[verifier::loop_isolation(false)]
fn parts_text_x(ps: &Vec<Json>) -> (r: Result<Vec<u8>, Failure>)
    ensures
        (r matches Ok(t) ==> parts_text(crate::json::velems(ps@, 0), 0) == Some(t@)),
        (r matches Err(f) ==> f == Failure::MalformedChunk && parts_text(
            crate::json::velems(ps@, 0),
            0,
        ) is None),
{
    let ghost psv = crate::json::velems(ps@, 0);
    proof {
        crate::json::lemma_velems(ps@, 0);
    }
    let mut acc: Vec<u8> = Vec::new();
    proof {
        assert forall|t: Seq<u8>| #[trigger] (acc@ + t) == t by {
            assert(acc@ + t =~= t);
        }
    }
    let mut k: usize = 0;
    loop
        invariant
            k <= ps@.len(),
            (parts_text(psv, k as int) matches Some(rest) ==> parts_text(psv, 0) == Some(
                acc@ + rest,
            )),
            (parts_text(psv, k as int) is None ==> parts_text(psv, 0) is None),
        decreases ps@.len() - k,
    {
        if k >= ps.len() {
            assert(acc@ + Seq::<u8>::empty() =~= acc@);
            return Ok(acc);
        }
        match &ps[k] {
            Json::Obj(pf) => {
                let key = "text".as_bytes_vec();
                match crate::extract::obj_get(pf, &key) {
                    Some(tv) => match tv {
                        Json::Str(t) => {
                            let ghost old_acc = acc@;
                            push_bytes(&mut acc, t);
                            proof {
                                match parts_text(psv, k + 1) {
                                    Some(rest) => {
                                        assert(old_acc + (t@ + rest) =~= acc@ + rest);
                                    },
                                    None => {},
                                }
                            }
                            k = k + 1;
                        },
                        _ => {
                            return Err(Failure::MalformedChunk);
                        },
                    },
                    None => {
                        return Err(Failure::MalformedChunk);
                    },
                }
            },
            _ => {
                return Err(Failure::MalformedChunk);
            },
        }
    }
}

/// Text contributed by one candidate.
fn cand_text_x(c: &Json) -> (r: Result<Vec<u8>, Failure>)
    ensures
        (r matches Ok(t) ==> cand_text(c@) == Some(t@)),
        (r matches Err(f) ==> f == Failure::MalformedChunk && cand_text(c@) is None),
{
    match c {
        Json::Obj(fields) => {
            let key_content = "content".as_bytes_vec();
            match crate::extract::obj_get(fields, &key_content) {
                Some(content) => match content {
                    Json::Obj(cf) => {
                        let key_role = "role".as_bytes_vec();
                        let mut is_model: bool = false;
                        match crate::extract::obj_get(cf, &key_role) {
                            None => {},
                            Some(rv) => match rv {
                                Json::Str(rt) => {
                                    let model = "model".as_bytes_vec();
                                    is_model = crate::extract::bytes_eq(rt, &model);
                                },
                                _ => {
                                    return Err(Failure::MalformedChunk);
                                },
                            },
                        }
                        let key_parts = "parts".as_bytes_vec();
                        match crate::extract::obj_get(cf, &key_parts) {
                            Some(pv) => match pv {
                                Json::Arr(ps) => match parts_text_x(ps) {
                                    Ok(t) => if is_model {
                                        Ok(t)
                                    } else {
                                        let none: Vec<u8> = Vec::new();
                                        Ok(none)
                                    },
                                    Err(e) => Err(e),
                                },
                                _ => Err(Failure::MalformedChunk),
                            },
                            None => Err(Failure::MalformedChunk),
                        }
                    },
                    _ => Err(Failure::MalformedChunk),
                },
                None => Err(Failure::MalformedChunk),
            }
        },
        _ => Err(Failure::MalformedChunk),
    }
}

/// Concatenates the contributions of all candidates, in arrival order.
#[verifier::loop_isolation(false)]
fn cands_text_x(cs: &Vec<Json>) -> (r: Result<Vec<u8>, Failure>)
    ensures
        (r matches Ok(t) ==> cands_text(crate::json::velems(cs@, 0), 0) == Some(t@)),
        (r matches Err(f) ==> f == Failure::MalformedChunk && cands_text(
            crate::json::velems(cs@, 0),
            0,
        ) is None),
{
    let ghost csv = crate::json::velems(cs@, 0);
    proof {
        crate::json::lemma_velems(cs@, 0);
    }
    let mut acc: Vec<u8> = Vec::new();
    proof {
        assert forall|t: Seq<u8>| #[trigger] (acc@ + t) == t by {
            assert(acc@ + t =~= t);
        }
    }
    let mut k: usize = 0;
    loop
        invariant
            k <= cs@.len(),
            (cands_text(csv, k as int) matches Some(rest) ==> cands_text(csv, 0) == Some(
                acc@ + rest,
            )),
            (cands_text(csv, k as int) is None ==> cands_text(csv, 0) is None),
        decreases cs@.len() - k,
    {
        if k >= cs.len() {
            assert(acc@ + Seq::<u8>::empty() =~= acc@);
            return Ok(acc);
        }
        match cand_text_x(&cs[k]) {
            Err(e) => {
                return Err(e);
            },
            Ok(t) => {
                let ghost old_acc = acc@;
                push_bytes(&mut acc, &t);
                proof {
                    match cands_text(csv, k + 1) {
                        Some(rest) => {
                            assert(old_acc + (t@ + rest) =~= acc@ + rest);
                        },
                        None => {},
                    }
                }
                k = k + 1;
            },
        }
    }
}

/// Decodes one streamed unit: strips the framing prefix, parses the unit as
/// one JSON document and collects the model-role text.
pub fn decode_unit(line: &Vec<u8>) -> (r: Result<Vec<u8>, Failure>)
    ensures
        (r matches Ok(t) ==> decode_unit_s(line@) == Some(t@)),
        (r matches Err(f) ==> f == Failure::MalformedChunk && decode_unit_s(line@) is None),
{
    let payload = strip_data_prefix(line);
    match crate::json::parse_doc_x(&payload) {
        None => Err(Failure::MalformedChunk),
        Some(v) => match &v {
            Json::Obj(fields) => {
                let key = "candidates".as_bytes_vec();
                match crate::extract::obj_get(fields, &key) {
                    Some(cv) => match cv {
                        Json::Arr(cs) => cands_text_x(cs),
                        _ => Err(Failure::MalformedChunk),
                    },
                    None => Err(Failure::MalformedChunk),
                }
            },
            _ => Err(Failure::MalformedChunk),
        },
    }
}

/// Advances to the next newline.
#[verifier::loop_isolation(false)]
fn line_end_x(s: &Vec<u8>, i: usize) -> (r: usize)
    requires
        i <= s@.len(),
    ensures
        r == line_end(s@, i as int),
        i <= r <= s@.len(),
{
    let mut j: usize = i;
    while j < s.len() && s[j] != 0x0a
        invariant
            i <= j <= s@.len(),
            line_end(s@, i as int) == line_end(s@, j as int),
        decreases s@.len() - j,
    {
        j = j + 1;
    }
    j
}

/// Reassembles the full response text from a streamed body: splits it into
/// newline-delimited units, decodes each in arrival order and concatenates
/// the extracted text. One malformed unit fails the whole response.
#[verifier::loop_isolation(false)]
pub fn reassemble_stream(stream: &Vec<u8>) -> (r: Result<Vec<u8>, Failure>)
    ensures
        (r matches Ok(t) ==> stream_text(stream@, 0) == Some(t@)),
        (r matches Err(f) ==> f == Failure::MalformedChunk && stream_text(stream@, 0) is None),
{
    let mut acc: Vec<u8> = Vec::new();
    proof {
        assert forall|t: Seq<u8>| #[trigger] (acc@ + t) == t by {
            assert(acc@ + t =~= t);
        }
    }
    let mut cur: usize = 0;
    loop
        invariant
            cur <= stream@.len(),
            (stream_text(stream@, cur as int) matches Some(rest) ==> stream_text(stream@, 0)
                == Some(acc@ + rest)),
            (stream_text(stream@, cur as int) is None ==> stream_text(stream@, 0) is None),
        decreases stream@.len() - cur,
    {
        if cur >= stream.len() {
            assert(acc@ + Seq::<u8>::empty() =~= acc@);
            return Ok(acc);
        }
        let e = line_end_x(stream, cur);
        let line = crate::json::copy_range(stream, cur, e);
        if line.len() == 0 {
            cur = e + 1;
        } else {
            match decode_unit(&line) {
                Err(f) => {
                    return Err(f);
                },
                Ok(t) => {
                    let ghost old_acc = acc@;
                    push_bytes(&mut acc, &t);
                    proof {
                        match stream_text(stream@, e + 1) {
                            Some(rest) => {
                                assert(old_acc + (t@ + rest) =~= acc@ + rest);
                            },
                            None => {},
                        }
                    }
                    if e >= stream.len() {
                        assert(acc@ + Seq::<u8>::empty() =~= acc@);
                        return Ok(acc);
                    }
                    cur = e + 1;
                },
            }
        }
    }
}


/// A well-formed URL for this vendor: an `https` scheme with a nonempty
/// remainder.
pub open spec fn is_https_url(u: Seq<char>) -> bool {
    u.len() > 8 && u.subrange(0, 8) == "https://"@
}

/// Endpoint law: every supported model resolves to a well-formed URL
/// whenever resolution succeeds; resolution fails only for the
/// managed-cloud deployment without a project identifier; and every
/// model's rate limit is positive.
pub proof fn lemma_endpoints_wf(m: GoogleModels, region: Option<Seq<char>>, project: Option<
    Seq<char>,
>)
    ensures
        endpoint_of(m, region, project) matches Ok(u) ==> is_https_url(u),
        endpoint_of(m, region, project) is Err ==> m == GoogleModels::GeminiProVertex
            && project is None,
        google_rate_limit(m).wf(),
{
    reveal_strlit("https://");
    reveal_strlit(
        "https://generativelanguage.googleapis.com/v1beta/models/gemini-pro:streamGenerateContent",
    );
    reveal_strlit("-aiplatform.googleapis.com/v1/projects/");
    match m {
        GoogleModels::GeminiPro => {
            assert(gemini_url().subrange(0, 8) =~= "https://"@);
        },
        GoogleModels::GeminiProVertex => {
            match project {
                None => {},
                Some(p) => {
                    let u = vertex_url(region_or_default(region), p);
                    assert(u.subrange(0, 8) =~= "https://"@);
                },
            }
        },
    }
}

/// Body-building law: the body is a function of the request inputs alone,
/// so equal inputs serialize to byte-identical vendor bodies.
pub proof fn lemma_build_body_deterministic(
    i1: Seq<u8>,
    s1: JsonV,
    f1: bool,
    t1: u32,
    i2: Seq<u8>,
    s2: JsonV,
    f2: bool,
    t2: u32,
)
    requires
        i1 == i2,
        s1 == s2,
        f1 == f2,
        t1 == t2,
    ensures
        ser(body_of(i1, s1, f1, t1)) == ser(body_of(i2, s2, f2, t2)),
{
}

/// Three-part law: every built body carries exactly three message parts,
/// in the fixed order base instructions, schema rendering, caller
/// instructions, each as its own part.
pub proof fn lemma_body_three_parts(instr: Seq<u8>, schema: JsonV, function_call: bool, temp: u32)
    ensures
        ({
            let parts = body_of(instr, schema, function_call, temp)->Obj_0[0].1->Obj_0[1].1->Arr_0;
            &&& parts.len() == 3
            &&& parts[0] == text_part_v(base_instr(function_call))
            &&& parts[1] == text_part_v(schema_note() + ser(schema))
            &&& parts[2] == text_part_v(instr)
        }),
{
}

/// Role-filter law: a shape-conformant candidate whose role is not the
/// model role contributes no characters to the reassembled text.
pub proof fn lemma_non_model_candidate(fields: Seq<(Seq<u8>, JsonV)>)
    requires
        cand_text(JsonV::Obj(fields)) is Some,
        ({
            let content = crate::extract::lookup(fields, "content".spec_bytes());
            content matches Some(JsonV::Obj(cf)) && crate::extract::lookup(
                cf,
                "role".spec_bytes(),
            ) != Some(JsonV::Str("model".spec_bytes()))
        }),
    ensures
        cand_text(JsonV::Obj(fields)) == Some(Seq::<u8>::empty()),
{
}

/// Order law: reassembled text is the concatenation of each candidate's
/// contribution in arrival order.
pub proof fn lemma_cands_in_order(cs: Seq<JsonV>, k: int)
    requires
        0 <= k < cs.len(),
        cands_text(cs, k) is Some,
    ensures
        cand_text(cs[k]) is Some,
        cands_text(cs, k + 1) is Some,
        cands_text(cs, k)->Some_0 == cand_text(cs[k])->Some_0 + cands_text(cs, k + 1)->Some_0,
{
}


/// A run of non-newline bytes bounded by a newline or the end delimits a
/// line exactly.
proof fn lemma_line_end_region(s: Seq<u8>, i: int, m: int)
    requires
        0 <= i,
        0 <= m,
        i + m <= s.len(),
        forall|k: int| 0 <= k < m ==> #[trigger] s[i + k] != 0x0a,
        i + m == s.len() || s[i + m] == 0x0a,
    ensures
        line_end(s, i) == i + m,
    decreases m,
{
    if m == 0 {
    } else {
        assert(s[i + 0] != 0x0a);
        assert forall|k: int| 0 <= k < m - 1 implies #[trigger] s[i + 1 + k] != 0x0a by {
            assert(s[i + (k + 1)] != 0x0a);
        }
        lemma_line_end_region(s, i + 1, m - 1);
    }
}

proof fn lemma_line_end_bounds(s: Seq<u8>, i: int)
    requires
        0 <= i <= s.len(),
    ensures
        i <= line_end(s, i) <= s.len(),
    decreases s.len() - i,
{
    if i < s.len() && s[i] != 0x0a {
        lemma_line_end_bounds(s, i + 1);
    }
}

proof fn lemma_line_end_shift(pre: Seq<u8>, rest: Seq<u8>, i: int)
    requires
        0 <= i <= rest.len(),
    ensures
        line_end(pre + rest, pre.len() + i) == pre.len() + line_end(rest, i),
    decreases rest.len() - i,
{
    let s = pre + rest;
    let p = pre.len() as int;
    if i < rest.len() && rest[i] != 0x0a {
        assert(s[p + i] == rest[i]);
        lemma_line_end_shift(pre, rest, i + 1);
    } else {
        if i < rest.len() {
            assert(s[p + i] == rest[i]);
        }
    }
}

/// The decoded text of a stream depends only on what lies at and after the
/// position read.
proof fn lemma_stream_shift(pre: Seq<u8>, rest: Seq<u8>, i: int)
    requires
        0 <= i <= rest.len(),
    ensures
        stream_text(pre + rest, pre.len() + i) == stream_text(rest, i),
    decreases rest.len() - i + 1,
{
    let s = pre + rest;
    let p = pre.len() as int;
    if i < rest.len() {
        lemma_line_end_shift(pre, rest, i);
        let e = line_end(rest, i);
        lemma_line_end_bounds(rest, i);
        assert(s.subrange(p + i, p + e) =~= rest.subrange(i, e));
        if e < rest.len() {
            lemma_stream_shift(pre, rest, e + 1);
        } else {
            assert(stream_text(rest, e + 1) == Some(Seq::<u8>::empty()));
            assert(stream_text(s, p + e + 1) == Some(Seq::<u8>::empty()));
        }
    }
}

/// Arrival-order law: a stream that begins with one complete framed unit
/// yields that unit's text followed by the text of the remaining stream —
/// so the concatenation order of extracted text equals unit arrival order.
pub proof fn lemma_stream_order(u: Seq<u8>, rest: Seq<u8>)
    requires
        u.len() > 0,
        forall|k: int| 0 <= k < u.len() ==> #[trigger] u[k] != 0x0a,
    ensures
        stream_text(u + seq![0x0au8] + rest, 0) == (match decode_unit_s(u) {
            Some(t) => match stream_text(rest, 0) {
                Some(r2) => Some(t + r2),
                None => None::<Seq<u8>>,
            },
            None => None::<Seq<u8>>,
        }),
{
    let s = u + seq![0x0au8] + rest;
    assert(forall|k: int| 0 <= k < u.len() ==> s[0 + k] == u[k]);
    assert forall|k: int| 0 <= k < u.len() implies #[trigger] s[0 + k] != 0x0a by {
        assert(s[0 + k] == u[k]);
    }
    assert(s[u.len() as int] == 0x0a);
    lemma_line_end_region(s, 0, u.len() as int);
    assert(s.subrange(0, u.len() as int) =~= u);
    assert(s =~= (u + seq![0x0au8]) + rest);
    lemma_stream_shift(u + seq![0x0au8], rest, 0);
}

} // verus!
