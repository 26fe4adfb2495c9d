//! The model path through OpenRouter, as the decisions between the host
//! calls: where the API key lives, what request to send, how to read the
//! reply, and which brief comes out of it.

use vstd::prelude::*;
use vstd::utf8::{decode_utf8, valid_utf8};
use crate::brief::{opt_view, strings_view, ForecastBrief, ForecastInput};
use crate::forecast::{brief_from_parsed, common_meta, fallback_brief, input_chars, is_fallback_brief, LLM_MODEL};
use crate::json::{as_str, field, field_of, get_field, get_item, item, json_from_slice, spec_json_from_slice, Json, JsonValue};
use crate::number::{decimal_string, spec_decimal};
use crate::reply::{parse_brief, reply_estimate, reply_object, reply_probability_source, reply_sources, text_field};
use crate::text::{chars_of, concat, spec_strip_code_fences, string_from_chars};

verus! {

/// The chat-completions endpoint.
pub const OPENROUTER_URL: &'static str = "https://openrouter.ai/api/v1/chat/completions";

/// The entry of the tenant's secrets map that holds the API key.
pub const API_KEY_ENTRY: &'static str = "llm_api_key";

/// Token budget of a reply.
pub const MAX_TOKENS: u32 = 900;

/// The instructions given to the model.
pub const SYSTEM_PROMPT: &'static str = "You are Superforecaster, an expert judgmental forecaster. Given a forecasting question and context, produce a calibrated forecast. Respond with ONLY a JSON object, no markdown, no prose outside it, with exactly these keys: \"summary\" (1-2 sentences), \"probability_estimate\" (number in [0,1]), \"reasoning\" (3-6 sentences: base rates, evidence, key uncertainties), \"sources\" (array of source names or URLs you rely on; empty array if none).";

/// Lowercase hexadecimal digit.
pub open spec fn hex_digit(d: nat) -> char {
    if d < 10 {
        ((d + 48) as u32) as char
    } else {
        ((d + 87) as u32) as char
    }
}

/// Lowercase hexadecimal encoding: two digits per byte, high nibble first.
pub open spec fn spec_hex(b: Seq<u8>) -> Seq<char>
    decreases b.len(),
{
    if b.len() == 0 {
        Seq::empty()
    } else {
        spec_hex(b.drop_last()) + seq![hex_digit((b.last() / 16) as nat), hex_digit((b.last() % 16) as nat)]
    }
}

/// `hex::encode`: lowercase hex, each byte as two digits, high nibble
/// first (as the crate documents and its lookup table shows).
#[verifier::external_body]
fn hex_encode(data: &[u8]) -> (s: String)
    ensures
        s@ == spec_hex(data@),
{
    hex::encode(data)
}

/// The name of the tenant's secrets map.
pub open spec fn spec_secrets_map_name(tenant_did: Seq<u8>) -> Seq<char> {
    "z:"@ + spec_hex(tenant_did) + ":secrets"@
}

/// The name of the KV map that holds the tenant's secrets:
/// `z:<hex of the tenant DID>:secrets`.
pub fn secrets_map_name(tenant_did: &[u8]) -> (s: String)
    ensures
        s@ == spec_secrets_map_name(tenant_did@),
{
    let mut s = concat("z:", hex_encode(tenant_did).as_str());
    s.append(":secrets");
    s
}

/// The text `String::from_utf8` reports for an invalid byte string.
pub uninterp spec fn spec_utf8_error_text(b: Seq<u8>) -> Seq<char>;

/// `String::from_utf8`, with the error displayed: succeeds exactly on valid
/// UTF-8, with the decoded text (as its documentation states); the error
/// text is only claimed to be a fixed function of the bytes.
#[verifier::external_body]
fn string_from_utf8(b: Vec<u8>) -> (r: Result<String, String>)
    ensures
        r is Ok <==> valid_utf8(b@),
        r matches Ok(s) ==> s@ == decode_utf8(b@),
        r matches Err(e) ==> e@ == spec_utf8_error_text(b@),
{
    String::from_utf8(b).map_err(|e| e.to_string())
}

/// The error when the secrets map has no API key.
pub open spec fn missing_key_error() -> Seq<char> {
    "llm_api_key not found in z:<tid>:secrets \u{2014} seed it via map-entry-set"@
}

/// The API key out of the KV read of the secrets map: a read error is
/// prefixed, a missing entry and invalid UTF-8 are errors.
pub fn api_key_from_kv(read: Result<Option<Vec<u8>>, String>) -> (r: Result<String, String>)
    ensures
        read matches Err(e) ==> r matches Err(m) && m@ == "kv read: "@ + e@,
        read matches Ok(None) ==> r matches Err(m) && m@ == missing_key_error(),
        read matches Ok(Some(b)) ==> (r is Ok <==> valid_utf8(b@)),
        read matches Ok(Some(b)) ==> (r matches Ok(k) ==> k@ == decode_utf8(b@)),
        read matches Ok(Some(b)) ==> (r matches Err(m) ==> m@ == spec_utf8_error_text(b@)),
{
    match read {
        Err(e) => Err(concat("kv read: ", e.as_str())),
        Ok(None) => Err(
            "llm_api_key not found in z:<tid>:secrets \u{2014} seed it via map-entry-set".to_owned(),
        ),
        Ok(Some(b)) => string_from_utf8(b),
    }
}

/// The headers of an OpenRouter call (the host sets `Content-Type`).
pub open spec fn spec_openrouter_headers(api_key: Seq<char>) -> Seq<(Seq<char>, Seq<char>)> {
    seq![
        ("Authorization"@, "Bearer "@ + api_key),
        ("Accept"@, "application/json"@),
        ("HTTP-Referer"@, "https://t3n.forecast-brief-agent"@),
        ("X-Title"@, "forecast-contract"@),
    ]
}

/// The views of a list of headers.
pub open spec fn headers_view(h: Seq<(String, String)>) -> Seq<(Seq<char>, Seq<char>)> {
    h.map_values(|p: (String, String)| (p.0@, p.1@))
}

/// The headers of an OpenRouter call: bearer authorization, JSON accept and
/// the attribution headers.
pub fn openrouter_headers(api_key: &str) -> (h: Vec<(String, String)>)
    ensures
        headers_view(h@) == spec_openrouter_headers(api_key@),
{
    let h = vec![
        ("Authorization".to_owned(), concat("Bearer ", api_key)),
        ("Accept".to_owned(), "application/json".to_owned()),
        ("HTTP-Referer".to_owned(), "https://t3n.forecast-brief-agent".to_owned()),
        ("X-Title".to_owned(), "forecast-contract".to_owned()),
    ];
    proof {
        assert(headers_view(h@) =~= spec_openrouter_headers(api_key@));
    }
    h
}

/// An OpenRouter chat-completions call, all but its float temperature.
#[derive(Debug, Clone)]
pub struct OpenRouterRequest {
    pub url: String,
    pub model: String,
    pub system_prompt: String,
    pub user_prompt: String,
    pub max_tokens: u32,
    pub headers: Vec<(String, String)>,
}

/// The model a request asks for: its own, else the default.
pub open spec fn requested_model(req: ForecastInput) -> Seq<char> {
    match req.model {
        Some(m) => m@,
        None => LLM_MODEL@,
    }
}

/// The user message of a request.
pub open spec fn spec_user_prompt(req: ForecastInput) -> Seq<char> {
    "Question: "@ + req.question@ + "\n\nContext: "@ + req.context@
        + "\n\nProduce the JSON forecast brief now."@
}

/// The call to make for `req` with API key `api_key`.
pub fn openrouter_request(req: &ForecastInput, api_key: &str) -> (c: OpenRouterRequest)
    ensures
        c.url@ == OPENROUTER_URL@,
        c.model@ == requested_model(*req),
        c.system_prompt@ == SYSTEM_PROMPT@,
        c.user_prompt@ == spec_user_prompt(*req),
        c.max_tokens == MAX_TOKENS,
        headers_view(c.headers@) == spec_openrouter_headers(api_key@),
{
    let model = match &req.model {
        Some(m) => m.clone(),
        None => LLM_MODEL.to_owned(),
    };
    let mut user_prompt = concat("Question: ", req.question.as_str());
    user_prompt.append("\n\nContext: ");
    user_prompt.append(req.context.as_str());
    user_prompt.append("\n\nProduce the JSON forecast brief now.");
    OpenRouterRequest {
        url: OPENROUTER_URL.to_owned(),
        model,
        system_prompt: SYSTEM_PROMPT.to_owned(),
        user_prompt,
        max_tokens: MAX_TOKENS,
        headers: openrouter_headers(api_key),
    }
}

/// What `String::from_utf8_lossy` makes of a byte string.
pub uninterp spec fn spec_utf8_lossy(b: Seq<u8>) -> Seq<char>;

/// `String::from_utf8_lossy`: valid UTF-8 decodes unchanged (as documented);
/// otherwise the text (with U+FFFD replacements) is only claimed to be a
/// fixed function of the bytes.
#[verifier::external_body]
fn utf8_lossy(b: &[u8]) -> (s: String)
    ensures
        s@ == spec_utf8_lossy(b@),
        valid_utf8(b@) ==> s@ == decode_utf8(b@),
{
    String::from_utf8_lossy(b).into_owned()
}

/// The first `n` characters of `s` (all of it when shorter).
pub open spec fn take_chars(s: Seq<char>, n: nat) -> Seq<char> {
    if s.len() <= n {
        s
    } else {
        s.take(n as int)
    }
}

/// The error of a non-200 answer with body text `body`: the status and
/// the first 400 characters of the body.
pub open spec fn status_error_text(code: u16, body: Seq<char>) -> Seq<char> {
    "openrouter HTTP "@ + spec_decimal(code as nat) + ": "@ + take_chars(body, 400)
}

/// The error of a non-200 answer, its body decoded leniently.
pub open spec fn http_status_error(code: u16, payload: Seq<u8>) -> Seq<char> {
    status_error_text(code, spec_utf8_lossy(payload))
}

/// `json["choices"][0]["message"]["content"]` as a string.
pub open spec fn reply_content(json: Json) -> Option<Seq<char>> {
    as_str(field_of(field_of(item(field(json, "choices"@), 0), "message"@), "content"@))
}

/// The model that answered (the requested one when the answer does not
/// say) and the text it answered, out of the JSON of an OpenRouter answer.
pub open spec fn spec_reply_from_json(requested: Seq<char>, json: Json) -> Result<
    (Seq<char>, Seq<char>),
    Seq<char>,
> {
    match reply_content(json) {
        None => Err("openrouter: no choices[0].message.content"@),
        Some(content) => Ok(
            (
                match as_str(field(json, "model"@)) {
                    Some(m) => m,
                    None => requested,
                },
                content,
            ),
        ),
    }
}

/// The view of a (model, content) outcome.
pub open spec fn reply_outcome_view(r: Result<(String, String), String>) -> Result<
    (Seq<char>, Seq<char>),
    Seq<char>,
> {
    match r {
        Ok((m, c)) => Ok((m@, c@)),
        Err(e) => Err(e@),
    }
}

/// The model that answered and the text it answered, out of an OpenRouter
/// answer with status `code` and body `payload`.
pub open spec fn spec_read_reply(requested: Seq<char>, code: u16, payload: Seq<u8>) -> Result<
    (Seq<char>, Seq<char>),
    Seq<char>,
> {
    if code != 200 {
        Err(http_status_error(code, payload))
    } else {
        match spec_json_from_slice(payload) {
            Err(e) => Err("openrouter response parse: "@ + e),
            Ok(json) => spec_reply_from_json(requested, json),
        }
    }
}

fn take_chars_exec(s: &str, n: usize) -> (r: String)
    ensures
        r@ == take_chars(s@, n as nat),
{
    let cs = chars_of(s);
    if cs.len() <= n {
        return s.to_owned();
    }
    let mut out: Vec<char> = Vec::new();
    let mut i: usize = 0;
    while i < n
        invariant
            i <= n < cs@.len(),
            out@ == cs@.take(i as int),
        decreases n - i,
    {
        out.push(cs[i]);
        proof {
            assert(out@ =~= cs@.take(i + 1));
        }
        i = i + 1;
    }
    string_from_chars(out.as_slice())
}

/// The error message of a non-200 answer whose body reads as `body`.
pub fn status_error(code: u16, body: &str) -> (m: String)
    ensures
        m@ == status_error_text(code, body@),
{
    let mut msg = concat("openrouter HTTP ", decimal_string(code as u64).as_str());
    msg.append(": ");
    msg.append(take_chars_exec(body, 400).as_str());
    msg
}

/// The answering model and the reply text out of the JSON of an OpenRouter
/// answer to a call for model `requested`.
pub fn reply_from_json(requested: &str, json: &JsonValue) -> (r: Result<(String, String), String>)
    ensures
        reply_outcome_view(r) == spec_reply_from_json(requested@, json@),
{
    let used_model = match get_field(json, "model") {
        Some(JsonValue::Str(m)) => m.clone(),
        _ => requested.to_owned(),
    };
    let choice = get_item(get_field(json, "choices"), 0);
    let message = match choice {
        Some(c) => get_field(c, "message"),
        None => None,
    };
    let content = match message {
        Some(m) => get_field(m, "content"),
        None => None,
    };
    match content {
        Some(JsonValue::Str(c)) => Ok((used_model, c.clone())),
        _ => Err("openrouter: no choices[0].message.content".to_owned()),
    }
}

/// The answering model and the reply text out of an OpenRouter answer with
/// status `code` and body `payload`.
pub fn read_openrouter_reply(requested: &str, code: u16, payload: &[u8]) -> (r: Result<
    (String, String),
    String,
>)
    ensures
        reply_outcome_view(r) == spec_read_reply(requested@, code, payload@),
        code != 200 && valid_utf8(payload@) ==> (r matches Err(e) && e@ == status_error_text(
            code,
            decode_utf8(payload@),
        )),
{
    if code != 200 {
        let text = utf8_lossy(payload);
        return Err(status_error(code, text.as_str()));
    }
    match json_from_slice(payload) {
        Ok(json) => reply_from_json(requested, &json),
        Err(e) => Err(concat("openrouter response parse: ", e.as_str())),
    }
}

/// `b` is the brief of request `req` built from a reply `content` whose
/// JSON object is `v`, answered by `model`.
pub open spec fn brief_from_reply_text(
    b: ForecastBrief,
    req: ForecastInput,
    model: Seq<char>,
    v: Json,
    content: Seq<char>,
) -> bool {
    let cleaned = spec_strip_code_fences(content);
    &&& b.summary@ == text_field(v, "summary"@, 280, cleaned, 200)
    &&& b.probability_estimate@ == reply_estimate(v, content)
    &&& b.reasoning@ == text_field(v, "reasoning"@, 2500, cleaned, 1500)
    &&& strings_view(b.sources_placeholder@) == reply_sources(v)
    &&& common_meta(b.meta, req)
    &&& b.meta.phase@ == "2-llm-in-tee"@
    &&& !b.meta.placeholder
    &&& opt_view(b.meta.model) == Some(model)
    &&& opt_view(b.meta.probability_source) == Some(reply_probability_source(v, content))
    &&& b.meta.llm_error is None
}

/// The brief out of an OpenRouter answer (status `code`, body `payload`)
/// to the request `req`, which asked for model `requested`; the reason
/// when the answer yields no brief.
pub fn brief_from_reply(req: &ForecastInput, requested: &str, code: u16, payload: &[u8]) -> (r:
    Result<ForecastBrief, String>)
    requires
        input_chars(*req) <= usize::MAX,
    ensures
        spec_read_reply(requested@, code, payload@) matches Err(e) ==> r matches Err(x) && x@
            == e,
        code != 200 && valid_utf8(payload@) ==> (r matches Err(x) && x@ == status_error_text(
            code,
            decode_utf8(payload@),
        )),
        spec_read_reply(requested@, code, payload@) matches Ok((m, c)) ==> {
            &&& reply_object(c) is None ==> (r matches Err(x) && x@
                == "LLM reply contains no JSON object"@)
            &&& reply_object(c) matches Some(v) ==> (r matches Ok(b) && brief_from_reply_text(
                b,
                *req,
                m,
                v,
                c,
            ))
        },
{
    let (model, content) = read_openrouter_reply(requested, code, payload)?;
    let parsed = parse_brief(content.as_str())?;
    Ok(brief_from_parsed(req, model, parsed))
}

/// The brief the model path ends with: the built brief, or the fallback
/// brief carrying the error.
pub fn settle(req: &ForecastInput, outcome: Result<ForecastBrief, String>) -> (b: ForecastBrief)
    requires
        input_chars(*req) <= usize::MAX,
    ensures
        outcome matches Ok(x) ==> b == x,
        outcome matches Err(e) ==> is_fallback_brief(b, *req, e@),
{
    match outcome {
        Ok(b) => b,
        Err(e) => fallback_brief(req, e.as_str()),
    }
}

/// The OpenRouter call never sets `Content-Type` itself (the host sets it,
/// and a second one would be duplicated): no header is named so.
pub proof fn lemma_headers_omit_content_type(api_key: Seq<char>)
    ensures
        forall|i: int|
            0 <= i < spec_openrouter_headers(api_key).len() ==> #[trigger] spec_openrouter_headers(
                api_key,
            )[i].0 != "Content-Type"@,
{
    reveal_strlit("Content-Type");
    reveal_strlit("Authorization");
    reveal_strlit("Accept");
    reveal_strlit("HTTP-Referer");
    reveal_strlit("X-Title");
    let h = spec_openrouter_headers(api_key);
    assert(h[0].0.len() != "Content-Type"@.len());
    assert(h[1].0.len() != "Content-Type"@.len());
    assert(h[2].0[0] != "Content-Type"@[0]);
    assert(h[3].0.len() != "Content-Type"@.len());
}

/// The user message carries the request's question and its whole context,
/// whatever their lengths: it is 59 characters of fixed text around them,
/// with the question right after the opening `Question: ` and the context
/// right after the question and `\n\nContext: `.
pub proof fn lemma_user_prompt_holds_whole_input(req: ForecastInput)
    ensures
        spec_user_prompt(req).len() == req.question@.len() + req.context@.len() + 59,
        spec_user_prompt(req).subrange(10, 10 + req.question@.len() as int) == req.question@,
        spec_user_prompt(req).subrange(
            21 + req.question@.len() as int,
            21 + req.question@.len() + req.context@.len() as int,
        ) == req.context@,
{
    reveal_strlit("Question: ");
    reveal_strlit("\n\nContext: ");
    reveal_strlit("\n\nProduce the JSON forecast brief now.");
    let q = req.question@;
    let c = req.context@;
    let p = spec_user_prompt(req);
    let a = "Question: "@ + q;
    let b = a + "\n\nContext: "@;
    let d = b + c;
    assert(p == d + "\n\nProduce the JSON forecast brief now."@);
    assert(p.subrange(10, 10 + q.len() as int) =~= q);
    assert(p.subrange(21 + q.len() as int, 21 + q.len() + c.len() as int) =~= c);
}

} // verus!
