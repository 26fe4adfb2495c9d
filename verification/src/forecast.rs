//! Assembling briefs: the deterministic placeholder, the brief built from a
//! model's reply, and the fallback brief when the model path fails.

use vstd::prelude::*;
use vstd::utf8::encode_utf8;
use crate::brief::{opt_view, strings_view, BriefMeta, Estimate, EstimateView, ForecastBrief, ForecastInput};
use crate::hash::{fnv1a, spec_fnv1a};
use crate::number::{decimal_string, spec_decimal};
use crate::reply::ParsedBrief;
use crate::text::{chars_of, concat, spec_truncate, trim, trim_str, truncate};
use crate::CONTRACT_VERSION;

verus! {

/// The model asked when the request names none.
pub const LLM_MODEL: &'static str = "openai/gpt-4o-mini";

/// Total characters of a request's question and context.
pub open spec fn input_chars(req: ForecastInput) -> nat {
    req.question@.len() + req.context@.len()
}

/// The deterministic seed of a request: FNV-1a of its question's UTF-8
/// bytes.
pub open spec fn request_seed(req: ForecastInput) -> u64 {
    spec_fnv1a(encode_utf8(req.question@))
}

/// Metadata every brief of `req` carries: the contract version, the input
/// size and the seed.
pub open spec fn common_meta(m: BriefMeta, req: ForecastInput) -> bool {
    &&& m.contract_version@ == CONTRACT_VERSION@
    &&& m.input_chars == input_chars(req)
    &&& m.deterministic_seed == request_seed(req)
}

/// The question's character count, its context's, and the seed.
fn request_stats(req: &ForecastInput) -> (r: (usize, usize, u64))
    ensures
        r.0 == req.question@.len(),
        r.1 == req.context@.len(),
        r.2 == request_seed(*req),
{
    let q = chars_of(req.question.as_str());
    let c = chars_of(req.context.as_str());
    let seed = fnv1a(req.question.as_str().as_bytes());
    (q.len(), c.len(), seed)
}

/// Whether the request's question is blank (empty or whitespace only).
pub fn question_is_blank(req: &ForecastInput) -> (b: bool)
    ensures
        b == (trim(req.question@).len() == 0),
{
    trim_str(req.question.as_str()).is_empty()
}

/// The error a blank question gets.
pub open spec fn blank_question_error() -> Seq<char> {
    "forecast: `question` must be a non-empty string"@
}

/// Rejects a request whose question is blank.
pub fn validate_request(req: &ForecastInput) -> (r: Result<(), String>)
    ensures
        r is Err <==> trim(req.question@).len() == 0,
        r matches Err(e) ==> e@ == blank_question_error(),
{
    if question_is_blank(req) {
        return Err("forecast: `question` must be a non-empty string".to_owned());
    }
    Ok(())
}

/// Whether the request's character count fits in a `usize` (the size the
/// briefs report).
pub fn input_chars_fit(req: &ForecastInput) -> (b: bool)
    ensures
        b == (input_chars(*req) <= usize::MAX),
{
    let (ql, cl, _) = request_stats(req);
    ql <= usize::MAX - cl
}

/// The placeholder brief's reasoning text.
pub open spec fn placeholder_reasoning(q: nat, c: nat) -> Seq<char> {
    "[PLACEHOLDER \u{2014} no LLM call in native tests] Inputs received: question ("@
        + spec_decimal(q) + " chars) + context ("@ + spec_decimal(c) + " chars)."@
}

/// `b` is the placeholder brief of `req`.
pub open spec fn is_placeholder_brief(b: ForecastBrief, req: ForecastInput) -> bool {
    &&& b.summary@ == "[PLACEHOLDER] Preliminary brief for: "@ + spec_truncate(req.question@, 120)
    &&& b.probability_estimate@ == EstimateView::Bucket((request_seed(req) % 1000) as u64)
    &&& b.reasoning@ == placeholder_reasoning(req.question@.len(), req.context@.len())
    &&& b.sources_placeholder@.len() == 0
    &&& common_meta(b.meta, req)
    &&& b.meta.phase@ == "1-skeleton"@
    &&& b.meta.placeholder
    &&& b.meta.model is None
    &&& opt_view(b.meta.probability_source) == Some("fnv-placeholder"@)
    &&& b.meta.llm_error is None
}

/// The deterministic placeholder brief of a request (no model call): its
/// probability comes from the seed, its texts echo the input.
pub fn placeholder_brief(req: &ForecastInput) -> (b: ForecastBrief)
    requires
        input_chars(*req) <= usize::MAX,
    ensures
        is_placeholder_brief(b, *req),
{
    let (ql, cl, seed) = request_stats(req);
    let summary = concat(
        "[PLACEHOLDER] Preliminary brief for: ",
        truncate(req.question.as_str(), 120).as_str(),
    );
    let mut reasoning = concat(
        "[PLACEHOLDER \u{2014} no LLM call in native tests] Inputs received: question (",
        decimal_string(ql as u64).as_str(),
    );
    reasoning.append(" chars) + context (");
    reasoning.append(decimal_string(cl as u64).as_str());
    reasoning.append(" chars).");
    ForecastBrief {
        summary,
        probability_estimate: Estimate::Bucket(seed % 1000),
        reasoning,
        sources_placeholder: Vec::new(),
        meta: BriefMeta {
            contract_version: CONTRACT_VERSION.to_owned(),
            phase: "1-skeleton".to_owned(),
            placeholder: true,
            input_chars: ql + cl,
            deterministic_seed: seed,
            model: None,
            probability_source: Some("fnv-placeholder".to_owned()),
            llm_error: None,
        },
    }
}

/// The placeholder brief is deterministic: two requests with the same
/// question and context get the same texts, estimate and metadata.
pub proof fn lemma_placeholder_deterministic(
    b1: ForecastBrief,
    r1: ForecastInput,
    b2: ForecastBrief,
    r2: ForecastInput,
)
    requires
        is_placeholder_brief(b1, r1),
        is_placeholder_brief(b2, r2),
        r1.question@ == r2.question@,
        r1.context@ == r2.context@,
    ensures
        b1.summary@ == b2.summary@,
        b1.probability_estimate@ == b2.probability_estimate@,
        b1.reasoning@ == b2.reasoning@,
        b1.sources_placeholder@.len() == b2.sources_placeholder@.len() == 0,
        b1.meta.contract_version@ == b2.meta.contract_version@,
        b1.meta.phase@ == b2.meta.phase@,
        b1.meta.input_chars == b2.meta.input_chars,
        b1.meta.deterministic_seed == b2.meta.deterministic_seed,
        opt_view(b1.meta.probability_source) == opt_view(b2.meta.probability_source),
{
}

/// The forecast of a request without a model: rejects a blank question,
/// otherwise gives the placeholder brief.
pub fn native_forecast(req: &ForecastInput) -> (r: Result<ForecastBrief, String>)
    requires
        input_chars(*req) <= usize::MAX,
    ensures
        r is Err <==> trim(req.question@).len() == 0,
        r matches Err(e) ==> e@ == blank_question_error(),
        r matches Ok(b) ==> is_placeholder_brief(b, *req),
{
    validate_request(req)?;
    Ok(placeholder_brief(req))
}

/// The fallback brief's reasoning text for error `err`.
pub open spec fn fallback_reasoning(err: Seq<char>) -> Seq<char> {
    "Fallback brief: the phase-2 LLM call inside the TEE did not complete, so no calibrated estimate is available. Raw error: "@
        + err
}

/// `b` is the fallback brief of `req` for the error `err`.
pub open spec fn is_fallback_brief(b: ForecastBrief, req: ForecastInput, err: Seq<char>) -> bool {
    &&& b.summary@ == "[FALLBACK] the in-TEE LLM call failed: "@ + spec_truncate(err, 160)
    &&& b.probability_estimate@ == EstimateView::Half
    &&& b.reasoning@ == fallback_reasoning(err)
    &&& b.sources_placeholder@.len() == 0
    &&& common_meta(b.meta, req)
    &&& b.meta.phase@ == "2-llm-fallback"@
    &&& b.meta.placeholder
    &&& opt_view(b.meta.model) == Some(LLM_MODEL@)
    &&& opt_view(b.meta.probability_source) == Some("default-0.5"@)
    &&& opt_view(b.meta.llm_error) == Some(spec_truncate(err, 600))
}

/// The brief given when the model path fails with `err`: probability 0.5,
/// marked as a placeholder, carrying the error.
pub fn fallback_brief(req: &ForecastInput, err: &str) -> (b: ForecastBrief)
    requires
        input_chars(*req) <= usize::MAX,
    ensures
        is_fallback_brief(b, *req, err@),
{
    let (ql, cl, seed) = request_stats(req);
    let summary = concat("[FALLBACK] the in-TEE LLM call failed: ", truncate(err, 160).as_str());
    let reasoning = concat(
        "Fallback brief: the phase-2 LLM call inside the TEE did not complete, so no calibrated estimate is available. Raw error: ",
        err,
    );
    ForecastBrief {
        summary,
        probability_estimate: Estimate::Half,
        reasoning,
        sources_placeholder: Vec::new(),
        meta: BriefMeta {
            contract_version: CONTRACT_VERSION.to_owned(),
            phase: "2-llm-fallback".to_owned(),
            placeholder: true,
            input_chars: ql + cl,
            deterministic_seed: seed,
            model: Some(LLM_MODEL.to_owned()),
            probability_source: Some("default-0.5".to_owned()),
            llm_error: Some(truncate(err, 600)),
        },
    }
}

/// The brief built from a parsed model reply, answered by `used_model`.
pub fn brief_from_parsed(req: &ForecastInput, used_model: String, parsed: ParsedBrief) -> (b:
    ForecastBrief)
    requires
        input_chars(*req) <= usize::MAX,
    ensures
        b.summary@ == parsed.summary@,
        b.probability_estimate@ == parsed.probability@,
        b.reasoning@ == parsed.reasoning@,
        strings_view(b.sources_placeholder@) == strings_view(parsed.sources@),
        common_meta(b.meta, *req),
        b.meta.phase@ == "2-llm-in-tee"@,
        !b.meta.placeholder,
        opt_view(b.meta.model) == Some(used_model@),
        opt_view(b.meta.probability_source) == Some(parsed.probability_source@),
        b.meta.llm_error is None,
{
    let (ql, cl, seed) = request_stats(req);
    let source = parsed.probability_source.to_owned();
    ForecastBrief {
        summary: parsed.summary,
        probability_estimate: parsed.probability,
        reasoning: parsed.reasoning,
        sources_placeholder: parsed.sources,
        meta: BriefMeta {
            contract_version: CONTRACT_VERSION.to_owned(),
            phase: "2-llm-in-tee".to_owned(),
            placeholder: false,
            input_chars: ql + cl,
            deterministic_seed: seed,
            model: Some(used_model),
            probability_source: Some(source),
            llm_error: None,
        },
    }
}

} // verus!
