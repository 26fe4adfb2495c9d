use forecast_contract::brief::{Estimate, ForecastInput};
use forecast_contract::forecast::{fallback_brief, native_forecast, placeholder_brief, question_is_blank, LLM_MODEL};
use forecast_contract::hash::fnv1a;
use forecast_contract::CONTRACT_VERSION;

fn input(question: &str, context: &str) -> ForecastInput {
    ForecastInput {
        question: question.to_string(),
        context: context.to_string(),
        llm_key_placeholder: None,
        model: None,
    }
}

#[test]
fn contract_version_is_semver() {
    let parts: Vec<&str> = CONTRACT_VERSION.split('.').collect();
    assert_eq!(parts.len(), 3, "CONTRACT_VERSION must be MAJOR.MINOR.PATCH");
    for part in parts {
        assert!(part.parse::<u32>().is_ok(), "each part must be a number");
    }
}

#[test]
fn forecast_produces_brief_shape() {
    let req = input(
        "Will the Fed cut rates before 2026-12-31?",
        "FOMC minutes hint at one cut; CPI cooling for 3 months.",
    );
    let out = native_forecast(&req).expect("forecast should succeed on valid input");
    assert!(!out.summary.is_empty(), "brief must have summary");
    assert!(matches!(out.probability_estimate, Estimate::Bucket(_)), "brief must have probability_estimate");
    assert!(!out.reasoning.is_empty(), "brief must have reasoning");
    assert!(out.sources_placeholder.is_empty(), "brief must have sources_placeholder");
    assert_eq!(out.meta.contract_version, CONTRACT_VERSION, "brief must have meta");
}

#[test]
fn forecast_rejects_empty_question() {
    let req = input("", "x");
    let out = native_forecast(&req);
    assert!(out.is_err(), "empty question must be rejected");
}

#[test]
fn forecast_rejects_whitespace_question_with_message() {
    let req = input(" \t\u{3000}\n", "x");
    let err = native_forecast(&req).unwrap_err();
    assert_eq!(err, "forecast: `question` must be a non-empty string");
    assert!(question_is_blank(&req));
    assert!(!question_is_blank(&input(" a ", "")));
}

#[test]
fn fnv1a_known_vectors() {
    assert_eq!(fnv1a(b""), 0xcbf29ce484222325);
    assert_eq!(fnv1a(b"a"), 0xaf63dc4c8601ec8c);
    assert_eq!(fnv1a(b"foobar"), 0x85944171f73967e8);
}

#[test]
fn placeholder_brief_fields() {
    let req = input("Will it rain?", "héllo");
    let b = placeholder_brief(&req);
    let seed = fnv1a("Will it rain?".as_bytes());
    assert_eq!(b.summary, "[PLACEHOLDER] Preliminary brief for: Will it rain?");
    assert_eq!(b.probability_estimate, Estimate::Bucket(seed % 1000));
    assert_eq!(
        b.reasoning,
        "[PLACEHOLDER \u{2014} no LLM call in native tests] Inputs received: question (13 chars) + context (5 chars)."
    );
    assert_eq!(b.meta.phase, "1-skeleton");
    assert!(b.meta.placeholder);
    assert_eq!(b.meta.input_chars, 18);
    assert_eq!(b.meta.deterministic_seed, seed);
    assert_eq!(b.meta.model, None);
    assert_eq!(b.meta.probability_source.as_deref(), Some("fnv-placeholder"));
    assert_eq!(b.meta.llm_error, None);
}

#[test]
fn placeholder_summary_truncates_long_question() {
    let q = "q".repeat(130);
    let b = placeholder_brief(&input(&q, ""));
    let expected = format!("[PLACEHOLDER] Preliminary brief for: {}\u{2026}", "q".repeat(120));
    assert_eq!(b.summary, expected);
}

#[test]
fn fallback_brief_carries_error() {
    let req = input("Q?", "ctx");
    let err = "egress_denied";
    let b = fallback_brief(&req, err);
    assert_eq!(b.summary, "[FALLBACK] the in-TEE LLM call failed: egress_denied");
    assert_eq!(b.probability_estimate, Estimate::Half);
    assert_eq!(
        b.reasoning,
        "Fallback brief: the phase-2 LLM call inside the TEE did not complete, so no calibrated estimate is available. Raw error: egress_denied"
    );
    assert_eq!(b.meta.phase, "2-llm-fallback");
    assert!(b.meta.placeholder);
    assert_eq!(b.meta.model.as_deref(), Some(LLM_MODEL));
    assert_eq!(b.meta.probability_source.as_deref(), Some("default-0.5"));
    assert_eq!(b.meta.llm_error.as_deref(), Some("egress_denied"));
    assert_eq!(b.meta.input_chars, 5);
    assert_eq!(b.meta.deterministic_seed, fnv1a(b"Q?"));
}

#[test]
fn fallback_brief_truncates_long_error() {
    let err = "e".repeat(700);
    let b = fallback_brief(&input("Q?", ""), &err);
    assert_eq!(b.meta.llm_error, Some(format!("{}\u{2026}", "e".repeat(600))));
    assert_eq!(b.summary, format!("[FALLBACK] the in-TEE LLM call failed: {}\u{2026}", "e".repeat(160)));
}

#[test]
fn placeholder_brief_is_deterministic() {
    let a = placeholder_brief(&input("Same question", "same context"));
    let mut other = input("Same question", "same context");
    other.model = Some("x/y".to_string());
    let b = placeholder_brief(&other);
    assert_eq!(a.summary, b.summary);
    assert_eq!(a.probability_estimate, b.probability_estimate);
    assert_eq!(a.reasoning, b.reasoning);
    assert_eq!(a.meta.deterministic_seed, b.meta.deterministic_seed);
}
