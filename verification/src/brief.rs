//! The data of a forecast: the request, the brief and its metadata, and how
//! the brief's probability is to be obtained.

use vstd::prelude::*;

verus! {

/// A forecasting request: the question, its context, an accepted but unused
/// `llm_key_placeholder`, and the model to ask (the default when absent).
#[derive(Debug, Clone)]
pub struct ForecastInput {
    pub question: String,
    pub context: String,
    pub llm_key_placeholder: Option<String>,
    pub model: Option<String>,
}

/// Where a brief's probability comes from; the number itself is computed
/// from this at the edge, in floating point.
#[derive(Debug, Clone, PartialEq, Eq)]
pub enum Estimate {
    /// Deterministic placeholder: `0.05 + bucket / 1000 * 0.90`, rounded to
    /// three decimals, where `bucket` is the seed modulo 1000.
    Bucket(u64),
    /// The neutral default 0.5.
    Half,
    /// A JSON number in the model's reply (printed text), to normalize.
    JsonNumber(String),
    /// A float literal taken from a JSON string such as `"55%"`, to
    /// normalize.
    JsonPercent(String),
    /// The digits of an `NN%` figure found in the reply's text, read as a
    /// percentage.
    TextPercent(String),
}

/// The view of an estimate.
pub enum EstimateView {
    Bucket(u64),
    Half,
    JsonNumber(Seq<char>),
    JsonPercent(Seq<char>),
    TextPercent(Seq<char>),
}

impl View for Estimate {
    type V = EstimateView;

    open spec fn view(&self) -> EstimateView {
        match self {
            Estimate::Bucket(b) => EstimateView::Bucket(*b),
            Estimate::Half => EstimateView::Half,
            Estimate::JsonNumber(t) => EstimateView::JsonNumber(t@),
            Estimate::JsonPercent(t) => EstimateView::JsonPercent(t@),
            Estimate::TextPercent(t) => EstimateView::TextPercent(t@),
        }
    }
}

/// Traceability data attached to every brief.
#[derive(Debug, Clone)]
pub struct BriefMeta {
    pub contract_version: String,
    pub phase: String,
    pub placeholder: bool,
    pub input_chars: usize,
    pub deterministic_seed: u64,
    pub model: Option<String>,
    pub probability_source: Option<String>,
    pub llm_error: Option<String>,
}

/// A forecast brief.
#[derive(Debug, Clone)]
pub struct ForecastBrief {
    pub summary: String,
    /// How the probability in [0, 1] is obtained.
    pub probability_estimate: Estimate,
    pub reasoning: String,
    /// Sources cited by the model.
    pub sources_placeholder: Vec<String>,
    pub meta: BriefMeta,
}

/// The views of a list of strings.
pub open spec fn strings_view(v: Seq<String>) -> Seq<Seq<char>> {
    v.map_values(|s: String| s@)
}

/// The view of an optional string.
pub open spec fn opt_view(o: Option<String>) -> Option<Seq<char>> {
    match o {
        Some(s) => Some(s@),
        None => None,
    }
}

} // verus!
