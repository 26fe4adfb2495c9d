//! Reading a model's reply: the JSON object inside it, and from that the
//! summary, the probability and where it came from, the reasoning and the
//! cited sources.

use vstd::prelude::*;
use vstd::utf8::encode_utf8;
use crate::brief::{strings_view, Estimate, EstimateView};
use crate::json::{field, get_field, items_view, json_from_str, lemma_items_view, spec_json_from_str, Json, JsonValue};
use crate::number::{is_float_literal, is_nan_literal, percent_body, percent_probability};
use crate::scan::{extract_probability_from_text, spec_extract_probability};
use crate::text::{chars_of, spec_strip_code_fences, spec_truncate, strip_code_fences, trim, trim_str, truncate};

verus! {

/// Index of the first `c` in `s` at or after `i`.
pub open spec fn index_from(s: Seq<char>, c: char, i: int) -> Option<int>
    decreases s.len() - i,
{
    if i < 0 || i >= s.len() {
        None
    } else if s[i] == c {
        Some(i)
    } else {
        index_from(s, c, i + 1)
    }
}

/// Index of the last `c` in `s` before `j`.
pub open spec fn rindex_before(s: Seq<char>, c: char, j: int) -> Option<int>
    decreases j,
{
    if j <= 0 || j > s.len() {
        None
    } else if s[j - 1] == c {
        Some(j - 1)
    } else {
        rindex_before(s, c, j - 1)
    }
}

/// The JSON object in a text: the whole text when it parses as an object,
/// else what the span from the first `{` to the last `}` parses as.
pub open spec fn spec_try_json_object(s: Seq<char>) -> Option<Json> {
    match spec_json_from_str(s) {
        Some(Json::Object(entries)) => Some(Json::Object(entries)),
        _ => match (index_from(s, '{', 0), rindex_before(s, '}', s.len() as int)) {
            (Some(a), Some(b)) => if b <= a {
                None
            } else {
                spec_json_from_str(s.subrange(a, b + 1))
            },
            _ => None,
        },
    }
}

fn find_char(cs: &Vec<char>, c: char) -> (r: Option<usize>)
    ensures
        r is None <==> index_from(cs@, c, 0) is None,
        r matches Some(i) ==> index_from(cs@, c, 0) == Some(i as int) && i < cs@.len() && cs@[i as int]
            == c,
{
    let mut i: usize = 0;
    while i < cs.len()
        invariant
            i <= cs@.len(),
            index_from(cs@, c, 0) == index_from(cs@, c, i as int),
        decreases cs@.len() - i,
    {
        if cs[i] == c {
            return Some(i);
        }
        i = i + 1;
    }
    None
}

fn rfind_char(cs: &Vec<char>, c: char) -> (r: Option<usize>)
    ensures
        r is None <==> rindex_before(cs@, c, cs@.len() as int) is None,
        r matches Some(i) ==> rindex_before(cs@, c, cs@.len() as int) == Some(i as int) && i
            < cs@.len(),
{
    let mut j: usize = cs.len();
    while j > 0
        invariant
            j <= cs@.len(),
            rindex_before(cs@, c, cs@.len() as int) == rindex_before(cs@, c, j as int),
        decreases j,
    {
        if cs[j - 1] == c {
            return Some(j - 1);
        }
        j = j - 1;
    }
    None
}

/// Finds the JSON object in `s`: the whole of `s` when it parses as an
/// object, else the span from its first `{` to its last `}`.
pub fn try_parse_json_object(s: &str) -> (r: Option<JsonValue>)
    ensures
        r is None <==> spec_try_json_object(s@) is None,
        r matches Some(v) ==> spec_try_json_object(s@) == Some(v@),
        r matches Some(v) ==> v is Object,
{
    let first = json_from_str(s);
    if let Some(JsonValue::Object(entries)) = first {
        return Some(JsonValue::Object(entries));
    }
    let cs = chars_of(s);
    let start = match find_char(&cs, '{') {
        Some(a) => a,
        None => return None,
    };
    let end = match rfind_char(&cs, '}') {
        Some(b) => b,
        None => return None,
    };
    if end <= start {
        return None;
    }
    let span = s.substring_char(start, end + 1);
    proof {
        assert(span@[0] == cs@[start as int]);
    }
    json_from_str(span)
}

/// The key under which the reply states its probability.
pub open spec fn probability_key() -> Seq<char> {
    "probability_estimate"@
}

/// A text field of the reply: `v[key]` trimmed and cut to `keep`
/// characters when it is a non-blank string, else the cleaned reply cut to
/// `fallback_keep` characters.
pub open spec fn text_field(
    v: Json,
    key: Seq<char>,
    keep: nat,
    cleaned: Seq<char>,
    fallback_keep: nat,
) -> Seq<char> {
    match field(v, key) {
        Some(Json::Str(t)) => if trim(t).len() > 0 {
            spec_truncate(trim(t), keep)
        } else {
            spec_truncate(cleaned, fallback_keep)
        },
        _ => spec_truncate(cleaned, fallback_keep),
    }
}

/// The probability a reply yields: a JSON number, then a string holding a
/// float literal other than NaN (`"55%"`), then an `NN%` near a probability
/// word in the raw reply, then 0.5.
pub open spec fn reply_estimate(v: Json, content: Seq<char>) -> EstimateView {
    match field(v, probability_key()) {
        Some(Json::Number(t)) => EstimateView::JsonNumber(t),
        Some(Json::Str(s)) if is_float_literal(percent_body(s)) && !is_nan_literal(
            percent_body(s),
        ) => EstimateView::JsonPercent(
            percent_body(s),
        ),
        _ => match spec_extract_probability(encode_utf8(content)) {
            Some(d) => EstimateView::TextPercent(d),
            None => EstimateView::Half,
        },
    }
}

/// A probability taken from a JSON string is a float literal and never
/// NaN, so it reads as a number that clamps into [0, 1].
pub proof fn lemma_reply_estimate_not_nan(v: Json, content: Seq<char>)
    ensures
        reply_estimate(v, content) matches EstimateView::JsonPercent(t) ==> is_float_literal(t)
            && !is_nan_literal(t),
{
}

/// The label of where the probability came from.
pub open spec fn reply_probability_source(v: Json, content: Seq<char>) -> Seq<char> {
    match reply_estimate(v, content) {
        EstimateView::JsonNumber(_) => "llm-json"@,
        EstimateView::JsonPercent(_) => "llm-json-str"@,
        EstimateView::TextPercent(_) => "text-scan"@,
        _ => "default-0.5"@,
    }
}

/// The non-blank strings among `items`, trimmed and cut to 200 characters.
pub open spec fn clean_sources(items: Seq<Json>) -> Seq<Seq<char>>
    decreases items.len(),
{
    if items.len() == 0 {
        Seq::empty()
    } else {
        let rest = clean_sources(items.drop_last());
        match items.last() {
            Json::Str(s) => if trim(s).len() > 0 {
                rest.push(spec_truncate(trim(s), 200))
            } else {
                rest
            },
            _ => rest,
        }
    }
}

/// The cleaned strings of the array `v[key]` (none when it is no array).
pub open spec fn key_sources(v: Json, key: Seq<char>) -> Seq<Seq<char>> {
    match field(v, key) {
        Some(Json::Array(items)) => clean_sources(items),
        _ => Seq::empty(),
    }
}

/// The cited sources: the first non-empty list among `sources`,
/// `citations` and `references`.
pub open spec fn reply_sources(v: Json) -> Seq<Seq<char>> {
    let a = key_sources(v, "sources"@);
    let b = key_sources(v, "citations"@);
    if a.len() > 0 {
        a
    } else if b.len() > 0 {
        b
    } else {
        key_sources(v, "references"@)
    }
}

/// A model reply read into brief fields.
#[derive(Debug)]
pub struct ParsedBrief {
    pub summary: String,
    pub probability: Estimate,
    pub probability_source: &'static str,
    pub reasoning: String,
    pub sources: Vec<String>,
}

/// `p` holds what the reply `content`, cleaned to `cleaned`, with JSON
/// object `v`, yields.
pub open spec fn parsed_from(p: ParsedBrief, v: Json, content: Seq<char>, cleaned: Seq<char>) -> bool {
    &&& p.summary@ == text_field(v, "summary"@, 280, cleaned, 200)
    &&& p.probability@ == reply_estimate(v, content)
    &&& p.probability_source@ == reply_probability_source(v, content)
    &&& p.reasoning@ == text_field(v, "reasoning"@, 2500, cleaned, 1500)
    &&& strings_view(p.sources@) == reply_sources(v)
}

/// The JSON object of a reply, after whitespace and code fences are
/// stripped.
pub open spec fn reply_object(content: Seq<char>) -> Option<Json> {
    spec_try_json_object(spec_strip_code_fences(content))
}

fn text_field_exec(
    v: &JsonValue,
    key: &str,
    keep: usize,
    cleaned: &str,
    fallback_keep: usize,
) -> (r: String)
    ensures
        r@ == text_field(v@, key@, keep as nat, cleaned@, fallback_keep as nat),
{
    match get_field(v, key) {
        Some(JsonValue::Str(t)) => {
            let tt = trim_str(t.as_str());
            if !tt.is_empty() {
                truncate(tt, keep)
            } else {
                truncate(cleaned, fallback_keep)
            }
        },
        _ => truncate(cleaned, fallback_keep),
    }
}

fn sources_exec(v: &JsonValue, key: &str) -> (r: Vec<String>)
    ensures
        strings_view(r@) == key_sources(v@, key@),
{
    match get_field(v, key) {
        Some(JsonValue::Array(items)) => {
            proof {
                lemma_items_view(items@);
            }
            let ghost iv = items_view(items@);
            let mut out: Vec<String> = Vec::new();
            let mut i: usize = 0;
            while i < items.len()
                invariant
                    i <= items@.len(),
                    iv == items_view(items@),
                    iv.len() == items@.len(),
                    forall|j: int| 0 <= j < items@.len() ==> #[trigger] iv[j] == items@[j]@,
                    strings_view(out@) == clean_sources(iv.take(i as int)),
                decreases items@.len() - i,
            {
                proof {
                    assert(iv.take(i + 1).drop_last() =~= iv.take(i as int));
                    assert(iv.take(i + 1).last() == items@[i as int]@);
                }
                match &items[i] {
                    JsonValue::Str(s) => {
                        let t = trim_str(s.as_str());
                        if !t.is_empty() {
                            out.push(truncate(t, 200));
                            proof {
                                assert(strings_view(out@) =~= clean_sources(iv.take(i + 1)));
                            }
                        }
                    },
                    _ => {},
                }
                i = i + 1;
            }
            proof {
                assert(iv.take(items@.len() as int) =~= iv);
            }
            out
        },
        _ => {
            let out: Vec<String> = Vec::new();
            proof {
                assert(strings_view(out@) =~= Seq::<Seq<char>>::empty());
            }
            out
        },
    }
}

/// Reads the brief fields out of a reply whose JSON object is `v`.
pub fn parse_brief_fields(content: &str, cleaned: &str, v: &JsonValue) -> (p: ParsedBrief)
    ensures
        parsed_from(p, v@, content@, cleaned@),
{
    let summary = text_field_exec(v, "summary", 280, cleaned, 200);
    let (probability, probability_source): (Estimate, &'static str) = match get_field(
        v,
        "probability_estimate",
    ) {
        Some(JsonValue::Number(t)) => (Estimate::JsonNumber(t.clone()), "llm-json"),
        Some(JsonValue::Str(s)) => match percent_probability(s.as_str()) {
            Some(lit) => (Estimate::JsonPercent(lit.to_owned()), "llm-json-str"),
            None => match extract_probability_from_text(content) {
                Some(d) => (Estimate::TextPercent(d), "text-scan"),
                None => (Estimate::Half, "default-0.5"),
            },
        },
        _ => match extract_probability_from_text(content) {
            Some(d) => (Estimate::TextPercent(d), "text-scan"),
            None => (Estimate::Half, "default-0.5"),
        },
    };
    let reasoning = text_field_exec(v, "reasoning", 2500, cleaned, 1500);
    let mut sources = sources_exec(v, "sources");
    if sources.len() == 0 {
        sources = sources_exec(v, "citations");
        if sources.len() == 0 {
            sources = sources_exec(v, "references");
        }
    }
    ParsedBrief { summary, probability, probability_source, reasoning, sources }
}

/// Reads a model reply into brief fields; an error when the reply holds
/// no JSON object.
pub fn parse_brief(content: &str) -> (r: Result<ParsedBrief, String>)
    ensures
        r is Err <==> reply_object(content@) is None,
        r matches Err(e) ==> e@ == "LLM reply contains no JSON object"@,
        r matches Ok(p) ==> (reply_object(content@) matches Some(v) && parsed_from(
            p,
            v,
            content@,
            spec_strip_code_fences(content@),
        )),
{
    let cleaned = strip_code_fences(content);
    match try_parse_json_object(cleaned) {
        None => Err("LLM reply contains no JSON object".to_owned()),
        Some(v) => Ok(parse_brief_fields(content, cleaned, &v)),
    }
}

/// A cited source is kept whole when its trimmed text is non-blank and at
/// most 200 characters long: for every such string item, the cleaned
/// sources hold its trimmed text itself.
pub proof fn lemma_short_sources_kept_whole(items: Seq<Json>)
    ensures
        forall|j: int|
            #![trigger items[j]]
            0 <= j < items.len() && (items[j] matches Json::Str(s) && 0 < trim(s).len() <= 200)
                ==> clean_sources(items).contains(trim(items[j]->Str_0)),
    decreases items.len(),
{
    if items.len() > 0 {
        let rest = items.drop_last();
        lemma_short_sources_kept_whole(rest);
        assert forall|j: int|
            #![trigger items[j]]
            0 <= j < items.len() && (items[j] matches Json::Str(s) && 0 < trim(s).len() <= 200)
                implies clean_sources(items).contains(trim(items[j]->Str_0)) by {
            let out = clean_sources(items);
            let prev = clean_sources(rest);
            if j < items.len() - 1 {
                assert(items[j] == rest[j]);
                let k = choose|k: int| 0 <= k < prev.len() && prev[k] == trim(rest[j]->Str_0);
                assert(out[k] == prev[k]);
            } else {
                assert(out[out.len() - 1] == trim(items[j]->Str_0));
            }
        }
    }
}

proof fn lemma_first_open_brace(s: Seq<char>, p: nat, i: int)
    requires
        0 <= i <= p < s.len(),
        s[p as int] == '{',
        forall|m: int| 0 <= m < p ==> #[trigger] s[m] != '{',
    ensures
        index_from(s, '{', i) == Some(p as int),
    decreases p - i,
{
    if i < p {
        lemma_first_open_brace(s, p, i + 1);
    }
}

/// The object is looked for from the reply's first `{`: when a prefix
/// without `{` precedes a JSON object text `o` (opening with `{` and
/// closing with `}`, with any nested braces), and the whole reply does not
/// parse as an object, the object found is what `o` parses to.
pub proof fn lemma_object_after_prefix(prefix: Seq<char>, o: Seq<char>)
    requires
        forall|m: int| 0 <= m < prefix.len() ==> #[trigger] prefix[m] != '{',
        o.len() > 0,
        o[0] == '{',
        o.last() == '}',
        !(spec_json_from_str(prefix + o) matches Some(Json::Object(_))),
    ensures
        spec_try_json_object(prefix + o) == spec_json_from_str(o),
{
    let s = prefix + o;
    assert(s[prefix.len() as int] == '{');
    assert forall|m: int| 0 <= m < prefix.len() implies #[trigger] s[m] != '{' by {
        assert(s[m] == prefix[m]);
    }
    lemma_first_open_brace(s, prefix.len(), 0);
    assert(s[s.len() - 1] == '}');
    assert(rindex_before(s, '}', s.len() as int) == Some(s.len() - 1));
    assert(s.subrange(prefix.len() as int, s.len() as int) =~= o);
}

} // verus!
