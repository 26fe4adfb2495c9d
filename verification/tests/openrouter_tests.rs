use forecast_contract::brief::{Estimate, ForecastInput};
use forecast_contract::forecast::LLM_MODEL;
use forecast_contract::hash::fnv1a;
use forecast_contract::json::json_from_str;
use forecast_contract::openrouter::{
    api_key_from_kv, brief_from_reply, openrouter_headers, openrouter_request, read_openrouter_reply,
    reply_from_json, secrets_map_name, settle, status_error, MAX_TOKENS, OPENROUTER_URL, SYSTEM_PROMPT,
};

fn input(model: Option<&str>) -> ForecastInput {
    ForecastInput {
        question: "Will X happen?".to_string(),
        context: "Some context".to_string(),
        llm_key_placeholder: None,
        model: model.map(|m| m.to_string()),
    }
}

fn reply_body(content: &str) -> Vec<u8> {
    let v = serde_json::Value::Object(
        [
            ("model".to_string(), serde_json::Value::String("openai/gpt-4o-mini-2024".to_string())),
            (
                "choices".to_string(),
                serde_json::Value::Array(vec![serde_json::Value::Object(
                    [(
                        "message".to_string(),
                        serde_json::Value::Object(
                            [("content".to_string(), serde_json::Value::String(content.to_string()))]
                                .into_iter()
                                .collect(),
                        ),
                    )]
                    .into_iter()
                    .collect(),
                )]),
            ),
        ]
        .into_iter()
        .collect(),
    );
    serde_json::to_vec(&v).unwrap()
}

#[test]
fn secrets_map_name_is_hex_of_tenant() {
    assert_eq!(secrets_map_name(&[0xab, 0x01, 0xff]), "z:ab01ff:secrets");
    assert_eq!(secrets_map_name(b""), "z::secrets");
}

#[test]
fn api_key_from_kv_outcomes() {
    assert_eq!(api_key_from_kv(Ok(Some(b"sk-123".to_vec()))), Ok("sk-123".to_string()));
    assert_eq!(api_key_from_kv(Err("denied".to_string())), Err("kv read: denied".to_string()));
    assert_eq!(
        api_key_from_kv(Ok(None)),
        Err("llm_api_key not found in z:<tid>:secrets \u{2014} seed it via map-entry-set".to_string())
    );
    let bad = api_key_from_kv(Ok(Some(vec![0xff, 0xfe])));
    assert_eq!(bad, Err(String::from_utf8(vec![0xff, 0xfe]).unwrap_err().to_string()));
}

#[test]
fn headers_have_bearer_and_no_content_type() {
    let h = openrouter_headers("sk-1");
    assert_eq!(h.len(), 4);
    assert_eq!(h[0], ("Authorization".to_string(), "Bearer sk-1".to_string()));
    assert_eq!(h[1], ("Accept".to_string(), "application/json".to_string()));
    assert_eq!(h[2], ("HTTP-Referer".to_string(), "https://t3n.forecast-brief-agent".to_string()));
    assert_eq!(h[3], ("X-Title".to_string(), "forecast-contract".to_string()));
    assert!(h.iter().all(|(k, _)| k != "Content-Type"));
}

#[test]
fn request_uses_input_model_or_default() {
    let c = openrouter_request(&input(None), "k");
    assert_eq!(c.model, LLM_MODEL);
    assert_eq!(c.url, OPENROUTER_URL);
    assert_eq!(c.system_prompt, SYSTEM_PROMPT);
    assert_eq!(c.max_tokens, MAX_TOKENS);
    assert_eq!(
        c.user_prompt,
        "Question: Will X happen?\n\nContext: Some context\n\nProduce the JSON forecast brief now."
    );
    let c2 = openrouter_request(&input(Some("openrouter/free")), "k");
    assert_eq!(c2.model, "openrouter/free");
}

#[test]
fn read_reply_rejects_http_errors() {
    let body = "x".repeat(450);
    let err = read_openrouter_reply("m", 403, body.as_bytes()).unwrap_err();
    assert_eq!(err, format!("openrouter HTTP 403: {}", "x".repeat(400)));
    let err = read_openrouter_reply("m", 500, &[0x66, 0xff]).unwrap_err();
    assert_eq!(err, "openrouter HTTP 500: f\u{fffd}");
}

#[test]
fn read_reply_rejects_bad_json_and_missing_content() {
    let err = read_openrouter_reply("m", 200, b"not json").unwrap_err();
    assert!(err.starts_with("openrouter response parse: "));
    let err = read_openrouter_reply("m", 200, b"{\"choices\":[]}").unwrap_err();
    assert_eq!(err, "openrouter: no choices[0].message.content");
}

#[test]
fn read_reply_takes_model_and_content() {
    let (m, c) = read_openrouter_reply("m", 200, &reply_body("hello")).unwrap();
    assert_eq!(m, "openai/gpt-4o-mini-2024");
    assert_eq!(c, "hello");
    let (m, _) = read_openrouter_reply("asked", 200, b"{\"choices\":[{\"message\":{\"content\":\"x\"}}]}").unwrap();
    assert_eq!(m, "asked");
}

#[test]
fn brief_from_reply_builds_llm_brief() {
    let req = input(None);
    let content = "{\"summary\":\"Likely\",\"probability_estimate\":0.45,\"reasoning\":\"Base rates\",\"sources\":[\"fed.gov\"]}";
    let b = brief_from_reply(&req, LLM_MODEL, 200, &reply_body(content)).unwrap();
    assert_eq!(b.summary, "Likely");
    assert_eq!(b.probability_estimate, Estimate::JsonNumber("0.45".to_string()));
    assert_eq!(b.reasoning, "Base rates");
    assert_eq!(b.sources_placeholder, vec!["fed.gov".to_string()]);
    assert_eq!(b.meta.phase, "2-llm-in-tee");
    assert!(!b.meta.placeholder);
    assert_eq!(b.meta.model.as_deref(), Some("openai/gpt-4o-mini-2024"));
    assert_eq!(b.meta.probability_source.as_deref(), Some("llm-json"));
    assert_eq!(b.meta.llm_error, None);
    assert_eq!(b.meta.deterministic_seed, fnv1a(b"Will X happen?"));
    assert_eq!(b.meta.input_chars, 26);
}

#[test]
fn brief_from_reply_reports_unreadable_reply() {
    let req = input(None);
    let err = brief_from_reply(&req, LLM_MODEL, 200, &reply_body("no json")).unwrap_err();
    assert_eq!(err, "LLM reply contains no JSON object");
    let err = brief_from_reply(&req, LLM_MODEL, 429, b"slow down").unwrap_err();
    assert_eq!(err, "openrouter HTTP 429: slow down");
}

#[test]
fn settle_falls_back_on_error() {
    let req = input(None);
    let b = settle(&req, Err("http outbound call failed: egress_denied".to_string()));
    assert_eq!(b.probability_estimate, Estimate::Half);
    assert!(b.meta.placeholder);
    assert_eq!(b.meta.llm_error.as_deref(), Some("http outbound call failed: egress_denied"));
    let ok = brief_from_reply(&req, LLM_MODEL, 200, &reply_body("{\"summary\":\"s\"}"));
    let b2 = settle(&req, ok);
    assert_eq!(b2.meta.phase, "2-llm-in-tee");
}

#[test]
fn status_error_cuts_body_to_400_characters() {
    assert_eq!(status_error(404, "not found"), "openrouter HTTP 404: not found");
    let body = "é".repeat(401);
    assert_eq!(status_error(500, &body), format!("openrouter HTTP 500: {}", "é".repeat(400)));
}

#[test]
fn reply_from_json_navigates_choices() {
    let json = json_from_str("{\"model\":\"m2\",\"choices\":[{\"message\":{\"content\":\"hi\"}}]}").unwrap();
    assert_eq!(reply_from_json("m1", &json), Ok(("m2".to_string(), "hi".to_string())));
    let json = json_from_str("{\"model\":5,\"choices\":[{\"message\":{\"content\":\"hi\"}}]}").unwrap();
    assert_eq!(reply_from_json("m1", &json), Ok(("m1".to_string(), "hi".to_string())));
    let json = json_from_str("{\"choices\":[{\"message\":{\"content\":7}}]}").unwrap();
    assert_eq!(reply_from_json("m1", &json), Err("openrouter: no choices[0].message.content".to_string()));
}
