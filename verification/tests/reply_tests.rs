use forecast_contract::brief::Estimate;
use forecast_contract::json::JsonValue;
use forecast_contract::reply::{parse_brief, try_parse_json_object};
use forecast_contract::scan::{extract_probability_from_text, scan_percent, ScanOutcome};

fn percent_value(digits: &str) -> f64 {
    digits.parse::<f64>().unwrap() / 100.0
}

#[test]
fn parse_fenced_json_brief() {
    let out = parse_brief(
        "Sure! Here it is:\n```json\n{\"summary\":\"Fed likely cuts\",\"probability_estimate\":0.65,\"reasoning\":\"Base rates.\",\"sources\":[\"fomc.gov\"]}\n```",
    )
    .expect("should parse fenced JSON");
    assert_eq!(out.summary, "Fed likely cuts");
    match &out.probability {
        Estimate::JsonNumber(t) => assert!((t.parse::<f64>().unwrap() - 0.65).abs() < 1e-9),
        other => panic!("unexpected estimate {other:?}"),
    }
    assert_eq!(out.probability_source, "llm-json");
    assert_eq!(out.sources, vec!["fomc.gov".to_string()]);
}

#[test]
fn parse_bare_json_brief() {
    let out = parse_brief(
        "{\"summary\":\"Cut likely\",\"probability_estimate\":\"55%\",\"reasoning\":\"R\",\"sources\":[]}",
    )
    .expect("should parse bare JSON with string prob");
    match &out.probability {
        Estimate::JsonPercent(t) => {
            assert_eq!(t, "55");
            assert!((percent_value(t) - 0.55).abs() < 1e-9);
        }
        other => panic!("unexpected estimate {other:?}"),
    }
    assert_eq!(out.probability_source, "llm-json-str");
}

#[test]
fn probability_scan_percent_with_context() {
    let digits = extract_probability_from_text("There is a 65% chance of a cut");
    assert_eq!(digits.as_deref().map(percent_value), Some(0.65));
}

#[test]
fn probability_scan_ignores_interest_rates() {
    assert_eq!(extract_probability_from_text("The fed funds rate is 4.25% today"), None);
}

#[test]
fn parse_rejects_no_json() {
    assert!(parse_brief("no json at all here").is_err());
}

#[test]
fn parse_rejects_no_json_with_message() {
    let err = parse_brief("only { an opening brace").unwrap_err();
    assert_eq!(err, "LLM reply contains no JSON object");
    assert!(parse_brief("} backwards {").is_err());
}

#[test]
fn probability_scan_edge_cases() {
    assert_eq!(extract_probability_from_text("odds are 100% good").as_deref(), Some("100"));
    assert_eq!(extract_probability_from_text("odds are 100.5% good"), None);
    assert_eq!(extract_probability_from_text("odds are 1.2.3% or 40% now").as_deref(), Some("40"));
    assert_eq!(extract_probability_from_text("Probability: 1234567% or 7.5%").as_deref(), Some("7.5"));
    assert_eq!(extract_probability_from_text("LIKELIHOOD .5%").as_deref(), Some(".5"));
    assert_eq!(extract_probability_from_text("chance %"), None);
}

#[test]
fn probability_scan_window_is_eighty_bytes() {
    let far = format!("chance{}5%", " ".repeat(80));
    assert_eq!(extract_probability_from_text(&far), None);
    let near = format!("chance{}5%", " ".repeat(73));
    assert_eq!(extract_probability_from_text(&near).as_deref(), Some("5"));
}

#[test]
fn probability_scan_handles_windows_inside_characters() {
    let text = format!("{}1% chance", "\u{20ac}".repeat(30));
    assert_eq!(scan_percent(&text), ScanOutcome::Found(90, 91));
    assert_eq!(extract_probability_from_text(&text).as_deref(), Some("1"));
    let reply = format!("{{\"summary\":\"s\"}} {}", text);
    let out = parse_brief(&reply).unwrap();
    assert_eq!(out.probability, Estimate::TextPercent("1".to_string()));
    assert_eq!(out.probability_source, "text-scan");
    let far = format!("chance{}7%", "\u{20ac}".repeat(30));
    assert_eq!(extract_probability_from_text(&far), None);
}

#[test]
fn parse_brief_rejects_nan_probability_strings() {
    for nan in ["NaN", "nan%", "-NAN", " +nan "] {
        let reply = format!("{{\"summary\":\"S\",\"probability_estimate\":\"{nan}\"}}");
        let out = parse_brief(&reply).unwrap();
        assert_eq!(out.probability, Estimate::Half, "{nan}");
        assert_eq!(out.probability_source, "default-0.5");
    }
    let scanned = parse_brief("{\"probability_estimate\":\"NaN\"} odds 20%").unwrap();
    assert_eq!(scanned.probability, Estimate::TextPercent("20".to_string()));
    let inf = parse_brief("{\"probability_estimate\":\"inf\"}").unwrap();
    assert_eq!(inf.probability, Estimate::JsonPercent("inf".to_string()));
}

#[test]
fn parse_brief_falls_back_to_text_scan_and_default() {
    let scanned = parse_brief("{\"summary\":\"S\"} the chance is 30%").unwrap();
    assert_eq!(scanned.probability, Estimate::TextPercent("30".to_string()));
    assert_eq!(scanned.probability_source, "text-scan");
    let default = parse_brief("{\"summary\":\"S\",\"probability_estimate\":\"likely\"}").unwrap();
    assert_eq!(default.probability, Estimate::Half);
    assert_eq!(default.probability_source, "default-0.5");
}

#[test]
fn parse_brief_text_fields_fall_back_to_cleaned_reply() {
    let out = parse_brief("  {\"summary\":\"   \",\"reasoning\":7}  ").unwrap();
    assert_eq!(out.summary, "{\"summary\":\"   \",\"reasoning\":7}");
    assert_eq!(out.reasoning, "{\"summary\":\"   \",\"reasoning\":7}");
    let trimmed = parse_brief("{\"summary\":\"  padded  \",\"reasoning\":\" why \"}").unwrap();
    assert_eq!(trimmed.summary, "padded");
    assert_eq!(trimmed.reasoning, "why");
}

#[test]
fn parse_brief_sources_fall_back_to_citations() {
    let out = parse_brief(
        "{\"sources\":[\"  \", 3],\"citations\":[\" a \", \"\", \"b\"],\"references\":[\"c\"]}",
    )
    .unwrap();
    assert_eq!(out.sources, vec!["a".to_string(), "b".to_string()]);
    let refs = parse_brief("{\"references\":[\"c\"]}").unwrap();
    assert_eq!(refs.sources, vec!["c".to_string()]);
}

#[test]
fn try_parse_json_object_finds_embedded_object() {
    assert!(matches!(try_parse_json_object("{\"a\":1}"), Some(JsonValue::Object(_))));
    assert!(matches!(try_parse_json_object("text {\"a\":1} more"), Some(JsonValue::Object(_))));
    assert!(try_parse_json_object("[1,2]").is_none());
    assert!(try_parse_json_object("{ broken").is_none());
}
