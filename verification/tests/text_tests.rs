use forecast_contract::number::{decimal_string, is_float_str, is_nan_str, percent_literal, percent_probability};
use forecast_contract::text::{is_whitespace, strip_code_fences, trim_str, truncate};

#[test]
fn truncate_keeps_short_text() {
    assert_eq!(truncate("hello", 5), "hello");
    assert_eq!(truncate("", 0), "");
}

#[test]
fn truncate_cuts_by_characters() {
    assert_eq!(truncate("hello", 3), "hel\u{2026}");
    assert_eq!(truncate("añoñoñ", 2), "añ\u{2026}");
    assert_eq!(truncate("ab", 0), "\u{2026}");
}

#[test]
fn trim_uses_unicode_whitespace() {
    assert_eq!(trim_str("\u{a0}\u{2003} x y \u{3000}\n"), "x y");
    assert_eq!(trim_str("   "), "");
    assert!(is_whitespace('\u{85}'));
    assert!(!is_whitespace('\u{200b}'));
}

#[test]
fn strip_code_fences_removes_fence_and_tag() {
    assert_eq!(strip_code_fences("```json\n{\"a\":1}\n```"), "{\"a\":1}");
    assert_eq!(strip_code_fences("  ```\n{}\n```  "), "{}");
    assert_eq!(strip_code_fences("```json {\"a\":1}"), "{\"a\":1}");
}

#[test]
fn strip_code_fences_leaves_unfenced_text_trimmed() {
    assert_eq!(strip_code_fences("  Sure! ```json\n{}\n```  "), "Sure! ```json\n{}\n```");
    assert_eq!(strip_code_fences("plain"), "plain");
    assert_eq!(strip_code_fences("````"), "`");
}

#[test]
fn percent_literal_cleans_percent_strings() {
    assert_eq!(percent_literal("55%"), Some("55"));
    assert_eq!(percent_literal("  12.5 %% "), Some("12.5"));
    assert_eq!(percent_literal("0.4"), Some("0.4"));
    assert_eq!(percent_literal("-1e-3"), Some("-1e-3"));
    assert_eq!(percent_literal("likely"), None);
    assert_eq!(percent_literal("%"), None);
    assert_eq!(percent_literal("5 5%"), None);
}

#[test]
fn float_literal_grammar() {
    for ok in ["1", "1.", ".5", "+3.14", "2.5E10", "2.5e-10", "inf", "-Infinity", "NaN"] {
        assert!(is_float_str(ok), "{ok} should be a float literal");
        assert!(ok.parse::<f64>().is_ok(), "{ok} should parse");
    }
    for bad in ["", ".", "e5", "1e", "1e+", "1.2.3", "infin", "1_0", " 1", "+"] {
        assert!(!is_float_str(bad), "{bad} should not be a float literal");
        assert!(bad.parse::<f64>().is_err(), "{bad} should not parse");
    }
}

#[test]
fn decimal_rendering() {
    assert_eq!(decimal_string(0), "0");
    assert_eq!(decimal_string(7), "7");
    assert_eq!(decimal_string(1200), "1200");
    assert_eq!(decimal_string(u64::MAX), u64::MAX.to_string());
}

#[test]
fn fenced_body_is_recovered() {
    let body = "{\"summary\": \"s\"}";
    let fenced = format!("```json5\n{body}\n```");
    assert_eq!(strip_code_fences(&fenced), body);
    let untagged = format!("```\n{body}\n```");
    assert_eq!(strip_code_fences(&untagged), body);
}

#[test]
fn percent_probability_excludes_nan() {
    assert_eq!(percent_probability("55%"), Some("55"));
    assert_eq!(percent_probability("Infinity"), Some("Infinity"));
    assert_eq!(percent_probability("NaN"), None);
    assert_eq!(percent_probability(" -nan %"), None);
    assert_eq!(percent_literal("NaN"), Some("NaN"));
    assert!(is_nan_str("+NaN"));
    assert!(!is_nan_str("nano"));
}
