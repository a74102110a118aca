use puc::emulator::{check_request, extract_error, unescape_json};

// A minimal valid scenario: PE scene, no waves.
const EMPTY_SCENARIO: &str = r#"{"setting":{"scene":"PE"},"waves":[]}"#;

#[test]
fn unknown_calculator_errors() {
    let err = check_request("nonsense", EMPTY_SCENARIO, "{}").unwrap_err();
    assert!(err.contains("unknown calculator"), "got: {err}");
}

#[test]
fn invalid_scenario_json_errors() {
    let err = check_request("pos", "{not json", "{}").unwrap_err();
    assert!(err.contains("invalid JSON"), "got: {err}");
}

#[test]
fn schema_invalid_scenario_errors_without_crashing() {
    // `[]` is valid JSON but not a Config object.
    let err = check_request("pos", "[]", "{}").unwrap_err();
    assert!(err.contains("JSON object"), "got: {err}");
}

#[test]
fn valid_request_is_accepted() {
    assert!(check_request("pos", EMPTY_SCENARIO, r#"{"repeat":1}"#).is_ok());
    assert!(check_request("pogo", "{}", "{}").is_ok());
}

#[test]
fn nul_in_request_is_refused() {
    assert_eq!(check_request("po\0s", "{}", "{}").unwrap_err(), "calculator contains NUL");
    assert_eq!(check_request("pos", "{\0}", "{}").unwrap_err(), "scenario JSON contains NUL");
    assert_eq!(check_request("pos", "{}", "\0").unwrap_err(), "params JSON contains NUL");
}

#[test]
fn error_reply_is_unescaped() {
    assert_eq!(extract_error(r#"{"error":"bad\nthing"}"#), "bad\nthing");
    assert_eq!(extract_error(r#"{"error": "tab\there"}"#), "tab\there");
    assert_eq!(extract_error("not shaped"), "not shaped");
    assert_eq!(extract_error(r#"{"error":42}"#), r#"{"error":42}"#);
}

#[test]
fn unescape_keeps_unknown_escapes() {
    assert_eq!(unescape_json(r"a\qb"), r"a\qb");
    assert_eq!(unescape_json(r"end\"), r"end\");
    assert_eq!(unescape_json(r"x\\y"), r"x\y");
}

#[test]
fn extract_error_keeps_escaped_quotes() {
    assert_eq!(puc::emulator::extract_error(r#"{"error":"say \"hi\""}"#), "say \"hi\"");
    assert_eq!(puc::emulator::extract_error(r#"{"error":"a\\"}"#), "a\\");
    assert_eq!(puc::emulator::extract_error(r#"{"error":"open \"end"#), r#"{"error":"open \"end"#);
}

#[test]
fn survive_is_a_known_calculator() {
    assert!(check_request("survive", "{}", "{}").is_ok());
}
