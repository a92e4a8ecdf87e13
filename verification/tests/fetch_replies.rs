use conclave::fetch::{
    error_response, fetch_failed_reply, fetch_target, invalid_request_reply, request_url, success_response,
};
use conclave::json::JsonValue;

#[test]
fn success_reply_encodes_body_in_base64() {
    let line = success_response(b"<html><body>hello from conclave</body></html>", 42);
    assert_eq!(
        line,
        r#"{"output":{"type":"Html","data_b64":"PGh0bWw+PGJvZHk+aGVsbG8gZnJvbSBjb25jbGF2ZTwvYm9keT48L2h0bWw+"},"duration_ms":42}"#
    );
}

#[test]
fn success_reply_pads_short_bodies() {
    assert_eq!(success_response(b"a", 0), r#"{"output":{"type":"Html","data_b64":"YQ=="},"duration_ms":0}"#);
    assert_eq!(success_response(b"ab", 1), r#"{"output":{"type":"Html","data_b64":"YWI="},"duration_ms":1}"#);
    assert_eq!(success_response(b"", 2), r#"{"output":{"type":"Html","data_b64":""},"duration_ms":2}"#);
}

#[test]
fn success_reply_is_byte_stable_for_same_content() {
    assert_eq!(success_response(b"<html>stable</html>", 5), success_response(b"<html>stable</html>", 5));
}

#[test]
fn error_reply_sorts_details() {
    let line = error_response(
        "ERR_FETCH_FAILED",
        vec![
            ("url".to_string(), JsonValue::Str("http://127.0.0.1:1/".to_string())),
            ("cause".to_string(), JsonValue::Str("refused".to_string())),
        ],
    );
    assert_eq!(
        line,
        r#"{"error":"ERR_FETCH_FAILED","details":{"cause":"refused","url":"http://127.0.0.1:1/"}}"#
    );
}

#[test]
fn error_reply_without_details() {
    assert_eq!(error_response("ERR_INVALID_REQUEST", vec![]), r#"{"error":"ERR_INVALID_REQUEST","details":{}}"#);
}

#[test]
fn request_url_reads_string_input() {
    let inputs = vec![("url".to_string(), JsonValue::Str("https://example.com".to_string()))];
    assert_eq!(request_url(&inputs), Some("https://example.com".to_string()));
}

#[test]
fn request_url_missing_or_not_string() {
    assert_eq!(request_url(&vec![]), None);
    let inputs = vec![("url".to_string(), JsonValue::Int(3))];
    assert_eq!(request_url(&inputs), None);
}

fn reply_json(line: &str) -> serde_json::Value {
    serde_json::from_str(line).expect("reply is one JSON line")
}

#[test]
fn fetch_cap_errors_on_missing_url() {
    // A request whose inputs are empty.
    let reply = fetch_target("fetch(Url)->Html", &vec![]).unwrap_err();
    let resp = reply_json(&reply);
    assert_eq!(resp["error"], "ERR_MISSING_URL");
    assert_eq!(resp["details"]["capability"], "fetch(Url)->Html");
    assert_eq!(reply, r#"{"error":"ERR_MISSING_URL","details":{"capability":"fetch(Url)->Html"}}"#);
}

#[test]
fn fetch_target_returns_the_url() {
    let inputs = vec![("url".to_string(), JsonValue::Str("http://127.0.0.1:1/".to_string()))];
    assert_eq!(fetch_target("fetch(Url)->Html", &inputs), Ok("http://127.0.0.1:1/".to_string()));
}

#[test]
fn fetch_cap_errors_on_invalid_json() {
    let parse_error = serde_json::from_str::<serde_json::Value>("not json at all").unwrap_err().to_string();
    let resp = reply_json(&invalid_request_reply(Some(&parse_error)));
    assert_eq!(resp["error"], "ERR_INVALID_REQUEST");
    assert_eq!(resp["details"]["parse_error"], parse_error.as_str());
    assert_eq!(invalid_request_reply(None), r#"{"error":"ERR_INVALID_REQUEST","details":{}}"#);
}

#[test]
fn fetch_cap_errors_on_unreachable_host() {
    let resp = reply_json(&fetch_failed_reply("http://127.0.0.1:1/", "Connection refused"));
    assert_eq!(resp["error"], "ERR_FETCH_FAILED");
    assert!(resp["details"]["url"].as_str().is_some(), "details.url should be present");
    assert_eq!(
        fetch_failed_reply("http://127.0.0.1:1/", "refused"),
        r#"{"error":"ERR_FETCH_FAILED","details":{"cause":"refused","url":"http://127.0.0.1:1/"}}"#
    );
}
