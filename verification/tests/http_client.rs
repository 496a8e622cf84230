use porta::http_client::{http_plan, method_of, wt_http_request, Exchange, HttpMethod};

#[test]
fn only_the_six_methods_are_sent_as_spelled() {
    assert_eq!(method_of("GET"), Some(HttpMethod::Get));
    assert_eq!(method_of("PATCH"), Some(HttpMethod::Patch));
    assert_eq!(method_of("HEAD"), Some(HttpMethod::Head));
    assert_eq!(method_of("get"), None);
    assert_eq!(method_of("TRACE"), None);
}

#[test]
fn string_headers_are_sent_and_others_dropped() {
    let plan = http_plan("POST", r#"{"a":"1","b":"2","n":3}"#, "body").unwrap();
    assert_eq!(plan.method, HttpMethod::Post);
    assert_eq!(plan.headers, vec![("a".to_string(), "1".to_string()), ("b".to_string(), "2".to_string())]);
    assert_eq!(plan.body, Some("body".to_string()));
    let bare = http_plan("GET", "not an object", "").unwrap();
    assert!(bare.headers.is_empty());
    assert_eq!(bare.body, None);
    assert!(http_plan("TRACE", "{}", "").is_none());
}

#[test]
fn every_outcome_has_its_answer() {
    assert_eq!(
        wt_http_request("GET", &Exchange::Answered(200, Ok("a\"b\n".to_string()))),
        "{\"status\":200,\"body\":\"a\\\"b\\n\"}"
    );
    assert_eq!(wt_http_request("GET", &Exchange::NoClient("x".to_string())), r#"{"error":"client error: x"}"#);
    assert_eq!(wt_http_request("TRACE", &Exchange::Unsupported), r#"{"error":"unsupported method: TRACE"}"#);
    assert_eq!(wt_http_request("GET", &Exchange::SendFailed("refused".to_string())), r#"{"error":"request failed: refused"}"#);
    assert_eq!(wt_http_request("GET", &Exchange::Answered(500, Err("cut".to_string()))), r#"{"error":"read error: cut"}"#);
}

#[test]
fn every_reply_is_json_whatever_the_method_or_reason() {
    assert_eq!(wt_http_request("FETCH", &Exchange::Unsupported), r#"{"error":"unsupported method: FETCH"}"#);
    assert_eq!(wt_http_request("GE\"T\\", &Exchange::Unsupported), r#"{"error":"unsupported method: GE\"T\\"}"#);
    assert_eq!(
        wt_http_request("GET", &Exchange::SendFailed("bad \"host\"\n".to_string())),
        r#"{"error":"request failed: bad \"host\"\n"}"#
    );
    assert_eq!(wt_http_request("GET", &Exchange::NoClient("\u{1}".to_string())), r#"{"error":"client error: \u0001"}"#);
    assert_eq!(
        wt_http_request("GET", &Exchange::Answered(200, Err("cut\"".to_string()))),
        r#"{"error":"read error: cut\""}"#
    );
}
