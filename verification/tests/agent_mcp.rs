use porta::agent_mcp::{
    accept_initialize, accept_initialized, accept_tool_result, append_field, check_endpoint, credential, envelope, reply_kind,
    request_fits, sse_event_line, sse_line, sse_stream, valid_session, Envelope, SseLine, SseRead, Tool, MAX_BYTES,
};

#[test]
fn an_endpoint_is_https_or_loopback_without_credentials() {
    assert!(check_endpoint("https://mcp.example.com/x").is_ok());
    assert!(check_endpoint("http://localhost:9/x").is_ok());
    assert!(check_endpoint("http://127.0.0.1/x").is_ok());
    let refusal = "MCP endpoint requires HTTPS (HTTP only on loopback), without credentials, query or fragment";
    assert_eq!(check_endpoint("http://example.com").err().unwrap(), refusal);
    assert_eq!(check_endpoint("https://u:p@example.com").err().unwrap(), refusal);
    assert_eq!(check_endpoint("https://example.com/?q=1").err().unwrap(), refusal);
    assert_eq!(check_endpoint("nope").err().unwrap(), "invalid MCP endpoint");
}

#[test]
fn a_tool_needs_a_remote_name_and_an_object_schema() {
    let tool = |name: &str, object: bool| Tool { endpoint: "https://e.com".to_string(), remote_name: name.to_string(), schema_is_object: object };
    assert!(tool("search", true).check().is_ok());
    assert_eq!(tool("", true).check().err().unwrap(), "MCP remote_name and object input_schema are required");
    assert_eq!(tool("search", false).check().err().unwrap(), "MCP remote_name and object input_schema are required");
    assert!(tool(&"x".repeat(129), true).check().is_err());
}

#[test]
fn a_named_credential_must_be_set() {
    assert_eq!(credential(&None, &None), Ok(None));
    assert_eq!(credential(&Some("T".to_string()), &Some("v".to_string())), Ok(Some("v".to_string())));
    assert_eq!(credential(&Some("T".to_string()), &Some(String::new())).err().unwrap(), "required MCP credential is missing");
    assert!(credential(&Some("T".to_string()), &None).is_err());
}

#[test]
fn a_session_is_visible_ascii() {
    assert!(valid_session(b"abc-123"));
    assert!(!valid_session(b""));
    assert!(!valid_session(b"a b"));
    assert!(!valid_session(&vec![b'a'; 1025]));
}

fn reply(id: Option<u64>, result: Option<bool>, error: bool) -> Envelope {
    Envelope { jsonrpc: Some("2.0".to_string()), has_method: false, has_id: id.is_some(), id, result, has_error: error }
}

#[test]
fn only_a_matching_object_result_is_taken() {
    assert_eq!(envelope(&reply(Some(2), Some(true), false), 2), Ok(true));
    let notification = Envelope { has_method: true, has_id: false, ..reply(None, None, false) };
    assert_eq!(envelope(&notification, 2), Ok(false));
    let request = Envelope { has_method: true, ..reply(Some(9), None, false) };
    assert_eq!(envelope(&request, 2).err().unwrap(), "MCP server requested an ungranted client capability");
    let old = Envelope { jsonrpc: Some("1.0".to_string()), ..reply(Some(2), Some(true), false) };
    assert_eq!(envelope(&old, 2).err().unwrap(), "invalid MCP JSON-RPC version");
    assert_eq!(envelope(&reply(Some(3), Some(true), false), 2).err().unwrap(), "MCP response id mismatch");
    assert_eq!(envelope(&reply(Some(2), None, true), 2).err().unwrap(), "MCP returned a JSON-RPC error");
    assert_eq!(envelope(&reply(Some(2), Some(false), false), 2).err().unwrap(), "invalid MCP response envelope");
    assert_eq!(envelope(&reply(Some(2), Some(true), true), 2).err().unwrap(), "invalid MCP response envelope");
}

#[test]
fn lines_end_at_lf_crlf_or_a_lone_cr() {
    let mut state = SseLine { total: 0, skip_lf: false, bytes: vec![] };
    let mut lines = vec![];
    for byte in b"ab\r\ncd\ne\rf\n" {
        match sse_line(&mut state, Some(*byte)).unwrap() {
            SseRead::Line(line) => lines.push(line),
            SseRead::More => {}
            SseRead::Ended => panic!("not at the end"),
        }
    }
    assert_eq!(lines, vec!["ab", "cd", "e", "f"]);
    assert_eq!(state.total, 11);
    assert!(matches!(sse_line(&mut state, None), Ok(SseRead::Ended)));
}

#[test]
fn a_line_must_be_utf8_and_the_reply_bounded() {
    let mut state = SseLine { total: 0, skip_lf: false, bytes: vec![] };
    assert!(matches!(sse_line(&mut state, Some(0xff)), Ok(SseRead::More)));
    assert_eq!(sse_line(&mut state, Some(b'\n')).err().unwrap(), "MCP stream must be UTF-8");
    let mut full = SseLine { total: MAX_BYTES, skip_lf: false, bytes: vec![] };
    assert_eq!(sse_line(&mut full, Some(b'a')).err().unwrap(), "MCP response exceeds 1 MiB");
}

#[test]
fn data_fields_are_joined_by_line_breaks() {
    let mut data = String::new();
    append_field(&mut data, "data: x");
    assert_eq!(data, "x");
    append_field(&mut data, "data:y");
    assert_eq!(data, "x\ny");
    append_field(&mut data, "data");
    assert_eq!(data, "x\ny\n");
    append_field(&mut data, "event: message");
    assert_eq!(data, "x\ny\n");
}

#[test]
fn an_empty_line_ends_an_event() {
    let mut stream = sse_stream();
    assert_eq!(sse_event_line(&mut stream, "\u{feff}data: {\"a\":1}"), Ok(None));
    assert_eq!(stream.data, "{\"a\":1}");
    assert_eq!(sse_event_line(&mut stream, ""), Ok(Some("{\"a\":1}".to_string())));
    assert_eq!((stream.events, stream.data.as_str()), (1, ""));
    assert_eq!(sse_event_line(&mut stream, ""), Ok(None));
    assert_eq!(stream.events, 2);
    stream.events = 128;
    assert_eq!(sse_event_line(&mut stream, "").err().unwrap(), "MCP stream exceeds 128 events");
}

#[test]
fn the_protocol_answers_are_checked() {
    assert_eq!(accept_initialize(&Some("2025-06-18".to_string()), true), Ok("2025-06-18".to_string()));
    assert_eq!(accept_initialize(&None, true).err().unwrap(), "MCP initialize missing protocolVersion");
    assert_eq!(accept_initialize(&Some("1999".to_string()), true).err().unwrap(), "unsupported MCP protocol version");
    assert_eq!(accept_initialize(&Some("2025-11-25".to_string()), false).err().unwrap(), "MCP server does not advertise tools");
    assert!(accept_initialized(202).is_ok());
    assert_eq!(accept_initialized(200).err().unwrap(), "MCP initialized notification requires HTTP 202");
    assert!(accept_tool_result(true, None, None).is_ok());
    assert!(accept_tool_result(true, Some(true), Some(true)).is_ok());
    assert_eq!(accept_tool_result(true, Some(false), None).err().unwrap(), "invalid MCP tool result");
    assert!(accept_tool_result(false, None, None).is_err());
    assert!(request_fits(1048576).is_ok());
    assert_eq!(request_fits(1048577).err().unwrap(), "MCP request exceeds 1 MiB");
}

#[test]
fn a_reply_is_read_by_its_media_type() {
    assert_eq!(reply_kind("Application/JSON; charset=utf-8"), Ok(false));
    assert_eq!(reply_kind(" text/event-stream "), Ok(true));
    assert_eq!(reply_kind("text/html").err().unwrap(), "unsupported MCP response content type");
}
