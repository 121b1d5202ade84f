use desktop_shell::relay::encode_request;
use desktop_shell::relay::parse_response;
use desktop_shell::relay::process_message;
use desktop_shell::relay::HttpOutcome;

fn ok_outcome(body: &[u8]) -> HttpOutcome {
    HttpOutcome::Response { status: 200, body: body.to_vec() }
}

#[test]
fn encode_request_plain_fields() {
    let r = encode_request(b"key", b"msg", b"ctx", b"mod");
    assert_eq!(
        r,
        br#"{"apiKey":"key","context":"ctx","message":"msg","model":"mod"}"#.to_vec()
    );
}

#[test]
fn encode_request_escapes_quotes_and_backslashes() {
    let r = encode_request(b"k", b"say \"hi\" \\ back", b"", b"m");
    assert_eq!(
        r,
        br#"{"apiKey":"k","context":"","message":"say \"hi\" \\ back","model":"m"}"#.to_vec()
    );
}

#[test]
fn encode_request_escapes_controls() {
    let r = encode_request(b"k", b"a\nb\tc\x01d", b"", b"m");
    assert_eq!(
        r,
        br#"{"apiKey":"k","context":"","message":"a\nb\tc\u0001d","model":"m"}"#.to_vec()
    );
}

#[test]
fn process_message_success_returns_content_and_memories() {
    let r = process_message(ok_outcome(br#"{"content":"hi","memories":["a"]}"#)).unwrap();
    assert_eq!(r.content, b"hi".to_vec());
    assert_eq!(r.memories, vec![b"a".to_vec()]);
}

#[test]
fn process_message_api_error_carries_body() {
    let outcome = HttpOutcome::Response { status: 500, body: br#""boom""#.to_vec() };
    let e = process_message(outcome).unwrap_err();
    let text = String::from_utf8(e).unwrap();
    assert!(text.contains("boom"));
    assert_eq!(text, "API Error: \"boom\"");
}

#[test]
fn process_message_transport_failure_carries_detail() {
    let outcome = HttpOutcome::TransportFailure {
        detail: b"connection refused (os error 111)".to_vec(),
    };
    let e = process_message(outcome).unwrap_err();
    let text = String::from_utf8(e).unwrap();
    assert!(text.contains("connection refused"));
}

#[test]
fn process_message_undecodable_success_body_is_an_error() {
    let e = process_message(ok_outcome(b"not json")).unwrap_err();
    assert_eq!(e, b"invalid response body".to_vec());
}

#[test]
fn process_message_any_2xx_is_success() {
    let outcome = HttpOutcome::Response {
        status: 204,
        body: br#"{"content":"x","memories":[]}"#.to_vec(),
    };
    let r = process_message(outcome).unwrap();
    assert_eq!(r.content, b"x".to_vec());
    assert!(r.memories.is_empty());
}

#[test]
fn process_message_3xx_is_an_api_error() {
    let outcome = HttpOutcome::Response { status: 301, body: b"moved".to_vec() };
    let e = process_message(outcome).unwrap_err();
    assert_eq!(e, b"API Error: moved".to_vec());
}

#[test]
fn process_message_status_boundaries() {
    let body = br#"{"content":"x","memories":[]}"#;
    let ok_low = HttpOutcome::Response { status: 200, body: body.to_vec() };
    let ok_high = HttpOutcome::Response { status: 299, body: body.to_vec() };
    let below = HttpOutcome::Response { status: 199, body: body.to_vec() };
    let above = HttpOutcome::Response { status: 300, body: body.to_vec() };
    assert!(process_message(ok_low).is_ok());
    assert!(process_message(ok_high).is_ok());
    assert!(process_message(below).is_err());
    assert!(process_message(above).is_err());
}

#[test]
fn process_message_returns_memories_in_order() {
    let body = br#"{"content":"c","memories":["one","two","three"]}"#;
    let r = process_message(ok_outcome(body)).unwrap();
    assert_eq!(
        r.memories,
        vec![b"one".to_vec(), b"two".to_vec(), b"three".to_vec()]
    );
}

#[test]
fn parse_response_accepts_spaced_empty_array() {
    let r = parse_response(br#"{"content":"x","memories":[   ]}"#).unwrap();
    assert!(r.memories.is_empty());
}

#[test]
fn parse_response_decodes_nul_escape() {
    let r = parse_response(br#"{"content":"a\u0000b","memories":[]}"#).unwrap();
    assert_eq!(r.content, b"a\x00b".to_vec());
}

#[test]
fn parse_response_tolerates_whitespace_and_field_order() {
    let body = b" {\n\t\"memories\" : [ \"a\" , \"b\" ] ,\r\n \"content\" : \"hi\" } ";
    let r = parse_response(body).unwrap();
    assert_eq!(r.content, b"hi".to_vec());
    assert_eq!(r.memories, vec![b"a".to_vec(), b"b".to_vec()]);
}

#[test]
fn parse_response_decodes_simple_escapes() {
    let r = parse_response(br#"{"content":"a\n\t\"\\\/b","memories":[]}"#).unwrap();
    assert_eq!(r.content, b"a\n\t\"\\/b".to_vec());
}

#[test]
fn parse_response_decodes_unicode_escapes() {
    let r = parse_response(br#"{"content":"\u0041\u00e9\u20ac","memories":[]}"#).unwrap();
    assert_eq!(r.content, "A\u{e9}\u{20ac}".as_bytes().to_vec());
}

#[test]
fn parse_response_decodes_surrogate_pairs() {
    let r = parse_response(br#"{"content":"\ud83d\ude00","memories":[]}"#).unwrap();
    assert_eq!(r.content, "\u{1f600}".as_bytes().to_vec());
}

#[test]
fn parse_response_passes_raw_utf8_through() {
    let r = parse_response("{\"content\":\"é€\",\"memories\":[]}".as_bytes()).unwrap();
    assert_eq!(r.content, "\u{e9}\u{20ac}".as_bytes().to_vec());
}

#[test]
fn parse_response_rejects_lone_surrogate() {
    assert!(parse_response(br#"{"content":"\ud83d","memories":[]}"#).is_none());
}

#[test]
fn parse_response_rejects_unknown_field() {
    assert!(parse_response(br#"{"content":"hi","extra":["a"]}"#).is_none());
}

#[test]
fn parse_response_rejects_duplicate_field() {
    assert!(parse_response(br#"{"content":"hi","content":"ho"}"#).is_none());
}

#[test]
fn parse_response_rejects_missing_member() {
    assert!(parse_response(br#"{"content":"hi"}"#).is_none());
}

#[test]
fn parse_response_rejects_trailing_garbage() {
    assert!(parse_response(br#"{"content":"hi","memories":[]}x"#).is_none());
}

#[test]
fn parse_response_rejects_unterminated_string() {
    assert!(parse_response(br#"{"content":"hi","memories":["a]}"#).is_none());
}

#[test]
fn parse_response_rejects_raw_control_byte_in_string() {
    assert!(parse_response(b"{\"content\":\"h\x01i\",\"memories\":[]}").is_none());
}

#[test]
fn parse_response_accepts_escaped_key() {
    let r = parse_response(br#"{"\u0063ontent":"hi","memories":[]}"#).unwrap();
    assert_eq!(r.content, b"hi".to_vec());
}

#[test]
fn escaping_round_trips_through_the_reply_grammar() {
    // Escape a message through the encoder, then feed the escaped text back
    // through the reply parser: the decoded content must be the original.
    let message: &[u8] = b"line1\nline2 \"q\" \\ \x02end";
    let encoded = encode_request(b"", message, b"", b"");
    let prefix: usize = br#"{"apiKey":"","context":"","message":""#.len();
    let suffix: usize = br#"","model":""}"#.len();
    let escaped = &encoded[prefix..encoded.len() - suffix];
    let mut body = Vec::new();
    body.extend_from_slice(b"{\"content\":\"");
    body.extend_from_slice(escaped);
    body.extend_from_slice(b"\",\"memories\":[]}");
    let parsed = parse_response(&body).unwrap();
    assert_eq!(parsed.content, message.to_vec());
}
