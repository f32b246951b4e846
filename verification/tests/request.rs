use hotpocket::request::{decode, parse_request, ParseError};

#[test]
fn decode_keeps_valid_text() {
    assert_eq!(decode(b"GET / HTTP/1.1\r\n"), "GET / HTTP/1.1\r\n");
    assert_eq!(decode("caf\u{e9}".as_bytes()), "caf\u{e9}");
    assert_eq!(decode(&[]), "");
}

#[test]
fn decode_replaces_invalid_sequences() {
    assert_eq!(decode(&[b'a', 0xff, b'b']), "a\u{fffd}b");
    assert_eq!(decode(&[0xe2, 0x82]), "\u{fffd}");
    assert_eq!(decode(&[0xc0, 0x80]), "\u{fffd}\u{fffd}");
}

#[test]
fn request_line_gives_method_and_path() {
    let request = parse_request("GET /index HTTP/1.1\r\nHost: x\r\n\r\n").unwrap();
    assert_eq!(request.method, "GET");
    assert_eq!(request.path, "/index");
    assert_eq!(request.headers.len(), 1);
    assert_eq!(request.headers.get("Host"), Some(&"x".to_string()));
    assert_eq!(request.body, None);
}

#[test]
fn padding_after_the_request_is_dropped() {
    let mut text = String::from("POST /signup HTTP/1.1\r\nA: 1\r\nB: 2\r\n\r\nname=x");
    while text.len() < 1024 {
        text.push(' ');
    }
    let request = parse_request(&text).unwrap();
    assert_eq!(request.method, "POST");
    assert_eq!(request.path, "/signup");
    assert_eq!(request.headers.len(), 2);
    assert_eq!(request.headers.get("A"), Some(&"1".to_string()));
    assert_eq!(request.headers.get("B"), Some(&"2".to_string()));
    assert_eq!(request.body, Some("name=x".to_string()));
}

#[test]
fn request_line_needs_exactly_three_tokens() {
    assert_eq!(parse_request("GET /").err(), Some(ParseError::MalformedRequestLine));
    assert_eq!(parse_request("GET / HTTP/1.1 extra").err(), Some(ParseError::MalformedRequestLine));
    assert_eq!(parse_request("").err(), Some(ParseError::MalformedRequestLine));
    assert_eq!(parse_request("   ").err(), Some(ParseError::MalformedRequestLine));
    assert_eq!(
        parse_request("\r\nGET / HTTP/1.1").err(),
        Some(ParseError::MalformedRequestLine)
    );
    assert!(parse_request("  GET\t/   HTTP/1.1").is_ok());
}

#[test]
fn header_line_without_separator_is_skipped() {
    let request = parse_request("GET / HTTP/1.1\r\nBroken\r\nHost: x\r\nAlso:broken").unwrap();
    assert_eq!(request.headers.len(), 1);
    assert_eq!(request.headers.get("Host"), Some(&"x".to_string()));
}

#[test]
fn later_header_of_the_same_name_wins() {
    let request = parse_request("GET / HTTP/1.1\r\nA: 1\r\nB: 2\r\nA: 3").unwrap();
    assert_eq!(request.headers.len(), 2);
    assert_eq!(request.headers.get("A"), Some(&"3".to_string()));
    assert_eq!(request.headers.get("a"), None);
}

#[test]
fn header_value_keeps_later_separators() {
    let request = parse_request("GET / HTTP/1.1\r\nReferer: http: //x").unwrap();
    assert_eq!(request.headers.get("Referer"), Some(&"http: //x".to_string()));
}

#[test]
fn headers_end_at_the_first_empty_line() {
    let request = parse_request("GET / HTTP/1.1\r\nA: 1\r\n\r\nB: 2").unwrap();
    assert_eq!(request.headers.len(), 1);
    assert_eq!(request.body, Some("B: 2".to_string()));
}

#[test]
fn body_is_the_last_line_after_the_empty_line() {
    let request = parse_request("PUT / HTTP/1.1\r\n\r\nfirst\r\nlast").unwrap();
    assert_eq!(request.headers.len(), 0);
    assert_eq!(request.body, Some("last".to_string()));
}

#[test]
fn no_body_without_an_empty_line() {
    let request = parse_request("GET / HTTP/1.1\r\nA: 1\r\nB: 2").unwrap();
    assert_eq!(request.body, None);
    let request = parse_request("GET / HTTP/1.1").unwrap();
    assert_eq!(request.headers.len(), 0);
    assert_eq!(request.body, None);
}
