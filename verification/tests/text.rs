use hotpocket::text::{
    is_whitespace, parse_header_line, split_lines, split_tokens, to_chars, trim_end,
};

#[test]
fn white_space_agrees_with_std() {
    let mut code: u32 = 0;
    while code <= 0x10FFFF {
        if let Some(c) = char::from_u32(code) {
            assert_eq!(is_whitespace(c), c.is_whitespace(), "U+{:04X}", code);
        }
        code += 1;
    }
}

#[test]
fn characters_come_in_order() {
    assert_eq!(to_chars("a\u{e9}\u{1F600}"), vec!['a', '\u{e9}', '\u{1F600}']);
    assert_eq!(to_chars(""), Vec::<char>::new());
}

#[test]
fn trim_end_drops_trailing_white_space_only() {
    assert_eq!(trim_end("  GET / HTTP/1.1\r\n\r\n   "), "  GET / HTTP/1.1");
    assert_eq!(trim_end("abc"), "abc");
    assert_eq!(trim_end(" \t\r\n"), "");
    assert_eq!(trim_end(""), "");
    assert_eq!(trim_end("x\u{a0}\u{3000}"), "x");
}

#[test]
fn trim_end_agrees_with_std() {
    for text in ["", " ", "a ", " a", "a b \r\n", "\u{2003}x\u{2003}", "x\u{feff}"] {
        assert_eq!(trim_end(text), text.trim_end());
    }
}

#[test]
fn lines_split_on_carriage_return_line_feed() {
    let lines = split_lines("GET / HTTP/1.1\r\nHost: x\r\n\r\nbody");
    assert_eq!(lines, vec!["GET / HTTP/1.1", "Host: x", "", "body"]);
}

#[test]
fn lines_of_edge_cases() {
    assert_eq!(split_lines(""), vec![""]);
    assert_eq!(split_lines("\r\n"), vec!["", ""]);
    assert_eq!(split_lines("a\r"), vec!["a\r"]);
    assert_eq!(split_lines("a\nb"), vec!["a\nb"]);
    assert_eq!(split_lines("a\r\r\nb"), vec!["a\r", "b"]);
    assert_eq!(split_lines("a\r\n\r\n"), vec!["a", "", ""]);
}

#[test]
fn lines_agree_with_std() {
    for text in ["", "\r\n", "a\r\nb", "\r\r\n\n", "x\r\n\r\ny\r\n", "\n\r\n\r"] {
        let expected: Vec<&str> = text.split("\r\n").collect();
        assert_eq!(split_lines(text), expected);
    }
}

#[test]
fn tokens_split_on_white_space() {
    let tokens = split_tokens("  GET \t / \u{3000}HTTP/1.1 ");
    assert_eq!(tokens, vec!["GET", "/", "HTTP/1.1"]);
}

#[test]
fn tokens_of_edge_cases() {
    assert_eq!(split_tokens(""), Vec::<String>::new());
    assert_eq!(split_tokens(" \t "), Vec::<String>::new());
    assert_eq!(split_tokens("one"), vec!["one"]);
    assert_eq!(split_tokens("a b c d"), vec!["a", "b", "c", "d"]);
}

#[test]
fn tokens_agree_with_std() {
    for text in ["", " a", "a  b", "GET / HTTP/1.1", "\u{85}x\u{2028}y", "a\u{200b}b c"] {
        let expected: Vec<&str> = text.split_whitespace().collect();
        assert_eq!(split_tokens(text), expected);
    }
}

#[test]
fn header_line_parts_at_first_separator() {
    assert_eq!(
        parse_header_line("Host: example.org"),
        Some(("Host".to_string(), "example.org".to_string()))
    );
    assert_eq!(parse_header_line("A: b: c"), Some(("A".to_string(), "b: c".to_string())));
    assert_eq!(parse_header_line(": "), Some((String::new(), String::new())));
    assert_eq!(parse_header_line("Name: "), Some(("Name".to_string(), String::new())));
}

#[test]
fn header_line_without_separator_is_none() {
    assert_eq!(parse_header_line("Host:example.org"), None);
    assert_eq!(parse_header_line("Host"), None);
    assert_eq!(parse_header_line(""), None);
    assert_eq!(parse_header_line(":"), None);
}
