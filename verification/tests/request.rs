use static_server::request::{is_whitespace, parse_request_bytes, ParseError, ParsedRequest};

#[test]
fn parse_request() {
    let req = static_server::request::parse_request("GET / HTTP/1.1").unwrap();

    assert_eq!(req.method(), "GET".as_bytes());
    assert_eq!(req.path(), "/".as_bytes());
}

#[test]
fn parse_request_single_token_lacks_uri() {
    let err = static_server::request::parse_request("GET").unwrap_err();
    assert_eq!(err, ParseError::MissingUri);
}

#[test]
fn parse_request_empty_input() {
    let err = static_server::request::parse_request("").unwrap_err();
    assert_eq!(err, ParseError::EmptyInput);
    assert_eq!(parse_request_bytes(&[]), Err(ParseError::EmptyInput));
}

#[test]
fn parse_extracts_method_and_path_exactly() {
    for (method, path) in [
        ("GET", "/"),
        ("POST", "/submit"),
        ("HEAD", "/a/b/c.png"),
        ("get", "/with?query=1"),
        ("X-CUSTOM", "relative/path"),
    ] {
        let line = format!("{} {} HTTP/1.1", method, path);
        let req = parse_request_bytes(line.as_bytes()).unwrap();
        assert_eq!(
            req,
            ParsedRequest { method: method.as_bytes().to_vec(), path: path.as_bytes().to_vec() }
        );
    }
}

#[test]
fn parse_reads_the_first_line_only() {
    let input = b"GET /index.html HTTP/1.1\r\nHost: localhost\r\nAccept: */*\r\n\r\nbody";
    let req = parse_request_bytes(input).unwrap();
    assert_eq!(req.method, b"GET".to_vec());
    assert_eq!(req.path, b"/index.html".to_vec());

    // The path stands on the second line: the first line has one token.
    assert_eq!(parse_request_bytes(b"GET\r\n/ HTTP/1.1"), Err(ParseError::MissingUri));
}

#[test]
fn parse_without_version_or_line_end() {
    let req = parse_request_bytes(b"GET /only").unwrap();
    assert_eq!(req.method(), b"GET");
    assert_eq!(req.path(), b"/only");
}

#[test]
fn parse_splits_on_any_ascii_whitespace() {
    let req = parse_request_bytes(b"  \tGET\t \x0c/a.css\nHTTP/1.1").unwrap();
    assert_eq!(req.method(), b"GET");
    assert_eq!(req.path(), b"/a.css");

    // A lone carriage return is whitespace, not a line end.
    let req = parse_request_bytes(b"GET\r/x\r\n").unwrap();
    assert_eq!(req.method(), b"GET");
    assert_eq!(req.path(), b"/x");
}

#[test]
fn parse_lines_without_two_tokens_lack_uri() {
    for input in [&b" "[..], b"\r\n", b"   \t ", b"GET ", b" GET\r\n", b"\r\nGET / HTTP/1.1", b"\n"] {
        assert_eq!(parse_request_bytes(input), Err(ParseError::MissingUri));
    }
}

#[test]
fn parse_takes_bytes_that_are_no_text() {
    let req = parse_request_bytes(b"G\xffT /\xfe\x80 HTTP/1.1").unwrap();
    assert_eq!(req.method(), b"G\xffT");
    assert_eq!(req.path(), b"/\xfe\x80");
}

#[test]
fn parse_agrees_with_std_splitting() {
    for text in [
        "GET / HTTP/1.1",
        "GET  /a  HTTP/1.1\r\nX: y",
        "a b",
        "a\tb\tc\r\n",
        "one",
        " ",
        "\r\n\r\n",
        "x \r\n y",
    ] {
        let mut tokens = text.split("\r\n").next().unwrap().split_ascii_whitespace();
        let method = tokens.next();
        let path = tokens.next();
        match parse_request_bytes(text.as_bytes()) {
            Ok(req) => {
                assert_eq!(Some(req.method()), method.map(str::as_bytes));
                assert_eq!(Some(req.path()), path.map(str::as_bytes));
            }
            Err(error) => {
                assert_eq!(error, ParseError::MissingUri);
                assert_eq!(path, None);
            }
        }
    }
}

#[test]
fn parse_error_messages() {
    assert_eq!(ParseError::EmptyInput.message(), "Empty input provided");
    assert_eq!(ParseError::MissingUri.message(), "No uri were presented");
}

#[test]
fn whitespace_bytes() {
    for byte in 0u8..=255 {
        assert_eq!(is_whitespace(byte), byte.is_ascii_whitespace());
    }
}
