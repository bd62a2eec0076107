use shoehorn::protocol::{Action, Event, Peer, ProxyError};
use shoehorn::request::{
    client_requested_close, find_origin, parse_request_line, request_body_framing,
    write_upstream_head, HeadReader, RequestHead,
};

fn head(method: &str, target: &str, version: &str, headers: &[&str]) -> RequestHead {
    RequestHead {
        method: method.to_string(),
        target: target.to_string(),
        version: version.to_string(),
        headers: headers.iter().map(|h| h.to_string()).collect(),
    }
}

fn parts(line: &str) -> Option<(String, String, String)> {
    parse_request_line(line).map(|h| (h.method, h.target, h.version))
}

fn some(a: &str, b: &str, c: &str) -> Option<(String, String, String)> {
    Some((a.to_string(), b.to_string(), c.to_string()))
}

#[test]
fn request_lines_are_taken_apart() {
    assert_eq!(
        parts("GET http://example.com/ HTTP/1.1\r\n"),
        some("GET", "http://example.com/", "HTTP/1.1")
    );
    assert_eq!(parts("connect a:443\n"), some("CONNECT", "a:443", "HTTP/1.1"));
    assert_eq!(parts("GET / HTTP/1.0 more \t\r\n"), some("GET", "/", "HTTP/1.0 more"));
    assert_eq!(parts("g\u{e9} x"), some("G\u{e9}", "x", "HTTP/1.1"));
}

#[test]
fn malformed_request_lines_are_rejected() {
    assert_eq!(parts("GET\r\n"), None);
    assert_eq!(parts("GET  / HTTP/1.1\r\n"), None);
    assert_eq!(parts(" GET / HTTP/1.1\r\n"), None);
    assert_eq!(parts("   \r\n"), None);
    assert_eq!(parts("GET \r\n"), None);
}

#[test]
fn origins_are_found() {
    let cases = [
        ("http://example.com:8080/path", "example.com", 8080, "/path"),
        ("http://example.com/path?a=b:1/2", "example.com", 80, "/path?a=b:1/2"),
        ("http://example.com", "example.com", 80, ""),
        ("example.com:81", "example.com", 81, ""),
        ("http://example.com:x/", "example.com", 80, "/"),
        ("http://example.com:65536/", "example.com", 80, "/"),
        ("http://example.com:/", "example.com", 80, "/"),
        ("http://user:pw@h:90/", "user:pw@h", 90, "/"),
        ("/only/path", "", 80, "/only/path"),
        ("http://", "", 80, ""),
        ("HTTP://h/", "HTTP", 80, "//h/"),
        ("http://http://h", "http", 80, "//h"),
    ];
    for (target, host, port, path) in cases {
        let o = find_origin(target);
        assert_eq!(
            (o.host.as_str(), o.port, o.path.as_str()),
            (host, port, path),
            "{}",
            target
        );
    }
}

#[test]
fn upstream_heads_carry_the_path_and_ask_for_close() {
    let h = head(
        "GET",
        "http://example.com/path",
        "HTTP/1.1",
        &["Host: example.com\r\n", "Proxy-Connection: keep-alive\r\n", "Accept: */*\r\n"],
    );
    assert_eq!(
        write_upstream_head(&h),
        "GET /path HTTP/1.1\r\nHost: example.com\r\nAccept: */*\r\nConnection: close\r\n\r\n"
    );
}

#[test]
fn wish_to_close_is_recognised() {
    assert!(client_requested_close(&head("GET", "/", "http/1.0", &[])));
    assert!(!client_requested_close(&head("GET", "/", "HTTP/1.1", &[])));
    assert!(client_requested_close(&head("GET", "/", "HTTP/1.1", &["connection: x, Close\r\n"])));
    assert!(client_requested_close(&head("GET", "/", "HTTP/1.1", &["Proxy-Connection: close\r\n"])));
    assert!(!client_requested_close(&head("GET", "/", "HTTP/1.1", &["Connection: closed\r\n"])));
    assert!(!client_requested_close(&head("GET", "/", "HTTP/1.1", &["X-Connection: close\r\n"])));
}

#[test]
fn request_framing_is_that_of_its_headers() {
    let f = request_body_framing(&head("POST", "/", "HTTP/1.1", &["Content-Length: 3\r\n"]));
    assert_eq!((f.content_length, f.chunked), (Some(3), false));
}

fn feed(lines: &[&str]) -> HeadReader {
    let mut reader = HeadReader::start();
    for line in lines {
        assert!(matches!(reader.action(), Action::ReadLine { from: Peer::Client }));
        reader = reader.next(Event::Line(line.to_string()));
    }
    reader
}

#[test]
fn head_holds_the_lines_read() {
    match feed(&["get /x HTTP/1.1\r\n", "A: 1\r\n", "B: 2\n", "\r\n"]) {
        HeadReader::Complete(h) => {
            assert_eq!(h.method, "GET");
            assert_eq!(h.target, "/x");
            assert_eq!(h.version, "HTTP/1.1");
            assert_eq!(h.headers, ["A: 1\r\n", "B: 2\n"]);
        }
        _ => panic!("the head is complete"),
    }
}

#[test]
fn end_of_input_ends_a_head() {
    assert!(matches!(feed(&["GET / HTTP/1.1\r\n", ""]), HeadReader::Complete(_)));
}

#[test]
fn blank_first_line_is_no_request() {
    for line in ["", "\n", "\r\n"] {
        let reader = feed(&[line]);
        assert!(matches!(reader.action(), Action::Stop));
        assert!(matches!(reader, HeadReader::NoRequest));
    }
}

#[test]
fn heads_can_break() {
    assert!(matches!(
        feed(&["GET\r\n"]),
        HeadReader::Broken(ProxyError::MalformedRequestLine)
    ));
    let reader = feed(&["GET / HTTP/1.1\r\n"]).next(Event::Failed("reset".to_string()));
    match reader {
        HeadReader::Broken(error) => assert_eq!(error.message(), "reset"),
        _ => panic!("the head is broken"),
    }
}

#[test]
fn request_line_is_rewritten_whatever_host_and_port() {
    let targets = ["http://example.com/path", "http://example.com:8080/path", "http://[::1]:x/path"];
    for target in targets {
        let head = RequestHead {
            method: "GET".to_string(),
            target: target.to_string(),
            version: "HTTP/1.1".to_string(),
            headers: Vec::new(),
        };
        assert_eq!(
            write_upstream_head(&head),
            "GET /path HTTP/1.1\r\nConnection: close\r\n\r\n"
        );
    }
}
