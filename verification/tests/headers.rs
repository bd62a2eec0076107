use shoehorn::header::{
    body_framing, headers_list_token, is_hop_by_hop_header, push_forwarded,
};

fn lines(texts: &[&str]) -> Vec<String> {
    texts.iter().map(|t| t.to_string()).collect()
}

fn framing(texts: &[&str]) -> (Option<u64>, bool) {
    let f = body_framing(&lines(texts));
    (f.content_length, f.chunked)
}

#[test]
fn framing_is_read_off_the_headers() {
    assert_eq!(framing(&[]), (None, false));
    assert_eq!(framing(&["Host: x\r\n", "no colon\r\n"]), (None, false));
    assert_eq!(framing(&["Content-Length: 42\r\n"]), (Some(42), false));
    assert_eq!(framing(&["CONTENT-LENGTH:+7\r\n"]), (Some(7), false));
    assert_eq!(framing(&["Content-Length : 42\r\n"]), (None, false));
    assert_eq!(framing(&["Transfer-Encoding: gzip, Chunked \r\n"]), (None, true));
    assert_eq!(framing(&["Transfer-Encoding: chunkedx\r\n"]), (None, false));
    assert_eq!(framing(&["Transfer-Encoding:,,chunked"]), (None, true));
    assert_eq!(
        framing(&["Content-Length: 5\r\n", "Transfer-Encoding: chunked\r\n"]),
        (Some(5), true)
    );
}

#[test]
fn last_content_length_counts() {
    assert_eq!(
        framing(&["Content-Length: 1\r\n", "Content-Length: 2\r\n"]),
        (Some(2), false)
    );
    assert_eq!(
        framing(&["Content-Length: 1\r\n", "Content-Length: x\r\n"]),
        (None, false)
    );
    assert_eq!(
        framing(&["Content-Length: 18446744073709551616\r\n"]),
        (None, false)
    );
    assert_eq!(
        framing(&["Content-Length: 18446744073709551615\r\n"]),
        (Some(u64::MAX), false)
    );
}

#[test]
fn hop_by_hop_headers_are_recognised() {
    for h in [
        "connection: close",
        "proxy-connection: keep-alive",
        "proxy-authorization: x",
        "keep-alive: 5",
        "te: trailers",
        "trailer: x",
        "upgrade: y",
    ] {
        assert!(is_hop_by_hop_header(h), "{}", h);
    }
    for h in [
        "host: x",
        "connections: x",
        "Connection: close",
        "transfer-encoding: chunked",
        "keep-alive",
        "text: te:",
        "",
    ] {
        assert!(!is_hop_by_hop_header(h), "{}", h);
    }
}

#[test]
fn forwarded_headers_keep_their_order_and_their_case() {
    let mut out = "> ".to_string();
    push_forwarded(
        &mut out,
        &lines(&[
            "Host: x\r\n",
            "Proxy-Connection: keep-alive\r\n",
            "X-A: 1\r\n",
            "CONNECTION: close\r\n",
            "x-b: 2\n",
            "TE: a\r\n",
        ]),
    );
    assert_eq!(out, "> Host: x\r\nX-A: 1\r\nx-b: 2\n");
}

#[test]
fn forwarding_again_drops_nothing() {
    let kept = lines(&["Host: x\r\n", "X-A: 1\r\n"]);
    let mut once = String::new();
    push_forwarded(&mut once, &kept);
    assert_eq!(once, "Host: x\r\nX-A: 1\r\n");
}

#[test]
fn tokens_are_found_in_lists() {
    let h = lines(&["Connection: Keep-Alive, \tCLOSE\r\n", "X: y\r\n"]);
    assert!(headers_list_token(&h, "connection", "close"));
    assert!(headers_list_token(&h, "connection", "keep-alive"));
    assert!(!headers_list_token(&h, "connection", "upgrade"));
    assert!(!headers_list_token(&h, "proxy-connection", "close"));
    assert!(headers_list_token(&lines(&["a:"]), "A", ""));
}
