use shoehorn::header::BodyFraming;
use shoehorn::status::{response_has_body, response_has_self_defined_length, status_code};

#[test]
fn status_codes_are_read() {
    assert_eq!(status_code("HTTP/1.1 200 OK\r\n"), Some(200));
    assert_eq!(status_code("HTTP/1.1   404\tNot Found\r\n"), Some(404));
    assert_eq!(status_code("  HTTP/1.1 204"), Some(204));
    assert_eq!(status_code("HTTP/1.1\r\n"), None);
    assert_eq!(status_code(""), None);
    assert_eq!(status_code("HTTP/1.1 abc"), None);
    assert_eq!(status_code("HTTP/1.1 65535"), Some(65535));
    assert_eq!(status_code("HTTP/1.1 65536"), None);
    assert_eq!(status_code("HTTP/1.1 +200 OK"), Some(200));
}

#[test]
fn bodies_are_expected_where_there_are_some() {
    assert!(response_has_body("GET", "HTTP/1.1 200 OK\r\n"));
    assert!(!response_has_body("HEAD", "HTTP/1.1 200 OK\r\n"));
    assert!(!response_has_body("head", "HTTP/1.1 200 OK\r\n"));
    assert!(!response_has_body("GET", "HTTP/1.1 100 Continue\r\n"));
    assert!(!response_has_body("GET", "HTTP/1.1 199 x\r\n"));
    assert!(!response_has_body("GET", "HTTP/1.1 204 No Content\r\n"));
    assert!(!response_has_body("GET", "HTTP/1.1 304 Not Modified\r\n"));
    assert!(response_has_body("GET", "HTTP/1.1 99 x\r\n"));
    assert!(response_has_body("GET", "nonsense\r\n"));
}

#[test]
fn ends_of_responses_are_told() {
    let none = BodyFraming { content_length: None, chunked: false };
    let length = BodyFraming { content_length: Some(0), chunked: false };
    let chunked = BodyFraming { content_length: None, chunked: true };
    let ok = "HTTP/1.1 200 OK\r\n";
    assert!(!response_has_self_defined_length("GET", ok, none));
    assert!(response_has_self_defined_length("GET", ok, length));
    assert!(response_has_self_defined_length("GET", ok, chunked));
    assert!(response_has_self_defined_length("HEAD", ok, none));
    assert!(response_has_self_defined_length("GET", "HTTP/1.1 204 x", none));
}
