use gemini_client::{Request, RequestError};

#[test]
fn request_accepts_a_normal_gemini_url() {
    let rq = Request::new("gemini://example.org/page").unwrap();
    assert_eq!(rq.url_as_str(), "gemini://example.org/page");
    let url = rq.url();
    assert_eq!(url.host, Some("example.org"));
    assert_eq!(url.scheme, Some("gemini"));
}

#[test]
fn request_rejects_an_oversized_url() {
    let mut url = String::from("gemini://example.org/");
    url.push_str(&"a".repeat(1025 - url.len()));
    assert_eq!(url.len(), 1025);
    let err = Request::new(&url).unwrap_err();
    assert!(matches!(err, RequestError::UrlTooLong));
    // 1024 bytes is still within bounds
    let ok = "gemini://example.org/".to_string() + &"a".repeat(1024 - 21);
    assert_eq!(ok.len(), 1024);
    assert!(Request::new(&ok).is_ok());
}

#[test]
fn request_rejects_userinfo() {
    let err = Request::new("gemini://user@example.org/").unwrap_err();
    assert!(matches!(err, RequestError::InvalidUrl));
}

#[test]
fn request_rejects_a_url_without_a_host() {
    let err = Request::new("mailto:someone@example.org").unwrap_err();
    assert!(matches!(err, RequestError::InvalidUrl));
}

#[test]
fn request_rejects_a_leading_byte_order_mark() {
    let err = Request::new("\u{FEFF}gemini://example.org/").unwrap_err();
    assert!(matches!(err, RequestError::InvalidUrl));
}

#[test]
fn request_write_emits_the_url_and_crlf() {
    let rq = Request::new("gemini://example.org/page").unwrap();
    let mut wire = Vec::new();
    rq.write(&mut wire);
    assert_eq!(wire, b"gemini://example.org/page\r\n");
    // appending writes after what is already there
    rq.write(&mut wire);
    assert_eq!(
        wire,
        b"gemini://example.org/page\r\ngemini://example.org/page\r\n"
    );
}
