use gemini_client::{Response, ResponseHeader, ResponseHeaderParseError, ResponseReadError, Status};

#[test]
fn response_header_parse() {
    // One status line: <STATUS><SPACE><META><CR><LF>.
    let header = ResponseHeader::parse("20 all good, yup\r\n".as_bytes()).unwrap();
    assert_eq!(header.status, Status::Success);
    assert_eq!(header.meta(), "all good, yup");
    assert!(ResponseHeader::parse("59 missing-crlf".as_bytes()).is_err());
    assert!(ResponseHeader::parse("59-missing-space\r\n".as_bytes()).is_err());
    assert!(ResponseHeader::parse("69 bad number\r\nf".as_bytes()).is_err());
    // non UTF-8
    assert!(ResponseHeader::parse(b"\xF0\xA4\xAD\xA2\xF0\xA4\xAD\xA2\xF0\xA4\xAD").is_err());

    let meta = "too large <META>".repeat(100);
    assert!(ResponseHeader::parse(format!("20 {meta}\r\n").as_bytes()).is_err());
    let meta = "stuff after a CRLF doesn't get touched\r\n".repeat(50);
    assert!(ResponseHeader::parse(format!("20 {meta}").as_bytes()).is_ok());
}

#[test]
fn response_parse() {
    let text = "20 text/gemini; charset=utf-8\r\nthis is some text\r\n, pretend this is markdown or something".to_string();
    let response = Response::read(text.as_bytes()).unwrap();
    assert_eq!(response.header.status, Status::Success);
    assert_eq!(response.header.meta(), "text/gemini; charset=utf-8");
    assert!(std::str::from_utf8(response.body.as_slice()).is_ok());
}

#[test]
fn response_body_is_untouched() {
    let text = "20 text/gemini; charset=utf-8\r\nthis is some text\r\n, more body";
    let response = Response::read(text.as_bytes()).unwrap();
    assert_eq!(response.header.status, Status::Success);
    assert_eq!(response.header.meta(), "text/gemini; charset=utf-8");
    assert_eq!(response.body.as_slice(), "this is some text\r\n, more body".as_bytes());
    assert_eq!(response.body_as_str(), Some("this is some text\r\n, more body"));
}

#[test]
fn response_without_header_boundary() {
    let err = Response::read("20 no line ending at all".as_bytes()).unwrap_err();
    assert!(matches!(err, ResponseReadError::MissingHeader));
    let err = Response::read(&[]).unwrap_err();
    assert!(matches!(err, ResponseReadError::MissingHeader));
}

#[test]
fn response_propagates_header_errors() {
    let err = Response::read("69 nope\r\nbody".as_bytes()).unwrap_err();
    match err {
        ResponseReadError::HeaderParse(ResponseHeaderParseError::Status(e)) => {
            assert_eq!(e.0, 69);
        }
        other => panic!("expected a status error, got {:?}", other),
    }
}

#[test]
fn response_empty_body() {
    let response = Response::read("20 text/gemini\r\n".as_bytes()).unwrap();
    assert_eq!(response.header.meta(), "text/gemini");
    assert!(response.body.is_empty());
}

#[test]
fn header_error_variants() {
    // leading byte-order mark
    let err = ResponseHeader::parse("\u{FEFF}20 x\r\n".as_bytes()).unwrap_err();
    assert!(matches!(err, ResponseHeaderParseError::Malformed(_)));
    // status token is not a number
    let err = ResponseHeader::parse("ab x\r\n".as_bytes()).unwrap_err();
    assert!(matches!(err, ResponseHeaderParseError::Malformed(_)));
    // status token does not fit a byte
    let err = ResponseHeader::parse("999 x\r\n".as_bytes()).unwrap_err();
    assert!(matches!(err, ResponseHeaderParseError::Malformed(_)));
    // number in range but not a defined code
    let err = ResponseHeader::parse("21 x\r\n".as_bytes()).unwrap_err();
    match err {
        ResponseHeaderParseError::Status(e) => assert_eq!(e.0, 21),
        other => panic!("expected a status error, got {:?}", other),
    }
    // META with a leading byte-order mark
    let err = ResponseHeader::parse("20 \u{FEFF}x\r\n".as_bytes()).unwrap_err();
    assert!(matches!(err, ResponseHeaderParseError::Malformed(_)));
    // META may be empty
    let header = ResponseHeader::parse("20 \r\n".as_bytes()).unwrap();
    assert_eq!(header.meta(), "");
    // many leading zeros still name the same code
    let header = ResponseHeader::parse("00020 ok\r\n".as_bytes()).unwrap();
    assert_eq!(header.status, Status::Success);
}

#[test]
fn header_new_checks_meta_length() {
    let header = ResponseHeader::new(Status::Success, "text/gemini").unwrap();
    assert_eq!(header.meta(), "text/gemini");
    assert_eq!(header.status(), Status::Success);
    let long = "x".repeat(1025);
    assert!(ResponseHeader::new(Status::Success, &long).is_err());
    let edge = "x".repeat(1024);
    assert!(ResponseHeader::new(Status::Success, &edge).is_ok());
}
