use http::client::{get, parse_message, parse_response, Message, Response};
use http::framing::BodyFraming;
use http::{HttpVersion, ParseError, StatusCode, StatusCodeClass};

#[test]
fn get_google_test() {
    let result = get("http://www.google.com");
    assert!(result.is_some());

    let response = result.unwrap();
    assert_eq!(HttpVersion::Version11, response.http_version);
    assert_eq!(StatusCode::Okay, response.status_code);
    assert_eq!("OK", response.reason_phrase);
}

#[test]
fn parse_response_test() {
    let message: Vec<u8> = vec![
        0x48, 0x54, 0x54, 0x50, 0x2f, 0x31, 0x2E, 0x31, 0x20, 0x32, 0x30, 0x30, 0x20, 0x4F, 0x4C,
        0x0D, 0x0A, 0x0D, 0x0A, 0x3C, 0x21, 0x64, 0x6F, 0x63, 0x74, 0x79, 0x70, 0x65, 0x20, 0x68,
        0x74, 0x6D, 0x6C, 0x3E, 0x3C, 0x68, 0x74, 0x6D, 0x6C, 0x3E, 0x3C, 0x2F, 0x68, 0x74, 0x6D,
        0x6C, 0x3E,
    ];

    let expect = Ok(Message::Response(Response {
        http_version: HttpVersion::Version11,
        status_code: StatusCode::Okay,
        reason_phrase: "OL".to_string(),
        headers: vec![],
        framing: BodyFraming::UntilClose,
        body: b"<!doctype html><html></html>".to_vec(),
    }));

    let actual = parse_message(message);
    assert_eq!(expect, actual);
}

#[test]
fn simple_ok_response() {
    let buf = b"HTTP/1.1 200 OK\r\n\r\n";
    let (resp, rest) = parse_response(buf).unwrap();
    assert_eq!(HttpVersion::Version11, resp.http_version);
    assert_eq!(StatusCode::Okay, resp.status_code);
    assert_eq!("OK", resp.reason_phrase);
    assert!(resp.headers.is_empty());
    assert_eq!(BodyFraming::UntilClose, resp.framing);
    assert!(resp.body.is_empty());
    assert!(rest.is_empty());
}

#[test]
fn not_found_with_body() {
    let buf = b"HTTP/1.1 404 Not Found\r\nContent-Length: 13\r\n\r\nHello, world!";
    let (resp, rest) = parse_response(buf).unwrap();
    assert_eq!(StatusCode::NotFound, resp.status_code);
    assert_eq!("Not Found", resp.reason_phrase);
    assert_eq!(1, resp.headers.len());
    assert_eq!("Content-Length", resp.headers[0].name);
    assert_eq!("13", resp.headers[0].value);
    assert_eq!(BodyFraming::FixedLength(13), resp.framing);
    assert_eq!(b"Hello, world!".to_vec(), resp.body);
    assert!(rest.is_empty());
}

#[test]
fn truncated_status_line_then_full() {
    let truncated = b"HTTP/1.1 20";
    assert_eq!(Err(ParseError::IncompleteInput), parse_response(truncated));

    let full = b"HTTP/1.1 200 OK\r\n\r\n";
    let after_retry = parse_response(full);
    let single_shot = parse_response(full);
    assert!(after_retry.is_ok());
    assert_eq!(single_shot, after_retry);
}

#[test]
fn no_content_leaves_remainder() {
    let buf = b"HTTP/1.0 204 No Content\r\n\r\nextra-bytes";
    let (resp, rest) = parse_response(buf).unwrap();
    assert_eq!(HttpVersion::Version10, resp.http_version);
    assert_eq!(StatusCode::NoContent, resp.status_code);
    assert_eq!(BodyFraming::NoBody, resp.framing);
    assert!(resp.body.is_empty());
    assert_eq!(b"extra-bytes".to_vec(), rest.to_vec());
}

#[test]
fn extension_code_classified_by_digit() {
    let buf = b"HTTP/1.1 471 X\r\n\r\n";
    let (resp, _) = parse_response(buf).unwrap();
    assert_eq!(StatusCode::Extension(471, String::new()), resp.status_code);
    assert_eq!(Some(StatusCodeClass::ClientError), resp.status_code.class_of());
    assert_eq!("X", resp.reason_phrase);
}

#[test]
fn empty_buffer_is_incomplete() {
    assert_eq!(Err(ParseError::IncompleteInput), parse_response(b""));
}

#[test]
fn unknown_version_is_unsupported() {
    assert_eq!(
        Err(ParseError::UnsupportedVersion),
        parse_response(b"HTTP/2.0 200 OK\r\n\r\n")
    );
    assert_eq!(
        Err(ParseError::UnsupportedVersion),
        parse_response(b"HTTP/1.2 200 OK\r\n\r\n")
    );
    assert_eq!(Err(ParseError::UnsupportedVersion), parse_response(b"SPDY/1.1"));
}

#[test]
fn bad_status_digits_are_malformed() {
    // Four digits, a non-digit inside, a leading zero, a missing space.
    assert_eq!(
        Err(ParseError::MalformedStatusCode),
        parse_response(b"HTTP/1.1 2000 OK\r\n\r\n")
    );
    assert_eq!(
        Err(ParseError::MalformedStatusCode),
        parse_response(b"HTTP/1.1 20x OK\r\n\r\n")
    );
    assert_eq!(
        Err(ParseError::MalformedStatusCode),
        parse_response(b"HTTP/1.1 099 Oh\r\n\r\n")
    );
    assert_eq!(
        Err(ParseError::MalformedStatusCode),
        parse_response(b"HTTP/1.1200 OK\r\n\r\n")
    );
}

#[test]
fn bare_line_feed_is_malformed() {
    assert_eq!(
        Err(ParseError::MalformedStatusCode),
        parse_response(b"HTTP/1.1 200 OK\n\r\n")
    );
}

#[test]
fn truncated_headers_are_incomplete() {
    assert_eq!(
        Err(ParseError::IncompleteInput),
        parse_response(b"HTTP/1.1 200 OK\r\nContent-Length: 13\r\n")
    );
}

#[test]
fn short_fixed_body_is_incomplete() {
    assert_eq!(
        Err(ParseError::IncompleteInput),
        parse_response(b"HTTP/1.1 200 OK\r\nContent-Length: 13\r\n\r\nHello")
    );
}

#[test]
fn fixed_body_leaves_remainder() {
    let buf = b"HTTP/1.1 200 OK\r\nContent-Length: 5\r\n\r\nHellotrailing";
    let (resp, rest) = parse_response(buf).unwrap();
    assert_eq!(BodyFraming::FixedLength(5), resp.framing);
    assert_eq!(b"Hello".to_vec(), resp.body);
    assert_eq!(b"trailing".to_vec(), rest.to_vec());
}

#[test]
fn reason_phrase_may_be_empty() {
    let buf = b"HTTP/1.0 302 \r\n\r\n";
    let (resp, _) = parse_response(buf).unwrap();
    assert_eq!(StatusCode::Found, resp.status_code);
    assert_eq!("", resp.reason_phrase);
}
