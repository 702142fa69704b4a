use http::client::parse_response;
use http::framing::{determine_framing, BodyFraming};
use http::headers::Header;
use http::{ParseError, StatusCode};

fn header(name: &str, value: &str) -> Header {
    Header { name: name.to_string(), value: value.to_string() }
}

#[test]
fn informational_and_no_content_codes_forbid_a_body() {
    let headers = vec![header("Content-Length", "13")];
    for code in [100u16, 101, 150, 204, 304] {
        let status = StatusCode::from_code(code);
        assert_eq!(Ok(BodyFraming::NoBody), determine_framing(&status, &headers));
    }
}

#[test]
fn chunked_last_coding_wins_over_content_length() {
    let headers = vec![
        header("Content-Length", "13"),
        header("Transfer-Encoding", "gzip, chunked"),
    ];
    let status = StatusCode::from_code(200);
    assert_eq!(Ok(BodyFraming::Chunked), determine_framing(&status, &headers));
}

#[test]
fn chunked_matches_case_insensitively() {
    let headers = vec![header("TRANSFER-ENCODING", "CHUNKED")];
    let status = StatusCode::from_code(200);
    assert_eq!(Ok(BodyFraming::Chunked), determine_framing(&status, &headers));
}

#[test]
fn non_final_chunked_coding_does_not_count() {
    let headers = vec![header("Transfer-Encoding", "chunked, gzip")];
    let status = StatusCode::from_code(200);
    assert_eq!(Ok(BodyFraming::UntilClose), determine_framing(&status, &headers));
}

#[test]
fn the_last_transfer_encoding_header_decides() {
    let headers = vec![
        header("Transfer-Encoding", "chunked"),
        header("Transfer-Encoding", "gzip"),
    ];
    let status = StatusCode::from_code(200);
    assert_eq!(Ok(BodyFraming::UntilClose), determine_framing(&status, &headers));
}

#[test]
fn content_length_fixes_the_length() {
    let headers = vec![header("content-length", "42")];
    let status = StatusCode::from_code(200);
    assert_eq!(Ok(BodyFraming::FixedLength(42)), determine_framing(&status, &headers));
}

#[test]
fn agreeing_content_lengths_are_fine() {
    let headers = vec![header("Content-Length", "13"), header("Content-Length", "13")];
    let status = StatusCode::from_code(200);
    assert_eq!(Ok(BodyFraming::FixedLength(13)), determine_framing(&status, &headers));
}

#[test]
fn differing_content_lengths_conflict() {
    let headers = vec![header("Content-Length", "13"), header("Content-Length", "14")];
    let status = StatusCode::from_code(200);
    assert_eq!(
        Err(ParseError::ConflictingContentLength),
        determine_framing(&status, &headers)
    );
}

#[test]
fn non_numeric_content_length_is_malformed() {
    let status = StatusCode::from_code(200);
    for bad in ["abc", "", "13 14", "-1", "99999999999999999999999"] {
        let headers = vec![header("Content-Length", bad)];
        assert_eq!(
            Err(ParseError::MalformedContentLength),
            determine_framing(&status, &headers)
        );
    }
}

#[test]
fn no_framing_headers_mean_until_close() {
    let status = StatusCode::from_code(200);
    assert_eq!(Ok(BodyFraming::UntilClose), determine_framing(&status, &vec![]));
}

#[test]
fn header_values_lose_their_padding() {
    let buf = b"HTTP/1.1 200 OK\r\nContent-Length:   5  \r\nX-Pad:\tpadded value\t\r\n\r\nHello";
    let (resp, _) = parse_response(buf).unwrap();
    assert_eq!("Content-Length", resp.headers[0].name);
    assert_eq!("5", resp.headers[0].value);
    assert_eq!("X-Pad", resp.headers[1].name);
    assert_eq!("padded value", resp.headers[1].value);
    assert_eq!(BodyFraming::FixedLength(5), resp.framing);
}

#[test]
fn repeated_headers_keep_their_order() {
    let buf = b"HTTP/1.1 200 OK\r\nSet-Cookie: a=1\r\nSet-Cookie: b=2\r\n\r\n";
    let (resp, _) = parse_response(buf).unwrap();
    assert_eq!(2, resp.headers.len());
    assert_eq!("a=1", resp.headers[0].value);
    assert_eq!("b=2", resp.headers[1].value);
}

#[test]
fn folded_continuation_lines_are_malformed() {
    let buf = b"HTTP/1.1 200 OK\r\nX-Long: a\r\n b\r\n\r\n";
    assert_eq!(Err(ParseError::MalformedHeader), parse_response(buf));
}

#[test]
fn a_line_without_a_colon_is_malformed() {
    let buf = b"HTTP/1.1 200 OK\r\nNoColonHere\r\n\r\n";
    assert_eq!(Err(ParseError::MalformedHeader), parse_response(buf));
}

#[test]
fn a_bad_header_name_is_rejected() {
    let buf = b"HTTP/1.1 200 OK\r\nBad Name: x\r\n\r\n";
    assert_eq!(Err(ParseError::MalformedHeaderName), parse_response(buf));

    let empty = b"HTTP/1.1 200 OK\r\n: x\r\n\r\n";
    assert_eq!(Err(ParseError::MalformedHeaderName), parse_response(empty));
}

#[test]
fn chunked_body_takes_the_rest() {
    let buf = b"HTTP/1.1 200 OK\r\nTransfer-Encoding: chunked\r\n\r\n5\r\nHello\r\n0\r\n\r\n";
    let (resp, rest) = parse_response(buf).unwrap();
    assert_eq!(BodyFraming::Chunked, resp.framing);
    assert_eq!(b"5\r\nHello\r\n0\r\n\r\n".to_vec(), resp.body);
    assert!(rest.is_empty());
}
