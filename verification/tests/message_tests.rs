use std::iter::FromIterator;

use http::message::{parse_httpname, parse_httpversion, parse_statuscode};
use http::{HttpVersion, StatusCode};

#[test]
fn parse_httpversion_test() {
    let test_cases = vec![
        (Vec::from_iter("HTTP/1.1".chars()), (HttpVersion::Version11, 0)),
        (Vec::from_iter("HTTP/1.0".chars()), (HttpVersion::Version10, 0)),
        (Vec::from_iter("HTTP/1.0 ".chars()), (HttpVersion::Version10, 1)),
    ];

    for (msg, (expect_msg, expect_len)) in test_cases {
        let result = parse_httpversion(msg.as_slice());
        assert!(result.is_some());
        let (actual_msg, actual_remain) = result.unwrap();

        assert_eq!(expect_msg, actual_msg);
        assert_eq!(expect_len, actual_remain.len());
    }
}

#[test]
fn parse_statuscode_test() {
    let test_cases = vec![
        (Vec::from_iter("200".chars()), (StatusCode::Okay, 0)),
        (Vec::from_iter("300".chars()), (StatusCode::MultipleChoices, 0)),
    ];

    for (msg, (expect_msg, expect_len)) in test_cases {
        let result = parse_statuscode(msg.as_slice());
        assert!(result.is_some());
        let (actual_msg, actual_remain) = result.unwrap();

        assert_eq!(expect_msg, actual_msg);
        assert_eq!(expect_len, actual_remain.len());
    }
}

#[test]
fn parse_httpname_splits_off_the_name() {
    let msg = Vec::from_iter("HTTP/1.1".chars());
    let rest = parse_httpname(msg.as_slice()).unwrap();
    assert_eq!(4, rest.len());
    assert_eq!('/', rest[0]);

    let other = Vec::from_iter("HTT".chars());
    assert!(parse_httpname(other.as_slice()).is_none());

    let wrong = Vec::from_iter("FTP/1.1".chars());
    assert!(parse_httpname(wrong.as_slice()).is_none());
}

#[test]
fn parse_httpversion_rejects_other_versions() {
    let two = Vec::from_iter("HTTP/2.0".chars());
    assert!(parse_httpversion(two.as_slice()).is_none());

    let twelve = Vec::from_iter("HTTP/1.2".chars());
    assert!(parse_httpversion(twelve.as_slice()).is_none());

    let short = Vec::from_iter("HTTP/1.".chars());
    assert!(parse_httpversion(short.as_slice()).is_none());
}

#[test]
fn parse_statuscode_needs_exactly_three_digits() {
    let short = Vec::from_iter("20".chars());
    assert!(parse_statuscode(short.as_slice()).is_none());

    let four = Vec::from_iter("2000".chars());
    assert!(parse_statuscode(four.as_slice()).is_none());

    let zero = Vec::from_iter("099".chars());
    assert!(parse_statuscode(zero.as_slice()).is_none());

    let unknown = Vec::from_iter("471 X".chars());
    let (status, remain) = parse_statuscode(unknown.as_slice()).unwrap();
    assert_eq!(StatusCode::Extension(471, String::new()), status);
    assert_eq!(2, remain.len());
}
