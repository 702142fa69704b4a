//! Character-level scanners over a borrowed buffer: the protocol name, the
//! version token, and the three-digit status code.
//!
//! These mirror the byte-level status-line stage for callers that hold text
//! rather than wire bytes; each hands back the parsed value with the
//! unconsumed remainder, or nothing when the front of the buffer does not
//! match.

use vstd::prelude::*;
use vstd::slice::slice_subrange;

use crate::HttpVersion;
use crate::statuscodes::{StatusCode, from_code_spec};

verus! {

/// Whether the buffer starts with the protocol name `HTTP`.
pub open spec fn httpname_chars(s: Seq<char>) -> bool {
    s.len() >= 4 && s[0] == 'H' && s[1] == 'T' && s[2] == 'T' && s[3] == 'P'
}

/// Whether the buffer starts with the full eight-character token of the
/// given version.
pub open spec fn version_chars(s: Seq<char>, v: HttpVersion) -> bool {
    &&& httpname_chars(s)
    &&& s.len() >= 8
    &&& s[4] == '/'
    &&& s[5] == '1'
    &&& s[6] == '.'
    &&& match v {
        HttpVersion::Version10 => s[7] == '0',
        HttpVersion::Version11 => s[7] == '1',
    }
}

/// Whether a character is a decimal digit.
pub open spec fn is_digit_char(c: char) -> bool {
    48 <= c as int && c as int <= 57
}

/// Whether the buffer starts with a status code: exactly three digits, not
/// beginning with `0`, with no fourth digit following.
pub open spec fn statuscode_chars(s: Seq<char>) -> bool {
    &&& s.len() >= 3
    &&& is_digit_char(s[0])
    &&& is_digit_char(s[1])
    &&& is_digit_char(s[2])
    &&& s[0] != '0'
    &&& (s.len() == 3 || !is_digit_char(s[3]))
}

/// The numeric value of the three digits at the front of the buffer.
pub open spec fn statuscode_chars_val(s: Seq<char>) -> int {
    (s[0] as int - 48) * 100 + (s[1] as int - 48) * 10 + (s[2] as int - 48)
}

/// Recognizes the protocol name at the front of the buffer and returns the
/// remainder after it, or nothing when the name is absent.
pub fn parse_httpname<'a>(msg: &'a [char]) -> (r: Option<&'a [char]>)
    ensures
        httpname_chars(msg@) ==> (r matches Some(rest) && rest@ == msg@.subrange(
            4,
            msg@.len() as int,
        )),
        !httpname_chars(msg@) ==> r is None,
{
    if msg.len() >= 4 && msg[0] == 'H' && msg[1] == 'T' && msg[2] == 'T' && msg[3] == 'P' {
        Some(slice_subrange(msg, 4, msg.len()))
    } else {
        None
    }
}

/// Recognizes a version token at the front of the buffer and returns the
/// version with the remainder after it, or nothing when the front is not a
/// whole token naming a version this crate recognizes.
pub fn parse_httpversion<'a>(msg: &'a [char]) -> (r: Option<(HttpVersion, &'a [char])>)
    ensures
        version_chars(msg@, HttpVersion::Version10) ==> (r matches Some(t)
            && t.0 == HttpVersion::Version10 && t.1@ == msg@.subrange(8, msg@.len() as int)),
        version_chars(msg@, HttpVersion::Version11) ==> (r matches Some(t)
            && t.0 == HttpVersion::Version11 && t.1@ == msg@.subrange(8, msg@.len() as int)),
        !version_chars(msg@, HttpVersion::Version10) && !version_chars(
            msg@,
            HttpVersion::Version11,
        ) ==> r is None,
{
    match parse_httpname(msg) {
        Some(remain) => {
            if remain.len() >= 4 && remain[0] == '/' && remain[1] == '1' && remain[2] == '.' {
                if remain[3] == '0' {
                    Some((HttpVersion::Version10, slice_subrange(remain, 4, remain.len())))
                } else if remain[3] == '1' {
                    Some((HttpVersion::Version11, slice_subrange(remain, 4, remain.len())))
                } else {
                    None
                }
            } else {
                None
            }
        },
        None => None,
    }
}

/// Recognizes a three-digit status code at the front of the buffer and
/// returns the status it maps to under the registry with the remainder
/// after the digits, or nothing when the front is not exactly three digits
/// of at least `100`.
pub fn parse_statuscode<'a>(msg: &'a [char]) -> (r: Option<(StatusCode, &'a [char])>)
    ensures
        statuscode_chars(msg@) ==> (r matches Some(t) && from_code_spec(
            statuscode_chars_val(msg@) as u16,
            t.0,
        ) && t.1@ == msg@.subrange(3, msg@.len() as int)),
        !statuscode_chars(msg@) ==> r is None,
{
    if msg.len() < 3 {
        return None;
    }
    let c0: char = msg[0];
    let c1: char = msg[1];
    let c2: char = msg[2];
    if !('0' <= c0 && c0 <= '9') || !('0' <= c1 && c1 <= '9') || !('0' <= c2 && c2 <= '9') {
        return None;
    }
    if c0 == '0' {
        return None;
    }
    if msg.len() > 3 {
        let c3: char = msg[3];
        if '0' <= c3 && c3 <= '9' {
            return None;
        }
    }
    let code: u16 = digit_val(c0) * 100 + digit_val(c1) * 10 + digit_val(c2);
    let status = StatusCode::from_code(code);
    Some((status, slice_subrange(msg, 3, msg.len())))
}

/// The numeric value of one decimal digit character.
fn digit_val(c: char) -> (r: u16)
    requires
        48 <= c as int && c as int <= 57,
    ensures
        r == c as int - 48,
{
    match c {
        '0' => 0,
        '1' => 1,
        '2' => 2,
        '3' => 3,
        '4' => 4,
        '5' => 5,
        '6' => 6,
        '7' => 7,
        '8' => 8,
        _ => 9,
    }
}

} // verus!
