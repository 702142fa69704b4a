//! The status-line parsers: the fixed-width version token, and the full
//! status line of version, three-digit code, and reason phrase.
//!
//! Both work as single forward scans over a borrowed byte buffer and hand
//! back the unconsumed remainder. A buffer that ends before the line does
//! yields `IncompleteInput`; a buffer that breaks the grammar yields a hard
//! error.

use vstd::prelude::*;
use vstd::slice::slice_subrange;

use crate::HttpVersion;
use crate::ParseError;
use crate::scan::{CR, LF, SP};
use crate::scan::{is_digit, latin1, lift_bytes};
use crate::scan::{lemma_seq_find, lemma_seq_find_append, lemma_seq_find_is};
use crate::scan::{line_break_pred, seq_find};
use crate::statuscodes::{StatusCode, from_code_spec};

verus! {

/// The eight wire bytes of a version token: `HTTP/1.0` or `HTTP/1.1`.
pub open spec fn version_token(v: HttpVersion) -> Seq<u8> {
    match v {
        HttpVersion::Version10 => seq![72u8, 84u8, 84u8, 80u8, 47u8, 49u8, 46u8, 48u8],
        HttpVersion::Version11 => seq![72u8, 84u8, 84u8, 80u8, 47u8, 49u8, 46u8, 49u8],
    }
}

/// Whether `p` is a prefix of `s`.
pub open spec fn is_prefix_of(p: Seq<u8>, s: Seq<u8>) -> bool {
    p.len() <= s.len() && p == s.subrange(0, p.len() as int)
}

/// What parsing a version token from the front of `s` yields: the version
/// and the number of bytes consumed when `s` starts with a full token;
/// `IncompleteInput` when `s` ends while still agreeing with a token; else
/// `UnsupportedVersion`.
pub open spec fn spec_parse_version(s: Seq<u8>) -> Result<(HttpVersion, int), ParseError> {
    if is_prefix_of(version_token(HttpVersion::Version10), s) {
        Ok((HttpVersion::Version10, 8))
    } else if is_prefix_of(version_token(HttpVersion::Version11), s) {
        Ok((HttpVersion::Version11, 8))
    } else if s.len() < 8 && (is_prefix_of(s, version_token(HttpVersion::Version10))
            || is_prefix_of(s, version_token(HttpVersion::Version11))) {
        Err(ParseError::IncompleteInput)
    } else {
        Err(ParseError::UnsupportedVersion)
    }
}

/// Recognizes the version token at the front of the buffer and returns it
/// with the unconsumed remainder, per `spec_parse_version`.
pub fn parse_httpversion(msg: &[u8]) -> (r: Result<(HttpVersion, &[u8]), ParseError>)
    ensures
        match spec_parse_version(msg@) {
            Ok((v, n)) => {
                &&& r matches Ok(t)
                &&& t.0 == v
                &&& t.1@ == msg@.subrange(n, msg@.len() as int)
            },
            Err(e) => r matches Err(e2) && e2 == e,
        },
{
    let n: usize = msg.len();
    if n >= 8 {
        if msg[0] == 72 && msg[1] == 84 && msg[2] == 84 && msg[3] == 80 && msg[4] == 47
                && msg[5] == 49 && msg[6] == 46 {
            let b7: u8 = msg[7];
            if b7 == 48 {
                proof {
                    assert(version_token(HttpVersion::Version10)
                        =~= msg@.subrange(0, 8));
                }
                Ok((HttpVersion::Version10, slice_subrange(msg, 8, n)))
            } else if b7 == 49 {
                proof {
                    assert(version_token(HttpVersion::Version11)
                        =~= msg@.subrange(0, 8));
                    assert(version_token(HttpVersion::Version10)[7] == 48u8);
                }
                Ok((HttpVersion::Version11, slice_subrange(msg, 8, n)))
            } else {
                proof {
                    assert(version_token(HttpVersion::Version10)[7] == 48u8);
                    assert(version_token(HttpVersion::Version11)[7] == 49u8);
                }
                Err(ParseError::UnsupportedVersion)
            }
        } else {
            proof {
                lemma_version_token_mismatch(msg@);
            }
            Err(ParseError::UnsupportedVersion)
        }
    } else {
        let pre_ok: bool = (n < 1 || msg[0] == 72) && (n < 2 || msg[1] == 84)
            && (n < 3 || msg[2] == 84) && (n < 4 || msg[3] == 80) && (n < 5 || msg[4] == 47)
            && (n < 6 || msg[5] == 49) && (n < 7 || msg[6] == 46);
        if pre_ok {
            proof {
                assert(msg@ =~= version_token(HttpVersion::Version10)
                    .subrange(0, msg@.len() as int));
            }
            Err(ParseError::IncompleteInput)
        } else {
            proof {
                lemma_version_token_mismatch(msg@);
                if is_prefix_of(msg@, version_token(HttpVersion::Version10)) {
                    assert(forall|k: int| 0 <= k < msg@.len()
                        ==> msg@[k] == version_token(HttpVersion::Version10)[k]);
                }
                if is_prefix_of(msg@, version_token(HttpVersion::Version11)) {
                    assert(forall|k: int| 0 <= k < msg@.len()
                        ==> msg@[k] == version_token(HttpVersion::Version11)[k]);
                }
            }
            Err(ParseError::UnsupportedVersion)
        }
    }
}

/// A buffer that disagrees with the seven shared token bytes somewhere within
/// reach is a prefix of neither version token.
proof fn lemma_version_token_mismatch(s: Seq<u8>)
    requires
        !((s.len() < 1 || s[0] == 72) && (s.len() < 2 || s[1] == 84)
            && (s.len() < 3 || s[2] == 84) && (s.len() < 4 || s[3] == 80)
            && (s.len() < 5 || s[4] == 47) && (s.len() < 6 || s[5] == 49)
            && (s.len() < 7 || s[6] == 46)),
    ensures
        !is_prefix_of(version_token(HttpVersion::Version10), s),
        !is_prefix_of(version_token(HttpVersion::Version11), s),
        !is_prefix_of(s, version_token(HttpVersion::Version10)),
        !is_prefix_of(s, version_token(HttpVersion::Version11)),
{
    let t0 = version_token(HttpVersion::Version10);
    let t1 = version_token(HttpVersion::Version11);
    if is_prefix_of(t0, s) {
        assert(s[0] == t0[0] && s[1] == t0[1] && s[2] == t0[2] && s[3] == t0[3]
            && s[4] == t0[4] && s[5] == t0[5] && s[6] == t0[6]);
    }
    if is_prefix_of(t1, s) {
        assert(s[0] == t1[0] && s[1] == t1[1] && s[2] == t1[2] && s[3] == t1[3]
            && s[4] == t1[4] && s[5] == t1[5] && s[6] == t1[6]);
    }
    if is_prefix_of(s, t0) {
        assert(forall|k: int| 0 <= k < s.len() ==> s[k] == t0[k]);
    }
    if is_prefix_of(s, t1) {
        assert(forall|k: int| 0 <= k < s.len() ==> s[k] == t1[k]);
    }
}

/// The numeric value of the three digit bytes at `d`, `d + 1`, `d + 2`.
pub open spec fn three_digit_val(s: Seq<u8>, d: int) -> int {
    (s[d] - 48) * 100 + (s[d + 1] - 48) * 10 + (s[d + 2] - 48)
}

/// What parsing a status line from the front of `s` yields: on success the
/// version, the numeric code, the reason-phrase bytes, and the index of the
/// first unconsumed byte.
///
/// After the version token the line must hold one space, exactly three
/// digits whose first is not `0`, one more space, and then the reason phrase
/// — every byte up to the `CRLF` terminator. A buffer that ends where more
/// bytes could still complete the line is `IncompleteInput`; any other
/// disagreement with that shape is `MalformedStatusCode`.
pub open spec fn spec_parse_status_line(s: Seq<u8>) -> Result<
    (HttpVersion, u16, Seq<u8>, int),
    ParseError,
> {
    match spec_parse_version(s) {
        Err(e) => Err(e),
        Ok((v, n)) => {
            if s.len() <= n {
                Err(ParseError::IncompleteInput)
            } else if s[n] != SP {
                Err(ParseError::MalformedStatusCode)
            } else {
                let d = n + 1;
                if d < s.len() && !is_digit(s[d]) {
                    Err(ParseError::MalformedStatusCode)
                } else if d < s.len() && s[d] == 48 {
                    Err(ParseError::MalformedStatusCode)
                } else if d + 1 < s.len() && !is_digit(s[d + 1]) {
                    Err(ParseError::MalformedStatusCode)
                } else if d + 2 < s.len() && !is_digit(s[d + 2]) {
                    Err(ParseError::MalformedStatusCode)
                } else if s.len() < d + 4 {
                    Err(ParseError::IncompleteInput)
                } else if is_digit(s[d + 3]) {
                    Err(ParseError::MalformedStatusCode)
                } else if s[d + 3] != SP {
                    Err(ParseError::MalformedStatusCode)
                } else {
                    let r0 = d + 4;
                    let e = seq_find(s, r0, line_break_pred());
                    if e == s.len() {
                        Err(ParseError::IncompleteInput)
                    } else if s[e] == LF {
                        Err(ParseError::MalformedStatusCode)
                    } else if e + 1 == s.len() {
                        Err(ParseError::IncompleteInput)
                    } else if s[e + 1] != LF {
                        Err(ParseError::MalformedStatusCode)
                    } else {
                        Ok((v, three_digit_val(s, d) as u16, s.subrange(r0, e), e + 2))
                    }
                }
            }
        },
    }
}

/// A recognized version token is stable under more input: appending bytes
/// to a buffer the parser accepted changes nothing, and a buffer it
/// rejected outright stays rejected.
pub proof fn lemma_parse_version_extension(s: Seq<u8>, t: Seq<u8>)
    ensures
        spec_parse_version(s) is Ok ==> spec_parse_version(s + t) == spec_parse_version(s),
        spec_parse_version(s) == Err::<(HttpVersion, int), ParseError>(
            ParseError::UnsupportedVersion,
        ) ==> spec_parse_version(s + t) == spec_parse_version(s),
{
    let t0 = version_token(HttpVersion::Version10);
    let t1 = version_token(HttpVersion::Version11);
    if s.len() >= 8 {
        assert((s + t).subrange(0, 8) =~= s.subrange(0, 8));
    } else {
        if is_prefix_of(t0, s + t) && !is_prefix_of(s, t0) {
            assert(s =~= t0.subrange(0, s.len() as int));
        }
        if is_prefix_of(t1, s + t) && !is_prefix_of(s, t1) {
            assert(s =~= t1.subrange(0, s.len() as int));
        }
        if (s + t).len() < 8 {
            if is_prefix_of(s + t, t0) && !is_prefix_of(s, t0) {
                assert(s =~= t0.subrange(0, s.len() as int));
            }
            if is_prefix_of(s + t, t1) && !is_prefix_of(s, t1) {
                assert(s =~= t1.subrange(0, s.len() as int));
            }
        }
    }
}

/// A parsed status line is stable under more input: appending bytes to a
/// buffer whose status line parsed changes neither what was parsed nor
/// where the line ended.
pub proof fn lemma_status_line_extension(s: Seq<u8>, t: Seq<u8>)
    ensures
        spec_parse_status_line(s) is Ok ==> spec_parse_status_line(s + t)
            == spec_parse_status_line(s),
{
    if spec_parse_status_line(s) is Ok {
        lemma_parse_version_extension(s, t);
        lemma_seq_find(s, 13, line_break_pred());
        lemma_seq_find_append(s, t, 13, line_break_pred());
        let e = seq_find(s, 13, line_break_pred());
        assert((s + t).subrange(13, e) =~= s.subrange(13, e));
    }
}

/// A parsed status line consumes at least its fixed-width head and at most
/// the whole buffer.
pub proof fn lemma_status_line_rest_bounds(s: Seq<u8>)
    ensures
        spec_parse_status_line(s) matches Ok(t) ==> 13 <= t.3 <= s.len(),
{
    if spec_parse_status_line(s) is Ok {
        if 13 <= s.len() {
            lemma_seq_find(s, 13, line_break_pred());
        }
    }
}

/// Parses the status line at the front of the buffer: the version, the
/// status the three-digit code maps to under the registry, the reason phrase
/// as text, and the unconsumed remainder, per `spec_parse_status_line`.
pub fn parse_statusline(msg: &[u8]) -> (r: Result<
    (HttpVersion, StatusCode, String, &[u8]),
    ParseError,
>)
    ensures
        match spec_parse_status_line(msg@) {
            Ok((v, code, reason, rest)) => {
                &&& r matches Ok(t)
                &&& t.0 == v
                &&& from_code_spec(code, t.1)
                &&& t.2@ == latin1(reason)
                &&& t.3@ == msg@.subrange(rest, msg@.len() as int)
            },
            Err(e) => r matches Err(e2) && e2 == e,
        },
{
    let n: usize = msg.len();
    let version: HttpVersion = match parse_httpversion(msg) {
        Ok(t) => t.0,
        Err(e) => {
            return Err(e);
        },
    };
    // The version token is fixed-width: success consumed exactly 8 bytes.
    if n <= 8 {
        return Err(ParseError::IncompleteInput);
    }
    if msg[8] != SP {
        return Err(ParseError::MalformedStatusCode);
    }
    let d: usize = 9;
    if d < n && !(48 <= msg[d] && msg[d] <= 57) {
        return Err(ParseError::MalformedStatusCode);
    }
    if d < n && msg[d] == 48 {
        return Err(ParseError::MalformedStatusCode);
    }
    if d + 1 < n && !(48 <= msg[d + 1] && msg[d + 1] <= 57) {
        return Err(ParseError::MalformedStatusCode);
    }
    if d + 2 < n && !(48 <= msg[d + 2] && msg[d + 2] <= 57) {
        return Err(ParseError::MalformedStatusCode);
    }
    if n < d + 4 {
        return Err(ParseError::IncompleteInput);
    }
    if 48 <= msg[d + 3] && msg[d + 3] <= 57 {
        return Err(ParseError::MalformedStatusCode);
    }
    if msg[d + 3] != SP {
        return Err(ParseError::MalformedStatusCode);
    }
    let code: u16 = ((msg[d] - 48) as u16) * 100 + ((msg[d + 1] - 48) as u16) * 10
        + ((msg[d + 2] - 48) as u16);
    let r0: usize = d + 4;
    let mut j: usize = r0;
    while j < n && msg[j] != CR && msg[j] != LF
        invariant
            r0 <= j <= n == msg@.len(),
            forall|k: int| r0 <= k < j ==> msg@[k] != CR && #[trigger] msg@[k] != LF,
        decreases n - j,
    {
        j = j + 1;
    }
    proof {
        lemma_seq_find_is(msg@, r0 as int, j as int, line_break_pred());
    }
    if j == n {
        return Err(ParseError::IncompleteInput);
    }
    if msg[j] == LF {
        return Err(ParseError::MalformedStatusCode);
    }
    if j + 1 == n {
        return Err(ParseError::IncompleteInput);
    }
    if msg[j + 1] != LF {
        return Err(ParseError::MalformedStatusCode);
    }
    let status: StatusCode = StatusCode::from_code(code);
    let reason: String = lift_bytes(msg, r0, j);
    let rest: &[u8] = slice_subrange(msg, j + 2, n);
    Ok((version, status, reason, rest))
}

} // verus!
