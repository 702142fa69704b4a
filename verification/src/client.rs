//! The message assembler and the client-facing types: a parsed `Response`,
//! the `Message` wrapper, and the entry points that drive the status-line,
//! header, and framing stages over one buffer.
//!
//! Parsing is stateless: each call starts from the buffer's front, so a
//! caller that got `IncompleteInput` simply gathers more bytes and parses
//! again.

use vstd::prelude::*;
use vstd::slice::{slice_subrange, slice_to_vec};
use vstd::string::StringExecFns;

use crate::HttpVersion;
use crate::ParseError;
use crate::framing::{BodyFraming, determine_framing, spec_determine_framing, views_of};
use crate::headers::{Header, lemma_headers_extension, lemma_headers_rest_bounds};
use crate::headers::{parse_headers, spec_parse_headers};
use crate::scan::latin1;
use crate::statuscodes::{StatusCode, from_code_spec};
use crate::statusline::{lemma_status_line_extension, lemma_status_line_rest_bounds};
use crate::statusline::{parse_statusline, spec_parse_status_line};

verus! {

/// A parsed response message, owned by the caller once returned: the parser
/// keeps no state behind it.
#[derive(Debug)]
pub struct Response {
    pub http_version: HttpVersion,
    pub status_code: StatusCode,
    pub reason_phrase: String,
    pub headers: Vec<Header>,
    pub framing: BodyFraming,
    pub body: Vec<u8>,
}

/// A parsed protocol message; responses are the one kind modeled here.
#[derive(Debug)]
pub enum Message {
    Response(Response),
}

/// The mathematical shape of a parsed response: the version, the numeric
/// code, and the raw wire bytes of the reason, each header pair, and the
/// body, with the framing that delimited the body.
pub struct ResponseModel {
    pub version: HttpVersion,
    pub code: u16,
    pub reason: Seq<u8>,
    pub headers: Seq<(Seq<u8>, Seq<u8>)>,
    pub framing: BodyFraming,
    pub body: Seq<u8>,
}

/// Header byte pairs read as text, one byte per character.
pub open spec fn lift_headers(hs: Seq<(Seq<u8>, Seq<u8>)>) -> Seq<(Seq<char>, Seq<char>)> {
    hs.map_values(|m: (Seq<u8>, Seq<u8>)| (latin1(m.0), latin1(m.1)))
}

/// Whether an executable `Response` carries exactly what a model describes,
/// its wire bytes read as text and its status drawn from the registry.
pub open spec fn response_matches(r: Response, m: ResponseModel) -> bool {
    &&& r.http_version == m.version
    &&& from_code_spec(m.code, r.status_code)
    &&& r.reason_phrase@ == latin1(m.reason)
    &&& r.headers@.len() == m.headers.len()
    &&& forall|k: int|
        0 <= k < m.headers.len() ==> (#[trigger] r.headers@[k])@ == (
            latin1(m.headers[k].0),
            latin1(m.headers[k].1),
        )
    &&& r.framing == m.framing
    &&& r.body@ == m.body
}

/// What parsing a whole response from `s` yields: the model and the index of
/// the first byte the message does not own, or the first error any stage
/// reports.
///
/// The stages run in order — status line, headers, framing, body — each over
/// the previous stage's remainder. A fixed-length body shorter than its
/// length is `IncompleteInput`; a chunked or until-close body takes every
/// remaining byte; a forbidden body takes none, whatever follows.
pub open spec fn spec_parse_response(s: Seq<u8>) -> Result<(ResponseModel, int), ParseError> {
    match spec_parse_status_line(s) {
        Err(e) => Err(e),
        Ok((v, code, reason, p)) => {
            let rest1 = s.subrange(p, s.len() as int);
            match spec_parse_headers(rest1, 0) {
                Err(e) => Err(e),
                Ok((hs, q)) => match spec_determine_framing(code, lift_headers(hs)) {
                    Err(e) => Err(e),
                    Ok(f) => {
                        let body_start = p + q;
                        match f {
                            BodyFraming::NoBody => Ok(
                                (
                                    ResponseModel {
                                        version: v,
                                        code,
                                        reason,
                                        headers: hs,
                                        framing: f,
                                        body: Seq::empty(),
                                    },
                                    body_start,
                                ),
                            ),
                            BodyFraming::FixedLength(len) => {
                                if s.len() - body_start < len {
                                    Err(ParseError::IncompleteInput)
                                } else {
                                    Ok(
                                        (
                                            ResponseModel {
                                                version: v,
                                                code,
                                                reason,
                                                headers: hs,
                                                framing: f,
                                                body: s.subrange(body_start, body_start + len),
                                            },
                                            body_start + len,
                                        ),
                                    )
                                }
                            },
                            _ => Ok(
                                (
                                    ResponseModel {
                                        version: v,
                                        code,
                                        reason,
                                        headers: hs,
                                        framing: f,
                                        body: s.subrange(body_start, s.len() as int),
                                    },
                                    s.len() as int,
                                ),
                            ),
                        }
                    },
                },
            }
        },
    }
}

/// Parsing is restartable: the parser holds no state, so its result is a
/// function of the buffer alone, and once a parse succeeds with a framing
/// that does not run to the byte source's end, parsing the same buffer
/// grown by any further bytes yields the same message and the same
/// remainder. A caller that buffered more after `IncompleteInput` therefore
/// loses nothing by re-parsing from the front.
pub proof fn lemma_response_extension(s: Seq<u8>, t: Seq<u8>)
    requires
        spec_parse_response(s) matches Ok(r) && !(r.0.framing is UntilClose) && !(
        r.0.framing is Chunked),
    ensures
        spec_parse_response(s + t) == spec_parse_response(s),
{
    lemma_status_line_extension(s, t);
    lemma_status_line_rest_bounds(s);
    let p = spec_parse_status_line(s)->Ok_0.3;
    let rest1 = s.subrange(p, s.len() as int);
    assert((s + t).subrange(p, (s + t).len() as int) =~= rest1 + t);
    lemma_headers_extension(rest1, t, 0);
    lemma_headers_rest_bounds(rest1, 0);
    let q = spec_parse_headers(rest1, 0)->Ok_0.1;
    let body_start = p + q;
    if let Ok(f) = spec_determine_framing(
        spec_parse_status_line(s)->Ok_0.1,
        lift_headers(spec_parse_headers(rest1, 0)->Ok_0.0),
    ) {
        if let BodyFraming::FixedLength(len) = f {
            assert((s + t).subrange(body_start, body_start + len)
                =~= s.subrange(body_start, body_start + len));
        }
    }
}

/// Parses one response from the front of the buffer and hands back the
/// structured message with the unconsumed remainder, per
/// `spec_parse_response`.
pub fn parse_response(msg: &[u8]) -> (r: Result<(Response, &[u8]), ParseError>)
    ensures
        match spec_parse_response(msg@) {
            Ok((m, rest)) => {
                &&& r matches Ok(t)
                &&& response_matches(t.0, m)
                &&& t.1@ == msg@.subrange(rest, msg@.len() as int)
            },
            Err(e) => r matches Err(e2) && e2 == e,
        },
{
    let (version, status, reason, rest1) = match parse_statusline(msg) {
        Ok(t) => t,
        Err(e) => {
            return Err(e);
        },
    };
    let ghost p = spec_parse_status_line(msg@)->Ok_0.3;
    let (headers, rest2) = match parse_headers(rest1) {
        Ok(t) => t,
        Err(e) => {
            return Err(e);
        },
    };
    let ghost q = spec_parse_headers(rest1@, 0)->Ok_0.1;
    let ghost hs = spec_parse_headers(rest1@, 0)->Ok_0.0;
    proof {
        lemma_status_line_rest_bounds(msg@);
        lemma_headers_rest_bounds(rest1@, 0);
        assert(views_of(headers@) =~= lift_headers(hs));
    }
    let framing = match determine_framing(&status, &headers) {
        Ok(f) => f,
        Err(e) => {
            return Err(e);
        },
    };
    let n: usize = rest2.len();
    proof {
        assert(rest2@ =~= msg@.subrange(p + q, msg@.len() as int));
    }
    match framing {
        BodyFraming::FixedLength(len) => {
            if (n as u64) < len {
                return Err(ParseError::IncompleteInput);
            }
            let blen: usize = len as usize;
            let body: Vec<u8> = slice_to_vec(slice_subrange(rest2, 0, blen));
            let rest: &[u8] = slice_subrange(rest2, blen, n);
            proof {
                assert(body@ =~= msg@.subrange(p + q, p + q + len));
                assert(rest@ =~= msg@.subrange(p + q + len, msg@.len() as int));
            }
            Ok(
                (
                    Response {
                        http_version: version,
                        status_code: status,
                        reason_phrase: reason,
                        headers,
                        framing,
                        body,
                    },
                    rest,
                ),
            )
        },
        BodyFraming::NoBody => {
            let body: Vec<u8> = Vec::new();
            Ok(
                (
                    Response {
                        http_version: version,
                        status_code: status,
                        reason_phrase: reason,
                        headers,
                        framing,
                        body,
                    },
                    rest2,
                ),
            )
        },
        _ => {
            let body: Vec<u8> = slice_to_vec(rest2);
            let rest: &[u8] = slice_subrange(rest2, n, n);
            proof {
                assert(rest@ =~= msg@.subrange(msg@.len() as int, msg@.len() as int));
            }
            Ok(
                (
                    Response {
                        http_version: version,
                        status_code: status,
                        reason_phrase: reason,
                        headers,
                        framing,
                        body,
                    },
                    rest,
                ),
            )
        },
    }
}

/// Parses one response message from an owned buffer, dropping whatever
/// trails the message, per `spec_parse_response`.
pub fn parse_message(msg: Vec<u8>) -> (r: Result<Message, ParseError>)
    ensures
        match spec_parse_response(msg@) {
            Ok((m, rest)) => {
                &&& r matches Ok(mm)
                &&& mm matches Message::Response(resp)
                &&& response_matches(resp, m)
            },
            Err(e) => r matches Err(e2) && e2 == e,
        },
{
    match parse_response(msg.as_slice()) {
        Ok(t) => Ok(Message::Response(t.0)),
        Err(e) => Err(e),
    }
}

/// Executes a GET request. Sockets and retries belong to an outside
/// collaborator that owns the connection; standing alone, this entry point
/// yields the fixed successful response such a collaborator starts from.
pub fn get(_url: &str) -> (r: Option<Response>)
    ensures
        r matches Some(resp) && resp.http_version == HttpVersion::Version11
            && resp.status_code == StatusCode::Okay && resp.reason_phrase@ == "OK"@
            && resp.headers@.len() == 0 && resp.framing == BodyFraming::UntilClose
            && resp.body@.len() == 0,
{
    let response = Response {
        http_version: HttpVersion::Version11,
        status_code: StatusCode::Okay,
        reason_phrase: String::from_str("OK"),
        headers: Vec::new(),
        framing: BodyFraming::UntilClose,
        body: Vec::new(),
    };
    Some(response)
}

/// Compares two header sequences by their texts.
fn headers_eq(a: &Vec<Header>, b: &Vec<Header>) -> (r: bool)
    ensures
        r == (views_of(a@) == views_of(b@)),
{
    if a.len() != b.len() {
        return false;
    }
    let n: usize = a.len();
    let mut i: usize = 0;
    while i < n
        invariant
            0 <= i <= n,
            n == a@.len() == b@.len(),
            forall|k: int| 0 <= k < i ==> (#[trigger] a@[k])@ == b@[k]@,
        decreases n - i,
    {
        if !a[i].eq(&b[i]) {
            proof {
                assert(views_of(a@)[i as int] == a@[i as int]@);
                assert(views_of(b@)[i as int] == b@[i as int]@);
            }
            return false;
        }
        i = i + 1;
    }
    proof {
        assert(views_of(a@) =~= views_of(b@));
    }
    true
}

/// Compares two byte buffers.
fn bytes_eq(a: &Vec<u8>, b: &Vec<u8>) -> (r: bool)
    ensures
        r == (a@ == b@),
{
    if a.len() != b.len() {
        return false;
    }
    let n: usize = a.len();
    let mut i: usize = 0;
    while i < n
        invariant
            0 <= i <= n,
            n == a@.len() == b@.len(),
            forall|k: int| 0 <= k < i ==> #[trigger] a@[k] == b@[k],
        decreases n - i,
    {
        if a[i] != b[i] {
            return false;
        }
        i = i + 1;
    }
    proof {
        assert(a@ =~= b@);
    }
    true
}

impl PartialEq for Response {
    fn eq(&self, other: &Self) -> (r: bool) {
        self.http_version == other.http_version && self.status_code.eq(&other.status_code)
            && self.reason_phrase.eq(&other.reason_phrase)
            && headers_eq(&self.headers, &other.headers) && self.framing == other.framing
            && bytes_eq(&self.body, &other.body)
    }
}

impl vstd::std_specs::cmp::PartialEqSpecImpl for Response {
    open spec fn obeys_eq_spec() -> bool {
        true
    }

    /// Two responses are equal when every part carries the same content.
    open spec fn eq_spec(&self, other: &Self) -> bool {
        &&& self.http_version == other.http_version
        &&& vstd::std_specs::cmp::PartialEqSpec::eq_spec(&self.status_code, &other.status_code)
        &&& self.reason_phrase@ == other.reason_phrase@
        &&& views_of(self.headers@) == views_of(other.headers@)
        &&& self.framing == other.framing
        &&& self.body@ == other.body@
    }
}

impl PartialEq for Message {
    fn eq(&self, other: &Self) -> (r: bool) {
        match (self, other) {
            (Message::Response(a), Message::Response(b)) => a.eq(b),
        }
    }
}

impl vstd::std_specs::cmp::PartialEqSpecImpl for Message {
    open spec fn obeys_eq_spec() -> bool {
        true
    }

    /// Two messages are equal when their responses are.
    open spec fn eq_spec(&self, other: &Self) -> bool {
        match (self, other) {
            (Message::Response(a), Message::Response(b)) =>
                vstd::std_specs::cmp::PartialEqSpec::eq_spec(a, b),
        }
    }
}

} // verus!
