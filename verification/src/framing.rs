//! The body framer: how far a message body extends, decided from the status
//! code and the header sequence.
//!
//! In priority order: an informational status and the no-content statuses
//! force an absent body; a `Transfer-Encoding` whose last coding is
//! `chunked` makes the body chunked and any `Content-Length` is ignored; a
//! `Content-Length` fixes the byte count; with none of those the body runs
//! until the byte source closes. Header names, and the `chunked` coding,
//! match case-insensitively.

use vstd::prelude::*;
use vstd::string::StrSliceExecFns;

use crate::ParseError;
use crate::headers::Header;
use crate::scan::{last_index_where, lemma_last_index_where_is, lemma_seq_find_is, seq_find};
use crate::scan::{lemma_trim_back_is, lemma_trim_front_is, trim_back, trim_front};
use crate::statuscodes::{StatusCode, code_of};

verus! {

/// How a message body's extent is determined.
#[derive(PartialEq, Eq, Structural, Clone, Copy, Debug)]
pub enum BodyFraming {
    /// The status code forbids a body; nothing after the headers belongs to
    /// this message.
    NoBody,
    /// The body is exactly this many bytes.
    FixedLength(u64),
    /// The body is a sequence of transfer-coded chunks.
    Chunked,
    /// The body runs until the underlying byte source signals its end — a
    /// contract the body reader must honor, not one the framer can check.
    UntilClose,
}

/// The text of a header pair: its name and its value.
pub open spec fn views_of(hs: Seq<Header>) -> Seq<(Seq<char>, Seq<char>)> {
    hs.map_values(|h: Header| h@)
}

/// The code point of a character with an ASCII capital folded to its small
/// letter.
pub open spec fn lower_code(c: char) -> int {
    if 65 <= c as int && c as int <= 90 {
        c as int + 32
    } else {
        c as int
    }
}

/// Whether two texts are equal up to ASCII case.
pub open spec fn eq_nocase(a: Seq<char>, b: Seq<char>) -> bool {
    a.len() == b.len() && forall|i: int|
        0 <= i < a.len() ==> lower_code(a[i]) == lower_code(#[trigger] b[i])
}

/// Optional whitespace around a transfer coding, as a scanning predicate.
pub open spec fn ows_char_pred() -> spec_fn(char) -> bool {
    |c: char| c as int == 32 || c as int == 9
}

/// The comma that separates transfer codings, as a scanning predicate.
pub open spec fn comma_pred() -> spec_fn(char) -> bool {
    |c: char| c as int == 44
}

/// The text with optional whitespace removed from both ends.
pub open spec fn trim_chars(v: Seq<char>) -> Seq<char> {
    trim_back(trim_front(v, ows_char_pred()), ows_char_pred())
}

/// Whether a header is a `Transfer-Encoding` header, up to name case.
pub open spec fn is_te(h: (Seq<char>, Seq<char>)) -> bool {
    eq_nocase(h.0, "transfer-encoding"@)
}

/// `Transfer-Encoding` recognition, as a scanning predicate.
pub open spec fn is_te_pred() -> spec_fn((Seq<char>, Seq<char>)) -> bool {
    |h: (Seq<char>, Seq<char>)| is_te(h)
}

/// Whether a header is a `Content-Length` header, up to name case.
pub open spec fn is_cl(h: (Seq<char>, Seq<char>)) -> bool {
    eq_nocase(h.0, "content-length"@)
}

/// `Content-Length` recognition, as a scanning predicate.
pub open spec fn is_cl_pred() -> spec_fn((Seq<char>, Seq<char>)) -> bool {
    |h: (Seq<char>, Seq<char>)| is_cl(h)
}

/// Whether a `Transfer-Encoding` value's last coding — what follows its last
/// comma, trimmed — is `chunked`, up to case.
pub open spec fn is_chunked_value(v: Seq<char>) -> bool {
    eq_nocase(
        trim_chars(v.subrange(last_index_where(v, comma_pred()) + 1, v.len() as int)),
        "chunked"@,
    )
}

/// Whether the last `Transfer-Encoding` header ends in the `chunked` coding.
pub open spec fn te_chunked(hs: Seq<(Seq<char>, Seq<char>)>) -> bool {
    let li = last_index_where(hs, is_te_pred());
    li >= 0 && is_chunked_value(hs[li].1)
}

/// Whether a `Content-Length` value is numeric: non-empty, decimal digits
/// only.
pub open spec fn cl_ok(v: Seq<char>) -> bool {
    v.len() > 0 && forall|i: int| 0 <= i < v.len() ==> 48 <= (#[trigger] v[i]) as int <= 57
}

/// The number a run of decimal digit characters denotes.
pub open spec fn cl_num(v: Seq<char>) -> int
    decreases v.len(),
{
    if v.len() == 0 {
        0
    } else {
        cl_num(v.drop_last()) * 10 + (v.last() as int - 48)
    }
}

/// Whether a `Content-Length` value is numeric and small enough to hold.
pub open spec fn cl_ok64(v: Seq<char>) -> bool {
    cl_ok(v) && cl_num(v) <= u64::MAX
}

/// Whether a status code forbids a message body: the informational class
/// and the two no-content codes.
pub open spec fn no_body_code(code: u16) -> bool {
    (100 <= code && code <= 199) || code == 204 || code == 304
}

/// The framing the `Content-Length` headers of `hs` determine: an
/// unholdable value anywhere is malformed; two headers naming different
/// numbers conflict; one agreed number fixes the length; none leaves the
/// body running until the source closes.
pub open spec fn content_length_framing(hs: Seq<(Seq<char>, Seq<char>)>) -> Result<
    BodyFraming,
    ParseError,
> {
    if exists|i: int| 0 <= i < hs.len() && is_cl(#[trigger] hs[i]) && !cl_ok64(hs[i].1) {
        Err(ParseError::MalformedContentLength)
    } else if exists|i: int, j: int|
        0 <= i < hs.len() && 0 <= j < hs.len() && is_cl(#[trigger] hs[i]) && is_cl(
            #[trigger] hs[j],
        ) && cl_num(hs[i].1) != cl_num(hs[j].1) {
        Err(ParseError::ConflictingContentLength)
    } else if exists|i: int| 0 <= i < hs.len() && is_cl(#[trigger] hs[i]) {
        Ok(BodyFraming::FixedLength(cl_num(hs[seq_find(hs, 0, is_cl_pred())].1) as u64))
    } else {
        Ok(BodyFraming::UntilClose)
    }
}

/// What the framer decides for a status code and a header sequence, in
/// priority order: no-body codes first, then a chunked last transfer
/// coding, then `Content-Length`, else until-close.
pub open spec fn spec_determine_framing(code: u16, hs: Seq<(Seq<char>, Seq<char>)>) -> Result<
    BodyFraming,
    ParseError,
> {
    if no_body_code(code) {
        Ok(BodyFraming::NoBody)
    } else if te_chunked(hs) {
        Ok(BodyFraming::Chunked)
    } else {
        content_length_framing(hs)
    }
}

/// Compares the text `v[from..to]` with `t`, up to ASCII case.
fn range_eq_nocase(v: &str, from: usize, to: usize, t: &str) -> (r: bool)
    requires
        from <= to <= v@.len(),
    ensures
        r == eq_nocase(v@.subrange(from as int, to as int), t@),
{
    let tn: usize = t.unicode_len();
    if to - from != tn {
        return false;
    }
    let mut i: usize = 0;
    while i < tn
        invariant
            0 <= i <= tn,
            tn == t@.len(),
            to - from == tn,
            from <= to <= v@.len(),
            forall|k: int| 0 <= k < i ==> lower_code(v@[from + k]) == lower_code(
                #[trigger] t@[k],
            ),
        decreases tn - i,
    {
        let c1: char = v.get_char(from + i);
        let c2: char = t.get_char(i);
        let u1: u32 = c1 as u32;
        let u2: u32 = c2 as u32;
        let l1: u32 = if 65 <= u1 && u1 <= 90 { u1 + 32 } else { u1 };
        let l2: u32 = if 65 <= u2 && u2 <= 90 { u2 + 32 } else { u2 };
        if l1 != l2 {
            proof {
                assert(v@.subrange(from as int, to as int)[i as int] == v@[from + i]);
            }
            return false;
        }
        i = i + 1;
    }
    proof {
        assert(forall|k: int| 0 <= k < tn
            ==> v@.subrange(from as int, to as int)[k] == v@[from + k]);
    }
    true
}

/// Compares a header's name with `t`, up to ASCII case.
fn name_matches(h: &Header, t: &str) -> (r: bool)
    ensures
        r == eq_nocase(h.name@, t@),
{
    let s: &str = h.name.as_str();
    let n: usize = s.unicode_len();
    let r = range_eq_nocase(s, 0, n, t);
    proof {
        assert(h.name@.subrange(0, h.name@.len() as int) =~= h.name@);
    }
    r
}

/// A run of digit characters denotes a number that is not negative.
proof fn lemma_cl_num_nonneg(v: Seq<char>, j: int)
    requires
        0 <= j <= v.len(),
        forall|k: int| 0 <= k < j ==> 48 <= (#[trigger] v[k]) as int <= 57,
    ensures
        cl_num(v.subrange(0, j)) >= 0,
    decreases j,
{
    if j > 0 {
        lemma_cl_num_nonneg(v, j - 1);
        assert(v.subrange(0, j).drop_last() =~= v.subrange(0, j - 1));
        assert(v.subrange(0, j).last() == v[j - 1]);
    }
}

/// The number a run of digit characters denotes never shrinks as the run
/// grows rightward.
proof fn lemma_cl_num_prefix(v: Seq<char>, i: int, j: int)
    requires
        0 <= i <= j <= v.len(),
        forall|k: int| 0 <= k < j ==> 48 <= (#[trigger] v[k]) as int <= 57,
    ensures
        cl_num(v.subrange(0, i)) <= cl_num(v.subrange(0, j)),
    decreases j - i,
{
    if i < j {
        lemma_cl_num_prefix(v, i, j - 1);
        lemma_cl_num_nonneg(v, j - 1);
        assert(v.subrange(0, j).drop_last() =~= v.subrange(0, j - 1));
        assert(v.subrange(0, j).last() == v[j - 1]);
    }
}

/// Reads a run of decimal digit characters as a number: the denoted value
/// when the text is numeric and the value fits, nothing otherwise.
#[verifier::loop_isolation(false)]
fn parse_u64_digits(v: &str) -> (r: Option<u64>)
    ensures
        cl_ok64(v@) ==> (r matches Some(x) && x as int == cl_num(v@)),
        !cl_ok64(v@) ==> r is None,
{
    let m: usize = v.unicode_len();
    if m == 0 {
        return None;
    }
    let mut acc: u64 = 0;
    let mut i: usize = 0;
    while i < m
        invariant
            0 <= i <= m,
            forall|k: int| 0 <= k < i ==> 48 <= (#[trigger] v@[k]) as int <= 57,
            acc == cl_num(v@.subrange(0, i as int)),
        decreases m - i,
    {
        let c: char = v.get_char(i);
        let u: u32 = c as u32;
        if u < 48 || u > 57 {
            return None;
        }
        let d: u64 = (u - 48) as u64;
        if acc > (u64::MAX - d) / 10 {
            proof {
                let q = ((u64::MAX - d) / 10) as int;
                assert(acc as int * 10 + d as int > u64::MAX as int) by (nonlinear_arith)
                    requires
                        acc as int >= q + 1,
                        q == ((u64::MAX - d) as int) / 10,
                        0 <= d as int <= 9,
                        d == u - 48,
                        u <= 57,
                ;
                assert(v@.subrange(0, i + 1).drop_last() =~= v@.subrange(0, i as int));
                assert(v@.subrange(0, i + 1).last() == v@[i as int]);
                if cl_ok(v@) {
                    lemma_cl_num_prefix(v@, i + 1, v@.len() as int);
                    assert(v@.subrange(0, v@.len() as int) =~= v@);
                }
            }
            return None;
        }
        proof {
            let q = ((u64::MAX - d) / 10) as int;
            assert(acc as int * 10 + d as int <= u64::MAX as int) by (nonlinear_arith)
                requires
                    acc as int <= q,
                    q == ((u64::MAX - d) as int) / 10,
                    0 <= d as int <= 9,
            ;
        }
        acc = acc * 10 + d;
        i = i + 1;
        proof {
            assert(v@.subrange(0, i as int).drop_last() =~= v@.subrange(0, i - 1));
            assert(v@.subrange(0, i as int).last() == v@[i - 1]);
        }
    }
    proof {
        assert(v@.subrange(0, m as int) =~= v@);
    }
    Some(acc)
}

/// Decides the body framing for a status and a header sequence, per
/// `spec_determine_framing`.
#[verifier::loop_isolation(false)]
#[verifier::rlimit(60)]
pub fn determine_framing(status: &StatusCode, headers: &Vec<Header>) -> (r: Result<
    BodyFraming,
    ParseError,
>)
    ensures
        r == spec_determine_framing(code_of(*status), views_of(headers@)),
{
    let ghost hs = views_of(headers@);
    proof {
        assert(forall|k: int| 0 <= k < headers@.len() ==> hs[k] == (#[trigger] headers@[k])@);
    }
    let code: u16 = status.to_code();
    if (100 <= code && code <= 199) || code == 204 || code == 304 {
        return Ok(BodyFraming::NoBody);
    }
    let n: usize = headers.len();
    // Find the last Transfer-Encoding header, scanning from the back.
    let mut i: usize = n;
    while i > 0 && !name_matches(&headers[i - 1], "transfer-encoding")
        invariant
            0 <= i <= n,
            forall|k: int| i <= k < n ==> !is_te(#[trigger] hs[k]),
        decreases i,
    {
        i = i - 1;
    }
    proof {
        lemma_last_index_where_is(hs, i as int - 1, is_te_pred());
    }
    if i > 0 {
        // Its last coding, after the last comma and trimmed, decides.
        let vs: &str = headers[i - 1].value.as_str();
        let m: usize = vs.unicode_len();
        let mut q: usize = m;
        while q > 0 && !(vs.get_char(q - 1) as u32 == 44)
            invariant
                0 <= q <= m == vs@.len(),
                forall|k: int| q <= k < m ==> (#[trigger] vs@[k]) as int != 44,
            decreases q,
        {
            q = q - 1;
        }
        proof {
            lemma_last_index_where_is(vs@, q as int - 1, comma_pred());
        }
        let mut a: usize = q;
        while a < m && (vs.get_char(a) as u32 == 32 || vs.get_char(a) as u32 == 9)
            invariant
                q <= a <= m,
                forall|k: int| q <= k < a
                    ==> (#[trigger] vs@[k]) as int == 32 || vs@[k] as int == 9,
            decreases m - a,
        {
            a = a + 1;
        }
        let mut b: usize = m;
        while b > a && (vs.get_char(b - 1) as u32 == 32 || vs.get_char(b - 1) as u32 == 9)
            invariant
                a <= b <= m,
                forall|k: int| b <= k < m
                    ==> (#[trigger] vs@[k]) as int == 32 || vs@[k] as int == 9,
            decreases b,
        {
            b = b - 1;
        }
        proof {
            let p = ows_char_pred();
            let piece = vs@.subrange(q as int, m as int);
            assert(forall|k: int| 0 <= k < piece.len() ==> piece[k] == vs@[q + k]);
            assert(forall|k: int| 0 <= k < a - q ==> p(#[trigger] piece[k]));
            lemma_trim_front_is(piece, a - q, p);
            let w = vs@.subrange(a as int, m as int);
            assert(trim_front(piece, p) =~= w);
            assert(forall|k: int| 0 <= k < w.len() ==> w[k] == vs@[a + k]);
            assert(forall|k: int| b - a <= k < w.len() ==> p(#[trigger] w[k]));
            lemma_trim_back_is(w, b - a, p);
            assert(trim_back(w, p) =~= vs@.subrange(a as int, b as int));
            assert(trim_chars(piece) == vs@.subrange(a as int, b as int));
        }
        if range_eq_nocase(vs, a, b, "chunked") {
            return Ok(BodyFraming::Chunked);
        }
    }
    // No chunked transfer coding: Content-Length, if any, decides.
    // First reject any value that is not a holdable number.
    let mut idx: usize = 0;
    while idx < n
        invariant
            0 <= idx <= n,
            forall|k: int| 0 <= k < idx ==> (is_cl(#[trigger] hs[k]) ==> cl_ok64(hs[k].1)),
        decreases n - idx,
    {
        if name_matches(&headers[idx], "content-length") {
            match parse_u64_digits(headers[idx].value.as_str()) {
                Some(_) => {},
                None => {
                    return Err(ParseError::MalformedContentLength);
                },
            }
        }
        idx = idx + 1;
    }
    // Then all values must agree, and the agreed number fixes the length.
    let mut found: Option<u64> = None;
    let ghost mut fi: int = 0;
    let mut idx2: usize = 0;
    while idx2 < n
        invariant
            0 <= idx2 <= n,
            found is None ==> forall|k: int| 0 <= k < idx2 ==> !is_cl(#[trigger] hs[k]),
            found matches Some(y) ==> {
                &&& 0 <= fi < idx2
                &&& is_cl(hs[fi])
                &&& cl_num(hs[fi].1) == y
                &&& forall|k: int| 0 <= k < fi ==> !is_cl(#[trigger] hs[k])
                &&& forall|k: int| 0 <= k < idx2 && is_cl(#[trigger] hs[k])
                    ==> cl_num(hs[k].1) == y
            },
        decreases n - idx2,
    {
        if name_matches(&headers[idx2], "content-length") {
            match parse_u64_digits(headers[idx2].value.as_str()) {
                Some(x) => {
                    match found {
                        None => {
                            found = Some(x);
                            proof {
                                fi = idx2 as int;
                            }
                        },
                        Some(y) => {
                            if x != y {
                                return Err(ParseError::ConflictingContentLength);
                            }
                        },
                    }
                },
                None => {
                    proof {
                        assert(false);
                    }
                    return Err(ParseError::MalformedContentLength);
                },
            }
        }
        idx2 = idx2 + 1;
    }
    match found {
        None => Ok(BodyFraming::UntilClose),
        Some(y) => {
            proof {
                lemma_seq_find_is(hs, 0, fi, is_cl_pred());
            }
            Ok(BodyFraming::FixedLength(y))
        },
    }
}

} // verus!
