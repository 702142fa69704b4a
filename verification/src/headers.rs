//! The header parser: one `name: value` line at a time, until the blank
//! line that closes the header section.
//!
//! Headers form an ordered, duplicate-preserving sequence, never a map,
//! since repeated field names carry order-significant meaning. A name keeps
//! its original case; a value loses the optional whitespace around it.
//! Folded continuation lines are not supported and are rejected as
//! malformed.

use vstd::prelude::*;
use vstd::slice::slice_subrange;

use crate::ParseError;
use crate::scan::{COLON, CR, HTAB, LF, SP};
use crate::scan::{is_ows, latin1, lift_bytes, ows_pred, trim_back, trim_front, trim_ows};
use crate::scan::{lemma_seq_find, lemma_seq_find_append, lemma_seq_find_is};
use crate::scan::{lemma_trim_back_is, lemma_trim_front_is};
use crate::scan::{line_break_pred, name_end_pred, seq_find};

verus! {

/// One header field: the name with its original case kept, the value with
/// the optional whitespace around it removed.
#[derive(Debug)]
pub struct Header {
    pub name: String,
    pub value: String,
}

impl View for Header {
    type V = (Seq<char>, Seq<char>);

    open spec fn view(&self) -> (Seq<char>, Seq<char>) {
        (self.name@, self.value@)
    }
}

impl PartialEq for Header {
    fn eq(&self, other: &Self) -> (r: bool) {
        self.name.eq(&other.name) && self.value.eq(&other.value)
    }
}

impl vstd::std_specs::cmp::PartialEqSpecImpl for Header {
    open spec fn obeys_eq_spec() -> bool {
        true
    }

    /// Two headers are equal when their name texts and value texts are.
    open spec fn eq_spec(&self, other: &Self) -> bool {
        self@ == other@
    }
}

/// Whether the bytes form a valid header name: a non-empty token of visible
/// ASCII with no colon.
pub open spec fn valid_name(name: Seq<u8>) -> bool {
    name.len() > 0 && forall|k: int|
        0 <= k < name.len() ==> 33 <= #[trigger] name[k] <= 126 && name[k] != COLON
}

/// What parsing the header section of `s` from index `i` yields: the
/// sequence of (name bytes, trimmed value bytes) pairs and the index just
/// past the blank line, or the first error.
///
/// A line is one header when it holds a colon before its line break, its
/// name is a valid token, and it ends in `CRLF`; the bare `CRLF` line closes
/// the section and is consumed. A line that starts with whitespace (a folded
/// continuation), has no colon, or breaks without a full `CRLF` is
/// `MalformedHeader`; a name that is empty or holds a byte outside the token
/// alphabet is `MalformedHeaderName`; a buffer that ends before the blank
/// line is `IncompleteInput`.
pub open spec fn spec_parse_headers(s: Seq<u8>, i: int) -> Result<
    (Seq<(Seq<u8>, Seq<u8>)>, int),
    ParseError,
>
    decreases s.len() - i,
        when 0 <= i <= s.len()
        via spec_parse_headers_decreases
{
    if i >= s.len() {
        Err(ParseError::IncompleteInput)
    } else if s[i] == CR {
        if i + 1 >= s.len() {
            Err(ParseError::IncompleteInput)
        } else if s[i + 1] == LF {
            Ok((Seq::empty(), i + 2))
        } else {
            Err(ParseError::MalformedHeader)
        }
    } else if s[i] == SP || s[i] == HTAB {
        Err(ParseError::MalformedHeader)
    } else if s[i] == LF {
        Err(ParseError::MalformedHeader)
    } else {
        let j = seq_find(s, i, name_end_pred());
        if j == s.len() {
            Err(ParseError::IncompleteInput)
        } else if s[j] != COLON {
            Err(ParseError::MalformedHeader)
        } else if !valid_name(s.subrange(i, j)) {
            Err(ParseError::MalformedHeaderName)
        } else {
            let e = seq_find(s, j + 1, line_break_pred());
            if e == s.len() {
                Err(ParseError::IncompleteInput)
            } else if s[e] == LF {
                Err(ParseError::MalformedHeader)
            } else if e + 1 == s.len() {
                Err(ParseError::IncompleteInput)
            } else if s[e + 1] != LF {
                Err(ParseError::MalformedHeader)
            } else {
                match spec_parse_headers(s, e + 2) {
                    Ok((hs, rest)) => Ok(
                        (seq![(s.subrange(i, j), trim_ows(s.subrange(j + 1, e)))] + hs, rest),
                    ),
                    Err(err) => Err(err),
                }
            }
        }
    }
}

#[via_fn]
proof fn spec_parse_headers_decreases(s: Seq<u8>, i: int) {
    if 0 <= i <= s.len() {
        lemma_seq_find(s, i, name_end_pred());
        let j = seq_find(s, i, name_end_pred());
        if j < s.len() {
            lemma_seq_find(s, j + 1, line_break_pred());
        }
    }
}

/// A parsed header section consumes at least its blank line and at most the
/// whole buffer.
pub proof fn lemma_headers_rest_bounds(s: Seq<u8>, i: int)
    requires
        0 <= i <= s.len(),
    ensures
        spec_parse_headers(s, i) matches Ok(t) ==> i + 2 <= t.1 <= s.len(),
    decreases s.len() - i,
{
    if spec_parse_headers(s, i) is Ok {
        if i < s.len() {
            lemma_seq_find(s, i, name_end_pred());
            let j = seq_find(s, i, name_end_pred());
            if j < s.len() {
                lemma_seq_find(s, j + 1, line_break_pred());
                let e = seq_find(s, j + 1, line_break_pred());
                if i < e + 2 <= s.len() {
                    lemma_headers_rest_bounds(s, e + 2);
                }
            }
        }
    }
}

/// A parsed header section is stable under more input: appending bytes to a
/// buffer whose header section parsed changes neither the headers nor where
/// the section ended.
pub proof fn lemma_headers_extension(s: Seq<u8>, t: Seq<u8>, i: int)
    requires
        0 <= i <= s.len(),
    ensures
        spec_parse_headers(s, i) is Ok ==> spec_parse_headers(s + t, i)
            == spec_parse_headers(s, i),
    decreases s.len() - i,
{
    if spec_parse_headers(s, i) is Ok {
        assert((s + t)[i] == s[i]);
        if s[i] == CR {
            assert((s + t)[i + 1] == s[i + 1]);
        } else {
            lemma_seq_find(s, i, name_end_pred());
            lemma_seq_find_append(s, t, i, name_end_pred());
            let j = seq_find(s, i, name_end_pred());
            assert((s + t).subrange(i, j) =~= s.subrange(i, j));
            lemma_seq_find(s, j + 1, line_break_pred());
            lemma_seq_find_append(s, t, j + 1, line_break_pred());
            let e = seq_find(s, j + 1, line_break_pred());
            assert((s + t).subrange(j + 1, e) =~= s.subrange(j + 1, e));
            lemma_headers_extension(s, t, e + 2);
        }
    }
}

/// Parses the header section at the front of the buffer into an ordered
/// header sequence, handing back the remainder just past the blank line,
/// per `spec_parse_headers`; each parsed pair becomes text one byte per
/// character.
#[verifier::loop_isolation(false)]
#[verifier::rlimit(60)]
pub fn parse_headers(msg: &[u8]) -> (r: Result<(Vec<Header>, &[u8]), ParseError>)
    ensures
        match spec_parse_headers(msg@, 0) {
            Ok((hs, rest)) => {
                &&& r matches Ok(t)
                &&& t.0@.len() == hs.len()
                &&& forall|k: int| 0 <= k < hs.len()
                    ==> (#[trigger] t.0@[k])@ == (latin1(hs[k].0), latin1(hs[k].1))
                &&& t.1@ == msg@.subrange(rest, msg@.len() as int)
            },
            Err(e) => r matches Err(e2) && e2 == e,
        },
{
    let n: usize = msg.len();
    let mut acc: Vec<Header> = Vec::new();
    let ghost mut models: Seq<(Seq<u8>, Seq<u8>)> = Seq::empty();
    let mut i: usize = 0;
    proof {
        if let Ok((hs, rest)) = spec_parse_headers(msg@, 0) {
            assert(models + hs =~= hs);
        }
    }
    loop
        invariant
            i <= n,
            n == msg@.len(),
            models.len() == acc@.len(),
            forall|k: int| 0 <= k < models.len()
                ==> (#[trigger] acc@[k])@ == (latin1(models[k].0), latin1(models[k].1)),
            match spec_parse_headers(msg@, i as int) {
                Ok(t) => spec_parse_headers(msg@, 0)
                    == Ok::<(Seq<(Seq<u8>, Seq<u8>)>, int), ParseError>((models + t.0, t.1)),
                Err(e) => spec_parse_headers(msg@, 0)
                    == Err::<(Seq<(Seq<u8>, Seq<u8>)>, int), ParseError>(e),
            },
        decreases n - i,
    {
        if i >= n {
            return Err(ParseError::IncompleteInput);
        }
        if msg[i] == CR {
            if i + 1 >= n {
                return Err(ParseError::IncompleteInput);
            }
            if msg[i + 1] == LF {
                proof {
                    if let Ok((hs, rest)) = spec_parse_headers(msg@, i as int) {
                        assert(models + hs =~= models);
                    }
                }
                let rest: &[u8] = slice_subrange(msg, i + 2, n);
                return Ok((acc, rest));
            }
            return Err(ParseError::MalformedHeader);
        }
        if msg[i] == SP || msg[i] == HTAB {
            return Err(ParseError::MalformedHeader);
        }
        if msg[i] == LF {
            return Err(ParseError::MalformedHeader);
        }
        // Scan the name: up to the colon, or to a premature line break.
        let mut j: usize = i;
        while j < n && msg[j] != COLON && msg[j] != CR && msg[j] != LF
            invariant
                i <= j <= n == msg@.len(),
                forall|k: int| i <= k < j
                    ==> #[trigger] msg@[k] != COLON && msg@[k] != CR && msg@[k] != LF,
            decreases n - j,
        {
            j = j + 1;
        }
        proof {
            lemma_seq_find_is(msg@, i as int, j as int, name_end_pred());
        }
        if j == n {
            return Err(ParseError::IncompleteInput);
        }
        if msg[j] != COLON {
            return Err(ParseError::MalformedHeader);
        }
        // The name must be a non-empty visible-ASCII token.
        if j == i {
            return Err(ParseError::MalformedHeaderName);
        }
        let mut k: usize = i;
        while k < j
            invariant
                i <= k <= j <= n == msg@.len(),
                forall|m: int| i <= m < k ==> 33 <= #[trigger] msg@[m] <= 126,
            decreases j - k,
        {
            if msg[k] < 33 || msg[k] > 126 {
                proof {
                    assert(msg@.subrange(i as int, j as int)[k - i] == msg@[k as int]);
                }
                return Err(ParseError::MalformedHeaderName);
            }
            k = k + 1;
        }
        proof {
            assert(forall|m: int| 0 <= m < j - i
                ==> msg@.subrange(i as int, j as int)[m] == msg@[i + m]);
            assert(valid_name(msg@.subrange(i as int, j as int)));
        }
        // Scan the value: up to the line break.
        let mut e: usize = j + 1;
        while e < n && msg[e] != CR && msg[e] != LF
            invariant
                j + 1 <= e <= n == msg@.len(),
                forall|m: int| j + 1 <= m < e ==> #[trigger] msg@[m] != CR && msg@[m] != LF,
            decreases n - e,
        {
            e = e + 1;
        }
        proof {
            lemma_seq_find_is(msg@, j + 1, e as int, line_break_pred());
        }
        if e == n {
            return Err(ParseError::IncompleteInput);
        }
        if msg[e] == LF {
            return Err(ParseError::MalformedHeader);
        }
        if e + 1 == n {
            return Err(ParseError::IncompleteInput);
        }
        if msg[e + 1] != LF {
            return Err(ParseError::MalformedHeader);
        }
        // Strip the optional whitespace around the value.
        let mut a: usize = j + 1;
        while a < e && (msg[a] == SP || msg[a] == HTAB)
            invariant
                j + 1 <= a <= e <= n == msg@.len(),
                forall|m: int| j + 1 <= m < a ==> is_ows(#[trigger] msg@[m]),
            decreases e - a,
        {
            a = a + 1;
        }
        let mut b: usize = e;
        while b > a && (msg[b - 1] == SP || msg[b - 1] == HTAB)
            invariant
                a <= b <= e <= n == msg@.len(),
                forall|m: int| b <= m < e ==> is_ows(#[trigger] msg@[m]),
            decreases b,
        {
            b = b - 1;
        }
        proof {
            let p = ows_pred();
            let v = msg@.subrange(j + 1, e as int);
            assert(forall|m: int| 0 <= m < v.len() ==> v[m] == msg@[j + 1 + m]);
            assert(forall|m: int| 0 <= m < a - (j + 1) ==> p(#[trigger] v[m]));
            lemma_trim_front_is(v, a - (j + 1), p);
            let w = msg@.subrange(a as int, e as int);
            assert(trim_front(v, p) =~= w);
            assert(forall|m: int| 0 <= m < w.len() ==> w[m] == msg@[a + m]);
            assert(forall|m: int| b - a <= m < w.len() ==> p(#[trigger] w[m]));
            lemma_trim_back_is(w, b - a, p);
            assert(trim_back(w, p) =~= msg@.subrange(a as int, b as int));
            assert(trim_ows(v) == msg@.subrange(a as int, b as int));
        }
        let name: String = lift_bytes(msg, i, j);
        let value: String = lift_bytes(msg, a, b);
        acc.push(Header { name, value });
        proof {
            let h = (msg@.subrange(i as int, j as int), trim_ows(msg@.subrange(j + 1, e as int)));
            if let Ok((hs, rest)) = spec_parse_headers(msg@, e + 2) {
                assert((models + seq![h]) + hs =~= models + (seq![h] + hs));
            }
            models = models + seq![h];
        }
        i = e + 2;
    }
}

} // verus!
