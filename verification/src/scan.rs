//! Scanning primitives shared by the parsers: the wire's separator bytes,
//! first- and last-match scans over a sequence, trimming at either end, digit
//! runs, and the lift from wire bytes to text.
//!
//! Wire bytes become text one byte per character, so every byte value is
//! representable and the lift is exact.

use vstd::prelude::*;

verus! {

/// Carriage return, the first byte of the line terminator.
pub const CR: u8 = 13;

/// Line feed, the second byte of the line terminator.
pub const LF: u8 = 10;

/// The space separator of the status line.
pub const SP: u8 = 32;

/// Horizontal tab, the other optional-whitespace byte.
pub const HTAB: u8 = 9;

/// The colon that splits a header name from its value.
pub const COLON: u8 = 58;

/// The index of the first element at or after `i` that satisfies `p`, or the
/// length of `s` when none from `i` on does.
pub open spec fn seq_find<T>(s: Seq<T>, i: int, p: spec_fn(T) -> bool) -> int
    decreases s.len() - i,
{
    if i < 0 {
        0
    } else if i >= s.len() {
        s.len() as int
    } else if p(s[i]) {
        i
    } else {
        seq_find(s, i + 1, p)
    }
}

/// What `seq_find` returns: an index between `i` and the length, a match if
/// within bounds, and no match anywhere before it.
pub proof fn lemma_seq_find<T>(s: Seq<T>, i: int, p: spec_fn(T) -> bool)
    requires
        0 <= i <= s.len(),
    ensures
        i <= seq_find(s, i, p) <= s.len(),
        seq_find(s, i, p) < s.len() ==> p(s[seq_find(s, i, p)]),
        forall|k: int| i <= k < seq_find(s, i, p) ==> !p(#[trigger] s[k]),
    decreases s.len() - i,
{
    if i < s.len() && !p(s[i]) {
        lemma_seq_find(s, i + 1, p);
    }
}

/// An index with a match, preceded from `i` on by no match, is exactly what
/// `seq_find` returns; so is the length when nothing from `i` on matches.
pub proof fn lemma_seq_find_is<T>(s: Seq<T>, i: int, j: int, p: spec_fn(T) -> bool)
    requires
        0 <= i <= j <= s.len(),
        forall|k: int| i <= k < j ==> !p(#[trigger] s[k]),
        j == s.len() || p(s[j]),
    ensures
        seq_find(s, i, p) == j,
    decreases j - i,
{
    if i < j {
        lemma_seq_find_is(s, i + 1, j, p);
    }
}

/// A scan that found a match is unmoved by appending elements to the buffer.
pub proof fn lemma_seq_find_append<T>(s: Seq<T>, t: Seq<T>, i: int, p: spec_fn(T) -> bool)
    requires
        0 <= i <= s.len(),
        seq_find(s, i, p) < s.len(),
    ensures
        seq_find(s + t, i, p) == seq_find(s, i, p),
    decreases s.len() - i,
{
    assert((s + t)[i] == s[i]);
    if !p(s[i]) {
        lemma_seq_find_append(s, t, i + 1, p);
    }
}

/// The index of the last element of `s` that satisfies `p`, or `-1` when
/// none does.
pub open spec fn last_index_where<T>(s: Seq<T>, p: spec_fn(T) -> bool) -> int
    decreases s.len(),
{
    if s.len() == 0 {
        -1
    } else if p(s.last()) {
        s.len() - 1
    } else {
        last_index_where(s.drop_last(), p)
    }
}

/// An index with a match, followed by no match, is exactly what
/// `last_index_where` returns; so is `-1` when nothing matches.
pub proof fn lemma_last_index_where_is<T>(s: Seq<T>, q: int, p: spec_fn(T) -> bool)
    requires
        -1 <= q < s.len(),
        q >= 0 ==> p(s[q]),
        forall|k: int| q < k < s.len() ==> !p(#[trigger] s[k]),
    ensures
        last_index_where(s, p) == q,
    decreases s.len(),
{
    if s.len() > 0 && !p(s.last()) {
        lemma_last_index_where_is(s.drop_last(), q, p);
    }
}

/// `v` with its longest prefix of elements satisfying `p` removed.
pub open spec fn trim_front<T>(v: Seq<T>, p: spec_fn(T) -> bool) -> Seq<T>
    decreases v.len(),
{
    if v.len() > 0 && p(v[0]) {
        trim_front(v.subrange(1, v.len() as int), p)
    } else {
        v
    }
}

/// `v` with its longest suffix of elements satisfying `p` removed.
pub open spec fn trim_back<T>(v: Seq<T>, p: spec_fn(T) -> bool) -> Seq<T>
    decreases v.len(),
{
    if v.len() > 0 && p(v.last()) {
        trim_back(v.drop_last(), p)
    } else {
        v
    }
}

/// Dropping a prefix of matches up to the first non-match is what
/// `trim_front` does.
pub proof fn lemma_trim_front_is<T>(v: Seq<T>, a: int, p: spec_fn(T) -> bool)
    requires
        0 <= a <= v.len(),
        forall|k: int| 0 <= k < a ==> p(#[trigger] v[k]),
        a == v.len() || !p(v[a]),
    ensures
        trim_front(v, p) == v.subrange(a, v.len() as int),
    decreases a,
{
    if a == 0 {
        assert(v.subrange(0, v.len() as int) =~= v);
    } else {
        let w = v.subrange(1, v.len() as int);
        lemma_trim_front_is(w, a - 1, p);
        assert(w.subrange(a - 1, w.len() as int) =~= v.subrange(a, v.len() as int));
    }
}

/// Dropping a suffix of matches back to the last non-match is what
/// `trim_back` does.
pub proof fn lemma_trim_back_is<T>(v: Seq<T>, b: int, p: spec_fn(T) -> bool)
    requires
        0 <= b <= v.len(),
        forall|k: int| b <= k < v.len() ==> p(#[trigger] v[k]),
        b == 0 || !p(v[b - 1]),
    ensures
        trim_back(v, p) == v.subrange(0, b),
    decreases v.len() - b,
{
    if b == v.len() {
        assert(v.subrange(0, b) =~= v);
    } else {
        lemma_trim_back_is(v.drop_last(), b, p);
        assert(v.drop_last().subrange(0, b) =~= v.subrange(0, b));
    }
}

/// The predicate a reason-phrase or header-value scan stops at: a line-break
/// byte.
pub open spec fn line_break_pred() -> spec_fn(u8) -> bool {
    |b: u8| b == CR || b == LF
}

/// The predicate a header-name scan stops at: the colon separator or a
/// line-break byte.
pub open spec fn name_end_pred() -> spec_fn(u8) -> bool {
    |b: u8| b == COLON || b == CR || b == LF
}

/// Whether a byte is optional whitespace around a header value.
pub open spec fn is_ows(b: u8) -> bool {
    b == SP || b == HTAB
}

/// Optional whitespace, as a scanning predicate.
pub open spec fn ows_pred() -> spec_fn(u8) -> bool {
    |b: u8| is_ows(b)
}

/// `v` with optional whitespace removed from both ends.
pub open spec fn trim_ows(v: Seq<u8>) -> Seq<u8> {
    trim_back(trim_front(v, ows_pred()), ows_pred())
}

/// Whether a byte is an ASCII decimal digit.
pub open spec fn is_digit(b: u8) -> bool {
    48 <= b && b <= 57
}

/// The wire bytes read as text, one byte per character.
pub open spec fn latin1(s: Seq<u8>) -> Seq<char> {
    s.map_values(|b: u8| b as char)
}

/// Relies on `String::push`: appends the given character to the end of the
/// string.
#[verifier::external_body]
fn push_char(s: &mut String, c: char)
    ensures
        final(s)@ == old(s)@.push(c),
{
    s.push(c);
}

/// Builds the text of the byte run `s[from..to]`, one byte per character.
pub fn lift_bytes(s: &[u8], from: usize, to: usize) -> (r: String)
    requires
        from <= to <= s@.len(),
    ensures
        r@ == latin1(s@.subrange(from as int, to as int)),
{
    let mut r = String::new();
    let mut i: usize = from;
    while i < to
        invariant
            from <= i <= to <= s@.len(),
            r@ == latin1(s@.subrange(from as int, i as int)),
        decreases to - i,
    {
        let b: u8 = s[i];
        push_char(&mut r, b as char);
        i = i + 1;
        proof {
            assert(s@.subrange(from as int, i as int)
                =~= s@.subrange(from as int, i - 1).push(s@[i - 1]));
            assert(latin1(s@.subrange(from as int, i as int))
                =~= latin1(s@.subrange(from as int, i - 1)).push(s@[i - 1] as char));
        }
    }
    proof {
        assert(s@.subrange(from as int, to as int) =~= s@.subrange(from as int, i as int));
    }
    r
}

} // verus!
