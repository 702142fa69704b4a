//! An HTTP/1.x response parser and status-code model.
//!
//! The crate turns raw bytes into structured response values: a status line
//! (version, status code, reason phrase), an ordered, duplicate-preserving
//! header sequence, and a body whose extent is framed by the status code and
//! headers. A status-code registry maps numeric codes to named variants plus
//! an open `Extension` variant, and classifies codes by their leading digit.
//!
//! The crate performs no I/O of its own: callers hand it a byte buffer and
//! get back either a structured value, an `IncompleteInput` signal asking for
//! more bytes, or a hard parse error.

use vstd::prelude::*;

pub mod scan;
pub mod statuscodes;
pub mod message;
pub mod statusline;
pub mod headers;
pub mod framing;
pub mod client;

pub use statuscodes::StatusCode;
pub use statuscodes::StatusCodeClass;

verus! {

/// The protocol versions the parser recognizes on the wire.
#[derive(PartialEq, Eq, Structural, Clone, Copy, Debug)]
pub enum HttpVersion {
    Version10,
    Version11,
}

/// Every way a parse can fail, reported as a distinct, inspectable outcome.
///
/// `IncompleteInput` means the buffer ended before the message did: the
/// caller may gather more bytes and parse again. Every other variant is a
/// hard error, terminal for the message at hand.
#[derive(PartialEq, Eq, Structural, Clone, Copy, Debug)]
pub enum ParseError {
    /// The buffer ended before the grammar did; more bytes may succeed.
    IncompleteInput,
    /// The version token was not `HTTP/1.0` or `HTTP/1.1`.
    UnsupportedVersion,
    /// The status-line shape is broken: a separator is missing, the code is
    /// not exactly three digits, it starts with `0`, or a line break is bare.
    MalformedStatusCode,
    /// A header name is empty or holds a byte outside the token alphabet.
    MalformedHeaderName,
    /// A header line has no colon, starts with folding whitespace, or its
    /// terminator is not a CRLF pair.
    MalformedHeader,
    /// A `Content-Length` value is empty, non-numeric, or too large to hold.
    MalformedContentLength,
    /// Two `Content-Length` headers carry different values.
    ConflictingContentLength,
}

} // verus!
