//! The status-code registry: numeric codes to named variants and back, and
//! classification of a code by its leading digit.
//!
//! Every registered code owns one named variant; every other number is held
//! by the open `Extension` variant, so `from_code` is total. Codes are
//! classified by their hundreds digit; only codes in `[100, 599]` have a
//! class.

use vstd::prelude::*;
use vstd::pervasive::arbitrary;

verus! {

/// A response status code: one named variant per registered code, plus
/// `Extension` for any other number.
///
/// The second field of `Extension` is a fallback label for the code, distinct
/// from the wire reason phrase; codes built by the registry carry an empty
/// label.
#[derive(Debug)]
pub enum StatusCode {
    Continue,
    SwitchingProtocols,
    Okay,
    Created,
    Accepted,
    NonAuthoritativeInformation,
    NoContent,
    ResetContent,
    PartialContent,
    MultipleChoices,
    MovedPermanently,
    Found,
    SeeOther,
    NotModified,
    UseProxy,
    TemporaryRedirect,
    BadRequest,
    Unauthorized,
    PaymentRequired,
    Forbidden,
    NotFound,
    MethodNotAllowed,
    NotAcceptable,
    ProxyAuthenticationRequired,
    RequestTimeout,
    Conflict,
    Gone,
    LengthRequired,
    PreconditionFailed,
    PayloadTooLarge,
    UriTooLong,
    UnsupportedMediaType,
    RangeNotSatisfiable,
    ExpectationFailed,
    UpgradeRequired,
    InternalServerError,
    NotImplemented,
    BadGateway,
    ServiceUnavailable,
    GatewayTimeout,
    HttpVersionNotSupported,
    Extension(u16, String),
}

/// The class of a status code, given by its hundreds digit.
#[derive(PartialEq, Eq, Structural, Clone, Copy, Debug)]
pub enum StatusCodeClass {
    Informational,
    Successful,
    Redirection,
    ClientError,
    ServerError,
}

/// The numeric code a status stands for: its registered number for a named
/// variant, the carried number for an `Extension`.
pub open spec fn code_of(s: StatusCode) -> u16 {
    match s {
        StatusCode::Continue => 100,
        StatusCode::SwitchingProtocols => 101,
        StatusCode::Okay => 200,
        StatusCode::Created => 201,
        StatusCode::Accepted => 202,
        StatusCode::NonAuthoritativeInformation => 203,
        StatusCode::NoContent => 204,
        StatusCode::ResetContent => 205,
        StatusCode::PartialContent => 206,
        StatusCode::MultipleChoices => 300,
        StatusCode::MovedPermanently => 301,
        StatusCode::Found => 302,
        StatusCode::SeeOther => 303,
        StatusCode::NotModified => 304,
        StatusCode::UseProxy => 305,
        StatusCode::TemporaryRedirect => 307,
        StatusCode::BadRequest => 400,
        StatusCode::Unauthorized => 401,
        StatusCode::PaymentRequired => 402,
        StatusCode::Forbidden => 403,
        StatusCode::NotFound => 404,
        StatusCode::MethodNotAllowed => 405,
        StatusCode::NotAcceptable => 406,
        StatusCode::ProxyAuthenticationRequired => 407,
        StatusCode::RequestTimeout => 408,
        StatusCode::Conflict => 409,
        StatusCode::Gone => 410,
        StatusCode::LengthRequired => 411,
        StatusCode::PreconditionFailed => 412,
        StatusCode::PayloadTooLarge => 413,
        StatusCode::UriTooLong => 414,
        StatusCode::UnsupportedMediaType => 415,
        StatusCode::RangeNotSatisfiable => 416,
        StatusCode::ExpectationFailed => 417,
        StatusCode::UpgradeRequired => 426,
        StatusCode::InternalServerError => 500,
        StatusCode::NotImplemented => 501,
        StatusCode::BadGateway => 502,
        StatusCode::ServiceUnavailable => 503,
        StatusCode::GatewayTimeout => 504,
        StatusCode::HttpVersionNotSupported => 505,
        StatusCode::Extension(c, _) => c,
    }
}

/// Whether a number is registered, that is, owns a named variant.
pub open spec fn is_named_code(code: u16) -> bool {
    ||| code == 100 ||| code == 101
    ||| code == 200 ||| code == 201 ||| code == 202 ||| code == 203
    ||| code == 204 ||| code == 205 ||| code == 206
    ||| code == 300 ||| code == 301 ||| code == 302 ||| code == 303
    ||| code == 304 ||| code == 305 ||| code == 307
    ||| code == 400 ||| code == 401 ||| code == 402 ||| code == 403
    ||| code == 404 ||| code == 405 ||| code == 406 ||| code == 407
    ||| code == 408 ||| code == 409 ||| code == 410 ||| code == 411
    ||| code == 412 ||| code == 413 ||| code == 414 ||| code == 415
    ||| code == 416 ||| code == 417 ||| code == 426
    ||| code == 500 ||| code == 501 ||| code == 502 ||| code == 503
    ||| code == 504 ||| code == 505
}

/// The named variant a registered number maps to; unspecified for numbers
/// that are not registered.
pub open spec fn named_of(code: u16) -> StatusCode {
    if code == 100 { StatusCode::Continue }
    else if code == 101 { StatusCode::SwitchingProtocols }
    else if code == 200 { StatusCode::Okay }
    else if code == 201 { StatusCode::Created }
    else if code == 202 { StatusCode::Accepted }
    else if code == 203 { StatusCode::NonAuthoritativeInformation }
    else if code == 204 { StatusCode::NoContent }
    else if code == 205 { StatusCode::ResetContent }
    else if code == 206 { StatusCode::PartialContent }
    else if code == 300 { StatusCode::MultipleChoices }
    else if code == 301 { StatusCode::MovedPermanently }
    else if code == 302 { StatusCode::Found }
    else if code == 303 { StatusCode::SeeOther }
    else if code == 304 { StatusCode::NotModified }
    else if code == 305 { StatusCode::UseProxy }
    else if code == 307 { StatusCode::TemporaryRedirect }
    else if code == 400 { StatusCode::BadRequest }
    else if code == 401 { StatusCode::Unauthorized }
    else if code == 402 { StatusCode::PaymentRequired }
    else if code == 403 { StatusCode::Forbidden }
    else if code == 404 { StatusCode::NotFound }
    else if code == 405 { StatusCode::MethodNotAllowed }
    else if code == 406 { StatusCode::NotAcceptable }
    else if code == 407 { StatusCode::ProxyAuthenticationRequired }
    else if code == 408 { StatusCode::RequestTimeout }
    else if code == 409 { StatusCode::Conflict }
    else if code == 410 { StatusCode::Gone }
    else if code == 411 { StatusCode::LengthRequired }
    else if code == 412 { StatusCode::PreconditionFailed }
    else if code == 413 { StatusCode::PayloadTooLarge }
    else if code == 414 { StatusCode::UriTooLong }
    else if code == 415 { StatusCode::UnsupportedMediaType }
    else if code == 416 { StatusCode::RangeNotSatisfiable }
    else if code == 417 { StatusCode::ExpectationFailed }
    else if code == 426 { StatusCode::UpgradeRequired }
    else if code == 500 { StatusCode::InternalServerError }
    else if code == 501 { StatusCode::NotImplemented }
    else if code == 502 { StatusCode::BadGateway }
    else if code == 503 { StatusCode::ServiceUnavailable }
    else if code == 504 { StatusCode::GatewayTimeout }
    else if code == 505 { StatusCode::HttpVersionNotSupported }
    else { arbitrary() }
}

/// What `StatusCode::from_code` returns for a number: the named variant where
/// one is registered, else an `Extension` carrying the number and an empty
/// label. An exact numeric match to a named variant always wins.
pub open spec fn from_code_spec(code: u16, s: StatusCode) -> bool {
    &&& code_of(s) == code
    &&& is_named_code(code) ==> s == named_of(code)
    &&& !is_named_code(code) ==> (s matches StatusCode::Extension(c, h)
            && c == code && h@ == Seq::<char>::empty())
}

/// The class a number belongs to: its hundreds digit for numbers in
/// `[100, 599]`, nothing outside that range.
pub open spec fn spec_class_of(code: u16) -> Option<StatusCodeClass> {
    if 100 <= code && code <= 199 { Some(StatusCodeClass::Informational) }
    else if 200 <= code && code <= 299 { Some(StatusCodeClass::Successful) }
    else if 300 <= code && code <= 399 { Some(StatusCodeClass::Redirection) }
    else if 400 <= code && code <= 499 { Some(StatusCodeClass::ClientError) }
    else if 500 <= code && code <= 599 { Some(StatusCodeClass::ServerError) }
    else { None }
}

impl StatusCode {
    /// Maps a number to its status: the named variant where the number is
    /// registered, else `Extension(code, "")`. Total; never fails.
    pub fn from_code(code: u16) -> (r: StatusCode)
        ensures
            from_code_spec(code, r),
    {
        match code {
            100 => StatusCode::Continue,
            101 => StatusCode::SwitchingProtocols,
            200 => StatusCode::Okay,
            201 => StatusCode::Created,
            202 => StatusCode::Accepted,
            203 => StatusCode::NonAuthoritativeInformation,
            204 => StatusCode::NoContent,
            205 => StatusCode::ResetContent,
            206 => StatusCode::PartialContent,
            300 => StatusCode::MultipleChoices,
            301 => StatusCode::MovedPermanently,
            302 => StatusCode::Found,
            303 => StatusCode::SeeOther,
            304 => StatusCode::NotModified,
            305 => StatusCode::UseProxy,
            307 => StatusCode::TemporaryRedirect,
            400 => StatusCode::BadRequest,
            401 => StatusCode::Unauthorized,
            402 => StatusCode::PaymentRequired,
            403 => StatusCode::Forbidden,
            404 => StatusCode::NotFound,
            405 => StatusCode::MethodNotAllowed,
            406 => StatusCode::NotAcceptable,
            407 => StatusCode::ProxyAuthenticationRequired,
            408 => StatusCode::RequestTimeout,
            409 => StatusCode::Conflict,
            410 => StatusCode::Gone,
            411 => StatusCode::LengthRequired,
            412 => StatusCode::PreconditionFailed,
            413 => StatusCode::PayloadTooLarge,
            414 => StatusCode::UriTooLong,
            415 => StatusCode::UnsupportedMediaType,
            416 => StatusCode::RangeNotSatisfiable,
            417 => StatusCode::ExpectationFailed,
            426 => StatusCode::UpgradeRequired,
            500 => StatusCode::InternalServerError,
            501 => StatusCode::NotImplemented,
            502 => StatusCode::BadGateway,
            503 => StatusCode::ServiceUnavailable,
            504 => StatusCode::GatewayTimeout,
            505 => StatusCode::HttpVersionNotSupported,
            _ => StatusCode::Extension(code, String::new()),
        }
    }

    /// The numeric code of this status; the inverse of `from_code` on the
    /// registered range. Total; never fails.
    pub fn to_code(&self) -> (r: u16)
        ensures
            r == code_of(*self),
    {
        match self {
            StatusCode::Continue => 100,
            StatusCode::SwitchingProtocols => 101,
            StatusCode::Okay => 200,
            StatusCode::Created => 201,
            StatusCode::Accepted => 202,
            StatusCode::NonAuthoritativeInformation => 203,
            StatusCode::NoContent => 204,
            StatusCode::ResetContent => 205,
            StatusCode::PartialContent => 206,
            StatusCode::MultipleChoices => 300,
            StatusCode::MovedPermanently => 301,
            StatusCode::Found => 302,
            StatusCode::SeeOther => 303,
            StatusCode::NotModified => 304,
            StatusCode::UseProxy => 305,
            StatusCode::TemporaryRedirect => 307,
            StatusCode::BadRequest => 400,
            StatusCode::Unauthorized => 401,
            StatusCode::PaymentRequired => 402,
            StatusCode::Forbidden => 403,
            StatusCode::NotFound => 404,
            StatusCode::MethodNotAllowed => 405,
            StatusCode::NotAcceptable => 406,
            StatusCode::ProxyAuthenticationRequired => 407,
            StatusCode::RequestTimeout => 408,
            StatusCode::Conflict => 409,
            StatusCode::Gone => 410,
            StatusCode::LengthRequired => 411,
            StatusCode::PreconditionFailed => 412,
            StatusCode::PayloadTooLarge => 413,
            StatusCode::UriTooLong => 414,
            StatusCode::UnsupportedMediaType => 415,
            StatusCode::RangeNotSatisfiable => 416,
            StatusCode::ExpectationFailed => 417,
            StatusCode::UpgradeRequired => 426,
            StatusCode::InternalServerError => 500,
            StatusCode::NotImplemented => 501,
            StatusCode::BadGateway => 502,
            StatusCode::ServiceUnavailable => 503,
            StatusCode::GatewayTimeout => 504,
            StatusCode::HttpVersionNotSupported => 505,
            StatusCode::Extension(c, _) => *c,
        }
    }

    /// The class of this status by its hundreds digit, or `None` for a code
    /// outside `[100, 599]` — which only an `Extension` built by hand can
    /// carry, since parsing admits three-digit codes of at least 100 alone.
    pub fn class_of(&self) -> (r: Option<StatusCodeClass>)
        ensures
            r == spec_class_of(code_of(*self)),
    {
        let code: u16 = self.to_code();
        if 100 <= code && code <= 199 { Some(StatusCodeClass::Informational) }
        else if 200 <= code && code <= 299 { Some(StatusCodeClass::Successful) }
        else if 300 <= code && code <= 399 { Some(StatusCodeClass::Redirection) }
        else if 400 <= code && code <= 499 { Some(StatusCodeClass::ClientError) }
        else if 500 <= code && code <= 599 { Some(StatusCodeClass::ServerError) }
        else { None }
    }
}

/// The registry's conversions invert each other: any status `from_code` may
/// return for a number in `[100, 599]` maps back to that number under
/// `to_code`.
pub proof fn lemma_code_roundtrip(code: u16, s: StatusCode)
    requires
        100 <= code <= 599,
        from_code_spec(code, s),
    ensures
        code_of(s) == code,
{
}

/// Classification commutes with the registry: any status `from_code` may
/// return is classified by the hundreds digit of the number it was built
/// from, and carries no class when that number lies outside `[100, 599]`.
pub proof fn lemma_class_of_from_code(code: u16, s: StatusCode)
    requires
        from_code_spec(code, s),
    ensures
        100 <= code <= 199 ==> spec_class_of(code_of(s)) == Some(StatusCodeClass::Informational),
        200 <= code <= 299 ==> spec_class_of(code_of(s)) == Some(StatusCodeClass::Successful),
        300 <= code <= 399 ==> spec_class_of(code_of(s)) == Some(StatusCodeClass::Redirection),
        400 <= code <= 499 ==> spec_class_of(code_of(s)) == Some(StatusCodeClass::ClientError),
        500 <= code <= 599 ==> spec_class_of(code_of(s)) == Some(StatusCodeClass::ServerError),
        !(100 <= code <= 599) ==> spec_class_of(code_of(s)) is None,
{
}

impl PartialEq for StatusCode {
    fn eq(&self, other: &Self) -> (r: bool) {
        match (self, other) {
            (StatusCode::Extension(c1, h1), StatusCode::Extension(c2, h2)) =>
                *c1 == *c2 && h1.eq(h2),
            (StatusCode::Extension(_, _), _) => false,
            (_, StatusCode::Extension(_, _)) => false,
            _ => self.to_code() == other.to_code(),
        }
    }
}

impl vstd::std_specs::cmp::PartialEqSpecImpl for StatusCode {
    open spec fn obeys_eq_spec() -> bool {
        true
    }

    /// Two statuses are equal when they are the same named variant, or both
    /// extensions carrying the same number and the same label text.
    open spec fn eq_spec(&self, other: &Self) -> bool {
        match (self, other) {
            (StatusCode::Extension(c1, h1), StatusCode::Extension(c2, h2)) =>
                c1 == c2 && h1@ == h2@,
            (StatusCode::Extension(_, _), _) => false,
            (_, StatusCode::Extension(_, _)) => false,
            _ => code_of(*self) == code_of(*other),
        }
    }
}

} // verus!
