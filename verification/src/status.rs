//! HTTP status codes: a pure table from numeric code to the
//! reason text this crate writes on status lines.

use vstd::prelude::*;

verus! {

/// An HTTP status code, or `Other` for a numeric code outside the
/// known table.
#[derive(Clone, Copy, Debug, PartialEq, Eq, Structural)]
pub enum StatusCode {
    Continue,
    SwitchingProtocols,
    Processing,
    EarlyHints,
    OK,
    Created,
    Accepted,
    NonAuthoritativeInformation,
    NoContent,
    ResetContent,
    PartialContent,
    MultiStatus,
    AlreadyReported,
    IMUsed,
    MultipleChoices,
    MovedPermanently,
    Found,
    SeeOther,
    NotModified,
    UseProxyDeprecated,
    TemporaryRedirect,
    PermanentRedirect,
    BadRequest,
    Unauthorized,
    PaymentRequiredExperimental,
    Forbidden,
    NotFound,
    MethodNotAllowed,
    NotAcceptable,
    ProxyAuthenticationRequired,
    RequestTimeout,
    Conflict,
    Gone,
    LengthRequired,
    PreconditionFailed,
    PayloadTooLarge,
    URITooLong,
    UnsupportedMediaType,
    RangeNotSatisfiable,
    ExpectationFailed,
    MisdirectedRequest,
    UnprocessableContent,
    Locked,
    FailedDependency,
    TooEarlyExperimental,
    UpgradeRequired,
    PreconditionRequired,
    TooManyRequests,
    RequestHeaderFieldsTooLarge,
    UnavailableForLegalReasons,
    InternalServerError,
    NotImplemented,
    BadGateway,
    ServiceUnavailable,
    GatewayTimeout,
    HTTPVersionNotSupported,
    VariantAlsoNegotiates,
    InsufficientStorage,
    LoopDetected,
    NotExtended,
    NetworkAuthenticationRequired,
    Other(u16),
}

impl StatusCode {
    /// The numeric code of a status.
    pub open spec fn spec_code(self) -> int {
        match self {
            StatusCode::Continue => 100,
            StatusCode::SwitchingProtocols => 101,
            StatusCode::Processing => 102,
            StatusCode::EarlyHints => 103,
            StatusCode::OK => 200,
            StatusCode::Created => 201,
            StatusCode::Accepted => 202,
            StatusCode::NonAuthoritativeInformation => 203,
            StatusCode::NoContent => 204,
            StatusCode::ResetContent => 205,
            StatusCode::PartialContent => 206,
            StatusCode::MultiStatus => 207,
            StatusCode::AlreadyReported => 208,
            StatusCode::IMUsed => 226,
            StatusCode::MultipleChoices => 300,
            StatusCode::MovedPermanently => 301,
            StatusCode::Found => 302,
            StatusCode::SeeOther => 303,
            StatusCode::NotModified => 304,
            StatusCode::UseProxyDeprecated => 305,
            StatusCode::TemporaryRedirect => 307,
            StatusCode::PermanentRedirect => 308,
            StatusCode::BadRequest => 400,
            StatusCode::Unauthorized => 401,
            StatusCode::PaymentRequiredExperimental => 402,
            StatusCode::Forbidden => 403,
            StatusCode::NotFound => 404,
            StatusCode::MethodNotAllowed => 405,
            StatusCode::NotAcceptable => 406,
            StatusCode::ProxyAuthenticationRequired => 407,
            StatusCode::RequestTimeout => 408,
            StatusCode::Conflict => 409,
            StatusCode::Gone => 410,
            StatusCode::LengthRequired => 411,
            StatusCode::PreconditionFailed => 412,
            StatusCode::PayloadTooLarge => 413,
            StatusCode::URITooLong => 414,
            StatusCode::UnsupportedMediaType => 415,
            StatusCode::RangeNotSatisfiable => 416,
            StatusCode::ExpectationFailed => 417,
            StatusCode::MisdirectedRequest => 421,
            StatusCode::UnprocessableContent => 422,
            StatusCode::Locked => 423,
            StatusCode::FailedDependency => 424,
            StatusCode::TooEarlyExperimental => 425,
            StatusCode::UpgradeRequired => 426,
            StatusCode::PreconditionRequired => 428,
            StatusCode::TooManyRequests => 429,
            StatusCode::RequestHeaderFieldsTooLarge => 431,
            StatusCode::UnavailableForLegalReasons => 451,
            StatusCode::InternalServerError => 500,
            StatusCode::NotImplemented => 501,
            StatusCode::BadGateway => 502,
            StatusCode::ServiceUnavailable => 503,
            StatusCode::GatewayTimeout => 504,
            StatusCode::HTTPVersionNotSupported => 505,
            StatusCode::VariantAlsoNegotiates => 506,
            StatusCode::InsufficientStorage => 507,
            StatusCode::LoopDetected => 508,
            StatusCode::NotExtended => 510,
            StatusCode::NetworkAuthenticationRequired => 511,
            StatusCode::Other(code) => code as int,
        }
    }

    /// The reason text of a status.
    pub open spec fn spec_message(self) -> Seq<char> {
        match self {
            StatusCode::Continue => "Continue"@,
            StatusCode::SwitchingProtocols => "SwitchingProtocols"@,
            StatusCode::Processing => "Processing"@,
            StatusCode::EarlyHints => "EarlyHints"@,
            StatusCode::OK => "Ok"@,
            StatusCode::Created => "Created"@,
            StatusCode::Accepted => "Accepted"@,
            StatusCode::NonAuthoritativeInformation => "NonAuthoritativeInformation"@,
            StatusCode::NoContent => "NoContent"@,
            StatusCode::ResetContent => "ResetContent"@,
            StatusCode::PartialContent => "PartialContent"@,
            StatusCode::MultiStatus => "MultiStatus"@,
            StatusCode::AlreadyReported => "AlreadyReported"@,
            StatusCode::IMUsed => "IMUsed"@,
            StatusCode::MultipleChoices => "MultipleChoices"@,
            StatusCode::MovedPermanently => "MovedPermanently"@,
            StatusCode::Found => "Found"@,
            StatusCode::SeeOther => "SeeOther"@,
            StatusCode::NotModified => "NotModified"@,
            StatusCode::UseProxyDeprecated => "UseProxyDeprecated"@,
            StatusCode::TemporaryRedirect => "TemporaryRedirect"@,
            StatusCode::PermanentRedirect => "PermanentRedirect"@,
            StatusCode::BadRequest => "BadRequest"@,
            StatusCode::Unauthorized => "Unauthorized"@,
            StatusCode::PaymentRequiredExperimental => "PaymentRequiredExperimental"@,
            StatusCode::Forbidden => "Forbidden"@,
            StatusCode::NotFound => "NotFound"@,
            StatusCode::MethodNotAllowed => "MethodNotAllowed"@,
            StatusCode::NotAcceptable => "NotAcceptable"@,
            StatusCode::ProxyAuthenticationRequired => "ProxyAuthenticationRequired"@,
            StatusCode::RequestTimeout => "RequestTimeout"@,
            StatusCode::Conflict => "Conflict"@,
            StatusCode::Gone => "Gone"@,
            StatusCode::LengthRequired => "LengthRequired"@,
            StatusCode::PreconditionFailed => "PreconditionFailed"@,
            StatusCode::PayloadTooLarge => "PayloadTooLarge"@,
            StatusCode::URITooLong => "URITooLong"@,
            StatusCode::UnsupportedMediaType => "UnsupportedMediaType"@,
            StatusCode::RangeNotSatisfiable => "RangeNotSatisfiable"@,
            StatusCode::ExpectationFailed => "ExpectationFailed"@,
            StatusCode::MisdirectedRequest => "MisdirectedRequest"@,
            StatusCode::UnprocessableContent => "UnprocessableContent"@,
            StatusCode::Locked => "Locked"@,
            StatusCode::FailedDependency => "FailedDependency"@,
            StatusCode::TooEarlyExperimental => "TooEarlyExperimental"@,
            StatusCode::UpgradeRequired => "UpgradeRequired"@,
            StatusCode::PreconditionRequired => "PreconditionRequired"@,
            StatusCode::TooManyRequests => "TooManyRequests"@,
            StatusCode::RequestHeaderFieldsTooLarge => "RequestHeaderFieldsTooLarge"@,
            StatusCode::UnavailableForLegalReasons => "UnavailableForLegalReasons"@,
            StatusCode::InternalServerError => "InternalServerError"@,
            StatusCode::NotImplemented => "NotImplemented"@,
            StatusCode::BadGateway => "BadGateway"@,
            StatusCode::ServiceUnavailable => "ServiceUnavailable"@,
            StatusCode::GatewayTimeout => "GatewayTimeout"@,
            StatusCode::HTTPVersionNotSupported => "HTTPVersionNotSupported"@,
            StatusCode::VariantAlsoNegotiates => "VariantAlsoNegotiates"@,
            StatusCode::InsufficientStorage => "InsufficientStorage"@,
            StatusCode::LoopDetected => "LoopDetected"@,
            StatusCode::NotExtended => "NotExtended"@,
            StatusCode::NetworkAuthenticationRequired => "NetworkAuthenticationRequired"@,
            StatusCode::Other(_) => "Unknown"@,
        }
    }

    /// The status a numeric code denotes.
    pub open spec fn spec_from_code(code: u16) -> StatusCode {
        match code {
            100 => StatusCode::Continue,
            101 => StatusCode::SwitchingProtocols,
            102 => StatusCode::Processing,
            103 => StatusCode::EarlyHints,
            200 => StatusCode::OK,
            201 => StatusCode::Created,
            202 => StatusCode::Accepted,
            203 => StatusCode::NonAuthoritativeInformation,
            204 => StatusCode::NoContent,
            205 => StatusCode::ResetContent,
            206 => StatusCode::PartialContent,
            207 => StatusCode::MultiStatus,
            208 => StatusCode::AlreadyReported,
            226 => StatusCode::IMUsed,
            300 => StatusCode::MultipleChoices,
            301 => StatusCode::MovedPermanently,
            302 => StatusCode::Found,
            303 => StatusCode::SeeOther,
            304 => StatusCode::NotModified,
            305 => StatusCode::UseProxyDeprecated,
            307 => StatusCode::TemporaryRedirect,
            308 => StatusCode::PermanentRedirect,
            400 => StatusCode::BadRequest,
            401 => StatusCode::Unauthorized,
            402 => StatusCode::PaymentRequiredExperimental,
            403 => StatusCode::Forbidden,
            404 => StatusCode::NotFound,
            405 => StatusCode::MethodNotAllowed,
            406 => StatusCode::NotAcceptable,
            407 => StatusCode::ProxyAuthenticationRequired,
            408 => StatusCode::RequestTimeout,
            409 => StatusCode::Conflict,
            410 => StatusCode::Gone,
            411 => StatusCode::LengthRequired,
            412 => StatusCode::PreconditionFailed,
            413 => StatusCode::PayloadTooLarge,
            414 => StatusCode::URITooLong,
            415 => StatusCode::UnsupportedMediaType,
            416 => StatusCode::RangeNotSatisfiable,
            417 => StatusCode::ExpectationFailed,
            421 => StatusCode::MisdirectedRequest,
            422 => StatusCode::UnprocessableContent,
            423 => StatusCode::Locked,
            424 => StatusCode::FailedDependency,
            425 => StatusCode::TooEarlyExperimental,
            426 => StatusCode::UpgradeRequired,
            428 => StatusCode::PreconditionRequired,
            429 => StatusCode::TooManyRequests,
            431 => StatusCode::RequestHeaderFieldsTooLarge,
            451 => StatusCode::UnavailableForLegalReasons,
            500 => StatusCode::InternalServerError,
            501 => StatusCode::NotImplemented,
            502 => StatusCode::BadGateway,
            503 => StatusCode::ServiceUnavailable,
            504 => StatusCode::GatewayTimeout,
            505 => StatusCode::HTTPVersionNotSupported,
            506 => StatusCode::VariantAlsoNegotiates,
            507 => StatusCode::InsufficientStorage,
            508 => StatusCode::LoopDetected,
            510 => StatusCode::NotExtended,
            511 => StatusCode::NetworkAuthenticationRequired,
            _ => StatusCode::Other(code),
        }
    }

    /// The numeric code and reason text of a status.
    pub fn as_tuple(&self) -> (r: (usize, &str))
        ensures
            r.0 == self.spec_code(),
            r.1@ == self.spec_message(),
    {
        match self {
            StatusCode::Continue => (100, "Continue"),
            StatusCode::SwitchingProtocols => (101, "SwitchingProtocols"),
            StatusCode::Processing => (102, "Processing"),
            StatusCode::EarlyHints => (103, "EarlyHints"),
            StatusCode::OK => (200, "Ok"),
            StatusCode::Created => (201, "Created"),
            StatusCode::Accepted => (202, "Accepted"),
            StatusCode::NonAuthoritativeInformation => (203, "NonAuthoritativeInformation"),
            StatusCode::NoContent => (204, "NoContent"),
            StatusCode::ResetContent => (205, "ResetContent"),
            StatusCode::PartialContent => (206, "PartialContent"),
            StatusCode::MultiStatus => (207, "MultiStatus"),
            StatusCode::AlreadyReported => (208, "AlreadyReported"),
            StatusCode::IMUsed => (226, "IMUsed"),
            StatusCode::MultipleChoices => (300, "MultipleChoices"),
            StatusCode::MovedPermanently => (301, "MovedPermanently"),
            StatusCode::Found => (302, "Found"),
            StatusCode::SeeOther => (303, "SeeOther"),
            StatusCode::NotModified => (304, "NotModified"),
            StatusCode::UseProxyDeprecated => (305, "UseProxyDeprecated"),
            StatusCode::TemporaryRedirect => (307, "TemporaryRedirect"),
            StatusCode::PermanentRedirect => (308, "PermanentRedirect"),
            StatusCode::BadRequest => (400, "BadRequest"),
            StatusCode::Unauthorized => (401, "Unauthorized"),
            StatusCode::PaymentRequiredExperimental => (402, "PaymentRequiredExperimental"),
            StatusCode::Forbidden => (403, "Forbidden"),
            StatusCode::NotFound => (404, "NotFound"),
            StatusCode::MethodNotAllowed => (405, "MethodNotAllowed"),
            StatusCode::NotAcceptable => (406, "NotAcceptable"),
            StatusCode::ProxyAuthenticationRequired => (407, "ProxyAuthenticationRequired"),
            StatusCode::RequestTimeout => (408, "RequestTimeout"),
            StatusCode::Conflict => (409, "Conflict"),
            StatusCode::Gone => (410, "Gone"),
            StatusCode::LengthRequired => (411, "LengthRequired"),
            StatusCode::PreconditionFailed => (412, "PreconditionFailed"),
            StatusCode::PayloadTooLarge => (413, "PayloadTooLarge"),
            StatusCode::URITooLong => (414, "URITooLong"),
            StatusCode::UnsupportedMediaType => (415, "UnsupportedMediaType"),
            StatusCode::RangeNotSatisfiable => (416, "RangeNotSatisfiable"),
            StatusCode::ExpectationFailed => (417, "ExpectationFailed"),
            StatusCode::MisdirectedRequest => (421, "MisdirectedRequest"),
            StatusCode::UnprocessableContent => (422, "UnprocessableContent"),
            StatusCode::Locked => (423, "Locked"),
            StatusCode::FailedDependency => (424, "FailedDependency"),
            StatusCode::TooEarlyExperimental => (425, "TooEarlyExperimental"),
            StatusCode::UpgradeRequired => (426, "UpgradeRequired"),
            StatusCode::PreconditionRequired => (428, "PreconditionRequired"),
            StatusCode::TooManyRequests => (429, "TooManyRequests"),
            StatusCode::RequestHeaderFieldsTooLarge => (431, "RequestHeaderFieldsTooLarge"),
            StatusCode::UnavailableForLegalReasons => (451, "UnavailableForLegalReasons"),
            StatusCode::InternalServerError => (500, "InternalServerError"),
            StatusCode::NotImplemented => (501, "NotImplemented"),
            StatusCode::BadGateway => (502, "BadGateway"),
            StatusCode::ServiceUnavailable => (503, "ServiceUnavailable"),
            StatusCode::GatewayTimeout => (504, "GatewayTimeout"),
            StatusCode::HTTPVersionNotSupported => (505, "HTTPVersionNotSupported"),
            StatusCode::VariantAlsoNegotiates => (506, "VariantAlsoNegotiates"),
            StatusCode::InsufficientStorage => (507, "InsufficientStorage"),
            StatusCode::LoopDetected => (508, "LoopDetected"),
            StatusCode::NotExtended => (510, "NotExtended"),
            StatusCode::NetworkAuthenticationRequired => (511, "NetworkAuthenticationRequired"),
            StatusCode::Other(code) => (*code as usize, "Unknown"),
        }
    }

    pub fn message(&self) -> (r: &str)
        ensures
            r@ == self.spec_message(),
    {
        self.as_tuple().1
    }

    pub fn code(&self) -> (r: usize)
        ensures
            r == self.spec_code(),
    {
        self.as_tuple().0
    }

    /// The status denoted by a numeric code; codes outside the
    /// table map to `Other`.
    pub fn from_code(code: u16) -> (r: StatusCode)
        ensures
            r == StatusCode::spec_from_code(code),
    {
        match code {
            100 => StatusCode::Continue,
            101 => StatusCode::SwitchingProtocols,
            102 => StatusCode::Processing,
            103 => StatusCode::EarlyHints,
            200 => StatusCode::OK,
            201 => StatusCode::Created,
            202 => StatusCode::Accepted,
            203 => StatusCode::NonAuthoritativeInformation,
            204 => StatusCode::NoContent,
            205 => StatusCode::ResetContent,
            206 => StatusCode::PartialContent,
            207 => StatusCode::MultiStatus,
            208 => StatusCode::AlreadyReported,
            226 => StatusCode::IMUsed,
            300 => StatusCode::MultipleChoices,
            301 => StatusCode::MovedPermanently,
            302 => StatusCode::Found,
            303 => StatusCode::SeeOther,
            304 => StatusCode::NotModified,
            305 => StatusCode::UseProxyDeprecated,
            307 => StatusCode::TemporaryRedirect,
            308 => StatusCode::PermanentRedirect,
            400 => StatusCode::BadRequest,
            401 => StatusCode::Unauthorized,
            402 => StatusCode::PaymentRequiredExperimental,
            403 => StatusCode::Forbidden,
            404 => StatusCode::NotFound,
            405 => StatusCode::MethodNotAllowed,
            406 => StatusCode::NotAcceptable,
            407 => StatusCode::ProxyAuthenticationRequired,
            408 => StatusCode::RequestTimeout,
            409 => StatusCode::Conflict,
            410 => StatusCode::Gone,
            411 => StatusCode::LengthRequired,
            412 => StatusCode::PreconditionFailed,
            413 => StatusCode::PayloadTooLarge,
            414 => StatusCode::URITooLong,
            415 => StatusCode::UnsupportedMediaType,
            416 => StatusCode::RangeNotSatisfiable,
            417 => StatusCode::ExpectationFailed,
            421 => StatusCode::MisdirectedRequest,
            422 => StatusCode::UnprocessableContent,
            423 => StatusCode::Locked,
            424 => StatusCode::FailedDependency,
            425 => StatusCode::TooEarlyExperimental,
            426 => StatusCode::UpgradeRequired,
            428 => StatusCode::PreconditionRequired,
            429 => StatusCode::TooManyRequests,
            431 => StatusCode::RequestHeaderFieldsTooLarge,
            451 => StatusCode::UnavailableForLegalReasons,
            500 => StatusCode::InternalServerError,
            501 => StatusCode::NotImplemented,
            502 => StatusCode::BadGateway,
            503 => StatusCode::ServiceUnavailable,
            504 => StatusCode::GatewayTimeout,
            505 => StatusCode::HTTPVersionNotSupported,
            506 => StatusCode::VariantAlsoNegotiates,
            507 => StatusCode::InsufficientStorage,
            508 => StatusCode::LoopDetected,
            510 => StatusCode::NotExtended,
            511 => StatusCode::NetworkAuthenticationRequired,
            _ => StatusCode::Other(code),
        }
    }

    /// Parses a decimal status string; a string that does not
    /// denote a known code is handed back as the error.
    pub fn try_from(value: &str) -> (r: Result<StatusCode, String>)
        ensures
            ({
                let ok = value@.len() > 0 && crate::text::all_digits(value@)
                    && crate::text::dec_val(value@) <= u16::MAX
                    && !(StatusCode::spec_from_code(crate::text::dec_val(value@) as u16) is Other);
                &&& r is Ok <==> ok
                &&& r is Ok ==> r.unwrap() == StatusCode::spec_from_code(crate::text::dec_val(value@) as u16)
                &&& r is Err ==> r.unwrap_err()@ == value@
            }),
    {
        let parsed = match crate::text::parse_usize(value) {
            Some(v) => {
                if v <= 65535 {
                    Some(v as u16)
                } else {
                    None
                }
            },
            None => None,
        };
        match parsed {
            Some(code) => {
                let status = StatusCode::from_code(code);
                if let StatusCode::Other(_) = status {
                    Err(value.to_owned())
                } else {
                    Ok(status)
                }
            },
            None => Err(value.to_owned()),
        }
    }
}

impl From<u16> for StatusCode {
    fn from(code: u16) -> (r: StatusCode) {
        StatusCode::from_code(code)
    }
}

impl vstd::std_specs::convert::FromSpecImpl<u16> for StatusCode {
    open spec fn obeys_from_spec() -> bool {
        true
    }

    open spec fn from_spec(code: u16) -> StatusCode {
        StatusCode::spec_from_code(code)
    }
}

impl Default for StatusCode {
    fn default() -> (r: StatusCode)
        ensures
            r == StatusCode::OK,
    {
        StatusCode::OK
    }
}

} // verus!
