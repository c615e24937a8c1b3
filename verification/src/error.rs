//! The errors of the engine, each with the kind by which callers tell
//! failures apart, a category and a message.

use vstd::prelude::*;
use vstd::string::StringExecFns;

verus! {

/// The parser error of `url::Url::parse`; only its message is read.
#[verifier::external_type_specification]
#[verifier::external_body]
pub struct ExUrlParseError(url::ParseError);

/// The error of `http::Uri` parsing; only its message is read.
#[verifier::external_type_specification]
#[verifier::external_body]
pub struct ExInvalidUri(hyper::http::uri::InvalidUri);

/// The error of `HeaderName` parsing; only its message is read.
#[verifier::external_type_specification]
#[verifier::external_body]
pub struct ExInvalidHeaderName(hyper::header::InvalidHeaderName);

/// The error of `HeaderValue::from_str`; only its message is read.
#[verifier::external_type_specification]
#[verifier::external_body]
pub struct ExInvalidHeaderValue(hyper::header::InvalidHeaderValue);

/// The error of base64 decoding; only its message is read.
#[verifier::external_type_specification]
#[verifier::external_body]
pub struct ExDecodeError(base64::DecodeError);

/// The error with which `cookie_store` refuses a cookie; only its message is read.
#[verifier::external_type_specification]
#[verifier::external_body]
pub struct ExCookieError(cookie_store::CookieError);

/// The I/O error of the decompressors; only its message is read.
#[verifier::external_type_specification]
#[verifier::external_body]
pub struct ExIoError(std::io::Error);

/// The kinds of failure that a caller can tell apart.
#[derive(Clone, Copy, Debug, PartialEq, Eq, Structural)]
pub enum ErrorKind {
    InvalidUrl,
    InvalidHeader,
    InvalidBody,
    Timeout,
    TransportError,
    DecompressionError,
    CookiePersistenceError,
}

/// A failure as it is shown to the user: a category and a message.
#[derive(Debug, Clone)]
pub struct CyberAPIError {
    message: String,
    category: String,
    kind: ErrorKind,
}

/// The mathematical content of an error.
pub struct ErrorModel {
    pub message: Seq<char>,
    pub category: Seq<char>,
    pub kind: ErrorKind,
}

impl View for CyberAPIError {
    type V = ErrorModel;

    closed spec fn view(&self) -> ErrorModel {
        ErrorModel { message: self.message@, category: self.category@, kind: self.kind }
    }
}

impl CyberAPIError {
    /// The message as it is kept.
    pub closed spec fn message_string(&self) -> String {
        self.message
    }

    /// The message in the view is the text of the message kept.
    pub broadcast proof fn lemma_message(&self)
        ensures
            #[trigger] self.message_string()@ == self@.message,
    {
    }

    /// An error of the given kind, with its category and message.
    pub fn new(kind: ErrorKind, category: &str, message: String) -> (r: CyberAPIError)
        ensures
            r@ == (ErrorModel { message: message@, category: category@, kind }),
            r.message_string() == message,
    {
        CyberAPIError { message, category: String::from_str(category), kind }
    }

    pub fn message(&self) -> (m: &str)
        ensures
            m@ == self@.message,
    {
        self.message.as_str()
    }

    pub fn category(&self) -> (c: &str)
        ensures
            c@ == self@.category,
    {
        self.category.as_str()
    }

    pub fn kind(&self) -> (k: ErrorKind)
        ensures
            k == self@.kind,
    {
        self.kind
    }

    /// A request that failed on the way: a timeout where a stage ran out
    /// of its time, a transport error otherwise.
    pub fn from_transport(message: String, timed_out: bool) -> (r: CyberAPIError)
        ensures
            r@.message == message@,
            r@.kind == (if timed_out {
                ErrorKind::Timeout
            } else {
                ErrorKind::TransportError
            }),
            r@.category == (if timed_out {
                "timeout"@
            } else {
                "http"@
            }),
    {
        if timed_out {
            CyberAPIError::new(ErrorKind::Timeout, "timeout", message)
        } else {
            CyberAPIError::new(ErrorKind::TransportError, "http", message)
        }
    }

    /// A header of the response is no text.
    pub fn from_unreadable_header(message: String) -> (r: CyberAPIError)
        ensures
            r@ == (ErrorModel {
                message: message@,
                category: "toStrError"@,
                kind: ErrorKind::InvalidHeader,
            }),
    {
        CyberAPIError::new(ErrorKind::InvalidHeader, "toStrError", message)
    }

    /// The cookie jar could not be read from its file or written to it.
    pub fn from_jar_file(message: String) -> (r: CyberAPIError)
        ensures
            r@ == (ErrorModel {
                message: message@,
                category: "io"@,
                kind: ErrorKind::CookiePersistenceError,
            }),
    {
        CyberAPIError::new(ErrorKind::CookiePersistenceError, "io", message)
    }

    /// A cookie could not be written out for the cookie pane.
    pub fn from_cookie_text(message: String) -> (r: CyberAPIError)
        ensures
            r@ == (ErrorModel {
                message: message@,
                category: "serdeJson"@,
                kind: ErrorKind::CookiePersistenceError,
            }),
    {
        CyberAPIError::new(ErrorKind::CookiePersistenceError, "serdeJson", message)
    }

    /// The target could not be read as a URL.
    pub fn from_url_parse(error: url::ParseError) -> (r: CyberAPIError)
        ensures
            r@.category == "urlParse"@,
            r@.kind == ErrorKind::InvalidUrl,
            vstd::string::to_string_from_display_ensures::<url::ParseError>(
                &error,
                r.message_string(),
            ),
    {
        CyberAPIError::new(ErrorKind::InvalidUrl, "urlParse", error.to_string())
    }

    /// The resolved URL cannot be sent as a request target.
    pub fn from_invalid_uri(error: hyper::http::uri::InvalidUri) -> (r: CyberAPIError)
        ensures
            r@.category == "invalidUri"@,
            r@.kind == ErrorKind::InvalidUrl,
            vstd::string::to_string_from_display_ensures::<hyper::http::uri::InvalidUri>(
                &error,
                r.message_string(),
            ),
    {
        CyberAPIError::new(ErrorKind::InvalidUrl, "invalidUri", error.to_string())
    }

    /// A header's name is not a header name.
    pub fn from_invalid_header_name(error: hyper::header::InvalidHeaderName) -> (r: CyberAPIError)
        ensures
            r@.category == "invalidHeaderName"@,
            r@.kind == ErrorKind::InvalidHeader,
            vstd::string::to_string_from_display_ensures::<hyper::header::InvalidHeaderName>(
                &error,
                r.message_string(),
            ),
    {
        CyberAPIError::new(ErrorKind::InvalidHeader, "invalidHeaderName", error.to_string())
    }

    /// A header's value cannot be sent.
    pub fn from_invalid_header_value(error: hyper::header::InvalidHeaderValue) -> (r:
        CyberAPIError)
        ensures
            r@.category == "invalidHeader"@,
            r@.kind == ErrorKind::InvalidHeader,
            vstd::string::to_string_from_display_ensures::<hyper::header::InvalidHeaderValue>(
                &error,
                r.message_string(),
            ),
    {
        CyberAPIError::new(ErrorKind::InvalidHeader, "invalidHeader", error.to_string())
    }

    /// The body of a multipart request is not base64.
    pub fn from_base64(error: base64::DecodeError) -> (r: CyberAPIError)
        ensures
            r@.category == "base64"@,
            r@.kind == ErrorKind::InvalidBody,
            vstd::string::to_string_from_display_ensures::<base64::DecodeError>(
                &error,
                r.message_string(),
            ),
    {
        CyberAPIError::new(ErrorKind::InvalidBody, "base64", error.to_string())
    }

    /// The cookie jar refused a cookie.
    pub fn from_cookie_store(error: cookie_store::CookieError) -> (r: CyberAPIError)
        ensures
            r@.category == "cookieStore"@,
            r@.kind == ErrorKind::CookiePersistenceError,
            vstd::string::to_string_from_display_ensures::<cookie_store::CookieError>(
                &error,
                r.message_string(),
            ),
    {
        CyberAPIError::new(ErrorKind::CookiePersistenceError, "cookieStore", error.to_string())
    }

    /// A compressed body could not be unpacked.
    pub fn from_decompression(error: std::io::Error) -> (r: CyberAPIError)
        ensures
            r@.category == "io"@,
            r@.kind == ErrorKind::DecompressionError,
            vstd::string::to_string_from_display_ensures::<std::io::Error>(
                &error,
                r.message_string(),
            ),
    {
        CyberAPIError::new(ErrorKind::DecompressionError, "io", error.to_string())
    }
}

} // verus!
