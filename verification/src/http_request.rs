//! From the description of a call to the request on the wire, and from the
//! answer as it arrived to the result.

use crate::adapters::{
    base64_decode, base64_decoding, base64_encode, base64_encoding, brotli_decoding,
    check_header_value, check_uri, gunzip, gzip_decoding, header_name_form, is_header_value,
    lowercase, parse_header_name, parse_url, to_lowercase, to_uppercase, unbrotli, uppercase,
    uri_accepted, url_append_pair, url_serialization, url_with_pair,
};
use crate::cookies::{
    drawn_from, entries_after_all, expiries_kept, save_cookie_store, CookieJar, CookieRecord,
    StoreAction,
};
use crate::error::{CyberAPIError, ErrorKind, ErrorModel};
use crate::text::{same_text, starts_with, texts_of};
use crate::trace::{elapsed, HTTPTrace, TraceModel, TracePhase};
use vstd::prelude::*;
use vstd::string::StringExecFns;

verus! {

/// One query parameter or header of a request description.
#[derive(Debug, Clone)]
pub struct HTTPRequestKVParam {
    pub key: String,
    pub value: String,
    pub enabled: bool,
}

/// The description of a request as the user wrote it.
#[derive(Debug, Clone)]
pub struct HTTPRequest {
    pub method: String,
    pub uri: String,
    pub body: String,
    pub content_type: String,
    pub headers: Vec<HTTPRequestKVParam>,
    pub query: Vec<HTTPRequestKVParam>,
}

/// The time allowed for each stage of a request, in seconds.
#[derive(Debug, Clone, Copy)]
pub struct RequestTimeout {
    pub connect: u64,
    pub write: u64,
    pub read: u64,
}

/// The request methods that can be sent.
#[derive(Clone, Copy, Debug, PartialEq, Eq, Structural)]
pub enum Method {
    Get,
    Post,
    Put,
    Delete,
    Head,
    Options,
    Connect,
    Patch,
    Trace,
}

/// A request ready to be sent: header names in their normal form, each
/// once, in the order in which they were first set.
#[derive(Debug, Clone)]
pub struct WireRequest {
    pub method: Method,
    pub url: String,
    pub headers: Vec<(String, String)>,
    pub body: Vec<u8>,
    /// Whether the URL asks for a secure connection.
    pub secure: bool,
}

/// The mathematical content of a request ready to be sent.
pub struct WireModel {
    pub method: Method,
    pub url: Seq<char>,
    pub headers: Seq<(Seq<char>, Seq<char>)>,
    pub body: Seq<u8>,
    pub secure: bool,
}

/// The texts of a list of pairs of strings.
pub open spec fn pairs_view(pairs: Seq<(String, String)>) -> Seq<(Seq<char>, Seq<char>)> {
    pairs.map_values(|p: (String, String)| (p.0@, p.1@))
}

impl View for WireRequest {
    type V = WireModel;

    open spec fn view(&self) -> WireModel {
        WireModel {
            method: self.method,
            url: self.url@,
            headers: pairs_view(self.headers@),
            body: self.body@,
            secure: self.secure,
        }
    }
}

/// Why a description cannot be turned into a request.
#[derive(Clone, Copy, Debug, PartialEq, Eq, Structural)]
pub enum BuildFault {
    /// The body of a multipart request is not base64.
    Body,
    /// The target is no URL.
    Url,
    /// The resolved URL cannot be a request target.
    Uri,
    /// A header's name is no header name.
    HeaderName,
    /// A header's value cannot be sent.
    HeaderValue,
}

impl BuildFault {
    pub open spec fn category(self) -> Seq<char> {
        match self {
            BuildFault::Body => "base64"@,
            BuildFault::Url => "urlParse"@,
            BuildFault::Uri => "invalidUri"@,
            BuildFault::HeaderName => "invalidHeaderName"@,
            BuildFault::HeaderValue => "invalidHeader"@,
        }
    }

    pub open spec fn kind(self) -> ErrorKind {
        match self {
            BuildFault::Body => ErrorKind::InvalidBody,
            BuildFault::Url => ErrorKind::InvalidUrl,
            BuildFault::Uri => ErrorKind::InvalidUrl,
            BuildFault::HeaderName => ErrorKind::InvalidHeader,
            BuildFault::HeaderValue => ErrorKind::InvalidHeader,
        }
    }

    /// The error reports this fault.
    pub open spec fn reported_by(self, e: ErrorModel) -> bool {
        e.category == self.category() && e.kind == self.kind()
    }
}

/// The method that an uppercase name stands for; `GET` for any other text.
pub open spec fn method_named(upper: Seq<char>) -> Method {
    if upper == "POST"@ {
        Method::Post
    } else if upper == "PUT"@ {
        Method::Put
    } else if upper == "DELETE"@ {
        Method::Delete
    } else if upper == "HEAD"@ {
        Method::Head
    } else if upper == "OPTIONS"@ {
        Method::Options
    } else if upper == "CONNECT"@ {
        Method::Connect
    } else if upper == "PATCH"@ {
        Method::Patch
    } else if upper == "TRACE"@ {
        Method::Trace
    } else {
        Method::Get
    }
}

/// The method that a description asks for, whatever its case.
pub open spec fn method_of(text: Seq<char>) -> Method {
    method_named(uppercase(text))
}

impl Method {
    /// Reads a method from its uppercase name.
    pub fn from_upper(upper: &str) -> (m: Method)
        ensures
            m == method_named(upper@),
    {
        if same_text(upper, "POST") {
            Method::Post
        } else if same_text(upper, "PUT") {
            Method::Put
        } else if same_text(upper, "DELETE") {
            Method::Delete
        } else if same_text(upper, "HEAD") {
            Method::Head
        } else if same_text(upper, "OPTIONS") {
            Method::Options
        } else if same_text(upper, "CONNECT") {
            Method::Connect
        } else if same_text(upper, "PATCH") {
            Method::Patch
        } else if same_text(upper, "TRACE") {
            Method::Trace
        } else {
            Method::Get
        }
    }

    /// Reads a method from a description.
    pub fn parse(text: &str) -> (m: Method)
        ensures
            m == method_of(text@),
    {
        let upper = to_uppercase(text);
        Method::from_upper(upper.as_str())
    }

    /// The method's name on the wire.
    pub open spec fn wire_name(self) -> Seq<char> {
        match self {
            Method::Get => "GET"@,
            Method::Post => "POST"@,
            Method::Put => "PUT"@,
            Method::Delete => "DELETE"@,
            Method::Head => "HEAD"@,
            Method::Options => "OPTIONS"@,
            Method::Connect => "CONNECT"@,
            Method::Patch => "PATCH"@,
            Method::Trace => "TRACE"@,
        }
    }

    /// The method's name on the wire.
    pub fn name(&self) -> (n: &'static str)
        ensures
            n@ == self.wire_name(),
    {
        match self {
            Method::Get => "GET",
            Method::Post => "POST",
            Method::Put => "PUT",
            Method::Delete => "DELETE",
            Method::Head => "HEAD",
            Method::Options => "OPTIONS",
            Method::Connect => "CONNECT",
            Method::Patch => "PATCH",
            Method::Trace => "TRACE",
        }
    }
}

/// Whether a declared content type asks for a multipart body, which the
/// description carries as base64.
pub open spec fn is_multipart(content_type: Seq<char>) -> bool {
    "multipart/form-data"@.is_prefix_of(content_type)
}

/// The bytes of the body to send, or nothing where a multipart body is
/// not base64.
pub open spec fn body_of(content_type: Seq<char>, body: Seq<char>) -> Option<Seq<u8>> {
    if is_multipart(content_type) {
        base64_decoding(body)
    } else {
        Some(vstd::utf8::encode_utf8(body))
    }
}

/// The URL `base` with the enabled ones of the first `n` parameters added
/// to its query, in their order; nothing once a step has failed.
pub open spec fn url_after(base: Option<Seq<char>>, query: Seq<HTTPRequestKVParam>, n: int)
    -> Option<Seq<char>>
    decreases n,
{
    if n <= 0 {
        base
    } else {
        match url_after(base, query, n - 1) {
            None => None,
            Some(url) => if query[n - 1].enabled {
                url_with_pair(url, query[n - 1].key@, query[n - 1].value@)
            } else {
                Some(url)
            },
        }
    }
}

/// The URL to which a description resolves.
pub open spec fn resolved_url(uri: Seq<char>, query: Seq<HTTPRequestKVParam>) -> Option<
    Seq<char>,
> {
    url_after(url_serialization(uri), query, query.len() as int)
}

/// The position of the first entry called `name` at or after `from`, or
/// the length of the list where there is none.
pub open spec fn header_position<T>(headers: Seq<(Seq<char>, T)>, name: Seq<char>, from: int)
    -> int
    decreases headers.len() - from,
{
    if from >= headers.len() {
        headers.len() as int
    } else if from >= 0 && headers[from].0 == name {
        from
    } else {
        header_position(headers, name, from + 1)
    }
}

/// The header list with `name` set to `value`: in the place of the header
/// of that name, or at the end where there is none.
pub open spec fn header_set(
    headers: Seq<(Seq<char>, Seq<char>)>,
    name: Seq<char>,
    value: Seq<char>,
) -> Seq<(Seq<char>, Seq<char>)> {
    let at = header_position(headers, name, 0);
    if at < headers.len() {
        headers.update(at, (name, value))
    } else {
        headers.push((name, value))
    }
}

/// The header list made of the enabled ones of the first `n` declared
/// headers, set one after the other under their normal names; the fault of
/// the first enabled header that cannot be sent.
pub open spec fn headers_after(declared: Seq<HTTPRequestKVParam>, n: int) -> Result<
    Seq<(Seq<char>, Seq<char>)>,
    BuildFault,
>
    decreases n,
{
    if n <= 0 {
        Ok(Seq::empty())
    } else {
        match headers_after(declared, n - 1) {
            Err(fault) => Err(fault),
            Ok(headers) => if !declared[n - 1].enabled {
                Ok(headers)
            } else {
                match header_name_form(declared[n - 1].key@) {
                    None => Err(BuildFault::HeaderName),
                    Some(name) => if is_header_value(declared[n - 1].value@) {
                        Ok(header_set(headers, name, declared[n - 1].value@))
                    } else {
                        Err(BuildFault::HeaderValue)
                    },
                }
            },
        }
    }
}

/// The headers that a description declares by itself: its enabled headers,
/// its content type unless a header has given one, and the encodings that
/// the response may use.
pub open spec fn declared_headers(
    declared: Seq<HTTPRequestKVParam>,
    content_type: Seq<char>,
) -> Result<Seq<(Seq<char>, Seq<char>)>, BuildFault> {
    match headers_after(declared, declared.len() as int) {
        Err(fault) => Err(fault),
        Ok(headers) => if header_position(headers, "content-type"@, 0) < headers.len()
            || content_type.len() == 0 {
            Ok(header_set(headers, "accept-encoding"@, "gzip, br"@))
        } else if is_header_value(content_type) {
            Ok(
                header_set(
                    header_set(headers, "content-type"@, content_type),
                    "accept-encoding"@,
                    "gzip, br"@,
                ),
            )
        } else {
            Err(BuildFault::HeaderValue)
        },
    }
}

/// The first `n` cookies as one header value: `name=value`, joined by `; `.
pub open spec fn cookie_header(cookies: Seq<(Seq<char>, Seq<char>)>, n: int) -> Seq<char>
    decreases n,
{
    if n <= 0 {
        Seq::empty()
    } else if n == 1 {
        cookies[0].0 + "="@ + cookies[0].1
    } else {
        cookie_header(cookies, n - 1) + "; "@ + cookies[n - 1].0 + "="@ + cookies[n - 1].1
    }
}

/// The header list with the cookies to send, if there are any.
pub open spec fn with_cookies(
    headers: Seq<(Seq<char>, Seq<char>)>,
    cookies: Seq<(Seq<char>, Seq<char>)>,
) -> Result<Seq<(Seq<char>, Seq<char>)>, BuildFault> {
    let value = cookie_header(cookies, cookies.len() as int);
    if value.len() == 0 {
        Ok(headers)
    } else if is_header_value(value) {
        Ok(header_set(headers, "cookie"@, value))
    } else {
        Err(BuildFault::HeaderValue)
    }
}

/// Whether a URL asks for a secure connection.
pub open spec fn is_secure(url: Seq<char>) -> bool {
    "https:"@.is_prefix_of(url)
}

impl HTTPRequest {
    /// The request that the description stands for before any cookie is
    /// added, or the first fault in the order URL, body, headers.
    pub open spec fn draft(&self) -> Result<WireModel, BuildFault> {
        match resolved_url(self.uri@, self.query@) {
            None => Err(BuildFault::Url),
            Some(url) => if !uri_accepted(url) {
                Err(BuildFault::Uri)
            } else {
                match body_of(self.content_type@, self.body@) {
                    None => Err(BuildFault::Body),
                    Some(body) => match declared_headers(self.headers@, self.content_type@) {
                        Err(fault) => Err(fault),
                        Ok(headers) => Ok(
                            WireModel {
                                method: method_of(self.method@),
                                url,
                                headers,
                                body,
                                secure: is_secure(url),
                            },
                        ),
                    },
                }
            },
        }
    }

    /// The request that the description stands for when `cookies` are the
    /// cookies to send. Cookies are looked up under the resolved URL, which
    /// therefore has to be a URL by itself.
    pub open spec fn request_for(&self, cookies: Seq<(Seq<char>, Seq<char>)>) -> Result<
        WireModel,
        BuildFault,
    > {
        match self.draft() {
            Err(fault) => Err(fault),
            Ok(draft) => if url_serialization(draft.url).is_none() {
                Err(BuildFault::Url)
            } else {
                match with_cookies(draft.headers, cookies) {
                    Err(fault) => Err(fault),
                    Ok(headers) => Ok(WireModel { headers, ..draft }),
                }
            },
        }
    }
}

/// `r` is the request `expected`, or an error that reports the fault `expected`.
pub open spec fn built(r: Result<WireRequest, CyberAPIError>, expected: Result<
    WireModel,
    BuildFault,
>) -> bool {
    match (r, expected) {
        (Ok(request), Ok(model)) => request@ == model,
        (Err(e), Err(fault)) => fault.reported_by(e@),
        _ => false,
    }
}

/// `r` is the header list `expected`, or an error that reports the fault `expected`.
pub open spec fn listed(r: Result<Vec<(String, String)>, CyberAPIError>, expected: Result<
    Seq<(Seq<char>, Seq<char>)>,
    BuildFault,
>) -> bool {
    match (r, expected) {
        (Ok(headers), Ok(model)) => pairs_view(headers@) == model,
        (Err(e), Err(fault)) => fault.reported_by(e@),
        _ => false,
    }
}

proof fn lemma_url_fault_stays(base: Option<Seq<char>>, query: Seq<HTTPRequestKVParam>, i: int, n: int)
    requires
        0 <= i <= n,
        url_after(base, query, i).is_none(),
    ensures
        url_after(base, query, n).is_none(),
    decreases n,
{
    if i < n {
        lemma_url_fault_stays(base, query, i, n - 1);
    }
}

proof fn lemma_header_fault_stays(declared: Seq<HTTPRequestKVParam>, i: int, n: int)
    requires
        0 <= i <= n,
        headers_after(declared, i).is_err(),
    ensures
        headers_after(declared, n) == headers_after(declared, i),
    decreases n,
{
    if i < n {
        lemma_header_fault_stays(declared, i, n - 1);
    }
}

/// The bytes of the body to send.
pub fn decode_body(req: &HTTPRequest) -> (r: Result<Vec<u8>, CyberAPIError>)
    ensures
        match r {
            Ok(bytes) => body_of(req.content_type@, req.body@) == Some(bytes@),
            Err(e) => body_of(req.content_type@, req.body@).is_none()
                && BuildFault::Body.reported_by(e@),
        },
{
    if starts_with(req.content_type.as_str(), "multipart/form-data") {
        match base64_decode(req.body.as_str()) {
            Ok(bytes) => Ok(bytes),
            Err(error) => Err(CyberAPIError::from_base64(error)),
        }
    } else {
        Ok(req.body.as_str().as_bytes_vec())
    }
}

/// The URL to send the request to: the target with the enabled query
/// parameters added in their order.
pub fn resolve_url(req: &HTTPRequest) -> (r: Result<String, CyberAPIError>)
    ensures
        match r {
            Ok(url) => resolved_url(req.uri@, req.query@) == Some(url@) && uri_accepted(url@),
            Err(e) => match resolved_url(req.uri@, req.query@) {
                None => BuildFault::Url.reported_by(e@),
                Some(url) => !uri_accepted(url) && BuildFault::Uri.reported_by(e@),
            },
        },
{
    let ghost base = url_serialization(req.uri@);
    let ghost n = req.query@.len() as int;
    let mut current = match parse_url(req.uri.as_str()) {
        Ok(url) => url,
        Err(error) => {
            proof {
                lemma_url_fault_stays(base, req.query@, 0, n);
            }
            return Err(CyberAPIError::from_url_parse(error));
        },
    };
    let mut i: usize = 0;
    while i < req.query.len()
        invariant
            i <= req.query@.len(),
            n == req.query@.len(),
            base == url_serialization(req.uri@),
            url_after(base, req.query@, i as int) == Some(current@),
        decreases req.query@.len() - i,
    {
        if req.query[i].enabled {
            match url_append_pair(
                current.as_str(),
                req.query[i].key.as_str(),
                req.query[i].value.as_str(),
            ) {
                Ok(next) => {
                    current = next;
                },
                Err(error) => {
                    proof {
                        lemma_url_fault_stays(base, req.query@, i + 1, n);
                    }
                    return Err(CyberAPIError::from_url_parse(error));
                },
            }
        }
        i = i + 1;
    }
    match check_uri(current.as_str()) {
        Ok(_) => Ok(current),
        Err(error) => Err(CyberAPIError::from_invalid_uri(error)),
    }
}

/// The position of the first header called `name`, or the length of the list.
pub fn find_header(headers: &Vec<(String, String)>, name: &str) -> (at: usize)
    ensures
        at == header_position(pairs_view(headers@), name@, 0),
        at <= headers@.len(),
{
    let mut i: usize = 0;
    while i < headers.len()
        invariant
            i <= headers@.len(),
            header_position(pairs_view(headers@), name@, 0) == header_position(
                pairs_view(headers@),
                name@,
                i as int,
            ),
        decreases headers@.len() - i,
    {
        if same_text(headers[i].0.as_str(), name) {
            return i;
        }
        i = i + 1;
    }
    i
}

/// Sets the header `name` to `value`: in the place of the header of that
/// name, or at the end where there is none.
pub fn set_header(headers: &mut Vec<(String, String)>, name: String, value: String)
    ensures
        pairs_view(final(headers)@) == header_set(pairs_view(old(headers)@), name@, value@),
{
    let at = find_header(headers, name.as_str());
    let ghost before = pairs_view(headers@);
    let ghost entry = (name@, value@);
    if at < headers.len() {
        headers.remove(at);
        headers.insert(at, (name, value));
        proof {
            assert(pairs_view(headers@) =~= before.update(at as int, entry));
        }
    } else {
        headers.push((name, value));
        proof {
            assert(pairs_view(headers@) =~= before.push(entry));
        }
    }
}

/// The headers that the description declares by itself.
pub fn declare_headers(req: &HTTPRequest) -> (r: Result<Vec<(String, String)>, CyberAPIError>)
    ensures
        listed(r, declared_headers(req.headers@, req.content_type@)),
{
    let ghost n = req.headers@.len() as int;
    let mut headers: Vec<(String, String)> = Vec::new();
    let mut i: usize = 0;
    proof {
        assert(pairs_view(headers@) =~= Seq::empty());
    }
    while i < req.headers.len()
        invariant
            i <= req.headers@.len(),
            n == req.headers@.len(),
            headers_after(req.headers@, i as int) == Ok::<
                Seq<(Seq<char>, Seq<char>)>,
                BuildFault,
            >(pairs_view(headers@)),
        decreases req.headers@.len() - i,
    {
        if req.headers[i].enabled {
            let name = match parse_header_name(req.headers[i].key.as_str()) {
                Ok(name) => name,
                Err(error) => {
                    proof {
                        lemma_header_fault_stays(req.headers@, i + 1, n);
                    }
                    return Err(CyberAPIError::from_invalid_header_name(error));
                },
            };
            match check_header_value(req.headers[i].value.as_str()) {
                Ok(_) => {},
                Err(error) => {
                    proof {
                        lemma_header_fault_stays(req.headers@, i + 1, n);
                    }
                    return Err(CyberAPIError::from_invalid_header_value(error));
                },
            }
            set_header(&mut headers, name, req.headers[i].value.clone());
        }
        i = i + 1;
    }
    let explicit = find_header(&headers, "content-type") < headers.len();
    if !explicit && req.content_type.as_str().unicode_len() != 0 {
        match check_header_value(req.content_type.as_str()) {
            Ok(_) => {},
            Err(error) => {
                return Err(CyberAPIError::from_invalid_header_value(error));
            },
        }
        set_header(&mut headers, String::from_str("content-type"), req.content_type.clone());
    }
    set_header(&mut headers, String::from_str("accept-encoding"), String::from_str("gzip, br"));
    Ok(headers)
}

/// The cookies as one header value: `name=value`, joined by `; `.
pub fn cookie_header_value(cookies: &Vec<(String, String)>) -> (value: String)
    ensures
        value@ == cookie_header(pairs_view(cookies@), cookies@.len() as int),
{
    let mut value = String::new();
    let mut i: usize = 0;
    while i < cookies.len()
        invariant
            i <= cookies@.len(),
            value@ == cookie_header(pairs_view(cookies@), i as int),
        decreases cookies@.len() - i,
    {
        let ghost before = value@;
        if i > 0 {
            value.append("; ");
        }
        value.append(cookies[i].0.as_str());
        value.append("=");
        value.append(cookies[i].1.as_str());
        proof {
            let pairs = pairs_view(cookies@);
            assert(pairs[i as int] == (cookies@[i as int].0@, cookies@[i as int].1@));
            if i == 0 {
                assert(value@ =~= pairs[0].0 + "="@ + pairs[0].1);
            } else {
                assert(value@ =~= before + "; "@ + pairs[i as int].0 + "="@ + pairs[i as int].1);
            }
        }
        i = i + 1;
    }
    value
}

/// Adds the cookies to send to a header list, if there are any.
pub fn add_cookies(headers: Vec<(String, String)>, cookies: &Vec<(String, String)>) -> (r: Result<
    Vec<(String, String)>,
    CyberAPIError,
>)
    ensures
        listed(r, with_cookies(pairs_view(headers@), pairs_view(cookies@))),
{
    let mut headers = headers;
    let value = cookie_header_value(cookies);
    if value.as_str().unicode_len() != 0 {
        match check_header_value(value.as_str()) {
            Ok(_) => {},
            Err(error) => {
                return Err(CyberAPIError::from_invalid_header_value(error));
            },
        }
        set_header(&mut headers, String::from_str("cookie"), value);
    }
    Ok(headers)
}

/// The request that the description stands for before any cookie is added.
pub fn draft_request(req: &HTTPRequest) -> (r: Result<WireRequest, CyberAPIError>)
    ensures
        built(r, req.draft()),
{
    let method = Method::parse(req.method.as_str());
    let url = match resolve_url(req) {
        Ok(url) => url,
        Err(error) => {
            return Err(error);
        },
    };
    let body = match decode_body(req) {
        Ok(body) => body,
        Err(error) => {
            return Err(error);
        },
    };
    let headers = match declare_headers(req) {
        Ok(headers) => headers,
        Err(error) => {
            return Err(error);
        },
    };
    let secure = starts_with(url.as_str(), "https:");
    Ok(WireRequest { method, url, headers, body, secure })
}

/// Adds the cookies to send to a drafted request.
fn finish_request(draft: WireRequest, cookies: &Vec<(String, String)>) -> (r: Result<
    WireRequest,
    CyberAPIError,
>)
    ensures
        match with_cookies(draft@.headers, pairs_view(cookies@)) {
            Ok(headers) => r.is_ok() && r.unwrap()@ == (WireModel { headers, ..draft@ }),
            Err(fault) => r.is_err() && fault.reported_by(r.unwrap_err()@),
        },
{
    let WireRequest { method, url, headers, body, secure } = draft;
    match add_cookies(headers, cookies) {
        Ok(headers) => Ok(WireRequest { method, url, headers, body, secure }),
        Err(error) => Err(error),
    }
}

/// The request that the description stands for when `cookies` are the
/// cookies to send.
pub fn request_with_cookies(req: &HTTPRequest, cookies: &Vec<(String, String)>) -> (r: Result<
    WireRequest,
    CyberAPIError,
>)
    ensures
        built(r, req.request_for(pairs_view(cookies@))),
{
    let draft = match draft_request(req) {
        Ok(draft) => draft,
        Err(error) => {
            return Err(error);
        },
    };
    match parse_url(draft.url.as_str()) {
        Ok(_) => {},
        Err(error) => {
            return Err(CyberAPIError::from_url_parse(error));
        },
    }
    finish_request(draft, cookies)
}

/// The request that the description stands for, with the cookies that the
/// jar gives for its URL: cookies of the jar that apply to the URL, among
/// them every session cookie that does.
pub fn build_request(req: &HTTPRequest, jar: &CookieJar) -> (r: Result<WireRequest, CyberAPIError>)
    ensures
        match req.draft() {
            Err(fault) => r.is_err() && fault.reported_by(r.unwrap_err()@),
            Ok(draft) => exists|cookies: Seq<(String, String)>|
                {
                    &&& url_serialization(draft.url).is_some() ==> drawn_from(
                        jar@,
                        draft.url,
                        cookies,
                    )
                    &&& #[trigger] built(r, req.request_for(pairs_view(cookies)))
                },
        },
{
    let draft = match draft_request(req) {
        Ok(draft) => draft,
        Err(error) => {
            return Err(error);
        },
    };
    let cookies = match jar.get(draft.url.as_str()) {
        Ok(cookies) => cookies,
        Err(error) => {
            proof {
                let none = Seq::<(String, String)>::empty();
                assert(built(Err(error), req.request_for(pairs_view(none))));
            }
            return Err(error);
        },
    };
    let r = finish_request(draft, &cookies);
    proof {
        assert(built(r, req.request_for(pairs_view(cookies@))));
    }
    r
}

/// The timing and connection facts of one request.
#[derive(Debug, Clone)]
pub struct HTTPStats {
    pub remote_addr: String,
    pub is_https: bool,
    pub cipher: String,
    pub dns_lookup: u32,
    pub tcp: u32,
    pub tls: u32,
    pub send: u32,
    pub server_processing: u32,
    pub content_transfer: u32,
    pub total: u32,
}

/// The mathematical content of the stats.
pub struct StatsModel {
    pub remote_addr: Seq<char>,
    pub is_https: bool,
    pub cipher: Seq<char>,
    pub dns_lookup: u32,
    pub tcp: u32,
    pub tls: u32,
    pub send: u32,
    pub server_processing: u32,
    pub content_transfer: u32,
    pub total: u32,
}

impl View for HTTPStats {
    type V = StatsModel;

    open spec fn view(&self) -> StatsModel {
        StatsModel {
            remote_addr: self.remote_addr@,
            is_https: self.is_https,
            cipher: self.cipher@,
            dns_lookup: self.dns_lookup,
            tcp: self.tcp,
            tls: self.tls,
            send: self.send,
            server_processing: self.server_processing,
            content_transfer: self.content_transfer,
            total: self.total,
        }
    }
}

impl StatsModel {
    pub open spec fn blank() -> StatsModel {
        StatsModel {
            remote_addr: Seq::empty(),
            is_https: false,
            cipher: Seq::empty(),
            dns_lookup: 0,
            tcp: 0,
            tls: 0,
            send: 0,
            server_processing: 0,
            content_transfer: 0,
            total: 0,
        }
    }

    /// The stats that a trace gives for a peer at `remote_addr`: each
    /// duration is the time between the two stamps that bound its phase.
    pub open spec fn of(trace: TraceModel, remote_addr: Seq<char>) -> StatsModel {
        StatsModel {
            remote_addr,
            is_https: trace.is_tls,
            cipher: trace.cipher,
            dns_lookup: elapsed(trace.dns_start, trace.dns_done),
            tcp: elapsed(trace.tcp_start, trace.tcp_done),
            tls: elapsed(trace.tls_start, trace.tls_done),
            send: elapsed(trace.http_start, trace.written),
            server_processing: elapsed(trace.written, trace.got_first_response_byte),
            content_transfer: elapsed(trace.got_first_response_byte, trace.done),
            total: elapsed(trace.start, trace.done),
        }
    }
}

impl HTTPStats {
    /// Stats of a request of which nothing is known.
    pub fn new() -> (stats: HTTPStats)
        ensures
            stats@ == StatsModel::blank(),
    {
        HTTPStats {
            remote_addr: String::new(),
            is_https: false,
            cipher: String::new(),
            dns_lookup: 0,
            tcp: 0,
            tls: 0,
            send: 0,
            server_processing: 0,
            content_transfer: 0,
            total: 0,
        }
    }

    /// The stats that a trace gives; the peer's address is left empty.
    pub fn from_trace(trace: &HTTPTrace) -> (stats: HTTPStats)
        ensures
            stats@ == StatsModel::of(trace@, Seq::empty()),
    {
        let mut stats = HTTPStats::new();
        stats.is_https = trace.is_tls();
        stats.cipher = trace.get_cipher();
        stats.dns_lookup = trace.dns_consuming();
        stats.tcp = trace.tcp_consuming();
        stats.tls = trace.tls_consuming();
        stats.server_processing = trace.server_processing_consuming();
        stats.send = trace.send_consuming();
        stats.content_transfer = trace.content_transfer_consuming();
        stats.total = trace.consuming();
        stats
    }
}

/// The values of one response header, in the order of their arrival.
#[derive(Debug, Clone)]
pub struct HeaderValues {
    pub name: String,
    pub values: Vec<String>,
}

/// The names and values of a list of grouped headers.
pub open spec fn groups_view(groups: Seq<HeaderValues>) -> Seq<(Seq<char>, Seq<Seq<char>>)> {
    groups.map_values(|g: HeaderValues| (g.name@, texts_of(g.values@)))
}

/// The first `n` response headers grouped by their lowercase names: the
/// names in the order of their first arrival, the values of each name in
/// the order of theirs, none dropped.
pub open spec fn grouped(headers: Seq<(Seq<char>, Seq<char>)>, n: int) -> Seq<
    (Seq<char>, Seq<Seq<char>>),
>
    decreases n,
{
    if n <= 0 {
        Seq::empty()
    } else {
        let groups = grouped(headers, n - 1);
        let name = lowercase(headers[n - 1].0);
        let at = header_position(groups, name, 0);
        if at < groups.len() {
            groups.update(at, (name, groups[at].1.push(headers[n - 1].1)))
        } else {
            groups.push((name, seq![headers[n - 1].1]))
        }
    }
}

/// The values of the `Set-Cookie` headers among the first `n`, in their order.
pub open spec fn set_cookie_texts(headers: Seq<(Seq<char>, Seq<char>)>, n: int) -> Seq<Seq<char>>
    decreases n,
{
    if n <= 0 {
        Seq::empty()
    } else if lowercase(headers[n - 1].0) == "set-cookie"@ {
        set_cookie_texts(headers, n - 1).push(headers[n - 1].1)
    } else {
        set_cookie_texts(headers, n - 1)
    }
}

/// Whether one of the first `n` headers is a `Content-Encoding` header
/// whose whole value is `encoding`.
pub open spec fn encoded_as(headers: Seq<(Seq<char>, Seq<char>)>, encoding: Seq<char>, n: int)
    -> bool
    decreases n,
{
    n > 0 && (encoded_as(headers, encoding, n - 1) || (lowercase(headers[n - 1].0)
        == "content-encoding"@ && headers[n - 1].1 == encoding))
}

/// The body after the encodings that the headers name are taken off: gzip
/// first, then brotli; nothing where the body is not what they say.
pub open spec fn decoded_body(body: Seq<u8>, is_gzip: bool, is_br: bool) -> Option<Seq<u8>> {
    let unzipped = if is_gzip {
        gzip_decoding(body)
    } else {
        Some(body)
    };
    match unzipped {
        None => None,
        Some(content) => if is_br {
            brotli_decoding(content)
        } else {
            Some(content)
        },
    }
}

/// A length as the result reports it, in 32 bits.
pub open spec fn reported_size(len: nat) -> u32 {
    (len % 0x1_0000_0000) as u32
}

/// What is read from the headers of a response.
#[derive(Debug)]
pub struct ResponseHead {
    pub headers: Vec<HeaderValues>,
    pub set_cookies: Vec<String>,
    pub is_gzip: bool,
    pub is_br: bool,
}

/// The result of a request.
#[derive(Debug, Clone)]
pub struct HTTPResponse {
    pub api: String,
    pub latency: u32,
    pub status: u16,
    pub headers: Vec<HeaderValues>,
    pub body: String,
    pub stats: HTTPStats,
    pub body_size: u32,
    /// What went wrong with the cookies of the response, if anything did;
    /// the response stands all the same.
    pub warning: Option<CyberAPIError>,
}

/// The mathematical content of a result.
pub struct ResponseModel {
    pub api: Seq<char>,
    pub latency: u32,
    pub status: u16,
    pub headers: Seq<(Seq<char>, Seq<Seq<char>>)>,
    pub body: Seq<char>,
    pub stats: StatsModel,
    pub body_size: u32,
    pub warning: Option<ErrorModel>,
}

impl View for HTTPResponse {
    type V = ResponseModel;

    open spec fn view(&self) -> ResponseModel {
        ResponseModel {
            api: self.api@,
            latency: self.latency,
            status: self.status,
            headers: groups_view(self.headers@),
            body: self.body@,
            stats: self.stats@,
            body_size: self.body_size,
            warning: match self.warning {
                Some(e) => Some(e@),
                None => None,
            },
        }
    }
}

/// The result for a response with the given status, headers and body as
/// they arrived, read after `trace` was completed: the body decoded and
/// then written in base64, its size as it arrived, and no warning; nothing
/// where the body cannot be decoded.
pub open spec fn response_of(
    api: Seq<char>,
    status: u16,
    headers: Seq<(Seq<char>, Seq<char>)>,
    body: Seq<u8>,
    remote_addr: Seq<char>,
    trace: TraceModel,
) -> Option<ResponseModel> {
    let n = headers.len() as int;
    match decoded_body(body, encoded_as(headers, "gzip"@, n), encoded_as(headers, "br"@, n)) {
        None => None,
        Some(content) => Some(
            ResponseModel {
                api,
                latency: elapsed(trace.start, trace.done),
                status,
                headers: grouped(headers, n),
                body: base64_encoding(content),
                stats: StatsModel::of(trace, remote_addr),
                body_size: reported_size(body.len()),
                warning: None,
            },
        ),
    }
}

/// A copy of a list of strings.
fn copy_texts(texts: &Vec<String>) -> (copy: Vec<String>)
    ensures
        texts_of(copy@) == texts_of(texts@),
{
    let mut copy: Vec<String> = Vec::new();
    let mut i: usize = 0;
    while i < texts.len()
        invariant
            i <= texts@.len(),
            copy@.len() == i,
            forall|j: int| 0 <= j < i ==> copy@[j]@ == texts@[j]@,
        decreases texts@.len() - i,
    {
        copy.push(texts[i].clone());
        i = i + 1;
    }
    proof {
        assert(texts_of(copy@) =~= texts_of(texts@));
    }
    copy
}

/// The position of the first group called `name`, or the length of the list.
fn find_group(groups: &Vec<HeaderValues>, name: &str) -> (at: usize)
    ensures
        at == header_position(groups_view(groups@), name@, 0),
        at <= groups@.len(),
{
    let mut i: usize = 0;
    while i < groups.len()
        invariant
            i <= groups@.len(),
            header_position(groups_view(groups@), name@, 0) == header_position(
                groups_view(groups@),
                name@,
                i as int,
            ),
        decreases groups@.len() - i,
    {
        if same_text(groups[i].name.as_str(), name) {
            return i;
        }
        i = i + 1;
    }
    i
}

/// Reads the headers of a response as they arrived: groups them by name,
/// picks out the cookies to keep, and notes how the body is encoded.
pub fn scan_headers(raw: &Vec<(String, String)>) -> (head: ResponseHead)
    ensures
        groups_view(head.headers@) == grouped(pairs_view(raw@), raw@.len() as int),
        texts_of(head.set_cookies@) == set_cookie_texts(pairs_view(raw@), raw@.len() as int),
        head.is_gzip == encoded_as(pairs_view(raw@), "gzip"@, raw@.len() as int),
        head.is_br == encoded_as(pairs_view(raw@), "br"@, raw@.len() as int),
{
    let ghost all = pairs_view(raw@);
    let mut headers: Vec<HeaderValues> = Vec::new();
    let mut set_cookies: Vec<String> = Vec::new();
    let mut is_gzip = false;
    let mut is_br = false;
    let mut i: usize = 0;
    proof {
        assert(groups_view(headers@) =~= grouped(all, 0));
        assert(texts_of(set_cookies@) =~= set_cookie_texts(all, 0));
    }
    while i < raw.len()
        invariant
            i <= raw@.len(),
            all == pairs_view(raw@),
            groups_view(headers@) == grouped(all, i as int),
            texts_of(set_cookies@) == set_cookie_texts(all, i as int),
            is_gzip == encoded_as(all, "gzip"@, i as int),
            is_br == encoded_as(all, "br"@, i as int),
        decreases raw@.len() - i,
    {
        let key = to_lowercase(raw[i].0.as_str());
        let value = raw[i].1.clone();
        proof {
            assert(all[i as int] == (raw@[i as int].0@, raw@[i as int].1@));
        }
        if same_text(key.as_str(), "set-cookie") {
            let ghost before = texts_of(set_cookies@);
            set_cookies.push(value.clone());
            proof {
                assert(texts_of(set_cookies@) =~= before.push(value@));
            }
        }
        if same_text(key.as_str(), "content-encoding") {
            if same_text(value.as_str(), "gzip") {
                is_gzip = true;
            }
            if same_text(value.as_str(), "br") {
                is_br = true;
            }
        }
        let at = find_group(&headers, key.as_str());
        let ghost groups = groups_view(headers@);
        if at < headers.len() {
            let mut values = copy_texts(&headers[at].values);
            let ghost kept = texts_of(values@);
            values.push(value);
            proof {
                assert(texts_of(values@) =~= kept.push(value@));
            }
            headers.remove(at);
            headers.insert(at, HeaderValues { name: key, values });
            proof {
                assert(groups_view(headers@) =~= groups.update(
                    at as int,
                    (key@, groups[at as int].1.push(value@)),
                ));
            }
        } else {
            let mut values: Vec<String> = Vec::new();
            values.push(value);
            proof {
                assert(texts_of(values@) =~= seq![value@]);
            }
            headers.push(HeaderValues { name: key, values });
            proof {
                assert(groups_view(headers@) =~= groups.push((key@, seq![value@])));
            }
        }
        i = i + 1;
    }
    ResponseHead { headers, set_cookies, is_gzip, is_br }
}

/// The number of `Set-Cookie` headers among the first `n` never shrinks
/// as `n` grows.
proof fn lemma_set_cookie_texts_grow(headers: Seq<(Seq<char>, Seq<char>)>, i: int, n: int)
    requires
        i <= n,
    ensures
        set_cookie_texts(headers, i).len() <= set_cookie_texts(headers, n).len(),
    decreases n - i,
{
    if i < n {
        lemma_set_cookie_texts_grow(headers, i, n - 1);
    }
}

/// Whether a response sets a cookie: whether one of its headers, as they
/// arrived, is a `Set-Cookie` header in any case of letters.
pub fn sets_cookies(raw: &Vec<(String, String)>) -> (b: bool)
    ensures
        b == (set_cookie_texts(pairs_view(raw@), raw@.len() as int).len() > 0),
{
    let ghost all = pairs_view(raw@);
    let mut i: usize = 0;
    while i < raw.len()
        invariant
            i <= raw@.len(),
            all == pairs_view(raw@),
            set_cookie_texts(all, i as int).len() == 0,
        decreases raw@.len() - i,
    {
        let key = to_lowercase(raw[i].0.as_str());
        proof {
            assert(all[i as int] == (raw@[i as int].0@, raw@[i as int].1@));
        }
        if same_text(key.as_str(), "set-cookie") {
            proof {
                lemma_set_cookie_texts_grow(all, i + 1, raw@.len() as int);
            }
            return true;
        }
        i = i + 1;
    }
    false
}

/// Takes the encodings off a body: gzip first, then brotli.
pub fn decode_content(body: Vec<u8>, is_gzip: bool, is_br: bool) -> (r: Result<
    Vec<u8>,
    CyberAPIError,
>)
    ensures
        match r {
            Ok(content) => decoded_body(body@, is_gzip, is_br) == Some(content@),
            Err(e) => decoded_body(body@, is_gzip, is_br).is_none() && e@.kind
                == ErrorKind::DecompressionError && e@.category == "io"@,
        },
{
    let mut content = body;
    if is_gzip {
        content = match gunzip(content.as_slice()) {
            Ok(unzipped) => unzipped,
            Err(error) => {
                return Err(CyberAPIError::from_decompression(error));
            },
        };
    }
    if is_br {
        content = match unbrotli(content.as_slice()) {
            Ok(unpacked) => unpacked,
            Err(error) => {
                return Err(CyberAPIError::from_decompression(error));
            },
        };
    }
    Ok(content)
}

/// The length of a body as the result reports it.
pub fn size_of(body: &Vec<u8>) -> (size: u32)
    ensures
        size == reported_size(body@.len()),
{
    let len: u64 = body.len() as u64;
    let low: u64 = len & 0xffff_ffff;
    proof {
        assert(len & 0xffff_ffff == len % 0x1_0000_0000) by (bit_vector);
        assert(len & 0xffff_ffff <= 0xffff_ffff) by (bit_vector);
    }
    low as u32
}

/// Puts the result together from the headers as they were read, the body
/// as it arrived and the completed trace.
fn finish_response(
    api: String,
    status: u16,
    headers: Vec<HeaderValues>,
    is_gzip: bool,
    is_br: bool,
    body: Vec<u8>,
    remote_addr: String,
    trace: &HTTPTrace,
) -> (r: Result<HTTPResponse, CyberAPIError>)
    ensures
        match r {
            Ok(response) => {
                &&& decoded_body(body@, is_gzip, is_br).is_some()
                &&& response@ == (ResponseModel {
                    api: api@,
                    latency: elapsed(trace@.start, trace@.done),
                    status,
                    headers: groups_view(headers@),
                    body: base64_encoding(decoded_body(body@, is_gzip, is_br).unwrap()),
                    stats: StatsModel::of(trace@, remote_addr@),
                    body_size: reported_size(body@.len()),
                    warning: None,
                })
            },
            Err(e) => decoded_body(body@, is_gzip, is_br).is_none() && e@.kind
                == ErrorKind::DecompressionError && e@.category == "io"@,
        },
{
    let body_size = size_of(&body);
    let content = match decode_content(body, is_gzip, is_br) {
        Ok(content) => content,
        Err(error) => {
            return Err(error);
        },
    };
    let mut stats = HTTPStats::from_trace(trace);
    stats.remote_addr = remote_addr;
    Ok(
        HTTPResponse {
            api,
            body_size,
            latency: stats.total,
            status,
            headers,
            body: base64_encode(content.as_slice()),
            stats,
            warning: None,
        },
    )
}

/// Puts the result together from a response read to its end and the
/// completed trace of its request.
pub fn assemble_response(
    api: String,
    status: u16,
    raw_headers: &Vec<(String, String)>,
    body: Vec<u8>,
    remote_addr: String,
    trace: &HTTPTrace,
) -> (r: Result<HTTPResponse, CyberAPIError>)
    ensures
        match r {
            Ok(response) => response_of(
                api@,
                status,
                pairs_view(raw_headers@),
                body@,
                remote_addr@,
                trace@,
            ) == Some(response@),
            Err(e) => response_of(
                api@,
                status,
                pairs_view(raw_headers@),
                body@,
                remote_addr@,
                trace@,
            ).is_none() && e@.kind == ErrorKind::DecompressionError && e@.category == "io"@,
        },
{
    let ResponseHead { headers, set_cookies: _, is_gzip, is_br } = scan_headers(raw_headers);
    finish_response(api, status, headers, is_gzip, is_br, body, remote_addr, trace)
}

/// The jar `after` is the jar `before` once it took the first of the
/// `Set-Cookie` texts `cookies` from `url`: all of them where `complete`,
/// fewer where not.
pub open spec fn jar_took(
    before: Map<(Seq<char>, Seq<char>, Seq<char>), CookieRecord>,
    after: Map<(Seq<char>, Seq<char>, Seq<char>), CookieRecord>,
    cookies: Seq<Seq<char>>,
    url: Seq<char>,
    complete: bool,
) -> bool {
    exists|taken: Seq<StoreAction>|
        {
            &&& #[trigger] entries_after_all(before, cookies, url, taken) == after
            &&& if complete {
                taken.len() == cookies.len()
            } else {
                taken.len() < cookies.len()
            }
        }
}

/// Takes in a response read to its end: completes the trace at the current
/// time, before anything is decoded; hands the cookies of the response to
/// the jar; and puts the result together. A cookie that the jar refuses
/// ends the taking of cookies and is reported in the result's warning.
pub fn process_response(
    api: String,
    status: u16,
    raw_headers: &Vec<(String, String)>,
    body: Vec<u8>,
    remote_addr: String,
    url: &str,
    trace: &mut HTTPTrace,
    jar: &mut CookieJar,
) -> (r: Result<HTTPResponse, CyberAPIError>)
    ensures
        exists|at: u64| final(trace)@ == #[trigger] old(trace)@.stamped(TracePhase::Done, at),
        expiries_kept(
            old(jar).expiries(),
            final(jar).expiries(),
            set_cookie_texts(pairs_view(raw_headers@), raw_headers@.len() as int),
            url@,
            set_cookie_texts(pairs_view(raw_headers@), raw_headers@.len() as int).len() as int,
        ),
        exists|complete: bool|
            {
                &&& #[trigger] jar_took(
                    old(jar)@,
                    final(jar)@,
                    set_cookie_texts(pairs_view(raw_headers@), raw_headers@.len() as int),
                    url@,
                    complete,
                )
                &&& r.is_ok() ==> complete == r.unwrap()@.warning.is_none()
            },
        match r {
            Ok(response) => {
                &&& response_of(
                    api@,
                    status,
                    pairs_view(raw_headers@),
                    body@,
                    remote_addr@,
                    final(trace)@,
                ) == Some(ResponseModel { warning: None, ..response@ })
                &&& match response@.warning {
                    Some(warning) => warning.kind == (if url_serialization(url@).is_none() {
                        ErrorKind::InvalidUrl
                    } else {
                        ErrorKind::CookiePersistenceError
                    }),
                    None => true,
                }
            },
            Err(e) => response_of(
                api@,
                status,
                pairs_view(raw_headers@),
                body@,
                remote_addr@,
                final(trace)@,
            ).is_none() && e@.kind == ErrorKind::DecompressionError && e@.category == "io"@,
        },
{
    trace.done();
    let ResponseHead { headers, set_cookies, is_gzip, is_br } = scan_headers(raw_headers);
    let ghost texts = set_cookie_texts(pairs_view(raw_headers@), raw_headers@.len() as int);
    let ghost complete = true;
    let mut warning: Option<CyberAPIError> = None;
    if set_cookies.len() > 0 {
        match save_cookie_store(jar, set_cookies, url) {
            Ok(actions) => {
                proof {
                    assert(entries_after_all(old(jar)@, texts, url@, actions@) == jar@);
                }
            },
            Err(error) => {
                proof {
                    complete = false;
                }
                warning = Some(error);
            },
        }
    } else {
        proof {
            let nothing = Seq::<StoreAction>::empty();
            assert(entries_after_all(old(jar)@, texts, url@, nothing) == jar@);
        }
    }
    proof {
        assert(jar_took(old(jar)@, jar@, texts, url@, complete));
    }
    match finish_response(api, status, headers, is_gzip, is_br, body, remote_addr, trace) {
        Ok(response) => {
            let HTTPResponse { api, latency, status, headers, body, stats, body_size, warning: _ } =
                response;
            Ok(HTTPResponse { api, latency, status, headers, body, stats, body_size, warning })
        },
        Err(error) => Err(error),
    }
}

/// The enabled ones of the first `n` parameters, as pairs of key and
/// value, in their order.
pub open spec fn enabled_pairs(params: Seq<HTTPRequestKVParam>, n: int) -> Seq<
    (Seq<char>, Seq<char>),
>
    decreases n,
{
    if n <= 0 {
        Seq::empty()
    } else if params[n - 1].enabled {
        enabled_pairs(params, n - 1).push((params[n - 1].key@, params[n - 1].value@))
    } else {
        enabled_pairs(params, n - 1)
    }
}

/// The URL `base` with the first `n` pairs added to its query, in their order.
pub open spec fn url_with_pairs(base: Option<Seq<char>>, pairs: Seq<(Seq<char>, Seq<char>)>, n: int)
    -> Option<Seq<char>>
    decreases n,
{
    if n <= 0 {
        base
    } else {
        match url_with_pairs(base, pairs, n - 1) {
            None => None,
            Some(url) => url_with_pair(url, pairs[n - 1].0, pairs[n - 1].1),
        }
    }
}

/// The header list made of the first `n` pairs, set one after the other
/// under their normal names.
pub open spec fn headers_from_pairs(pairs: Seq<(Seq<char>, Seq<char>)>, n: int) -> Result<
    Seq<(Seq<char>, Seq<char>)>,
    BuildFault,
>
    decreases n,
{
    if n <= 0 {
        Ok(Seq::empty())
    } else {
        match headers_from_pairs(pairs, n - 1) {
            Err(fault) => Err(fault),
            Ok(headers) => match header_name_form(pairs[n - 1].0) {
                None => Err(BuildFault::HeaderName),
                Some(name) => if is_header_value(pairs[n - 1].1) {
                    Ok(header_set(headers, name, pairs[n - 1].1))
                } else {
                    Err(BuildFault::HeaderValue)
                },
            },
        }
    }
}

proof fn lemma_url_with_pairs_prefix(
    base: Option<Seq<char>>,
    a: Seq<(Seq<char>, Seq<char>)>,
    b: Seq<(Seq<char>, Seq<char>)>,
    n: int,
)
    requires
        n <= a.len(),
        n <= b.len(),
        forall|i: int| 0 <= i < n ==> a[i] == b[i],
    ensures
        url_with_pairs(base, a, n) == url_with_pairs(base, b, n),
    decreases n,
{
    if n > 0 {
        lemma_url_with_pairs_prefix(base, a, b, n - 1);
    }
}

proof fn lemma_headers_from_pairs_prefix(
    a: Seq<(Seq<char>, Seq<char>)>,
    b: Seq<(Seq<char>, Seq<char>)>,
    n: int,
)
    requires
        n <= a.len(),
        n <= b.len(),
        forall|i: int| 0 <= i < n ==> a[i] == b[i],
    ensures
        headers_from_pairs(a, n) == headers_from_pairs(b, n),
    decreases n,
{
    if n > 0 {
        lemma_headers_from_pairs_prefix(a, b, n - 1);
    }
}

/// The resolved URL is made of the enabled query parameters alone, added
/// in the order of the description: a disabled parameter leaves no trace.
pub proof fn lemma_url_of_enabled_parameters(
    base: Option<Seq<char>>,
    query: Seq<HTTPRequestKVParam>,
    n: int,
)
    requires
        0 <= n <= query.len(),
    ensures
        url_after(base, query, n) == url_with_pairs(
            base,
            enabled_pairs(query, n),
            enabled_pairs(query, n).len() as int,
        ),
    decreases n,
{
    if n > 0 {
        lemma_url_of_enabled_parameters(base, query, n - 1);
        if query[n - 1].enabled {
            let shorter = enabled_pairs(query, n - 1);
            lemma_url_with_pairs_prefix(
                base,
                shorter,
                enabled_pairs(query, n),
                shorter.len() as int,
            );
        }
    }
}

/// The headers taken from the description are made of its enabled headers
/// alone, set in the order of the description: a disabled header leaves no
/// trace.
pub proof fn lemma_headers_of_enabled_headers(declared: Seq<HTTPRequestKVParam>, n: int)
    requires
        0 <= n <= declared.len(),
    ensures
        headers_after(declared, n) == headers_from_pairs(
            enabled_pairs(declared, n),
            enabled_pairs(declared, n).len() as int,
        ),
    decreases n,
{
    if n > 0 {
        lemma_headers_of_enabled_headers(declared, n - 1);
        if declared[n - 1].enabled {
            let shorter = enabled_pairs(declared, n - 1);
            lemma_headers_from_pairs_prefix(
                shorter,
                enabled_pairs(declared, n),
                shorter.len() as int,
            );
        }
    }
}

/// Two descriptions that differ only in their disabled parameters and
/// headers stand for the same request.
pub proof fn lemma_disabled_entries_do_not_count(
    a: HTTPRequest,
    b: HTTPRequest,
    cookies: Seq<(Seq<char>, Seq<char>)>,
)
    requires
        a.method@ == b.method@,
        a.uri@ == b.uri@,
        a.body@ == b.body@,
        a.content_type@ == b.content_type@,
        enabled_pairs(a.query@, a.query@.len() as int) == enabled_pairs(
            b.query@,
            b.query@.len() as int,
        ),
        enabled_pairs(a.headers@, a.headers@.len() as int) == enabled_pairs(
            b.headers@,
            b.headers@.len() as int,
        ),
    ensures
        a.request_for(cookies) == b.request_for(cookies),
{
    let base = url_serialization(a.uri@);
    lemma_url_of_enabled_parameters(base, a.query@, a.query@.len() as int);
    lemma_url_of_enabled_parameters(base, b.query@, b.query@.len() as int);
    lemma_headers_of_enabled_headers(a.headers@, a.headers@.len() as int);
    lemma_headers_of_enabled_headers(b.headers@, b.headers@.len() as int);
}

/// The lookup time that the stats report is zero where the start or the
/// end of the lookup was not observed, and the difference of the two
/// stamps where both were, the end not before the start and fewer than
/// 2^32 milliseconds after it.
pub proof fn lemma_dns_lookup_duration(trace: TraceModel, remote_addr: Seq<char>)
    ensures
        trace.dns_start == 0 || trace.dns_done == 0 ==> StatsModel::of(
            trace,
            remote_addr,
        ).dns_lookup == 0,
        trace.dns_start != 0 && trace.dns_done != 0 && trace.dns_start <= trace.dns_done
            && trace.dns_done - trace.dns_start < 0x1_0000_0000 ==> StatsModel::of(
            trace,
            remote_addr,
        ).dns_lookup == trace.dns_done - trace.dns_start,
{
}

/// The size that a result reports is the length of the body as it
/// arrived, whatever the body decodes to: exactly so for a body of fewer
/// than 2^32 bytes.
pub proof fn lemma_body_size_is_wire_size(
    api: Seq<char>,
    status: u16,
    headers: Seq<(Seq<char>, Seq<char>)>,
    body: Seq<u8>,
    remote_addr: Seq<char>,
    trace: TraceModel,
)
    ensures
        match response_of(api, status, headers, body, remote_addr, trace) {
            Some(response) => response.body_size == reported_size(body.len()) && (body.len()
                < 0x1_0000_0000 ==> response.body_size == body.len()),
            None => true,
        },
{
}

/// The body of a result is the base64 text of what the decoders make of
/// the body as it arrived: of the gzip decoder for a response encoded as
/// gzip, of the brotli decoder for one encoded as brotli, and the body
/// itself for one that names neither.
pub proof fn lemma_body_is_decoded(
    api: Seq<char>,
    status: u16,
    headers: Seq<(Seq<char>, Seq<char>)>,
    body: Seq<u8>,
    remote_addr: Seq<char>,
    trace: TraceModel,
)
    ensures
        ({
            let n = headers.len() as int;
            let is_gzip = encoded_as(headers, "gzip"@, n);
            let is_br = encoded_as(headers, "br"@, n);
            match response_of(api, status, headers, body, remote_addr, trace) {
                Some(response) => {
                    &&& is_gzip && !is_br ==> gzip_decoding(body).is_some() && response.body
                        == base64_encoding(gzip_decoding(body).unwrap())
                    &&& !is_gzip && is_br ==> brotli_decoding(body).is_some() && response.body
                        == base64_encoding(brotli_decoding(body).unwrap())
                    &&& !is_gzip && !is_br ==> response.body == base64_encoding(body)
                },
                None => is_gzip || is_br,
            }
        }),
{
}

/// No two entries of the list have the same name.
pub open spec fn names_distinct<T>(headers: Seq<(Seq<char>, T)>) -> bool {
    forall|i: int, j: int|
        0 <= i < j < headers.len() ==> (#[trigger] headers[i]).0 != (#[trigger] headers[j]).0
}

/// The position found for a name is that of an entry of that name, and no
/// entry from `from` on has the name where none is found.
pub proof fn lemma_header_position<T>(headers: Seq<(Seq<char>, T)>, name: Seq<char>, from: int)
    requires
        0 <= from,
    ensures
        from <= header_position(headers, name, from) || header_position(headers, name, from)
            == headers.len(),
        header_position(headers, name, from) <= headers.len(),
        header_position(headers, name, from) < headers.len() ==> headers[header_position(
            headers,
            name,
            from,
        )].0 == name,
        header_position(headers, name, from) >= headers.len() ==> forall|i: int|
            from <= i < headers.len() ==> (#[trigger] headers[i]).0 != name,
    decreases headers.len() - from,
{
    if from < headers.len() && headers[from].0 != name {
        lemma_header_position(headers, name, from + 1);
    }
}

/// Setting a header keeps every name in the list once.
pub proof fn lemma_header_set_keeps_names_distinct(
    headers: Seq<(Seq<char>, Seq<char>)>,
    name: Seq<char>,
    value: Seq<char>,
)
    requires
        names_distinct(headers),
    ensures
        names_distinct(header_set(headers, name, value)),
{
    lemma_header_position(headers, name, 0);
    let at = header_position(headers, name, 0);
    let after = header_set(headers, name, value);
    assert forall|i: int, j: int| 0 <= i < j < after.len() implies (#[trigger] after[i]).0 != (
    #[trigger] after[j]).0 by {
        if at < headers.len() {
            assert(after[i].0 == headers[i].0);
            assert(after[j].0 == headers[j].0);
        } else {
            if j < headers.len() {
                assert(after[i] == headers[i]);
                assert(after[j] == headers[j]);
            } else {
                assert(after[i] == headers[i]);
                assert(headers[i].0 != name);
            }
        }
    }
}

/// The headers taken from a description hold every name once.
pub proof fn lemma_headers_after_names_distinct(declared: Seq<HTTPRequestKVParam>, n: int)
    ensures
        match headers_after(declared, n) {
            Ok(headers) => names_distinct(headers),
            Err(_) => true,
        },
    decreases n,
{
    if n > 0 {
        lemma_headers_after_names_distinct(declared, n - 1);
        match headers_after(declared, n - 1) {
            Ok(headers) => {
                if declared[n - 1].enabled {
                    match header_name_form(declared[n - 1].key@) {
                        Some(name) => {
                            lemma_header_set_keeps_names_distinct(
                                headers,
                                name,
                                declared[n - 1].value@,
                            );
                        },
                        None => {},
                    }
                }
            },
            Err(_) => {},
        }
    }
}

/// A request ready to be sent holds every header name once, and always
/// names the encodings that the response may use.
pub proof fn lemma_request_headers(req: HTTPRequest, cookies: Seq<(Seq<char>, Seq<char>)>)
    ensures
        match req.request_for(cookies) {
            Ok(request) => {
                &&& names_distinct(request.headers)
                &&& header_position(request.headers, "accept-encoding"@, 0) < request.headers.len()
                &&& request.headers[header_position(request.headers, "accept-encoding"@, 0)].1
                    == "gzip, br"@
            },
            Err(_) => true,
        },
{
    let declared = req.headers@;
    lemma_headers_after_names_distinct(declared, declared.len() as int);
    match headers_after(declared, declared.len() as int) {
        Ok(user) => {
            let encoding = "accept-encoding"@;
            let content = "content-type"@;
            let cookie = "cookie"@;
            reveal_strlit("accept-encoding");
            reveal_strlit("cookie");
            assert(encoding[0] != cookie[0]);
            lemma_header_set_keeps_names_distinct(user, content, req.content_type@);
            let typed = header_set(user, content, req.content_type@);
            lemma_offered(user);
            lemma_offered(typed);
            let value = cookie_header(cookies, cookies.len() as int);
            let plain = header_set(user, encoding, "gzip, br"@);
            let full = header_set(typed, encoding, "gzip, br"@);
            lemma_set_other_keeps(plain, encoding, cookie, value);
            lemma_set_other_keeps(full, encoding, cookie, value);
            lemma_header_set_keeps_names_distinct(plain, cookie, value);
            lemma_header_set_keeps_names_distinct(full, cookie, value);
        },
        Err(_) => {},
    }
}

/// A header list on which the accepted encodings were set holds every
/// name once, if it did before, and holds the encodings.
proof fn lemma_offered(headers: Seq<(Seq<char>, Seq<char>)>)
    requires
        names_distinct(headers),
    ensures
        ({
            let offered = header_set(headers, "accept-encoding"@, "gzip, br"@);
            &&& names_distinct(offered)
            &&& header_position(offered, "accept-encoding"@, 0) < offered.len()
            &&& offered[header_position(offered, "accept-encoding"@, 0)].1 == "gzip, br"@
        }),
{
    let encoding = "accept-encoding"@;
    let offered = header_set(headers, encoding, "gzip, br"@);
    lemma_header_set_keeps_names_distinct(headers, encoding, "gzip, br"@);
    lemma_header_position(headers, encoding, 0);
    lemma_header_position(offered, encoding, 0);
    let at = header_position(headers, encoding, 0);
    let found = header_position(offered, encoding, 0);
    if at < headers.len() {
        assert(offered[at] == (encoding, "gzip, br"@));
    } else {
        assert(offered[headers.len() as int] == (encoding, "gzip, br"@));
    }
    assert(found < offered.len());
    if at < headers.len() {
        if found != at {
            if found < at {
                assert(offered[found].0 != offered[at].0);
            } else {
                assert(offered[at].0 != offered[found].0);
            }
        }
    } else {
        let last = headers.len() as int;
        if found != last {
            assert(offered[found].0 != offered[last].0);
        }
    }
}

/// Setting one header leaves a header of another name with its value.
proof fn lemma_set_other_keeps(
    headers: Seq<(Seq<char>, Seq<char>)>,
    kept: Seq<char>,
    name: Seq<char>,
    value: Seq<char>,
)
    requires
        kept != name,
        header_position(headers, kept, 0) < headers.len(),
    ensures
        header_position(header_set(headers, name, value), kept, 0) < header_set(
            headers,
            name,
            value,
        ).len(),
        header_set(headers, name, value)[header_position(
            header_set(headers, name, value),
            kept,
            0,
        )].1 == headers[header_position(headers, kept, 0)].1,
{
    let after = header_set(headers, name, value);
    lemma_header_position(headers, kept, 0);
    lemma_header_position(headers, name, 0);
    let at = header_position(headers, kept, 0);
    lemma_position_agrees(headers, after, kept, 0, at);
}

/// Two lists that agree on the names before `at` and hold the name at
/// `at` give the name the position `at`, where the first does.
proof fn lemma_position_agrees(
    a: Seq<(Seq<char>, Seq<char>)>,
    b: Seq<(Seq<char>, Seq<char>)>,
    name: Seq<char>,
    from: int,
    at: int,
)
    requires
        0 <= from <= at < a.len(),
        at < b.len(),
        header_position(a, name, from) == at,
        forall|i: int| from <= i < at ==> ((#[trigger] b[i]).0 == name) == (a[i].0 == name),
        b[at] == a[at],
    ensures
        header_position(b, name, from) == at,
    decreases at - from,
{
    lemma_header_position(a, name, from);
    if from < at {
        if a[from].0 == name {
            assert(header_position(a, name, from) == from);
        } else {
            assert(b[from].0 != name);
            lemma_position_agrees(a, b, name, from + 1, at);
        }
    } else {
        assert(a[at].0 == name);
    }
}

/// The grouped headers hold every name once.
pub proof fn lemma_grouped_names_distinct(headers: Seq<(Seq<char>, Seq<char>)>, n: int)
    ensures
        names_distinct(grouped(headers, n)),
    decreases n,
{
    if n > 0 {
        lemma_grouped_names_distinct(headers, n - 1);
        let groups = grouped(headers, n - 1);
        let name = lowercase(headers[n - 1].0);
        lemma_header_position(groups, name, 0);
        let at = header_position(groups, name, 0);
        let after = grouped(headers, n);
        assert forall|i: int, j: int| 0 <= i < j < after.len() implies (#[trigger] after[i]).0 != (
        #[trigger] after[j]).0 by {
            if at < groups.len() {
                assert(after[i].0 == groups[i].0);
                assert(after[j].0 == groups[j].0);
            } else {
                if j < groups.len() {
                    assert(after[i] == groups[i]);
                    assert(after[j] == groups[j]);
                } else {
                    assert(after[i] == groups[i]);
                    assert(groups[i].0 != name);
                }
            }
        }
    }
}

/// The groups hold `value` among the values of the name `name`.
pub open spec fn group_holds(
    groups: Seq<(Seq<char>, Seq<Seq<char>>)>,
    name: Seq<char>,
    value: Seq<char>,
) -> bool {
    exists|g: int, v: int|
        0 <= g < groups.len() && 0 <= v < (#[trigger] groups[g]).1.len() && groups[g].0 == name
            && #[trigger] groups[g].1[v] == value
}

/// Grouping drops nothing: the value of every header that arrived stands
/// among the values of its lowercase name.
pub proof fn lemma_grouped_keeps_every_value(headers: Seq<(Seq<char>, Seq<char>)>, n: int, i: int)
    requires
        0 <= i < n <= headers.len(),
    ensures
        group_holds(grouped(headers, n), lowercase(headers[i].0), headers[i].1),
    decreases n,
{
    let before = grouped(headers, n - 1);
    let after = grouped(headers, n);
    let name = lowercase(headers[n - 1].0);
    let value = headers[n - 1].1;
    lemma_header_position(before, name, 0);
    let at = header_position(before, name, 0);
    if i < n - 1 {
        lemma_grouped_keeps_every_value(headers, n - 1, i);
        let (g, v) = choose|g: int, v: int|
            0 <= g < before.len() && 0 <= v < (#[trigger] before[g]).1.len() && before[g].0
                == lowercase(headers[i].0) && #[trigger] before[g].1[v] == headers[i].1;
        assert(0 <= g < after.len());
        assert(after[g].0 == before[g].0);
        assert(0 <= v < after[g].1.len());
        assert(after[g].1[v] == headers[i].1);
    } else {
        if at < before.len() {
            let v = before[at].1.len() as int;
            assert(after[at].0 == name);
            assert(after[at].1[v] == value);
        } else {
            let g = before.len() as int;
            assert(after[g].0 == name);
            assert(after[g].1[0] == value);
        }
    }
}

} // verus!
