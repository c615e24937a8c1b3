//! The calls into the URL, HTTP, base64 and decompression libraries. What
//! is stated here of their results is believed, not proved.

use base64::Engine;
use std::io::Read;
use vstd::prelude::*;

verus! {

/// What `url::Url::parse` makes of a text: the URL's serialization, or
/// nothing where the parser refuses the text.
pub uninterp spec fn url_serialization(text: Seq<char>) -> Option<Seq<char>>;

/// The serialization of the URL `url` after `append_pair` has added one
/// name/value pair to its query, or nothing where `url` does not parse.
pub uninterp spec fn url_with_pair(url: Seq<char>, key: Seq<char>, value: Seq<char>) -> Option<
    Seq<char>,
>;

/// The host of the URL that a text parses to, as `Url::host_str` gives it:
/// nothing where the URL has no host.
pub uninterp spec fn url_host(url: Seq<char>) -> Option<Seq<char>>;

/// The path of the URL that a text parses to, as `Url::path` gives it.
pub uninterp spec fn url_path(url: Seq<char>) -> Seq<char>;

/// Whether `http::Uri` accepts a text as a request target.
pub uninterp spec fn uri_accepted(text: Seq<char>) -> bool;

/// The normal form that `http::header::HeaderName` gives a header name, or
/// nothing where the text is no header name.
pub uninterp spec fn header_name_form(text: Seq<char>) -> Option<Seq<char>>;

/// The bytes that the unpadded standard base64 alphabet decodes a text to.
pub uninterp spec fn base64_decoding(text: Seq<char>) -> Option<Seq<u8>>;

/// The unpadded standard base64 text of a byte string.
pub uninterp spec fn base64_encoding(bytes: Seq<u8>) -> Seq<char>;

/// The content of a gzip stream, as `libflate` unpacks it, or nothing where
/// the bytes are no such stream.
pub uninterp spec fn gzip_decoding(bytes: Seq<u8>) -> Option<Seq<u8>>;

/// The content of a brotli stream, or nothing where the bytes are no such stream.
pub uninterp spec fn brotli_decoding(bytes: Seq<u8>) -> Option<Seq<u8>>;

/// The lowercase form of a text by the Unicode tables of `str::to_lowercase`.
pub uninterp spec fn lowercase(text: Seq<char>) -> Seq<char>;

/// The uppercase form of a text by the Unicode tables of `str::to_uppercase`.
pub uninterp spec fn uppercase(text: Seq<char>) -> Seq<char>;

/// A text without the white space at its ends, as `str::trim` leaves it.
pub uninterp spec fn trimmed(text: Seq<char>) -> Seq<char>;

/// A character that a header value may hold: a tab, or anything from the
/// space upwards but the delete character.
pub open spec fn header_value_char(c: char) -> bool {
    c == '\t' || (c >= ' ' && c != '\x7f')
}

/// A text that can be sent as a header value.
pub open spec fn is_header_value(text: Seq<char>) -> bool {
    forall|i: int| 0 <= i < text.len() ==> header_value_char(#[trigger] text[i])
}

/// Parses `text` with `url::Url::parse` and hands back the URL's
/// serialization (`Url::as_str`), or the parser's error.
#[verifier::external_body]
pub(crate) fn parse_url(text: &str) -> (r: Result<String, url::ParseError>)
    ensures
        match r {
            Ok(s) => url_serialization(text@) == Some(s@),
            Err(_) => url_serialization(text@).is_none(),
        },
{
    url::Url::parse(text).map(|u| u.as_str().to_string())
}

/// Parses `url`, adds one pair to its query with
/// `Url::query_pairs_mut().append_pair`, and hands back the new
/// serialization; the parser's error where `url` does not parse.
#[verifier::external_body]
pub(crate) fn url_append_pair(url: &str, key: &str, value: &str) -> (r: Result<
    String,
    url::ParseError,
>)
    ensures
        match r {
            Ok(s) => url_with_pair(url@, key@, value@) == Some(s@),
            Err(_) => url_with_pair(url@, key@, value@).is_none(),
        },
{
    url::Url::parse(url).map(
        |mut u|
            {
                u.query_pairs_mut().append_pair(key, value);
                u.as_str().to_string()
            },
    )
}

/// The host of the URL that `url` parses to, as `Url::host_str` gives it;
/// the parser's error where `url` does not parse.
#[verifier::external_body]
pub(crate) fn host_of_url(url: &str) -> (r: Result<Option<String>, url::ParseError>)
    ensures
        r.is_err() == url_serialization(url@).is_none(),
        match r {
            Ok(Some(host)) => url_host(url@) == Some(host@),
            Ok(None) => url_host(url@).is_none(),
            Err(_) => true,
        },
{
    url::Url::parse(url).map(|u| u.host_str().map(|host| host.to_string()))
}

/// The path of the URL that `url` parses to, as `Url::path` gives it; the
/// parser's error where `url` does not parse.
#[verifier::external_body]
pub(crate) fn path_of_url(url: &str) -> (r: Result<String, url::ParseError>)
    ensures
        r.is_err() == url_serialization(url@).is_none(),
        match r {
            Ok(path) => url_path(url@) == path@,
            Err(_) => true,
        },
{
    url::Url::parse(url).map(|u| u.path().to_string())
}

/// Asks `http::Uri` (through `str::parse`) whether `text` can be a request target.
#[verifier::external_body]
pub(crate) fn check_uri(text: &str) -> (r: Result<(), hyper::http::uri::InvalidUri>)
    ensures
        r.is_ok() == uri_accepted(text@),
{
    text.parse::<hyper::Uri>().map(|_| ())
}

/// Parses a header name with `HeaderName`'s `FromStr` and hands back its
/// normal form (`HeaderName::as_str`).
#[verifier::external_body]
pub(crate) fn parse_header_name(text: &str) -> (r: Result<
    String,
    hyper::header::InvalidHeaderName,
>)
    ensures
        match r {
            Ok(s) => header_name_form(text@) == Some(s@),
            Err(_) => header_name_form(text@).is_none(),
        },
{
    text.parse::<hyper::header::HeaderName>().map(|n| n.as_str().to_string())
}

/// Asks `HeaderValue::from_str` whether `text` can be a header value: it
/// accepts a text exactly when each of its bytes is a tab or at least 32
/// and not 127, which of a UTF-8 text holds when each character is.
#[verifier::external_body]
pub(crate) fn check_header_value(text: &str) -> (r: Result<
    (),
    hyper::header::InvalidHeaderValue,
>)
    ensures
        r.is_ok() == is_header_value(text@),
{
    hyper::header::HeaderValue::from_str(text).map(|_| ())
}

/// Decodes with `base64`'s `STANDARD_NO_PAD` engine.
#[verifier::external_body]
pub(crate) fn base64_decode(text: &str) -> (r: Result<Vec<u8>, base64::DecodeError>)
    ensures
        match r {
            Ok(bytes) => base64_decoding(text@) == Some(bytes@),
            Err(_) => base64_decoding(text@).is_none(),
        },
{
    base64::engine::general_purpose::STANDARD_NO_PAD.decode(text)
}

/// Encodes with `base64`'s `STANDARD_NO_PAD` engine.
#[verifier::external_body]
pub(crate) fn base64_encode(bytes: &[u8]) -> (r: String)
    ensures
        r@ == base64_encoding(bytes@),
{
    base64::engine::general_purpose::STANDARD_NO_PAD.encode(bytes)
}

/// Unpacks a gzip stream with `libflate::non_blocking::gzip::Decoder`, read
/// to its end. This decoder of the crate goes from block to block in a
/// loop, so that a stream of many empty blocks costs time and no stack.
/// On a slice it never has to wait: a stream that ends too early is an
/// error.
#[verifier::external_body]
pub(crate) fn gunzip(bytes: &[u8]) -> (r: Result<Vec<u8>, std::io::Error>)
    ensures
        match r {
            Ok(content) => gzip_decoding(bytes@) == Some(content@),
            Err(_) => gzip_decoding(bytes@).is_none(),
        },
{
    let mut decoder = libflate::non_blocking::gzip::Decoder::new(bytes);
    let mut content = Vec::new();
    decoder.read_to_end(&mut content)?;
    Ok(content)
}

/// Unpacks a brotli stream with `brotli_decompressor::BrotliDecompress`.
#[verifier::external_body]
pub(crate) fn unbrotli(bytes: &[u8]) -> (r: Result<Vec<u8>, std::io::Error>)
    ensures
        match r {
            Ok(content) => brotli_decoding(bytes@) == Some(content@),
            Err(_) => brotli_decoding(bytes@).is_none(),
        },
{
    let mut content = Vec::new();
    let mut reader = bytes;
    brotli_decompressor::BrotliDecompress(&mut reader, &mut content)?;
    Ok(content)
}

/// `str::to_lowercase`.
#[verifier::external_body]
pub(crate) fn to_lowercase(text: &str) -> (r: String)
    ensures
        r@ == lowercase(text@),
{
    text.to_lowercase()
}

/// `str::to_uppercase`.
#[verifier::external_body]
pub(crate) fn to_uppercase(text: &str) -> (r: String)
    ensures
        r@ == uppercase(text@),
{
    text.to_uppercase()
}

/// `str::trim`.
#[verifier::external_body]
pub(crate) fn trim(text: &str) -> (r: String)
    ensures
        r@ == trimmed(text@),
{
    text.trim().to_string()
}

} // verus!
