//! The boundary with the transport: the path arrives percent-encoded over
//! URL-safe base64, and the result of a poll leaves in an envelope.

use vstd::prelude::*;
use vstd::utf8::{decode_utf8, encode_utf8, valid_utf8};
use base64::Engine;
use crate::logreader::{LogFile, LogFileView};

verus! {

/// The error of `base64`'s decoders, carried through unread.
#[verifier::external_type_specification]
#[verifier::external_body]
pub struct ExBase64DecodeError(base64::DecodeError);

/// The error of `String::from_utf8`, carried through unread.
#[verifier::external_type_specification]
#[verifier::external_body]
pub struct ExFromUtf8Error(std::string::FromUtf8Error);

/// The text that `urlencoding::decode` makes of a percent-encoded text, or
/// nothing where it reports an error.
pub uninterp spec fn percent_decoded(text: Seq<char>) -> Option<Seq<char>>;

/// The bytes that the URL-safe, padded base64 engine of `base64` decodes a
/// text to, or nothing where it reports an error.
pub uninterp spec fn base64_decoded(text: Seq<char>) -> Option<Seq<u8>>;

/// Calls `urlencoding::decode`, which replaces each `%xx` escape by the
/// byte it names and fails if the bytes that result are not UTF-8. The
/// result is a function of the text alone.
#[verifier::external_body]
fn percent_decode(text: &str) -> (out: Result<String, std::string::FromUtf8Error>)
    ensures
        out is Ok <==> percent_decoded(text@) is Some,
        out matches Ok(s) ==> percent_decoded(text@) == Some(s@),
{
    match urlencoding::decode(text) {
        Ok(decoded) => Ok(decoded.into_owned()),
        Err(error) => Err(error),
    }
}

/// Calls `Engine::decode` on `base64::engine::general_purpose::URL_SAFE`.
/// The result is a function of the text alone.
#[verifier::external_body]
fn base64_decode(text: &str) -> (out: Result<Vec<u8>, base64::DecodeError>)
    ensures
        out is Ok <==> base64_decoded(text@) is Some,
        out matches Ok(bytes) ==> base64_decoded(text@) == Some(bytes@),
{
    base64::engine::general_purpose::URL_SAFE.decode(text)
}

/// `String::from_utf8` succeeds exactly on bytes that are valid UTF-8, and
/// then gives the text they encode.
pub assume_specification[ String::from_utf8 ](vec: Vec<u8>) -> (out: Result<
    String,
    std::string::FromUtf8Error,
>)
    ensures
        out is Ok <==> valid_utf8(vec@),
        out matches Ok(s) ==> s@ == decode_utf8(vec@),
;

/// Why an encoded path could not be decoded.
#[derive(Clone, Copy, Debug, PartialEq, Eq)]
pub enum PathDecodeError {
    /// The percent-encoding does not decode to text.
    Escapes,
    /// The text is not URL-safe base64.
    Base64,
    /// The decoded bytes are not UTF-8.
    Characters,
}

/// The path that a base64-decoded byte sequence spells.
pub open spec fn path_of_bytes(bytes: Seq<u8>) -> Result<Seq<char>, PathDecodeError> {
    if valid_utf8(bytes) {
        Ok(decode_utf8(bytes))
    } else {
        Err(PathDecodeError::Characters)
    }
}

/// The path that an encoded text stands for: the percent-encoding is
/// removed, the rest is decoded as base64, and the bytes are read as UTF-8.
pub open spec fn decoded_path(encoded: Seq<char>) -> Result<Seq<char>, PathDecodeError> {
    match percent_decoded(encoded) {
        None => Err(PathDecodeError::Escapes),
        Some(text) => match base64_decoded(text) {
            None => Err(PathDecodeError::Base64),
            Some(bytes) => path_of_bytes(bytes),
        },
    }
}

/// A result with the text of its success as a character sequence.
pub open spec fn path_view(out: Result<String, PathDecodeError>) -> Result<
    Seq<char>,
    PathDecodeError,
> {
    match out {
        Ok(path) => Ok(path@),
        Err(e) => Err(e),
    }
}

/// Reads base64-decoded bytes as a path.
pub fn path_from_bytes(bytes: Vec<u8>) -> (out: Result<String, PathDecodeError>)
    ensures
        path_view(out) == path_of_bytes(bytes@),
{
    match String::from_utf8(bytes) {
        Ok(path) => Ok(path),
        Err(_) => Err(PathDecodeError::Characters),
    }
}

/// Decodes a path from its wire encoding.
pub fn decode_path(encoded: &str) -> (out: Result<String, PathDecodeError>)
    ensures
        path_view(out) == decoded_path(encoded@),
{
    match percent_decode(encoded) {
        Err(_) => Err(PathDecodeError::Escapes),
        Ok(text) => match base64_decode(text.as_str()) {
            Err(_) => Err(PathDecodeError::Base64),
            Ok(bytes) => path_from_bytes(bytes),
        },
    }
}

/// The envelope in which the result of a poll is sent.
#[derive(Debug)]
pub struct LogResponse {
    /// Whether the poll delivered content.
    pub success: bool,
    /// The length of the content in bytes; 0 without content.
    pub length: usize,
    /// The content.
    pub data: Option<String>,
    /// The token for the next poll.
    pub next_key: Option<String>,
}

/// The length in bytes of the content of a poll's result, as `str::len`
/// counts it; 0 without content.
pub open spec fn content_length(log: LogFileView) -> usize {
    match log.content {
        Some(c) => encode_utf8(c).len() as usize,
        None => 0,
    }
}

impl LogResponse {
    /// What the envelope carries, with its strings as character sequences.
    pub open spec fn carried(&self) -> LogFileView {
        LogFileView {
            content: match self.data {
                Some(c) => Some(c@),
                None => None,
            },
            next_key: match self.next_key {
                Some(k) => Some(k@),
                None => None,
            },
        }
    }

    /// Wraps the result of a poll.
    pub fn new(log: LogFile) -> (response: LogResponse)
        ensures
            response.carried() == log@,
            response.success == (log@.content is Some),
            response.length == content_length(log@),
    {
        let length: usize = match &log.content {
            Some(c) => c.as_str().len(),
            None => 0,
        };
        LogResponse {
            success: log.content.is_some(),
            length,
            data: log.content,
            next_key: log.next_key,
        }
    }
}

} // verus!
