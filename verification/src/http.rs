//! Building blocks for HTTP handlers and clients: which mime type a request
//! names, the errors sent back, and the path of an RPC endpoint.
use vstd::prelude::*;

use crate::mime::{spec_parse_mime, MimeType};
use crate::text::{concat, owned};

verus! {

/// `206 Partial Content`: the request body could not be read.
pub const PARTIAL_CONTENT: u16 = 206;

/// `400 Bad Request`: the arguments or the result could not be
/// (de)serialized.
pub const BAD_REQUEST: u16 = 400;

/// `406 Not Acceptable`: a header value is not visible ASCII.
pub const NOT_ACCEPTABLE: u16 = 406;

/// `415 Unsupported Media Type`: a header names no known mime type.
pub const UNSUPPORTED_MEDIA_TYPE: u16 = 415;

/// `500 Internal Server Error`: the response could not be built.
pub const INTERNAL_SERVER_ERROR: u16 = 500;

/// A header character that `HeaderValue::to_str` accepts: visible ASCII or
/// a tab.
pub open spec fn is_visible_ascii(c: char) -> bool {
    (' ' <= c && c <= '~') || c == '\t'
}

/// Whether every character of a header value is visible ASCII or a tab.
pub fn visible_ascii(s: &str) -> (r: bool)
    ensures
        r == forall|i: int| 0 <= i < s@.len() ==> is_visible_ascii(#[trigger] s@[i]),
{
    let n = s.unicode_len();
    let mut i: usize = 0;
    while i < n
        invariant
            n == s@.len(),
            i <= n,
            forall|j: int| 0 <= j < i ==> is_visible_ascii(#[trigger] s@[j]),
        decreases n - i,
    {
        let c = s.get_char(i);
        if !((' ' <= c && c <= '~') || c == '\t') {
            return false;
        }
        i = i + 1;
    }
    true
}

/// Why a request names no usable mime type.
#[derive(Debug, Clone, PartialEq, Eq)]
pub enum MimeTypeError {
    /// The header value is not visible ASCII.
    NotAcceptable,
    /// The header value names no mime type that Arpy supports; it is kept.
    UnsupportedMediaType(String),
}

impl MimeTypeError {
    /// The HTTP status that answers this error.
    pub fn status_code(&self) -> (r: u16)
        ensures
            r == match self {
                MimeTypeError::NotAcceptable => NOT_ACCEPTABLE,
                MimeTypeError::UnsupportedMediaType(_) => UNSUPPORTED_MEDIA_TYPE,
            },
    {
        match self {
            MimeTypeError::NotAcceptable => NOT_ACCEPTABLE,
            MimeTypeError::UnsupportedMediaType(_) => UNSUPPORTED_MEDIA_TYPE,
        }
    }
}

/// The mime type that a `Content-Type` or `Accept` header names. Without
/// the header, CBOR is assumed.
///
/// The header value is given as text; where its bytes are not UTF-8, each
/// invalid sequence stands as a replacement character, which is not visible
/// ASCII, so the checks come out as they would on the bytes.
pub fn mime_type(header_value: Option<&str>) -> (r: Result<MimeType, MimeTypeError>)
    ensures
        match header_value {
            None => r == Ok::<MimeType, MimeTypeError>(MimeType::Cbor),
            Some(v) => if !(forall|i: int| 0 <= i < v@.len() ==> is_visible_ascii(#[trigger] v@[i])) {
                r == Err::<MimeType, MimeTypeError>(MimeTypeError::NotAcceptable)
            } else {
                match spec_parse_mime(v@) {
                    Ok(m) => r == Ok::<MimeType, MimeTypeError>(m),
                    Err(_) => r matches Err(MimeTypeError::UnsupportedMediaType(s)) && s@ == v@,
                }
            },
        },
{
    match header_value {
        None => Ok(MimeType::Cbor),
        Some(accept) => {
            if !visible_ascii(accept) {
                return Err(MimeTypeError::NotAcceptable);
            }
            match MimeType::parse(accept) {
                Ok(m) => Ok(m),
                Err(()) => Err(MimeTypeError::UnsupportedMediaType(owned(accept))),
            }
        },
    }
}

/// An error response: a status code and a text body.
#[derive(Debug, Clone, PartialEq, Eq)]
pub struct ErrorResponse {
    pub status: u16,
    pub body: String,
}

/// An error response with the status `code` and the text `message`.
pub fn error(code: u16, message: String) -> (r: ErrorResponse)
    ensures
        r.status == code,
        r.body == message,
{
    ErrorResponse { status: code, body: message }
}

/// The path of the endpoint for the function `id` under `prefix`:
/// `"{prefix}/{id}"`. Servers route it, and clients post to it.
pub fn rpc_route(prefix: &str, id: &str) -> (r: String)
    ensures
        r@ == prefix@ + "/"@ + id@,
{
    let path = concat(owned(prefix), "/");
    concat(path, id)
}

/// An extractor for RPC requests: the deserialized arguments.
pub struct ArpyRequest<T>(pub T);

/// A response to an RPC request: the result, and the mime type to send it
/// as.
pub struct ArpyResponse<T> {
    mime_type: MimeType,
    response: T,
}

impl<T> ArpyResponse<T> {
    pub fn new(mime_type: MimeType, response: T) -> (r: Self)
        ensures
            r.mime_type() == mime_type,
            r.response() == response,
    {
        ArpyResponse { mime_type, response }
    }

    /// The mime type to send the response as.
    pub closed spec fn mime_type(&self) -> MimeType {
        self.mime_type
    }

    /// The result to send.
    pub closed spec fn response(&self) -> T {
        self.response
    }

    /// The mime type and the result.
    pub fn into_parts(self) -> (r: (MimeType, T))
        ensures
            r.0 == self.mime_type(),
            r.1 == self.response(),
    {
        (self.mime_type, self.response)
    }
}

/// Every visible ASCII character, from `' '` to `'~'`, and the tab are
/// header characters, as `HeaderValue::to_str` takes them: so a header
/// value made of them that starts with a mime type's text negotiates to
/// that type.
pub proof fn lemma_visible_header_negotiates(v: Seq<char>, m: MimeType)
    requires
        forall|i: int| 0 <= i < v.len() ==> (' ' <= #[trigger] v[i] && v[i] <= '~') || v[i] == '\t',
        crate::mime::mime_text(m).is_prefix_of(v),
    ensures
        forall|i: int| 0 <= i < v.len() ==> is_visible_ascii(#[trigger] v[i]),
        spec_parse_mime(v) == Ok::<MimeType, ()>(m),
{
    crate::mime::lemma_parse_mime_iff_prefix(v, m);
}

/// A header that names a mime type by its own text is understood as that
/// mime type: the texts are visible ASCII, and each parses to its type.
pub proof fn lemma_mime_text_negotiates(m: MimeType)
    ensures
        forall|i: int|
            0 <= i < crate::mime::mime_text(m).len() ==> is_visible_ascii(
                #[trigger] crate::mime::mime_text(m)[i],
            ),
        spec_parse_mime(crate::mime::mime_text(m)) == Ok::<MimeType, ()>(m),
{
    reveal_strlit("application/cbor");
    reveal_strlit("application/json");
    reveal_strlit("application/x-www-form-urlencoded");
    crate::mime::lemma_parse_as_str_round_trip(m);
}

} // verus!
