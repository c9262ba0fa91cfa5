//! The first version of the RPC protocol: calls over HTTP only, with CBOR
//! or JSON bodies.
use vstd::prelude::*;

use crate::http::{is_visible_ascii, visible_ascii};
use crate::mime::str_starts_with;

verus! {

/// An error from a fallible RPC call.
#[derive(Debug)]
pub enum ErrorFrom<C, S> {
    /// The connection failed.
    Connection(C),
    /// The server's function returned an error.
    Server(S),
}

/// Flatten the reply to a fallible call into an [`ErrorFrom`].
pub fn flatten<Success, Error, C>(reply: Result<Result<Success, Error>, C>) -> (r: Result<
    Success,
    ErrorFrom<C, Error>,
>)
    ensures
        r == flatten_spec(reply),
{
    match reply {
        Ok(Ok(ok)) => Ok(ok),
        Ok(Err(e)) => Err(ErrorFrom::Server(e)),
        Err(e) => Err(ErrorFrom::Connection(e)),
    }
}

/// What [`flatten`] gives for a reply.
pub open spec fn flatten_spec<Success, Error, C>(reply: Result<Result<Success, Error>, C>) -> Result<
    Success,
    ErrorFrom<C, Error>,
> {
    match reply {
        Ok(Ok(ok)) => Ok(ok),
        Ok(Err(e)) => Err(ErrorFrom::Server(e)),
        Err(e) => Err(ErrorFrom::Connection(e)),
    }
}

/// Flattening keeps everything: two replies that flatten alike are the same
/// reply.
pub proof fn lemma_flatten_injective<Success, Error, C>(
    a: Result<Result<Success, Error>, C>,
    b: Result<Result<Success, Error>, C>,
)
    requires
        flatten_spec(a) == flatten_spec(b),
    ensures
        a == b,
{
}

/// The mime types of request and response bodies.
#[derive(Copy, Clone, Debug, PartialEq, Eq, Structural)]
pub enum MimeType {
    Cbor,
    Json,
}

/// The text that names a mime type.
pub open spec fn mime_text(m: MimeType) -> Seq<char> {
    match m {
        MimeType::Cbor => "application/cbor"@,
        MimeType::Json => "application/json"@,
    }
}

/// What `MimeType::parse` gives for a header text.
pub open spec fn spec_parse_mime(s: Seq<char>) -> Result<MimeType, ()> {
    if mime_text(MimeType::Cbor).is_prefix_of(s) {
        Ok(MimeType::Cbor)
    } else if mime_text(MimeType::Json).is_prefix_of(s) {
        Ok(MimeType::Json)
    } else {
        Err(())
    }
}

impl MimeType {
    /// The mime type, for example `"application/cbor"`.
    pub fn as_str(self) -> (s: &'static str)
        ensures
            s@ == mime_text(self),
    {
        match self {
            MimeType::Cbor => "application/cbor",
            MimeType::Json => "application/json",
        }
    }

    /// Parse a mime type from the start of a header value.
    pub fn parse(s: &str) -> (r: Result<MimeType, ()>)
        ensures
            r == spec_parse_mime(s@),
    {
        if str_starts_with(s, MimeType::Cbor.as_str()) {
            Ok(MimeType::Cbor)
        } else if str_starts_with(s, MimeType::Json.as_str()) {
            Ok(MimeType::Json)
        } else {
            Err(())
        }
    }
}

impl core::str::FromStr for MimeType {
    type Err = ();

    fn from_str(s: &str) -> (r: Result<MimeType, ()>)
        ensures
            r == spec_parse_mime(s@),
    {
        MimeType::parse(s)
    }
}

/// The mime type that an `Accept` header asks for: there must be a header,
/// its text must be visible ASCII, and it must start with the text of a
/// known mime type. Otherwise the request is refused, with the status
/// `UNSUPPORTED_MEDIA_TYPE`.
///
/// A header value whose bytes are not UTF-8 is given with a replacement
/// character for each invalid sequence, which is not visible ASCII.
pub fn accepted_mime_type(accept: Option<&str>) -> (r: Option<MimeType>)
    ensures
        r == match accept {
            None => None,
            Some(v) => if forall|i: int| 0 <= i < v@.len() ==> is_visible_ascii(#[trigger] v@[i]) {
                match spec_parse_mime(v@) {
                    Ok(m) => Some(m),
                    Err(_) => None,
                }
            } else {
                None
            },
        },
{
    match accept {
        None => None,
        Some(v) => {
            if !visible_ascii(v) {
                return None;
            }
            match MimeType::parse(v) {
                Ok(m) => Some(m),
                Err(()) => None,
            }
        },
    }
}

/// A header text parses to `m` exactly when it starts with the text of `m`,
/// and the text of a mime type parses back to it.
pub proof fn lemma_parse_mime_iff_prefix(s: Seq<char>, m: MimeType)
    ensures
        spec_parse_mime(s) == Ok::<MimeType, ()>(m) <==> mime_text(m).is_prefix_of(s),
        spec_parse_mime(mime_text(m)) == Ok::<MimeType, ()>(m),
{
    reveal_strlit("application/cbor");
    reveal_strlit("application/json");
    if mime_text(m).is_prefix_of(s) {
        assert(s[12] == mime_text(m)[12]);
    }
    if let Ok(p) = spec_parse_mime(s) {
        assert(s[12] == mime_text(p)[12]);
    }
    assert(mime_text(m).subrange(0, mime_text(m).len() as int) =~= mime_text(m));
    if let Ok(p) = spec_parse_mime(mime_text(m)) {
        assert(mime_text(m)[12] == mime_text(p)[12]);
    }
}

/// The legacy mime types are named by their full registered texts: a
/// header names JSON only where it starts with all of `application/json`.
pub proof fn lemma_legacy_mime_texts()
    ensures
        mime_text(MimeType::Cbor) == "application/cbor"@,
        mime_text(MimeType::Json) == "application/json"@,
        spec_parse_mime("application/javascript"@) is Err,
        spec_parse_mime("application/json; charset=UTF-8"@) == Ok::<MimeType, ()>(MimeType::Json),
{
    reveal_strlit("application/javascript");
    reveal_strlit("application/json; charset=UTF-8");
    reveal_strlit("application/cbor");
    reveal_strlit("application/json");
    if mime_text(MimeType::Json).is_prefix_of("application/javascript"@) {
        assert("application/javascript"@[14] == mime_text(MimeType::Json)[14]);
    }
    if mime_text(MimeType::Cbor).is_prefix_of("application/javascript"@) {
        assert("application/javascript"@[12] == mime_text(MimeType::Cbor)[12]);
    }
    assert(mime_text(MimeType::Json) =~= "application/json; charset=UTF-8"@.subrange(0, 16));
    lemma_parse_mime_iff_prefix("application/json; charset=UTF-8"@, MimeType::Json);
}

} // verus!
