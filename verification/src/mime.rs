//! Mime types understood by Arpy providers, and how a header names one.
use vstd::prelude::*;

verus! {

/// Some common mime types supported by Arpy providers.
#[derive(Copy, Clone, Debug, PartialEq, Eq, Structural)]
pub enum MimeType {
    Cbor,
    Json,
    XwwwFormUrlencoded,
}

/// The text that names a mime type.
pub open spec fn mime_text(m: MimeType) -> Seq<char> {
    match m {
        MimeType::Cbor => "application/cbor"@,
        MimeType::Json => "application/json"@,
        MimeType::XwwwFormUrlencoded => "application/x-www-form-urlencoded"@,
    }
}

/// What `MimeType::parse` gives for a header text: the first mime type, in
/// declaration order, whose text starts the header.
pub open spec fn spec_parse_mime(s: Seq<char>) -> Result<MimeType, ()> {
    if mime_text(MimeType::Cbor).is_prefix_of(s) {
        Ok(MimeType::Cbor)
    } else if mime_text(MimeType::Json).is_prefix_of(s) {
        Ok(MimeType::Json)
    } else if mime_text(MimeType::XwwwFormUrlencoded).is_prefix_of(s) {
        Ok(MimeType::XwwwFormUrlencoded)
    } else {
        Err(())
    }
}

/// Whether `prefix` is a prefix of `s`, as `str::starts_with` tells.
pub(crate) fn str_starts_with(s: &str, prefix: &str) -> (r: bool)
    ensures
        r == prefix@.is_prefix_of(s@),
{
    let n = prefix.unicode_len();
    let m = s.unicode_len();
    if n > m {
        return false;
    }
    let mut i: usize = 0;
    while i < n
        invariant
            n == prefix@.len(),
            m == s@.len(),
            i <= n <= m,
            forall|j: int| 0 <= j < i ==> prefix@[j] == s@[j],
        decreases n - i,
    {
        if prefix.get_char(i) != s.get_char(i) {
            assert(prefix@[i as int] != s@.subrange(0, n as int)[i as int]);
            return false;
        }
        i = i + 1;
    }
    assert(prefix@ =~= s@.subrange(0, n as int));
    true
}

impl MimeType {
    /// The mime type, for example `"application/cbor"`.
    pub fn as_str(self) -> (s: &'static str)
        ensures
            s@ == mime_text(self),
    {
        match self {
            MimeType::Cbor => "application/cbor",
            MimeType::Json => "application/json",
            MimeType::XwwwFormUrlencoded => "application/x-www-form-urlencoded",
        }
    }

    /// Parse a mime type from the start of a header value, so that
    /// parameters such as `; charset=utf-8` are accepted.
    pub fn parse(s: &str) -> (r: Result<MimeType, ()>)
        ensures
            r == spec_parse_mime(s@),
    {
        if str_starts_with(s, MimeType::Cbor.as_str()) {
            Ok(MimeType::Cbor)
        } else if str_starts_with(s, MimeType::Json.as_str()) {
            Ok(MimeType::Json)
        } else if str_starts_with(s, MimeType::XwwwFormUrlencoded.as_str()) {
            Ok(MimeType::XwwwFormUrlencoded)
        } else {
            Err(())
        }
    }
}

impl core::str::FromStr for MimeType {
    type Err = ();

    fn from_str(s: &str) -> (r: Result<MimeType, ()>)
        ensures
            r == spec_parse_mime(s@),
    {
        MimeType::parse(s)
    }
}

/// No mime type's text is a prefix of another's.
pub proof fn lemma_mime_texts_distinct(a: MimeType, b: MimeType)
    requires
        mime_text(a).is_prefix_of(mime_text(b)),
    ensures
        a == b,
{
    reveal_strlit("application/cbor");
    reveal_strlit("application/json");
    reveal_strlit("application/x-www-form-urlencoded");
    if a != b {
        assert(mime_text(a)[12] == mime_text(b).subrange(0, mime_text(a).len() as int)[12]);
    }
}

/// A header text parses to `m` exactly when it starts with the text of `m`.
pub proof fn lemma_parse_mime_iff_prefix(s: Seq<char>, m: MimeType)
    ensures
        spec_parse_mime(s) == Ok::<MimeType, ()>(m) <==> mime_text(m).is_prefix_of(s),
{
    reveal_strlit("application/cbor");
    reveal_strlit("application/json");
    reveal_strlit("application/x-www-form-urlencoded");
    if mime_text(m).is_prefix_of(s) {
        assert(s[12] == mime_text(m)[12]);
    }
    if let Ok(p) = spec_parse_mime(s) {
        assert(mime_text(p).is_prefix_of(s));
        assert(s[12] == mime_text(p)[12]);
    }
}

/// Parsing the text of a mime type gives that mime type back.
pub proof fn lemma_parse_as_str_round_trip(m: MimeType)
    ensures
        spec_parse_mime(mime_text(m)) == Ok::<MimeType, ()>(m),
{
    assert(mime_text(m).is_prefix_of(mime_text(m))) by {
        assert(mime_text(m).subrange(0, mime_text(m).len() as int) =~= mime_text(m));
    }
    lemma_parse_mime_iff_prefix(mime_text(m), m);
}

/// The mime types are named by their full registered texts: a header
/// names JSON only where it starts with all of `application/json`.
pub proof fn lemma_mime_texts()
    ensures
        mime_text(MimeType::Cbor) == "application/cbor"@,
        mime_text(MimeType::Json) == "application/json"@,
        mime_text(MimeType::XwwwFormUrlencoded) == "application/x-www-form-urlencoded"@,
        spec_parse_mime("application/javascript"@) is Err,
        spec_parse_mime("application/json; charset=UTF-8"@) == Ok::<MimeType, ()>(MimeType::Json),
{
    reveal_strlit("application/javascript");
    reveal_strlit("application/json; charset=UTF-8");
    lemma_parse_mime_iff_prefix("application/javascript"@, MimeType::Json);
    lemma_parse_mime_iff_prefix("application/javascript"@, MimeType::Cbor);
    lemma_parse_mime_iff_prefix("application/javascript"@, MimeType::XwwwFormUrlencoded);
    lemma_parse_mime_iff_prefix("application/json; charset=UTF-8"@, MimeType::Json);
    reveal_strlit("application/cbor");
    reveal_strlit("application/json");
    reveal_strlit("application/x-www-form-urlencoded");
    assert("application/javascript"@[14] != mime_text(MimeType::Json)[14]);
    assert("application/javascript"@[12] != mime_text(MimeType::Cbor)[12]);
    assert("application/javascript"@[12] != mime_text(MimeType::XwwwFormUrlencoded)[12]);
    assert(mime_text(MimeType::Json) =~= "application/json; charset=UTF-8"@.subrange(0, 16));
}

} // verus!
