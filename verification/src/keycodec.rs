//! The opaque key codec. A record's file name may hold characters that are
//! unsafe in a URL path segment, so the dashboard refers to a record through
//! an unpadded URL-safe base64 token of the name. Decoding is the exact
//! inverse: it accepts a token exactly when it is the encoding of some text.

use vstd::prelude::*;

verus! {

/// The unpadded URL-safe base64 encoding of a text's UTF-8 bytes.
pub uninterp spec fn b64_of(s: Seq<char>) -> Seq<char>;

/// Relies on base64's `URL_SAFE_NO_PAD` engine: the encoding is a function
/// of the input text alone, and an empty input encodes to an empty token.
#[verifier::external_body]
pub fn b64_encode(s: &str) -> (r: String)
    ensures
        r@ == b64_of(s@),
        s@.len() == 0 ==> r@.len() == 0,
{
    base64::Engine::encode(&base64::engine::general_purpose::URL_SAFE_NO_PAD, s)
}

/// Relies on base64's `URL_SAFE_NO_PAD` engine and `String::from_utf8`.
/// With padding forbidden and trailing bits rejected, the engine accepts
/// exactly the canonical encodings, so whatever decodes re-encodes to the
/// token, and every token that is the encoding of some text decodes.
/// Decoding is deterministic and encoding injective (distinct texts have
/// distinct UTF-8 bytes and distinct encodings), so the text that decodes
/// out of a token is the only one encoding to it.
#[verifier::external_body]
pub fn b64_decode(s: &str) -> (r: Option<String>)
    ensures
        match r {
            Some(n) => b64_of(n@) == s@ && (forall|m: Seq<char>| b64_of(m) == s@ ==> m == n@),
            None => forall|n: Seq<char>| s@ != b64_of(n),
        },
{
    let bytes = base64::Engine::decode(
        &base64::engine::general_purpose::URL_SAFE_NO_PAD,
        s,
    ).ok()?;
    String::from_utf8(bytes).ok()
}

} // verus!
