//! Standard base64 (padded, `+` and `/`), as the base64 crate encodes and
//! decodes it.
use vstd::prelude::*;
use base64::Engine;

verus! {

/// What `base64::engine::general_purpose::STANDARD.decode` makes of a text.
pub uninterp spec fn base64_standard_decoded(text: Seq<u8>) -> Option<Seq<u8>>;

/// `general_purpose::STANDARD.decode`: the decoded bytes, or `None` when the
/// text is not padded standard base64. Which texts those are is the base64
/// crate's; only that the result is a function of the text is stated.
#[verifier::external_body]
pub(crate) fn base64_decode(text: &[u8]) -> (r: Option<Vec<u8>>)
    ensures
        match r {
            Some(v) => base64_standard_decoded(text@) == Some(v@),
            None => base64_standard_decoded(text@) is None,
        },
{
    base64::engine::general_purpose::STANDARD.decode(text).ok()
}

/// A byte of the standard base64 alphabet, or the `=` padding.
pub open spec fn is_base64_symbol(b: u8) -> bool {
    ||| (65 <= b <= 90)
    ||| (97 <= b <= 122)
    ||| (48 <= b <= 57)
    ||| b == 43
    ||| b == 47
    ||| b == 61
}

/// The standard, padded base64 text (as ASCII bytes) that
/// `general_purpose::STANDARD.encode` writes for `bytes`.
pub uninterp spec fn base64_standard_encoded(bytes: Seq<u8>) -> Seq<u8>;

/// `general_purpose::STANDARD.encode`: a pure function of the bytes, named by
/// `base64_standard_encoded`. Its text is made of the standard alphabet and
/// padding, and the same engine decodes it back to the bytes.
#[verifier::external_body]
pub(crate) fn base64_encode(bytes: &[u8]) -> (text: Vec<u8>)
    ensures
        text@ == base64_standard_encoded(bytes@),
        forall|i: int| 0 <= i < text@.len() ==> is_base64_symbol(#[trigger] text@[i]),
        base64_standard_decoded(text@) == Some(bytes@),
{
    base64::engine::general_purpose::STANDARD.encode(bytes).into_bytes()
}

} // verus!
