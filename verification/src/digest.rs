//! Content digests.
use vstd::prelude::*;

verus! {

/// The BLAKE3 hash of the UTF-8 bytes of a text, in hexadecimal.
pub uninterp spec fn blake3_text(text: Seq<char>) -> Seq<char>;

/// A lowercase hexadecimal digit.
pub open spec fn is_hex_digit(c: char) -> bool {
    '0' <= c <= '9' || 'a' <= c <= 'f'
}

/// Calls `blake3::hash` on the bytes of a text and `Hash::to_hex` on what comes back. Claimed of
/// them is that the digest depends on the text alone and has 64 lowercase hexadecimal digits.
#[verifier::external_body]
pub(crate) fn blake3_hex(text: &str) -> (r: String)
    ensures
        r@ == blake3_text(text@),
        r@.len() == 64,
        forall|i: int| 0 <= i < r@.len() ==> is_hex_digit(#[trigger] r@[i]),
{
    blake3::hash(text.as_bytes()).to_hex().to_string()
}

} // verus!
