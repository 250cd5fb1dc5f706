//! Reading ASCII byte sequences as strings.
//!
//! The codec and the header builders produce ASCII bytes; this module
//! relates such a byte sequence to the `String` that carries it.

use vstd::prelude::*;

verus! {

/// The characters of a byte sequence, one character per byte.
pub open spec fn chars_of(s: Seq<u8>) -> Seq<char> {
    Seq::new(s.len(), |i: int| s[i] as char)
}

/// Every byte is ASCII.
pub open spec fn all_ascii(s: Seq<u8>) -> bool {
    forall|i: int| 0 <= i < s.len() ==> s[i] < 128
}

/// Relies on String::from_utf8: ASCII bytes are valid UTF-8 and decode
/// to exactly one character per byte.
#[verifier::external_body]
pub fn ascii_to_string(v: Vec<u8>) -> (r: String)
    requires
        all_ascii(v@),
    ensures
        r@ == chars_of(v@),
{
    String::from_utf8(v).unwrap_or_default()
}

/// An ASCII byte sequence read as characters encodes back to the same
/// bytes; so a `String` built from ASCII bytes has those bytes as its
/// UTF-8 form.
pub proof fn lemma_ascii_chars_bytes(s: Seq<u8>)
    requires
        all_ascii(s),
    ensures
        vstd::utf8::is_ascii_chars(chars_of(s)),
        vstd::utf8::encode_utf8(chars_of(s)) =~= s,
{
    assert(vstd::utf8::is_ascii_chars(chars_of(s)));
    vstd::utf8::is_ascii_chars_encode_utf8(chars_of(s));
}

} // verus!
