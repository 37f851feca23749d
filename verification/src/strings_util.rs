//! Byte-to-string conversions the parsers lean on: strict UTF-8
//! decoding and the lossy decoding used for human-readable fields.

use vstd::prelude::*;

verus! {

/// Do these bytes decode as UTF-8: is there a character sequence
/// that encodes to exactly them?
pub open spec fn utf8_decodable(bytes: Seq<u8>) -> bool {
    exists|cs: Seq<char>| vstd::utf8::encode_utf8(cs) == bytes
}

/// The characters `String::from_utf8_lossy` decodes from arbitrary
/// bytes, invalid sequences replaced. A function of the bytes alone.
pub uninterp spec fn lossy_chars(bytes: Seq<u8>) -> Seq<char>;

/// Relies on alloc's `String::from_utf8_lossy`: decodes bytes into
/// characters, replacing invalid sequences; bytes below 128 decode to
/// themselves.
#[verifier::external_body]
pub fn lossy_bytes_to_string(v: &[u8]) -> (r: String)
    ensures
        r@ == lossy_chars(v@),
        (forall|i: int| 0 <= i < v@.len() ==> v@[i] < 128) ==> r@ == v@.map_values(
            |b: u8| b as char,
        ),
{
    String::from_utf8_lossy(v).into_owned()
}

/// Relies on std's `str::from_utf8`: decodes UTF-8 bytes into exactly
/// the characters that encode back to those bytes, and fails exactly
/// when no character sequence does.
#[verifier::external_body]
pub fn utf8_bytes_to_string(v: &[u8]) -> (r: Option<String>)
    ensures
        r is Some ==> vstd::utf8::encode_utf8(r->0@) == v@ && utf8_decodable(v@),
        r is None ==> !utf8_decodable(v@),
{
    match std::str::from_utf8(v) {
        Ok(s) => Some(s.to_string()),
        Err(_) => None,
    }
}

} // verus!
