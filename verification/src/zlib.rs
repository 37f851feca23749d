//! The one piece of outside machinery the library leans on: zlib
//! decompression. The stream's content is named, not restated; what
//! the library proves about decompressed bytes lives in the verified
//! functions that take them as arguments.

use vstd::prelude::*;

verus! {

/// The decompressed content of the zlib stream that starts at the head
/// of `input` — however much of `input` the stream spans — or nothing
/// when no well-formed stream starts there. A function of the bytes
/// alone.
pub uninterp spec fn inflate_prefix(input: Seq<u8>) -> Option<Seq<u8>>;

/// Relies on flate2's `ZlibDecoder`: decompresses the zlib stream at
/// the head of `input`, ignoring any bytes after the stream's end, and
/// fails exactly on a malformed stream.
#[verifier::external_body]
pub fn inflate_all(input: &[u8]) -> (r: Option<Vec<u8>>)
    ensures
        r is Some ==> inflate_prefix(input@) == Some(r->0@),
        r is None ==> inflate_prefix(input@) is None,
{
    let mut out = Vec::new();
    let mut dec = flate2::read::ZlibDecoder::new(input);
    match std::io::Read::read_to_end(&mut dec, &mut out) {
        Ok(_) => Some(out),
        Err(_) => None,
    }
}

} // verus!
