//! Blob payload handling of selectable fidelity: dropped, raw bytes,
//! lossy text, or strict text.

use vstd::prelude::*;
use crate::error::DbError;
use crate::strings_util;

verus! {

use vstd::utf8::encode_utf8;

/// How blob payloads are taken in.
pub trait ParseBlob: Sized {
    /// The payloads this representation accepts: parsing succeeds on
    /// exactly these.
    spec fn parse_accepts(raw: Seq<u8>) -> bool;

    /// Build the blob representation from the raw payload. Succeeds
    /// exactly on an accepted payload.
    fn parse(raw: &[u8]) -> (r: Result<Self, DbError>)
        ensures
            r is Ok <==> Self::parse_accepts(raw@),
    ;
}

/// Drop blob payloads entirely: the safest and fastest choice.
pub struct BlobObjectNone {}

/// Keep the raw payload bytes.
pub struct BlobObjRaw {
    pub raw: Vec<u8>,
}

/// Keep the payload as text, failing on invalid UTF-8.
pub struct BlobObjStringOrError {
    pub s: String,
}

/// Keep the payload as text, replacing invalid sequences.
pub struct BlobObjStringLossy {
    pub s: String,
}

impl BlobObjectNone {
    /// Always succeeds, keeping nothing.
    pub fn parse(_raw: &[u8]) -> (r: Result<Self, DbError>)
        ensures
            r is Ok,
    {
        Ok(BlobObjectNone {  })
    }
}

impl BlobObjRaw {
    /// Always succeeds, copying the payload.
    pub fn parse(raw: &[u8]) -> (r: Result<Self, DbError>)
        ensures
            r is Ok,
            r->Ok_0.raw@ == raw@,
    {
        let mut v: Vec<u8> = Vec::new();
        let rlen = raw.len();
        let mut i: usize = 0;
        while i < rlen
            invariant
                i <= rlen == raw@.len(),
                v@ =~= raw@.take(i as int),
            decreases rlen - i,
        {
            v.push(raw[i]);
            i = i + 1;
        }
        proof {
            assert(v@ =~= raw@);
        }
        Ok(BlobObjRaw { raw: v })
    }
}

impl BlobObjStringLossy {
    /// Always succeeds; the text is the lossy decoding of the bytes.
    pub fn parse(raw: &[u8]) -> (r: Result<Self, DbError>)
        ensures
            r is Ok,
            r->Ok_0.s@ == strings_util::lossy_chars(raw@),
    {
        Ok(BlobObjStringLossy { s: strings_util::lossy_bytes_to_string(raw) })
    }
}

impl BlobObjStringOrError {
    /// Succeeds exactly when the payload is valid UTF-8; the text
    /// encodes back to exactly the payload bytes.
    pub fn parse(raw: &[u8]) -> (r: Result<Self, DbError>)
        ensures
            match r {
                Ok(b) => encode_utf8(b.s@) == raw@ && strings_util::utf8_decodable(raw@),
                Err(_) => !strings_util::utf8_decodable(raw@),
            },
    {
        match strings_util::utf8_bytes_to_string(raw) {
            Some(s) => Ok(BlobObjStringOrError { s }),
            None => Err(DbError::Corrupt),
        }
    }
}

impl ParseBlob for BlobObjectNone {
    open spec fn parse_accepts(raw: Seq<u8>) -> bool {
        true
    }

    fn parse(raw: &[u8]) -> (r: Result<Self, DbError>) {
        BlobObjectNone::parse(raw)
    }
}

impl ParseBlob for BlobObjRaw {
    open spec fn parse_accepts(raw: Seq<u8>) -> bool {
        true
    }

    fn parse(raw: &[u8]) -> (r: Result<Self, DbError>) {
        BlobObjRaw::parse(raw)
    }
}

impl ParseBlob for BlobObjStringLossy {
    open spec fn parse_accepts(raw: Seq<u8>) -> bool {
        true
    }

    fn parse(raw: &[u8]) -> (r: Result<Self, DbError>) {
        BlobObjStringLossy::parse(raw)
    }
}

impl ParseBlob for BlobObjStringOrError {
    open spec fn parse_accepts(raw: Seq<u8>) -> bool {
        strings_util::utf8_decodable(raw)
    }

    fn parse(raw: &[u8]) -> (r: Result<Self, DbError>) {
        BlobObjStringOrError::parse(raw)
    }
}

} // verus!
