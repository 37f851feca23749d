//! Loose objects: a zlib stream whose decompressed form is
//! `<type> <size>\0<payload>`, with the type one of `commit`, `tree`,
//! `blob` or `tag` and the size in decimal ASCII.

use vstd::prelude::*;
use crate::error::DbError;
use crate::zlib;

verus! {

/// The kind of an object, before any payload parsing.
#[derive(Debug, Copy, Clone, PartialEq, Eq, Structural)]
pub enum UnparsedObjectType {
    Tree,
    Blob,
    Commit,
    Tag,
}

/// An object as stored: its kind and its raw payload bytes.
#[derive(Debug)]
pub struct UnparsedObject {
    pub object_type: UnparsedObjectType,
    pub payload: Vec<u8>,
}

/// First position in `[i, limit)` holding byte `b`, if any; positions
/// beyond the end of the sequence do not count.
pub open spec fn find_byte(d: Seq<u8>, b: u8, i: int, limit: int) -> Option<int>
    decreases limit - i,
{
    if i < 0 || i >= limit || i >= d.len() {
        None
    } else if d[i] == b {
        Some(i)
    } else {
        find_byte(d, b, i + 1, limit)
    }
}

/// Is this byte a decimal digit?
pub open spec fn is_dec_digit(b: u8) -> bool {
    48 <= b && b <= 57
}

/// Every byte of the sequence is a decimal digit.
pub open spec fn all_dec_digits(s: Seq<u8>) -> bool {
    forall|i: int| 0 <= i < s.len() ==> is_dec_digit(#[trigger] s[i])
}

/// Value of a big-endian run of decimal digits.
pub open spec fn dec_val(s: Seq<u8>) -> nat
    decreases s.len(),
{
    if s.len() == 0 {
        0
    } else {
        dec_val(s.drop_last()) * 10 + ((s.last() - 48) as nat)
    }
}

/// The ASCII bytes of each recognized type token.
pub open spec fn commit_token() -> Seq<u8> {
    seq![99u8, 111u8, 109u8, 109u8, 105u8, 116u8]
}

pub open spec fn tree_token() -> Seq<u8> {
    seq![116u8, 114u8, 101u8, 101u8]
}

pub open spec fn blob_token() -> Seq<u8> {
    seq![98u8, 108u8, 111u8, 98u8]
}

pub open spec fn tag_token() -> Seq<u8> {
    seq![116u8, 97u8, 103u8]
}

/// Which object kind a token names, if any.
pub open spec fn type_of_token(s: Seq<u8>) -> Option<UnparsedObjectType> {
    if s == commit_token() {
        Some(UnparsedObjectType::Commit)
    } else if s == tree_token() {
        Some(UnparsedObjectType::Tree)
    } else if s == blob_token() {
        Some(UnparsedObjectType::Blob)
    } else if s == tag_token() {
        Some(UnparsedObjectType::Tag)
    } else {
        None
    }
}

/// The header of a decompressed loose object: its type, its declared
/// payload size, and the index just past the terminating null byte.
/// Nothing when the null is not within the first 128 bytes, the space
/// is missing, the token is unknown, the size is not a plain decimal
/// run, or the size does not fit the platform's index type.
pub open spec fn loose_header_spec(d: Seq<u8>) -> Option<(UnparsedObjectType, nat, int)> {
    let lim = if d.len() < 128 {
        d.len() as int
    } else {
        128
    };
    match find_byte(d, 0, 0, lim) {
        None => None,
        Some(n) => match find_byte(d, 32, 0, n) {
            None => None,
            Some(sp) => {
                let tok = d.subrange(0, sp);
                let digits = d.subrange(sp + 1, n);
                match type_of_token(tok) {
                    None => None,
                    Some(ty) => if digits.len() >= 1 && all_dec_digits(digits) && dec_val(digits)
                        <= usize::MAX {
                        Some((ty, dec_val(digits), n + 1))
                    } else {
                        None
                    },
                }
            },
        },
    }
}

/// What a decompressed loose object denotes: its type and payload.
/// A blob's payload is left empty when `read_blobs` is false. Nothing
/// when the header is malformed or the payload is shorter than the
/// header declares.
pub open spec fn loose_parse_spec(d: Seq<u8>, read_blobs: bool) -> Option<
    (UnparsedObjectType, Seq<u8>),
> {
    match loose_header_spec(d) {
        None => None,
        Some((ty, sz, he)) => {
            if ty == UnparsedObjectType::Blob && !read_blobs {
                Some((ty, Seq::empty()))
            } else if he + sz <= d.len() {
                Some((ty, d.subrange(he, he + sz)))
            } else {
                None
            }
        },
    }
}

/// Compare a range of `d` against a short pattern.
fn range_eq(d: &[u8], lo: usize, hi: usize, pat: &[u8]) -> (r: bool)
    requires
        lo <= hi <= d@.len(),
    ensures
        r == (d@.subrange(lo as int, hi as int) == pat@),
{
    if hi - lo != pat.len() {
        proof {
            assert(d@.subrange(lo as int, hi as int).len() == hi - lo);
        }
        return false;
    }
    let mut i: usize = 0;
    while i < pat.len()
        invariant
            lo <= hi <= d@.len(),
            hi - lo == pat@.len(),
            i <= pat@.len(),
            forall|j: int| 0 <= j < i ==> d@[lo + j] == pat@[j],
        decreases pat@.len() - i,
    {
        if d[lo + i] != pat[i] {
            proof {
                assert(d@.subrange(lo as int, hi as int)[i as int] == d@[lo + i]);
            }
            return false;
        }
        i = i + 1;
    }
    proof {
        assert(d@.subrange(lo as int, hi as int) =~= pat@);
    }
    true
}

/// Decode the `<type> <size>\0` header at the head of a decompressed
/// loose object. Returns the type, the declared payload size, and the
/// index where the payload starts.
pub fn decode_object_header(input: &[u8]) -> (r: Option<(UnparsedObjectType, usize, usize)>)
    ensures
        match r {
            Some((ty, sz, he)) => loose_header_spec(input@) == Some((ty, sz as nat, he as int))
                && he <= input@.len(),
            None => loose_header_spec(input@) is None,
        },
{
    let ilen = input.len();
    let lim = if ilen < 128 {
        ilen
    } else {
        128
    };
    // Find the terminating null within the first 128 bytes.
    let mut n: usize = 0;
    while n < lim && input[n] != 0
        invariant
            lim <= input@.len(),
            lim == (if input@.len() < 128 {
                input@.len() as int
            } else {
                128
            }),
            n <= lim,
            find_byte(input@, 0, 0, lim as int) == find_byte(input@, 0, n as int, lim as int),
        decreases lim - n,
    {
        n = n + 1;
    }
    if n >= lim {
        return None;
    }
    // Find the space separating the token from the size.
    let mut sp: usize = 0;
    while sp < n && input[sp] != 32
        invariant
            n < lim <= input@.len(),
            find_byte(input@, 0, 0, lim as int) == Some(n as int),
            input@[n as int] == 0,
            sp <= n,
            find_byte(input@, 32, 0, n as int) == find_byte(input@, 32, sp as int, n as int),
        decreases n - sp,
    {
        sp = sp + 1;
    }
    if sp >= n {
        return None;
    }
    // Recognize the type token.
    let commit_pat: [u8; 6] = [99, 111, 109, 109, 105, 116];
    let tree_pat: [u8; 4] = [116, 114, 101, 101];
    let blob_pat: [u8; 4] = [98, 108, 111, 98];
    let tag_pat: [u8; 3] = [116, 97, 103];
    let ty: UnparsedObjectType = if range_eq(input, 0, sp, commit_pat.as_slice()) {
        UnparsedObjectType::Commit
    } else if range_eq(input, 0, sp, tree_pat.as_slice()) {
        UnparsedObjectType::Tree
    } else if range_eq(input, 0, sp, blob_pat.as_slice()) {
        UnparsedObjectType::Blob
    } else if range_eq(input, 0, sp, tag_pat.as_slice()) {
        UnparsedObjectType::Tag
    } else {
        proof {
            assert(commit_pat@ =~= commit_token());
            assert(tree_pat@ =~= tree_token());
            assert(blob_pat@ =~= blob_token());
            assert(tag_pat@ =~= tag_token());
        }
        return None;
    };
    proof {
        assert(commit_pat@ =~= commit_token());
        assert(tree_pat@ =~= tree_token());
        assert(blob_pat@ =~= blob_token());
        assert(tag_pat@ =~= tag_token());
    }
    // Parse the decimal size.
    if sp + 1 >= n {
        proof {
            assert(input@.subrange(sp + 1, n as int).len() == 0);
        }
        return None;
    }
    let ghost digits = input@.subrange(sp + 1, n as int);
    let ghost lim_g = lim as int;
    let mut value: u128 = 0;
    let mut i: usize = sp + 1;
    while i < n
        invariant
            sp + 1 <= i <= n < lim_g <= input@.len(),
            lim_g == (if input@.len() < 128 {
                input@.len() as int
            } else {
                128
            }),
            find_byte(input@, 0, 0, lim_g) == Some(n as int),
            find_byte(input@, 32, 0, n as int) == Some(sp as int),
            type_of_token(input@.subrange(0, sp as int)) == Some(ty),
            digits == input@.subrange(sp + 1, n as int),
            all_dec_digits(input@.subrange(sp + 1, i as int)),
            value == dec_val(input@.subrange(sp + 1, i as int)),
            value <= usize::MAX,
        decreases n - i,
    {
        let b = input[i];
        if b < 48 || b > 57 {
            proof {
                assert(digits[i - (sp + 1)] == input@[i as int]);
            }
            return None;
        }
        proof {
            assert(input@.subrange(sp + 1, i + 1).drop_last() =~= input@.subrange(
                sp + 1,
                i as int,
            ));
            assert(input@.subrange(sp + 1, i + 1).last() == input@[i as int]);
        }
        value = value * 10 + ((b - 48) as u128);
        if value > usize::MAX as u128 {
            proof {
                lemma_dec_val_prefix_le(digits, (i + 1 - (sp + 1)) as int);
                assert(input@.subrange(sp + 1, i + 1) =~= digits.take(i + 1 - (sp + 1)));
            }
            return None;
        }
        i = i + 1;
    }
    proof {
        assert(input@.subrange(sp + 1, n as int) =~= digits);
    }
    Some((ty, value as usize, n + 1))
}

/// The value of a digit run is at least the value of any of its
/// prefixes.
proof fn lemma_dec_val_prefix_le(s: Seq<u8>, k: int)
    requires
        0 <= k <= s.len(),
    ensures
        dec_val(s.take(k)) <= dec_val(s),
    decreases s.len() - k,
{
    if k < s.len() {
        lemma_dec_val_prefix_le(s, k + 1);
        assert(s.take(k + 1).drop_last() =~= s.take(k));
        assert(dec_val(s.take(k + 1)) == dec_val(s.take(k)) * 10 + ((s.take(k + 1).last()
            - 48) as nat));
        assert(dec_val(s.take(k)) <= dec_val(s.take(k)) * 10) by (nonlinear_arith);
    } else {
        assert(s.take(k) =~= s);
    }
}

/// Interpret an already decompressed loose object: parse the header
/// and hand out the payload it declares. A blob's payload is skipped
/// when `read_blobs` is false.
pub fn parse_loose_payload(decompressed: &[u8], read_blobs: bool) -> (r: Result<
    UnparsedObject,
    DbError,
>)
    ensures
        match r {
            Ok(obj) => loose_parse_spec(decompressed@, read_blobs) == Some(
                (obj.object_type, obj.payload@),
            ),
            Err(_) => loose_parse_spec(decompressed@, read_blobs) is None,
        },
{
    let (ty, sz, he) = match decode_object_header(decompressed) {
        Some(h) => h,
        None => {
            return Err(DbError::Corrupt);
        }
    };
    if matches!(ty, UnparsedObjectType::Blob) && !read_blobs {
        return Ok(UnparsedObject { object_type: ty, payload: Vec::new() });
    }
    let dlen = decompressed.len();
    if sz > dlen - he {
        return Err(DbError::Corrupt);
    }
    let mut payload: Vec<u8> = Vec::new();
    let mut i: usize = 0;
    while i < sz
        invariant
            he + sz <= dlen == decompressed@.len(),
            i <= sz,
            payload@ =~= decompressed@.subrange(he as int, he + i as int),
        decreases sz - i,
    {
        payload.push(decompressed[he + i]);
        i = i + 1;
    }
    Ok(UnparsedObject { object_type: ty, payload })
}

/// Read a loose object from the raw bytes of its file: decompress the
/// zlib stream and parse what it holds. A blob's payload is skipped
/// when `read_blobs` is false.
pub fn read_raw_object(file_bytes: &[u8], read_blobs: bool) -> (r: Result<UnparsedObject, DbError>)
    ensures
        match zlib::inflate_prefix(file_bytes@) {
            Some(d) => match r {
                Ok(obj) => loose_parse_spec(d, read_blobs) == Some((obj.object_type, obj.payload@)),
                Err(_) => loose_parse_spec(d, read_blobs) is None,
            },
            None => r is Err,
        },
{
    let decompressed = match zlib::inflate_all(file_bytes) {
        Some(d) => d,
        None => {
            return Err(DbError::Corrupt);
        }
    };
    parse_loose_payload(decompressed.as_slice(), read_blobs)
}

} // verus!
