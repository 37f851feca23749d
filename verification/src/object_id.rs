//! Identifier algebra: 160-bit digests, their 128-bit truncation used
//! as a map key, hex encoding and decoding, and partial-prefix matching.

use vstd::prelude::*;
use crate::error::DbError;
use crate::hex;

verus! {

use vstd::string::StringSliceAdditionalSpecFns;
use vstd::math::min;

/// An object identifier, truncated to the leading 128 bits of the
/// 160-bit digest. The keyspace is large enough that collisions are
/// not a practical concern for any real repository.
pub type Oid = u128;

/// The full 20-byte form of a digest.
pub type OidFull = [u8; 20];

/// The first 16 bytes of a digest, the big-endian representation of an `Oid`.
pub type OidTruncated = [u8; 16];

/// Big-endian value of a byte sequence.
pub open spec fn be_val(s: Seq<u8>) -> int
    decreases s.len(),
{
    if s.len() == 0 {
        0
    } else {
        be_val(s.drop_last()) * 256 + s.last()
    }
}

/// `be_val` of `n` bytes fits in `n` octets: it is below 256^n.
pub proof fn lemma_be_val_bound(s: Seq<u8>)
    ensures
        0 <= be_val(s) < vstd::arithmetic::power::pow(256, s.len() as nat),
    decreases s.len(),
{
    vstd::arithmetic::power::lemma_pow_positive(256, s.len() as nat);
    if s.len() == 0 {
    } else {
        lemma_be_val_bound(s.drop_last());
        vstd::arithmetic::power::lemma_pow1(256);
        vstd::arithmetic::power::lemma_pow_adds(256, (s.len() - 1) as nat, 1);
    }
}

/// The 128-bit key carried by the first 16 bytes of a digest.
pub open spec fn oid_of_bytes(s: Seq<u8>) -> Oid
    recommends
        s.len() >= 16,
{
    be_val(s.take(16)) as Oid
}

/// `256^16` is exactly one beyond the largest `u128`.
proof fn lemma_pow256_16()
    ensures
        vstd::arithmetic::power::pow(256, 16) == 0x1_0000_0000_0000_0000_0000_0000_0000_0000,
{
    reveal_with_fuel(vstd::arithmetic::power::pow, 17);
}

/// Interpret 16 big-endian bytes as an `Oid`.
pub fn trunc_oid_to_u128_oid(trunc: OidTruncated) -> (r: Oid)
    ensures
        r == be_val(trunc@),
{
    let mut value: u128 = 0;
    let mut i: usize = 0;
    proof {
        vstd::arithmetic::power::lemma_pow0(256);
    }
    while i < 16
        invariant
            i <= 16,
            value == be_val(trunc@.take(i as int)),
            0 <= value < vstd::arithmetic::power::pow(256, i as nat),
        decreases 16 - i,
    {
        proof {
            assert(trunc@.take(i + 1).drop_last() =~= trunc@.take(i as int));
            let p = vstd::arithmetic::power::pow(256, i as nat);
            assert(value * 256 + 255 < p * 256) by (nonlinear_arith)
                requires
                    0 <= value < p,
            ;
            vstd::arithmetic::power::lemma_pow1(256);
            vstd::arithmetic::power::lemma_pow_adds(256, i as nat, 1);
            vstd::arithmetic::power::lemma_pow_increases(256, (i + 1) as nat, 16);
            lemma_pow256_16();
        }
        value = value * 256 + (trunc[i] as u128);
        i = i + 1;
    }
    proof {
        assert(trunc@.take(16) =~= trunc@);
    }
    value
}

/// Truncate a full digest to its 128-bit key.
pub fn full_oid_to_u128_oid(full: OidFull) -> (r: Oid)
    ensures
        r == oid_of_bytes(full@),
{
    let mut trunc: OidTruncated = [0; 16];
    let mut i: usize = 0;
    while i < 16
        invariant
            i <= 16,
            trunc@.take(i as int) =~= full@.take(i as int),
        decreases 16 - i,
    {
        trunc[i] = full[i];
        i = i + 1;
    }
    proof {
        assert(trunc@.take(16) =~= trunc@);
    }
    trunc_oid_to_u128_oid(trunc)
}

/// Interpret the first 16 bytes of a slice as an `Oid`.
pub fn full_slice_oid_to_u128_oid(full: &[u8]) -> (r: Oid)
    requires
        full@.len() >= 16,
    ensures
        r == oid_of_bytes(full@),
{
    let mut trunc: OidTruncated = [0; 16];
    let mut i: usize = 0;
    while i < 16
        invariant
            i <= 16,
            full@.len() >= 16,
            trunc@.take(i as int) =~= full@.take(i as int),
        decreases 16 - i,
    {
        trunc[i] = full[i];
        i = i + 1;
    }
    proof {
        assert(trunc@.take(16) =~= trunc@);
        assert(full@.take(16) == full@.take(16));
    }
    let r = trunc_oid_to_u128_oid(trunc);
    proof {
        assert(trunc@ =~= full@.take(16));
    }
    r
}

/// A hex string of 32 characters held as ASCII bytes. Can be turned
/// into an `Oid`.
pub struct OidStrTruncated(pub [u8; 32]);

impl Default for OidStrTruncated {
    /// Thirty-two ASCII zeros.
    fn default() -> (r: Self)
        ensures
            r.0@ =~= Seq::new(32, |i: int| 48u8),
    {
        let r = OidStrTruncated([48; 32]);
        proof {
            assert(r.0@ =~= Seq::new(32, |i: int| 48u8));
        }
        r
    }
}

/// Parse a 32-digit hex string into its 128-bit value.
/// Fails exactly when some character is not a hex digit.
pub fn oid_str_truncated_to_oid(oid_str: OidStrTruncated) -> (r: Result<Oid, DbError>)
    ensures
        r is Ok <==> hex::all_hex_bytes(oid_str.0@),
        r is Ok ==> r->Ok_0 == hex::hex_bytes_val(oid_str.0@),
{
    proof {
        assert(oid_str.0@.take(32) =~= oid_str.0@);
    }
    match hex::parse_hex_u128(oid_str.0.as_slice(), 32) {
        Some(v) => Ok(v),
        None => Err(DbError::Corrupt),
    }
}

/// Parse the first 32 characters of a hex string into an `Oid`.
/// The string must hold at least 32 characters, all of them hex digits.
pub fn hash_str_to_oid(hash: &str) -> (r: Result<Oid, DbError>)
    ensures
        r is Ok <==> hash.spec_bytes().len() >= 32 && hex::all_hex_bytes(
            hash.spec_bytes().take(32),
        ),
        r is Ok ==> r->Ok_0 == hex::hex_bytes_val(hash.spec_bytes().take(32)),
{
    let bytes = hash.as_bytes();
    if bytes.len() < 32 {
        return Err(DbError::Corrupt);
    }
    match hex::parse_hex_u128(bytes, 32) {
        Some(v) => Ok(v),
        None => Err(DbError::Corrupt),
    }
}

/// The identifier named by a loose object's two-character folder and
/// the first 30 characters of its file name: the folder supplies the
/// top byte, the file name the rest.
pub fn hash_object_file_and_folder(folder: &str, filename: &str) -> (r: Result<Oid, DbError>)
    requires
        folder.spec_bytes().len() >= 2,
        filename.spec_bytes().len() >= 30,
    ensures
        r is Ok <==> hex::all_hex_bytes(
            folder.spec_bytes().take(2) + filename.spec_bytes().take(30),
        ),
        r is Ok ==> r->Ok_0 == hex::hex_bytes_val(
            folder.spec_bytes().take(2) + filename.spec_bytes().take(30),
        ),
{
    let fb = folder.as_bytes();
    let nb = filename.as_bytes();
    let mut oid_str = OidStrTruncated::default();
    oid_str.0[0] = fb[0];
    oid_str.0[1] = fb[1];
    let mut i: usize = 0;
    while i < 30
        invariant
            i <= 30,
            nb@ == filename.spec_bytes(),
            nb@.len() >= 30,
            oid_str.0@.len() == 32,
            oid_str.0@[0] == folder.spec_bytes()[0],
            oid_str.0@[1] == folder.spec_bytes()[1],
            forall|j: int| 0 <= j < i ==> oid_str.0@[2 + j] == nb@[j],
        decreases 30 - i,
    {
        oid_str.0[2 + i] = nb[i];
        i = i + 1;
    }
    proof {
        assert(oid_str.0@ =~= folder.spec_bytes().take(2) + filename.spec_bytes().take(30));
    }
    oid_str_truncated_to_oid(oid_str)
}

/// The 40-digit rendering of a byte sequence, two lowercase hex digits
/// for each byte, most significant first.
pub open spec fn full_hex_of(b: Seq<u8>) -> Seq<u8> {
    Seq::new(b.len() * 2, |i: int|
        if i % 2 == 0 {
            hex::hex_digit_byte(b[i / 2] as int / 16)
        } else {
            hex::hex_digit_byte(b[i / 2] as int % 16)
        })
}

/// The bytes named by a sequence of hex digit pairs.
pub open spec fn bytes_of_full_hex(s: Seq<u8>) -> Seq<u8> {
    Seq::new(s.len() / 2, |i: int|
        (hex::hex_byte_val(s[2 * i]) * 16 + hex::hex_byte_val(s[2 * i + 1])) as u8)
}

/// Parsing the two hex digits of a byte recovers the byte.
pub proof fn lemma_byte_hex_round_trip(b: Seq<u8>)
    ensures
        bytes_of_full_hex(full_hex_of(b)) =~= b,
        hex::all_hex_bytes(full_hex_of(b)),
{
    let h = full_hex_of(b);
    assert forall|i: int| 0 <= i < h.len() implies hex::is_hex_byte(#[trigger] h[i]) by {
        assert(0 <= b[i / 2] < 256);
    }
    assert forall|i: int| 0 <= i < b.len() implies bytes_of_full_hex(h)[i] == b[i] by {
        let v = b[i] as int;
        assert(h[2 * i] == hex::hex_digit_byte(v / 16));
        assert(h[2 * i + 1] == hex::hex_digit_byte(v % 16));
        assert(hex::hex_byte_val(hex::hex_digit_byte(v / 16)) == v / 16);
        assert(hex::hex_byte_val(hex::hex_digit_byte(v % 16)) == v % 16);
        vstd::arithmetic::div_mod::lemma_fundamental_div_mod(v, 16);
    }
}

/// Parse a 40-digit hex string into the full 20-byte digest it names.
/// Returns nothing when the string is shorter than 40 characters or
/// one of the first 40 is not a hex digit.
pub fn full_oid_from_str(hash: &str) -> (r: Option<OidFull>)
    ensures
        r is Some <==> hash.spec_bytes().len() >= 40 && hex::all_hex_bytes(
            hash.spec_bytes().take(40),
        ),
        r is Some ==> r->0@ =~= bytes_of_full_hex(hash.spec_bytes().take(40)),
{
    let bytes = hash.as_bytes();
    if bytes.len() < 40 {
        return None;
    }
    let ghost sb = hash.spec_bytes().take(40);
    let mut oid_full: OidFull = [0; 20];
    let mut i: usize = 0;
    while i < 20
        invariant
            i <= 20,
            bytes@ == hash.spec_bytes(),
            bytes@.len() >= 40,
            sb == hash.spec_bytes().take(40),
            forall|j: int| 0 <= j < 2 * i ==> hex::is_hex_byte(#[trigger] sb[j]),
            forall|j: int| 0 <= j < i ==> oid_full@[j] == bytes_of_full_hex(sb)[j],
        decreases 20 - i,
    {
        let hi = match hex::hex_byte_value(bytes[2 * i]) {
            Some(v) => v,
            None => {
                proof {
                    assert(sb[2 * i as int] == bytes@[2 * i as int]);
                }
                return None;
            }
        };
        let lo = match hex::hex_byte_value(bytes[2 * i + 1]) {
            Some(v) => v,
            None => {
                proof {
                    assert(sb[2 * i + 1] == bytes@[2 * i + 1]);
                }
                return None;
            }
        };
        oid_full[i] = hi * 16 + lo;
        i = i + 1;
    }
    proof {
        assert(oid_full@ =~= bytes_of_full_hex(sb));
    }
    Some(oid_full)
}

/// Render an `Oid` as its 32 lowercase hex digits, zero padded.
pub fn hex_u128_to_str(h: Oid) -> (r: String)
    ensures
        r@ =~= hex::hex_bytes_of(h as int, 32).map_values(|b: u8| b as char),
        r@.len() == 32,
{
    let mut buf: Vec<u8> = Vec::new();
    let mut k: usize = 0;
    while k < 32
        invariant
            buf@.len() == k,
            k <= 32,
            forall|i: int| 0 <= i < k ==> buf@[i] == 48u8,
        decreases 32 - k,
    {
        buf.push(48);
        k = k + 1;
    }
    let mut j: usize = 32;
    let mut cur: u128 = h;
    while j > 0
        invariant
            buf@.len() == 32,
            j <= 32,
            hex::hex_bytes_of(h as int, 32) =~= hex::hex_bytes_of(cur as int, j as nat)
                + buf@.subrange(j as int, 32),
            forall|i: int| 0 <= i < 32 ==> buf@[i] < 128,
        decreases j,
    {
        let ghost old_buf = buf@;
        let ghost old_cur = cur as int;
        let d = hex::hex_digit_of((cur % 16) as u8);
        buf.set(j - 1, d);
        cur = cur / 16;
        proof {
            assert(hex::hex_bytes_of(old_cur, j as nat) == hex::hex_bytes_of(
                old_cur / 16,
                (j - 1) as nat,
            ).push(hex::hex_digit_byte(old_cur % 16)));
            assert(buf@.subrange(j - 1, 32) =~= seq![d] + old_buf.subrange(j as int, 32));
            assert(hex::hex_bytes_of(old_cur / 16, (j - 1) as nat).push(d) + old_buf.subrange(
                j as int,
                32,
            ) =~= hex::hex_bytes_of(old_cur / 16, (j - 1) as nat) + buf@.subrange(j - 1, 32));
        }
        j = j - 1;
    }
    proof {
        assert(hex::hex_bytes_of(h as int, 32) =~= buf@.subrange(0, 32));
        assert(buf@.subrange(0, 32) =~= buf@);
    }
    hex::ascii_bytes_to_string(buf)
}

/// Render a full digest as its 40 lowercase hex digits, into a fixed
/// byte array.
pub fn oid_full_to_string_no_alloc(h: OidFull) -> (r: [u8; 40])
    ensures
        r@ =~= full_hex_of(h@),
{
    let mut out: [u8; 40] = [0; 40];
    let mut i: usize = 0;
    while i < 20
        invariant
            i <= 20,
            forall|j: int| 0 <= j < 2 * i ==> out@[j] == full_hex_of(h@)[j],
        decreases 20 - i,
    {
        let b = h[i];
        out[2 * i] = hex::hex_digit_of(b / 16);
        out[2 * i + 1] = hex::hex_digit_of(b % 16);
        i = i + 1;
    }
    proof {
        assert(out@ =~= full_hex_of(h@));
    }
    out
}

/// Render a full digest as a 40-character lowercase hex string.
pub fn oid_full_to_string(h: OidFull) -> (r: String)
    ensures
        r@ =~= full_hex_of(h@).map_values(|b: u8| b as char),
        r@.len() == 40,
{
    let arr = oid_full_to_string_no_alloc(h);
    let mut buf: Vec<u8> = Vec::new();
    let mut i: usize = 0;
    while i < 40
        invariant
            i <= 40,
            arr@ == full_hex_of(h@),
            buf@ =~= arr@.take(i as int),
        decreases 40 - i,
    {
        buf.push(arr[i]);
        i = i + 1;
    }
    proof {
        assert(buf@ =~= full_hex_of(h@));
        assert forall|i: int| 0 <= i < buf@.len() implies buf@[i] < 128 by {
            assert(0 <= h@[i / 2] < 256);
        }
    }
    hex::ascii_bytes_to_string(buf)
}

/// First byte of an identifier: its top eight bits.
pub fn get_first_byte_of_oid(oid: Oid) -> (r: u8)
    ensures
        r == oid >> 120,
{
    let mask: u128 = 0xff_00_00_00_00_00_00_00_00_00_00_00_00_00_00_00;
    let masked = oid & mask;
    proof {
        assert((oid & 0xff_00_00_00_00_00_00_00_00_00_00_00_00_00_00_00u128) >> 120 == oid >> 120
            && (oid >> 120) <= 0xff) by (bit_vector);
    }
    (masked >> 120) as u8
}

/// A hex prefix of an identifier, held left aligned together with the
/// number of bits it pins down, so that matching a candidate is one
/// shift and one compare.
#[derive(Debug, Copy, Clone)]
pub struct PartialOid {
    /// The prefix, left aligned and zero padded on the right.
    pub oid: Oid,
    /// How far a candidate must be shifted right before comparison:
    /// 128 minus the number of bits the prefix pins down.
    pub shift_by: usize,
    /// `oid` shifted right by `shift_by`, precomputed.
    pub oid_shifted: u128,
}

impl PartialOid {
    /// The struct's internal consistency: the shift leaves at least 16
    /// bits of prefix, and the precomputed shifted form agrees.
    pub open spec fn wf(self) -> bool {
        self.shift_by <= 112 && self.oid_shifted == self.oid >> self.shift_by
    }

    /// Does this prefix match the candidate? The bits the prefix pins
    /// down are the candidate's bits above `shift_by`.
    pub open spec fn match_spec(self, other: Oid) -> bool {
        other >> self.shift_by == self.oid_shifted
    }

    /// Build a partial identifier from a hex prefix of 4 to 32
    /// characters; a longer string's characters beyond the 32nd are
    /// ignored. Fails when the string is shorter than 4 characters or
    /// a used character is not a hex digit.
    pub fn from_hash(hash: &str) -> (r: Result<PartialOid, DbError>)
        ensures
            r is Ok <==> hash.spec_bytes().len() >= 4 && hex::all_hex_bytes(
                hash.spec_bytes().take(min(hash.spec_bytes().len() as int, 32)),
            ),
            r is Ok ==> {
                let n = min(hash.spec_bytes().len() as int, 32);
                let padded = hash.spec_bytes().take(n) + Seq::new((32 - n) as nat, |i: int| 48u8);
                &&& r->Ok_0.oid == hex::hex_bytes_val(padded)
                &&& r->Ok_0.shift_by == 128 - 4 * n
                &&& r->Ok_0.wf()
            },
    {
        let bytes = hash.as_bytes();
        let hash_len = bytes.len();
        if hash_len < 4 {
            return Err(DbError::Corrupt);
        }
        let n: usize = if hash_len < 32 {
            hash_len
        } else {
            32
        };
        let mut oid_str = OidStrTruncated::default();
        let mut i: usize = 0;
        while i < n
            invariant
                i <= n <= 32,
                bytes@ == hash.spec_bytes(),
                bytes@.len() >= n,
                oid_str.0@.len() == 32,
                forall|j: int| 0 <= j < i ==> oid_str.0@[j] == bytes@[j],
                forall|j: int| i <= j < 32 ==> oid_str.0@[j] == 48u8,
            decreases n - i,
        {
            oid_str.0[i] = bytes[i];
            i = i + 1;
        }
        proof {
            let nn = n as int;
            assert(oid_str.0@ =~= hash.spec_bytes().take(nn) + Seq::new(
                (32 - nn) as nat,
                |i: int| 48u8,
            ));
        }
        let oid = match oid_str_truncated_to_oid(oid_str) {
            Ok(o) => o,
            Err(e) => {
                proof {
                    let nn = n as int;
                    if hex::all_hex_bytes(hash.spec_bytes().take(nn)) {
                        assert forall|j: int| 0 <= j < 32 implies hex::is_hex_byte(
                            #[trigger] oid_str.0@[j],
                        ) by {
                            if j < nn {
                                assert(oid_str.0@[j] == hash.spec_bytes().take(nn)[j]);
                            }
                        }
                    }
                }
                return Err(e);
            }
        };
        let bits_set: usize = n * 4;
        let shift_by: usize = 128 - bits_set;
        let shifted = oid >> shift_by;
        proof {
            let nn = n as int;
            assert(hex::all_hex_bytes(hash.spec_bytes().take(nn))) by {
                assert forall|j: int| 0 <= j < nn implies hex::is_hex_byte(
                    #[trigger] hash.spec_bytes().take(nn)[j],
                ) by {
                    assert(hash.spec_bytes().take(nn)[j] == oid_str.0@[j]);
                }
            }
        }
        Ok(PartialOid { oid, shift_by, oid_shifted: shifted })
    }

    /// Does this prefix match the candidate identifier?
    pub fn matches(&self, oid: Oid) -> (r: bool)
        requires
            self.wf(),
        ensures
            r == self.match_spec(oid),
    {
        let shifted = oid >> self.shift_by;
        self.oid_shifted == shifted
    }
}

/// A partial identifier pinning down `k = 128 - shift_by` bits matches
/// a candidate exactly when the candidate's top `k` bits equal the top
/// `k` bits of the stored prefix.
pub proof fn lemma_matches_iff_top_bits_equal(p: PartialOid, o: Oid)
    requires
        p.wf(),
    ensures
        p.match_spec(o) <==> (o >> p.shift_by == p.oid >> p.shift_by),
{
}

/// Rendering an `Oid` as 32 hex digits and parsing them back recovers
/// the identifier.
pub proof fn lemma_oid_hex_round_trip(h: Oid)
    ensures
        hex::hex_bytes_of(h as int, 32).len() == 32,
        hex::all_hex_bytes(hex::hex_bytes_of(h as int, 32)),
        hex::hex_bytes_val(hex::hex_bytes_of(h as int, 32)) == h,
{
    hex::lemma_pow16_32();
    hex::lemma_hex_round_trip(h as int, 32);
}

/// Rendering a full digest as 40 hex digits and parsing them back
/// recovers the digest, byte for byte.
pub proof fn lemma_oid_full_hex_round_trip(h: OidFull)
    ensures
        full_hex_of(h@).len() == 40,
        hex::all_hex_bytes(full_hex_of(h@)),
        bytes_of_full_hex(full_hex_of(h@)) =~= h@,
{
    lemma_byte_hex_round_trip(h@);
}

} // verus!
