//! The variable-length integers of packfiles: little-endian groups of
//! seven bits with a continuation flag in the high bit, and the biased
//! negative-offset form used by offset deltas.

use vstd::prelude::*;

verus! {

use vstd::arithmetic::power2::pow2;

/// The plain 7-bit varint starting at `i`, with `acc` the value of the
/// bytes already consumed and `sh` the shift of the next group: the
/// value and the index just past its last byte, or nothing when the
/// sequence ends before a byte with a clear high bit.
pub open spec fn varint7_parse(d: Seq<u8>, i: int, acc: nat, sh: nat) -> Option<(nat, int)>
    decreases d.len() - i,
{
    if i < 0 || i >= d.len() {
        None
    } else {
        let a2 = acc + ((d[i] & 0x7f) as nat) * pow2(sh);
        if d[i] < 128 {
            Some((a2, i + 1))
        } else {
            varint7_parse(d, i + 1, a2, sh + 7)
        }
    }
}

/// The biased negative-offset varint's continuation: each further byte
/// first adds one to the accumulator, then shifts it seven bits up and
/// adds the new group.
pub open spec fn neg_offset_cont(d: Seq<u8>, i: int, acc: nat) -> Option<(nat, int)>
    decreases d.len() - i,
{
    if i < 0 || i >= d.len() {
        None
    } else {
        let a2 = (acc + 1) * 128 + ((d[i] & 0x7f) as nat);
        if d[i] < 128 {
            Some((a2, i + 1))
        } else {
            neg_offset_cont(d, i + 1, a2)
        }
    }
}

/// The biased negative-offset varint at the head of `d`.
pub open spec fn neg_offset_parse(d: Seq<u8>) -> Option<(nat, int)> {
    if d.len() == 0 {
        None
    } else if d[0] < 128 {
        Some((((d[0] & 0x7f) as nat), 1))
    } else {
        neg_offset_cont(d, 1, ((d[0] & 0x7f) as nat))
    }
}

/// Decode the 7-bit varint at the head of `d`, as used for the two
/// sizes heading a delta stream. Returns the value and the number of
/// bytes read. A varint of more than 16 bytes, or one whose value does
/// not fit the platform's index type, is rejected.
pub fn find_encoded_length(d: &[u8]) -> (r: Option<(usize, usize)>)
    ensures
        match r {
            Some((v, c)) => varint7_parse(d@, 0, 0, 0) == Some((v as nat, c as int)) && 1 <= c
                <= 16 && c <= d@.len(),
            None => match varint7_parse(d@, 0, 0, 0) {
                Some(p) => p.1 > 16 || p.0 > usize::MAX,
                None => true,
            },
        },
{
    let dlen = d.len();
    let mut value: u128 = 0;
    let mut mult: u128 = 1;
    let mut i: usize = 0;
    proof {
        vstd::arithmetic::power2::lemma2_to64();
    }
    while i < 16
        invariant
            i <= 16,
            dlen == d@.len(),
            mult == pow2((7 * i) as nat),
            value < mult,
            varint7_parse(d@, 0, 0, 0) == varint7_parse(d@, i as int, value as nat, (7
                * i) as nat),
        decreases 16 - i,
    {
        if i >= dlen {
            return None;
        }
        let b = d[i];
        let group = b & 0x7f;
        proof {
            assert(b & 0x7f < 128) by (bit_vector);
            let m = mult as int;
            let v = value as int;
            let g = group as int;
            assert(v + g * m < m * 128) by (nonlinear_arith)
                requires
                    0 <= v < m,
                    0 <= g < 128,
                    m >= 1,
            ;
            vstd::arithmetic::power2::lemma_pow2_adds((7 * i) as nat, 7);
            lemma_pow2_le_varint((7 * i + 7) as nat, 112);
            vstd::arithmetic::power2::lemma_pow2_strictly_increases(112, 128);
            lemma_pow2_128();
            vstd::arithmetic::power2::lemma2_to64();
        }
        value = value + (group as u128) * mult;
        if b < 128 {
            if value > usize::MAX as u128 {
                return None;
            }
            return Some((value as usize, i + 1));
        }
        mult = mult * 128;
        i = i + 1;
    }
    // Sixteen continuation bytes: treat the stream as corrupt.
    proof {
        if varint7_parse(d@, 0, 0, 0) is Some {
            lemma_varint7_end_grows(d@, 16, value as nat, (7 * 16) as nat);
        }
    }
    None
}

/// `2^128` is exactly one beyond the largest `u128`.
proof fn lemma_pow2_128()
    ensures
        pow2(128) == 0x1_0000_0000_0000_0000_0000_0000_0000_0000,
{
    vstd::arithmetic::power2::lemma_pow2_adds(64, 64);
    vstd::arithmetic::power2::lemma2_to64();
}

/// `pow2` of the smaller exponent is at most `pow2` of the larger.
pub proof fn lemma_pow2_le_varint(e1: nat, e2: nat)
    requires
        e1 <= e2,
    ensures
        pow2(e1) <= pow2(e2),
{
    if e1 < e2 {
        vstd::arithmetic::power2::lemma_pow2_strictly_increases(e1, e2);
    }
}

/// A varint that parses ends after where it starts and within the
/// sequence.
pub proof fn lemma_varint7_end_grows(d: Seq<u8>, i: int, acc: nat, sh: nat)
    requires
        varint7_parse(d, i, acc, sh) is Some,
    ensures
        i < (varint7_parse(d, i, acc, sh)->0).1 <= d.len(),
    decreases d.len() - i,
{
    if 0 <= i < d.len() && d[i] >= 128 {
        lemma_varint7_end_grows(d, i + 1, acc + ((d[i] & 0x7f) as nat) * pow2(sh), sh + 7);
    }
}

/// A biased continuation that parses ends after where it starts and
/// within the sequence.
pub proof fn lemma_neg_offset_end_grows(d: Seq<u8>, i: int, acc: nat)
    requires
        neg_offset_cont(d, i, acc) is Some,
    ensures
        i < (neg_offset_cont(d, i, acc)->0).1 <= d.len(),
    decreases d.len() - i,
{
    if 0 <= i < d.len() && d[i] >= 128 {
        lemma_neg_offset_end_grows(d, i + 1, (acc + 1) * 128 + ((d[i] & 0x7f) as nat));
    }
}

/// Decode the biased negative-offset varint at the head of `d`, as an
/// offset delta names its base. Returns the distance and the number of
/// bytes read. A varint of more than 16 bytes, or a distance that does
/// not fit the platform's index type, is rejected.
pub fn find_negative_offset(d: &[u8]) -> (r: Option<(usize, usize)>)
    ensures
        match r {
            Some((v, c)) => neg_offset_parse(d@) == Some((v as nat, c as int)) && 1 <= c <= 16
                && c <= d@.len(),
            None => match neg_offset_parse(d@) {
                Some(p) => p.1 > 16 || p.0 > usize::MAX,
                None => true,
            },
        },
{
    let dlen = d.len();
    if dlen == 0 {
        return None;
    }
    let first_byte = d[0];
    let mut value: u128 = (first_byte & 0x7f) as u128;
    proof {
        assert(first_byte & 0x7f < 128) by (bit_vector);
        assert(first_byte < 128 ==> first_byte & 0x7f == first_byte) by (bit_vector);
        vstd::arithmetic::power2::lemma2_to64();
    }
    if first_byte < 128 {
        return Some((value as usize, 1));
    }
    let mut i: usize = 1;
    while i < 16
        invariant
            1 <= i <= 16,
            dlen == d@.len(),
            dlen >= 1,
            value < pow2((8 * i) as nat),
            neg_offset_parse(d@) == neg_offset_cont(d@, i as int, value as nat),
        decreases 16 - i,
    {
        if i >= dlen {
            return None;
        }
        let b = d[i];
        let group = b & 0x7f;
        proof {
            assert(b & 0x7f < 128) by (bit_vector);
            let v = value as int;
            let p = pow2((8 * i) as nat) as int;
            let g = group as int;
            vstd::arithmetic::power2::lemma_pow2_adds((8 * i) as nat, 8);
            lemma_pow2_le_varint((8 * i + 8) as nat, 128);
            lemma_pow2_128();
            vstd::arithmetic::power2::lemma2_to64();
            assert((v + 1) * 128 + g < p * 256) by (nonlinear_arith)
                requires
                    0 <= v < p,
                    0 <= g < 128,
                    p >= 1,
            ;
        }
        value = (value + 1) * 128 + (group as u128);
        if b < 128 {
            if value > usize::MAX as u128 {
                return None;
            }
            return Some((value as usize, i + 1));
        }
        i = i + 1;
    }
    // Sixteen bytes without a terminator: treat the stream as corrupt.
    proof {
        if neg_offset_parse(d@) is Some {
            lemma_neg_offset_end_grows(d@, 16, value as nat);
        }
    }
    None
}

} // verus!
