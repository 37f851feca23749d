//! The delta patch language of packfiles: a stream of copy and insert
//! opcodes applied against a base payload.
//!
//! An opcode byte with its high bit set is a copy: its low seven bits
//! say which of four little-endian offset bytes and three length bytes
//! follow, a length of zero meaning 65536. An opcode below 128 and
//! above zero inserts that many literal bytes. Opcode zero is illegal.

use vstd::prelude::*;
use crate::error::DbError;

verus! {

use vstd::arithmetic::power2::pow2;

/// Is bit `i` of the opcode set?
pub open spec fn op_bit(op: u8, i: int) -> bool {
    (op >> (i as u8)) & 1 == 1
}

/// How many of the opcode bits in `[lo, hi)` are set: the number of
/// bytes the corresponding field occupies in the stream.
pub open spec fn field_size(op: u8, lo: int, hi: int) -> nat
    decreases hi - lo,
{
    if lo >= hi {
        0
    } else {
        (if op_bit(op, lo) {
            1nat
        } else {
            0nat
        }) + field_size(op, lo + 1, hi)
    }
}

/// Value of the little-endian field selected by the opcode bits in
/// `[lo, hi)`, read from `d` starting at `pos`. The bit examined
/// first contributes its byte scaled by `2^sh`, each later bit eight
/// binary digits higher, whether or not earlier bits were present.
pub open spec fn field_val(op: u8, lo: int, hi: int, d: Seq<u8>, pos: int, sh: nat) -> nat
    decreases hi - lo,
{
    if lo >= hi {
        0
    } else if op_bit(op, lo) {
        (d[pos] as nat) * pow2(sh) + field_val(op, lo + 1, hi, d, pos + 1, sh + 8)
    } else {
        field_val(op, lo + 1, hi, d, pos, sh + 8)
    }
}

/// A field occupies between zero bytes and one per examined bit.
proof fn lemma_field_size_bounds(op: u8, lo: int, hi: int)
    requires
        lo <= hi,
    ensures
        field_size(op, lo, hi) <= hi - lo,
    decreases hi - lo,
{
    if lo < hi {
        lemma_field_size_bounds(op, lo + 1, hi);
    }
}

/// The byte count of a field splits at any midpoint.
proof fn lemma_field_size_split(op: u8, lo: int, mid: int, hi: int)
    requires
        lo <= mid <= hi,
    ensures
        field_size(op, lo, hi) == field_size(op, lo, mid) + field_size(op, mid, hi),
    decreases mid - lo,
{
    if lo < mid {
        lemma_field_size_split(op, lo + 1, mid, hi);
    }
}

/// What a delta stream denotes against a base: the bytes it produces,
/// or nothing when the stream is malformed — an opcode of zero, a
/// truncated stream, or a copy that reaches outside the base.
pub open spec fn delta_eval(base: Seq<u8>, delta: Seq<u8>) -> Option<Seq<u8>>
    decreases delta.len(),
{
    if delta.len() == 0 {
        Some(Seq::empty())
    } else {
        let op = delta[0];
        if op >= 128 {
            let noff = field_size(op, 0, 4);
            let nlen = field_size(op, 4, 7);
            if 1 + noff + nlen > delta.len() {
                None
            } else {
                let off = field_val(op, 0, 4, delta, 1, 0);
                let len0 = field_val(op, 4, 7, delta, 1 + noff as int, 0);
                let len: int = if len0 == 0 {
                    65536int
                } else {
                    len0 as int
                };
                if off + len > base.len() {
                    None
                } else {
                    match delta_eval(base, delta.skip(1 + noff as int + nlen as int)) {
                        Some(rest) => Some(base.subrange(off as int, off + len) + rest),
                        None => None,
                    }
                }
            }
        } else if op > 0 {
            if 1 + op > delta.len() {
                None
            } else {
                match delta_eval(base, delta.skip(1 + op)) {
                    Some(rest) => Some(delta.subrange(1, 1 + op) + rest),
                    None => None,
                }
            }
        } else {
            None
        }
    }
}

/// Read the field selected by opcode bits `[lo, hi)` out of the delta
/// stream, advancing over exactly the bytes the field occupies.
/// Returns nothing when the stream ends inside the field.
fn read_field(delta_data: &[u8], index: usize, pos: usize, op: u8, lo: usize, hi: usize) -> (r:
    Option<(u64, usize)>)
    requires
        lo <= hi <= 7,
        hi - lo <= 4,
        index < delta_data@.len(),
        index + pos <= delta_data@.len(),
    ensures
        ({
            let s_rem = delta_data@.skip(index as int);
            match r {
                Some((value, consumed)) => {
                    &&& consumed == field_size(op, lo as int, hi as int)
                    &&& index + pos + consumed <= delta_data@.len()
                    &&& value == field_val(op, lo as int, hi as int, s_rem, pos as int, 0)
                    &&& value < 0x1_0000_0000u64
                }
                None => pos + field_size(op, lo as int, hi as int) > s_rem.len(),
            }
        }),
{
    let ghost s_rem = delta_data@.skip(index as int);
    let dlen = delta_data.len();
    let mut value: u64 = 0;
    let mut mult: u64 = 1;
    let mut consumed: usize = 0;
    let mut bit: usize = lo;
    proof {
        vstd::arithmetic::power2::lemma2_to64();
        assert(s_rem.len() == delta_data@.len() - index);
    }
    while bit < hi
        invariant
            lo <= bit <= hi <= 7,
            hi - lo <= 4,
            index < delta_data@.len(),
            index + pos <= delta_data@.len(),
            s_rem == delta_data@.skip(index as int),
            s_rem.len() == delta_data@.len() - index,
            dlen == delta_data@.len(),
            consumed == field_size(op, lo as int, bit as int),
            consumed <= bit - lo,
            index + pos + consumed <= dlen,
            mult == pow2((8 * (bit - lo)) as nat),
            value < mult,
            field_val(op, lo as int, hi as int, s_rem, pos as int, 0) == value + field_val(
                op,
                bit as int,
                hi as int,
                s_rem,
                pos + consumed,
                (8 * (bit - lo)) as nat,
            ),
        decreases hi - bit,
    {
        proof {
            lemma_field_size_split(op, lo as int, bit as int, bit + 1);
            lemma_field_size_split(op, lo as int, bit + 1, hi as int);
            lemma_field_size_bounds(op, bit + 1, hi as int);
            vstd::arithmetic::power2::lemma_pow2_adds((8 * (bit - lo)) as nat, 8);
            vstd::arithmetic::power2::lemma2_to64();
            lemma_pow2_le((8 * (bit - lo)) as nat, 24);
            assert(op_bit(op, bit as int) == ((op >> (bit as u8)) & 1 == 1));
        }
        if (op >> (bit as u8)) & 1 == 1 {
            proof {
                assert(index + pos + consumed <= delta_data@.len());
            }
            if index + pos + consumed >= dlen {
                proof {
                    lemma_field_size_split(op, lo as int, bit as int, hi as int);
                    lemma_field_size_bounds(op, bit + 1, hi as int);
                }
                return None;
            }
            let b = delta_data[index + pos + consumed];
            proof {
                assert(s_rem[pos + consumed] == delta_data@[index + pos + consumed]);
                let m = mult as int;
                let v = value as int;
                assert(v + (b as int) * m < m * 256) by (nonlinear_arith)
                    requires
                        0 <= v < m,
                        0 <= b < 256,
                        m >= 1,
                ;
            }
            value = value + (b as u64) * mult;
            consumed = consumed + 1;
        }
        proof {
            assert(field_size(op, bit + 1, bit + 1) == 0) by {
                lemma_field_size_bounds(op, bit + 1, bit + 1);
            }
            assert(field_size(op, bit as int, bit + 1) == (if op_bit(op, bit as int) {
                1nat
            } else {
                0nat
            }));
            assert(field_size(op, lo as int, bit + 1) == field_size(op, lo as int, bit as int)
                + field_size(op, bit as int, bit + 1));
        }
        mult = mult * 256;
        bit = bit + 1;
    }
    proof {
        lemma_pow2_le((8 * (hi - lo)) as nat, 32);
        vstd::arithmetic::power2::lemma2_to64();
    }
    Some((value, consumed))
}

/// `pow2` of the smaller exponent is at most `pow2` of the larger.
proof fn lemma_pow2_le(e1: nat, e2: nat)
    requires
        e1 <= e2,
    ensures
        pow2(e1) <= pow2(e2),
{
    if e1 < e2 {
        vstd::arithmetic::power2::lemma_pow2_strictly_increases(e1, e2);
    }
}

/// Apply a delta stream to a base, producing exactly `output_len`
/// bytes. Succeeds exactly when the stream is well formed against the
/// base and denotes a payload of that length, and then returns that
/// payload.
pub fn apply_delta(base_data: &[u8], delta_data: &[u8], output_len: usize) -> (r: Result<
    Vec<u8>,
    DbError,
>)
    ensures
        match r {
            Ok(v) => delta_eval(base_data@, delta_data@) == Some(v@) && v@.len() == output_len,
            Err(_) => forall|s: Seq<u8>|
                delta_eval(base_data@, delta_data@) == Some(s) ==> s.len() != output_len,
        },
{
    let delta_len = delta_data.len();
    let mut output: Vec<u8> = Vec::new();
    let mut index: usize = 0;
    proof {
        assert(delta_data@.skip(0) =~= delta_data@);
        if delta_eval(base_data@, delta_data@) is Some {
            let rest = delta_eval(base_data@, delta_data@)->0;
            assert(Seq::<u8>::empty() + rest =~= rest);
        }
    }
    while index < delta_len
        invariant
            index <= delta_len == delta_data@.len(),
            match delta_eval(base_data@, delta_data@.skip(index as int)) {
                Some(rest) => delta_eval(base_data@, delta_data@) == Some(output@ + rest),
                None => delta_eval(base_data@, delta_data@) is None,
            },
        decreases delta_len - index,
    {
        let ghost s_rem = delta_data@.skip(index as int);
        let ghost old_output = output@;
        let op = delta_data[index];
        proof {
            assert(s_rem[0] == delta_data@[index as int]);
        }
        if op >= 128 {
            // A copy from the base: gather the offset and length fields.
            let (off, noff) = match read_field(delta_data, index, 1, op, 0, 4) {
                Some(p) => p,
                None => {
                    proof {
                        lemma_field_size_bounds(op, 4, 7);
                    }
                    return Err(DbError::Corrupt);
                }
            };
            let (len0, nlen) = match read_field(delta_data, index, 1 + noff, op, 4, 7) {
                Some(p) => p,
                None => {
                    proof {
                        lemma_field_size_bounds(op, 0, 4);
                    }
                    return Err(DbError::Corrupt);
                }
            };
            let len: u64 = if len0 == 0 {
                65536
            } else {
                len0
            };
            if off + len > base_data.len() as u64 {
                return Err(DbError::Corrupt);
            }
            proof {
                assert(off + len <= base_data@.len());
            }
            let off_us = off as usize;
            let len_us = len as usize;
            proof {
                assert(off_us == off);
                assert(len_us == len);
            }
            let base_len = base_data.len();
            let mut k: usize = 0;
            while k < len_us
                invariant
                    k <= len_us,
                    base_len == base_data@.len(),
                    off_us + len_us <= base_len,
                    output@ =~= old_output + base_data@.subrange(
                        off_us as int,
                        off_us + k as int,
                    ),
                decreases len_us - k,
            {
                output.push(base_data[off_us + k]);
                k = k + 1;
            }
            proof {
                let noff_s = field_size(op, 0, 4);
                let nlen_s = field_size(op, 4, 7);
                assert(1 + noff_s + nlen_s <= s_rem.len());
                let rest_opt = delta_eval(base_data@, s_rem.skip(1 + noff_s as int + nlen_s as int));
                assert(delta_data@.skip(index + 1 + noff_s + nlen_s) =~= s_rem.skip(
                    1 + noff_s as int + nlen_s as int,
                ));
                match rest_opt {
                    Some(rest) => {
                        assert(delta_eval(base_data@, s_rem) == Some(
                            base_data@.subrange(off as int, off + len) + rest,
                        ));
                        assert((old_output + base_data@.subrange(off as int, off + len)) + rest
                            =~= old_output + (base_data@.subrange(off as int, off + len) + rest));
                    }
                    None => {
                        assert(delta_eval(base_data@, s_rem) is None);
                    }
                }
            }
            index = index + 1 + noff + nlen;
        } else if op > 0 {
            // An insert of literal bytes from the stream.
            let n = op as usize;
            if delta_len - index - 1 < n {
                return Err(DbError::Corrupt);
            }
            let mut k: usize = 0;
            while k < n
                invariant
                    k <= n,
                    index + 1 + n <= delta_len == delta_data@.len(),
                    output@ =~= old_output + delta_data@.subrange(
                        index + 1,
                        index + 1 + k as int,
                    ),
                decreases n - k,
            {
                output.push(delta_data[index + 1 + k]);
                k = k + 1;
            }
            proof {
                assert(s_rem.subrange(1, 1 + op) =~= delta_data@.subrange(
                    index + 1,
                    index + 1 + op,
                ));
                assert(delta_data@.skip(index + 1 + op) =~= s_rem.skip(1 + op));
                let rest_opt = delta_eval(base_data@, s_rem.skip(1 + op));
                match rest_opt {
                    Some(rest) => {
                        assert(delta_eval(base_data@, s_rem) == Some(
                            s_rem.subrange(1, 1 + op) + rest,
                        ));
                        assert((old_output + s_rem.subrange(1, 1 + op)) + rest =~= old_output + (
                        s_rem.subrange(1, 1 + op) + rest));
                    }
                    None => {
                        assert(delta_eval(base_data@, s_rem) is None);
                    }
                }
            }
            index = index + 1 + n;
        } else {
            // Opcode zero is illegal.
            return Err(DbError::Corrupt);
        }
    }
    proof {
        assert(delta_data@.skip(delta_len as int) =~= Seq::<u8>::empty());
        assert(output@ + Seq::<u8>::empty() =~= output@);
    }
    if output.len() == output_len {
        Ok(output)
    } else {
        Err(DbError::Corrupt)
    }
}

} // verus!
