//! Hexadecimal digits over ASCII bytes: recognition, value extraction,
//! and rendering, with the round-trip facts the identifier algebra
//! builds on.

use vstd::prelude::*;

verus! {

use vstd::string::StringSliceAdditionalSpecFns;

/// Is this byte an ASCII hex digit (either case)?
pub open spec fn is_hex_byte(b: u8) -> bool {
    (48 <= b && b <= 57) || (97 <= b && b <= 102) || (65 <= b && b <= 70)
}

/// Is this byte a lowercase ASCII hex digit: the only form a
/// two-character byte rendering uses?
pub open spec fn is_lower_hex_byte(b: u8) -> bool {
    (48 <= b && b <= 57) || (97 <= b && b <= 102)
}

/// Numeric value of an ASCII hex digit.
pub open spec fn hex_byte_val(b: u8) -> int {
    if 48 <= b && b <= 57 {
        b - 48
    } else if 97 <= b && b <= 102 {
        b - 97 + 10
    } else {
        b - 65 + 10
    }
}

/// Every byte of the sequence is an ASCII hex digit.
pub open spec fn all_hex_bytes(s: Seq<u8>) -> bool {
    forall|i: int| 0 <= i < s.len() ==> is_hex_byte(#[trigger] s[i])
}

/// Value of a big-endian sequence of hex digits.
pub open spec fn hex_bytes_val(s: Seq<u8>) -> int
    decreases s.len(),
{
    if s.len() == 0 {
        0
    } else {
        hex_bytes_val(s.drop_last()) * 16 + hex_byte_val(s.last())
    }
}

/// Lowercase ASCII digit for a value below 16.
pub open spec fn hex_digit_byte(v: int) -> u8 {
    if v < 10 {
        (48 + v) as u8
    } else {
        (97 + v - 10) as u8
    }
}

/// `n` lowercase hex digits rendering the low `4 n` bits of `h`,
/// most significant first.
pub open spec fn hex_bytes_of(h: int, n: nat) -> Seq<u8>
    decreases n,
{
    if n == 0 {
        Seq::empty()
    } else {
        hex_bytes_of(h / 16, (n - 1) as nat).push(hex_digit_byte(h % 16))
    }
}

/// Rendering a value below `16^n` as `n` hex digits and reading the
/// digits back recovers the value.
pub proof fn lemma_hex_round_trip(h: int, n: nat)
    requires
        0 <= h < vstd::arithmetic::power::pow(16, n),
    ensures
        hex_bytes_of(h, n).len() == n,
        all_hex_bytes(hex_bytes_of(h, n)),
        hex_bytes_val(hex_bytes_of(h, n)) == h,
    decreases n,
{
    if n == 0 {
        vstd::arithmetic::power::lemma_pow0(16);
    } else {
        let p = vstd::arithmetic::power::pow(16, (n - 1) as nat);
        vstd::arithmetic::power::lemma_pow1(16);
        vstd::arithmetic::power::lemma_pow_adds(16, 1, (n - 1) as nat);
        assert(vstd::arithmetic::power::pow(16, n) == 16 * p);
        assert(h / 16 < p) by (nonlinear_arith)
            requires
                0 <= h < 16 * p,
        ;
        lemma_hex_round_trip(h / 16, (n - 1) as nat);
        let s = hex_bytes_of(h / 16, (n - 1) as nat);
        let d = hex_digit_byte(h % 16);
        assert(hex_bytes_of(h, n) == s.push(d));
        assert(s.push(d).drop_last() =~= s);
        assert(s.push(d).last() == d);
        vstd::arithmetic::div_mod::lemma_fundamental_div_mod(h, 16);
        vstd::arithmetic::div_mod::lemma_mod_bound(h, 16);
        assert(is_hex_byte(d) && hex_byte_val(d) == h % 16);
        assert(hex_bytes_val(s.push(d)) == hex_bytes_val(s) * 16 + hex_byte_val(d));
        assert(hex_bytes_val(s.push(d)) == (h / 16) * 16 + h % 16);
        assert(forall|i: int|
            0 <= i < s.push(d).len() ==> is_hex_byte(#[trigger] s.push(d)[i]));
    }
}

/// Recognize one ASCII hex digit and return its value.
pub fn hex_byte_value(b: u8) -> (r: Option<u8>)
    ensures
        r is Some <==> is_hex_byte(b),
        r is Some ==> r->0 == hex_byte_val(b) && r->0 < 16,
{
    if 48 <= b && b <= 57 {
        Some(b - 48)
    } else if 97 <= b && b <= 102 {
        Some(b - 97 + 10)
    } else if 65 <= b && b <= 70 {
        Some(b - 65 + 10)
    } else {
        None
    }
}

/// Lowercase ASCII digit of a value below 16.
pub fn hex_digit_of(v: u8) -> (r: u8)
    requires
        v < 16,
    ensures
        r == hex_digit_byte(v as int),
        is_hex_byte(r),
        hex_byte_val(r) == v,
        r < 128,
{
    if v < 10 {
        48 + v
    } else {
        97 + v - 10
    }
}

/// `16^32` is exactly one beyond the largest `u128`.
pub proof fn lemma_pow16_32()
    ensures
        vstd::arithmetic::power::pow(16, 32) == 0x1_0000_0000_0000_0000_0000_0000_0000_0000,
{
    reveal_with_fuel(vstd::arithmetic::power::pow, 33);
}

/// Parse the first `n` bytes of `b` as a big-endian hex number.
/// Fails exactly when one of those bytes is not a hex digit.
pub fn parse_hex_u128(b: &[u8], n: usize) -> (r: Option<u128>)
    requires
        n <= 32,
        b@.len() >= n,
    ensures
        r is Some <==> all_hex_bytes(b@.take(n as int)),
        r is Some ==> r->0 == hex_bytes_val(b@.take(n as int)),
{
    let mut value: u128 = 0;
    let mut i: usize = 0;
    proof {
        vstd::arithmetic::power::lemma_pow0(16);
    }
    while i < n
        invariant
            i <= n <= 32,
            b@.len() >= n,
            all_hex_bytes(b@.take(i as int)),
            value == hex_bytes_val(b@.take(i as int)),
            0 <= value < vstd::arithmetic::power::pow(16, i as nat),
        decreases n - i,
    {
        let v = match hex_byte_value(b[i]) {
            Some(v) => v,
            None => {
                proof {
                    assert(b@.take(n as int)[i as int] == b@[i as int]);
                }
                return None;
            }
        };
        proof {
            assert(b@.take(i + 1).drop_last() =~= b@.take(i as int));
            assert(b@.take(i + 1).last() == b@[i as int]);
            let p = vstd::arithmetic::power::pow(16, i as nat);
            assert(value * 16 + 15 < p * 16) by (nonlinear_arith)
                requires
                    0 <= value < p,
            ;
            vstd::arithmetic::power::lemma_pow1(16);
            vstd::arithmetic::power::lemma_pow_adds(16, i as nat, 1);
            vstd::arithmetic::power::lemma_pow_increases(16, (i + 1) as nat, 32);
            lemma_pow16_32();
        }
        value = value * 16 + (v as u128);
        i = i + 1;
    }
    Some(value)
}

/// Relies on alloc's `String::from_utf8`: bytes below 128 form a string
/// of exactly those characters. The bytes are required to be ASCII, so
/// the conversion cannot fail.
#[verifier::external_body]
pub fn ascii_bytes_to_string(v: Vec<u8>) -> (r: String)
    requires
        forall|i: int| 0 <= i < v@.len() ==> v@[i] < 128,
    ensures
        r@ == v@.map_values(|b: u8| b as char),
        r@.len() == v@.len(),
{
    String::from_utf8(v).unwrap_or_default()
}

/// Recognize one lowercase ASCII hex digit and return its value.
pub fn lower_hex_byte_value(b: u8) -> (r: Option<u8>)
    ensures
        r is Some <==> is_lower_hex_byte(b),
        r is Some ==> r->0 == hex_byte_val(b) && r->0 < 16,
{
    if 48 <= b && b <= 57 {
        Some(b - 48)
    } else if 97 <= b && b <= 102 {
        Some(b - 97 + 10)
    } else {
        None
    }
}

/// Parse the first two characters of `h` as one hex byte. Accepts
/// exactly the lowercase renderings `"00"` through `"ff"`: an
/// uppercase digit is rejected.
pub fn hex_str_to_u8(h: &str) -> (r: Option<u8>)
    requires
        h.spec_bytes().len() >= 2,
    ensures
        r is Some <==> is_lower_hex_byte(h.spec_bytes()[0]) && is_lower_hex_byte(
            h.spec_bytes()[1],
        ),
        r is Some ==> r->0 == hex_bytes_val(h.spec_bytes().take(2)),
{
    let bytes = h.as_bytes();
    let hi = lower_hex_byte_value(bytes[0]);
    let lo = lower_hex_byte_value(bytes[1]);
    match (hi, lo) {
        (Some(hv), Some(lv)) => {
            proof {
                let sb = h.spec_bytes();
                let s = sb.take(2);
                assert(s.last() == sb[1]);
                assert(s.drop_last() =~= sb.take(1));
                assert(sb.take(1).last() == sb[0]);
                assert(sb.take(1).drop_last() =~= Seq::<u8>::empty());
                assert(hex_bytes_val(Seq::<u8>::empty()) == 0);
                assert(hex_bytes_val(sb.take(1)) == hex_byte_val(sb[0]));
                assert(hex_bytes_val(s) == hex_byte_val(sb[0]) * 16 + hex_byte_val(sb[1]));
            }
            Some(hv * 16 + lv)
        }
        _ => None,
    }
}

} // verus!
