//! Big-endian integer fields of the on-disk structures.

use vstd::prelude::*;

verus! {

/// The 32-bit big-endian value at position `i`.
pub open spec fn u32_be_at(d: Seq<u8>, i: int) -> nat {
    (d[i] as nat) * 0x1000000 + (d[i + 1] as nat) * 0x10000 + (d[i + 2] as nat) * 0x100 + (d[i
        + 3] as nat)
}

/// The 64-bit big-endian value at position `i`.
pub open spec fn u64_be_at(d: Seq<u8>, i: int) -> nat {
    u32_be_at(d, i) * 0x1_0000_0000 + u32_be_at(d, i + 4)
}

/// Compare two byte slices for equality.
pub fn slice_eq(a: &[u8], b: &[u8]) -> (r: bool)
    ensures
        r == (a@ == b@),
{
    let alen = a.len();
    if alen != b.len() {
        return false;
    }
    let mut i: usize = 0;
    while i < alen
        invariant
            alen == a@.len() == b@.len(),
            i <= alen,
            forall|j: int| 0 <= j < i ==> a@[j] == b@[j],
        decreases alen - i,
    {
        if a[i] != b[i] {
            return false;
        }
        i = i + 1;
    }
    proof {
        assert(a@ =~= b@);
    }
    true
}

/// Read a 32-bit big-endian value.
pub fn read_u32_be(d: &[u8], i: usize) -> (r: u32)
    requires
        i + 4 <= d@.len(),
    ensures
        r == u32_be_at(d@, i as int),
{
    (d[i] as u32) * 0x1000000 + (d[i + 1] as u32) * 0x10000 + (d[i + 2] as u32) * 0x100 + (d[i
        + 3] as u32)
}

/// Read a 64-bit big-endian value.
pub fn read_u64_be(d: &[u8], i: usize) -> (r: u64)
    requires
        i + 8 <= d@.len(),
    ensures
        r == u64_be_at(d@, i as int),
{
    let dlen = d.len();
    let hi = read_u32_be(d, i);
    let lo = read_u32_be(d, i + 4);
    (hi as u64) * 0x1_0000_0000 + (lo as u64)
}

} // verus!
