//! The identifier map keyed by 16-byte arrays: the same bucketed
//! sorted map, addressable both by raw key arrays and by their
//! 128-bit values.

use vstd::prelude::*;
use crate::object_id::{OidTruncated, be_val, trunc_oid_to_u128_oid};
use crate::oidmap_u128;

verus! {

/// A 16-byte key.
pub type OidKey = [u8; 16];

/// Turn a 128-bit value back into its 16 big-endian bytes.
pub fn oid_to_trunc(o: u128) -> (r: OidTruncated)
    ensures
        be_val(r@) == o,
{
    let mut out: OidTruncated = [0; 16];
    let mut cur: u128 = o;
    let mut j: usize = 16;
    proof {
        assert(be_val(out@.subrange(16, 16)) == 0) by {
            assert(out@.subrange(16, 16) =~= Seq::<u8>::empty());
        }
        vstd::arithmetic::power::lemma_pow0(256);
    }
    while j > 0
        invariant
            j <= 16,
            out@.len() == 16,
            cur == o as int / vstd::arithmetic::power::pow(256, (16 - j) as nat),
            be_val(out@.subrange(j as int, 16)) == o as int % vstd::arithmetic::power::pow(
                256,
                (16 - j) as nat,
            ),
        decreases j,
    {
        proof {
            vstd::arithmetic::power::lemma_pow1(256);
            vstd::arithmetic::power::lemma_pow_adds(256, (16 - j) as nat, 1);
            vstd::arithmetic::power::lemma_pow_positive(256, (16 - j) as nat);
            vstd::arithmetic::power::lemma_pow_positive(256, (17 - j) as nat);
        }
        let b = (cur % 256) as u8;
        let ghost old_out = out@;
        let ghost old_cur = cur as int;
        let ghost p = vstd::arithmetic::power::pow(256, (16 - j) as nat);
        out[j - 1] = b;
        cur = cur / 256;
        proof {
            let q = o as int;
            lemma_be_val_prepend(out@, j - 1, old_out, b);
            vstd::arithmetic::div_mod::lemma_div_denominator(q, p, 256);
            assert(be_val(out@.subrange(j as int, 16)) == be_val(old_out.subrange(j as int, 16)))
                by {
                assert(out@.subrange(j as int, 16) =~= old_out.subrange(j as int, 16));
            }
            vstd::arithmetic::div_mod::lemma_fundamental_div_mod(old_cur, 256);
            vstd::arithmetic::div_mod::lemma_mod_bound(old_cur, 256);
            lemma_mod_split(q, (16 - j) as nat);
        }
        j = j - 1;
    }
    proof {
        assert(out@.subrange(0, 16) =~= out@);
        vstd::arithmetic::power::lemma_pow_positive(256, 16);
        crate::object_id::lemma_be_val_bound(out@);
        lemma_pow256_16_trunc();
        vstd::arithmetic::div_mod::lemma_small_mod(o as nat, vstd::arithmetic::power::pow(
            256,
            16,
        ) as nat);
    }
    out
}

/// `256^16` is exactly one beyond the largest `u128`.
proof fn lemma_pow256_16_trunc()
    ensures
        vstd::arithmetic::power::pow(256, 16) == 0x1_0000_0000_0000_0000_0000_0000_0000_0000,
{
    reveal_with_fuel(vstd::arithmetic::power::pow, 17);
}

/// Writing byte `b` just before a suffix extends its value by one
/// digit: the new suffix denotes `b * 256^k + old` where `k` is the
/// old suffix's length.
proof fn lemma_be_val_prepend(now: Seq<u8>, at: int, before: Seq<u8>, b: u8)
    requires
        0 <= at < now.len() == 16,
        before.len() == 16,
        now == before.update(at, b),
    ensures
        be_val(now.subrange(at, 16)) == b * vstd::arithmetic::power::pow(
            256,
            (16 - at - 1) as nat,
        ) + be_val(before.subrange(at + 1, 16)),
    decreases 16 - at,
{
    lemma_be_val_head(now.subrange(at, 16));
    assert(now.subrange(at, 16).drop_first() =~= before.subrange(at + 1, 16));
    assert(now.subrange(at, 16)[0] == b);
}

/// A big-endian value splits at its first byte.
proof fn lemma_be_val_head(s: Seq<u8>)
    requires
        s.len() >= 1,
    ensures
        be_val(s) == s[0] * vstd::arithmetic::power::pow(256, (s.len() - 1) as nat) + be_val(
            s.drop_first(),
        ),
    decreases s.len(),
{
    if s.len() == 1 {
        assert(s.drop_last() =~= Seq::<u8>::empty());
        assert(s.drop_first() =~= Seq::<u8>::empty());
        vstd::arithmetic::power::lemma_pow0(256);
    } else {
        lemma_be_val_head(s.drop_last());
        assert(s.drop_last()[0] == s[0]);
        assert(s.drop_last().drop_first() =~= s.drop_first().drop_last());
        assert(s.drop_first().last() == s.last());
        let k = (s.len() - 2) as nat;
        vstd::arithmetic::power::lemma_pow1(256);
        vstd::arithmetic::power::lemma_pow_adds(256, k, 1);
        let p = vstd::arithmetic::power::pow(256, k);
        assert((s[0] * p + be_val(s.drop_first().drop_last())) * 256 == s[0] * (p * 256) + be_val(
            s.drop_first().drop_last(),
        ) * 256) by (nonlinear_arith);
    }
}

/// `x mod 256^(k+1)` splits into the next digit and `x mod 256^k`.
proof fn lemma_mod_split(x: int, k: nat)
    requires
        x >= 0,
    ensures
        x % vstd::arithmetic::power::pow(256, (k + 1) as nat) == ((x / vstd::arithmetic::power::pow(
            256,
            k,
        )) % 256) * vstd::arithmetic::power::pow(256, k) + x % vstd::arithmetic::power::pow(
            256,
            k,
        ),
{
    let p = vstd::arithmetic::power::pow(256, k);
    let p2 = vstd::arithmetic::power::pow(256, (k + 1) as nat);
    vstd::arithmetic::power::lemma_pow_positive(256, k);
    vstd::arithmetic::power::lemma_pow1(256);
    vstd::arithmetic::power::lemma_pow_adds(256, k, 1);
    assert(p2 == p * 256);
    vstd::arithmetic::div_mod::lemma_mod_breakdown(x, p, 256);
}

/// A bucketed sorted map from 16-byte keys to values.
pub struct OidMap<T, const N: usize> {
    /// The same map, keyed by the big-endian value of the key bytes.
    pub inner: oidmap_u128::OidMap<T, N>,
}

impl<T, const N: usize> OidMap<T, N> {
    /// The map's internal soundness.
    pub open spec fn wf(self) -> bool {
        self.inner.wf()
    }

    /// Does the map hold the key with this 128-bit value?
    pub open spec fn has_key_val(self, key: int) -> bool {
        self.inner.has_key(key as u128)
    }

    /// How many entries the map holds.
    pub open spec fn total(self) -> int {
        self.inner.total()
    }

    /// How many entries the map holds; saturating.
    pub fn len(&self) -> (r: usize)
        requires
            self.wf(),
        ensures
            self.total() <= usize::MAX ==> r == self.total(),
    {
        self.inner.len()
    }

    /// Does the map hold this key?
    pub fn contains_key(&self, key: &OidKey) -> (r: bool)
        requires
            self.wf(),
        ensures
            r == self.has_key_val(be_val(key@)),
    {
        let k = trunc_oid_to_u128_oid(*key);
        self.inner.contains_key(&k)
    }

    /// The value stored under this key, if any.
    pub fn get(&self, key: &OidKey) -> (r: Option<&T>)
        requires
            self.wf(),
        ensures
            r is Some <==> self.has_key_val(be_val(key@)),
            r is Some ==> self.inner.has_entry(be_val(key@) as u128, *r->0),
    {
        let k = trunc_oid_to_u128_oid(*key);
        self.inner.get(&k)
    }

    /// The value stored under the key with this 128-bit value.
    pub fn get_u128(&self, key: &u128) -> (r: Option<&T>)
        requires
            self.wf(),
        ensures
            r is Some <==> self.has_key_val(*key as int),
            r is Some ==> self.inner.has_entry(*key, *r->0),
    {
        self.inner.get(key)
    }

    /// The value stored under this key, mutably, if any.
    pub fn get_mut(&mut self, key: &OidKey) -> (r: Option<&mut T>)
        requires
            old(self).wf(),
        ensures
            r is None ==> *final(self) == *old(self),
    {
        let k = trunc_oid_to_u128_oid(*key);
        self.inner.get_mut(&k)
    }

    /// The value stored under the key with this value, mutably.
    pub fn get_mut_u128(&mut self, key: &u128) -> (r: Option<&mut T>)
        requires
            old(self).wf(),
        ensures
            r is None ==> *final(self) == *old(self),
    {
        self.inner.get_mut(key)
    }

    /// Insert an entry under a 16-byte key.
    pub fn insert(&mut self, key: OidKey, t: T)
        requires
            old(self).wf(),
        ensures
            final(self).wf(),
            final(self).inner.has_entry(be_val(key@) as u128, t),
            forall|k2: u128, v2: T|
                old(self).inner.has_entry(k2, v2) ==> final(self).inner.has_entry(k2, v2),
            forall|k2: u128, v2: T|
                final(self).inner.has_entry(k2, v2) ==> old(self).inner.has_entry(k2, v2) || (k2
                    == be_val(key@) && v2 == t),
            final(self).total() == old(self).total() + 1,
    {
        let k = trunc_oid_to_u128_oid(key);
        self.inner.insert(k, t);
    }

    /// Insert an entry under the key with this 128-bit value.
    pub fn insert_u128(&mut self, key: u128, t: T)
        requires
            old(self).wf(),
        ensures
            final(self).wf(),
            final(self).inner.has_entry(key, t),
            forall|k2: u128, v2: T|
                old(self).inner.has_entry(k2, v2) ==> final(self).inner.has_entry(k2, v2),
            forall|k2: u128, v2: T|
                final(self).inner.has_entry(k2, v2) ==> old(self).inner.has_entry(k2, v2) || (k2
                    == key && v2 == t),
            final(self).total() == old(self).total() + 1,
    {
        self.inner.insert(key, t);
    }

    /// An empty map; the requested preallocation is taken as a hint
    /// and not acted on.
    pub fn new_with_prealloc_m_objects(m: usize) -> (r: OidMap<T, N>)
        ensures
            N >= 1 ==> r.wf(),
            r.total() == 0,
    {
        let r = OidMap { inner: oidmap_u128::OidMap::default() };
        proof {
            lemma_empty_total::<T, N>(r.inner, N as int);
        }
        r
    }
}

/// A map of empty buckets holds nothing.
proof fn lemma_empty_total<T, const N: usize>(m: oidmap_u128::OidMap<T, N>, b: int)
    requires
        m.root@.len() == N,
        forall|c: int| 0 <= c < N ==> (#[trigger] m.root@[c])@.len() == 0,
        b <= N,
    ensures
        m.count_to(b) == 0,
    decreases b,
{
    if b > 0 {
        lemma_empty_total::<T, N>(m, b - 1);
    }
}

impl<T, const N: usize> Default for OidMap<T, N> {
    /// An empty map with `N` buckets.
    fn default() -> (r: Self)
        ensures
            N >= 1 ==> r.wf(),
            r.total() == 0,
    {
        let r = OidMap { inner: oidmap_u128::OidMap::default() };
        proof {
            lemma_empty_total::<T, N>(r.inner, N as int);
        }
        r
    }
}

} // verus!
