//! A map keyed by 128-bit identifiers: values are bucketed by the top
//! bits of the key, each bucket a table sorted by key and searched by
//! binary search.

use vstd::prelude::*;

verus! {

/// 65536
pub const B16: usize = 65536;

/// 32768
pub const B15: usize = 32768;

/// 16384
pub const B14: usize = 16384;

/// 8192
pub const B13: usize = 8192;

/// 4096
pub const B12: usize = 4096;

/// 2048
pub const B11: usize = 2048;

/// 1024
pub const B10: usize = 1024;

/// 512
pub const B9: usize = 512;

/// 256
pub const B8: usize = 256;

/// The key mask for a supported bucket count, zero otherwise.
pub open spec fn mask_of(n: usize) -> u128 {
    if n == 256 {
        0xff000000_00000000_00000000_00000000u128
    } else if n == 512 {
        0xff800000_00000000_00000000_00000000u128
    } else if n == 1024 {
        0xffc00000_00000000_00000000_00000000u128
    } else if n == 2048 {
        0xffe00000_00000000_00000000_00000000u128
    } else if n == 4096 {
        0xfff00000_00000000_00000000_00000000u128
    } else if n == 8192 {
        0xfff80000_00000000_00000000_00000000u128
    } else if n == 16384 {
        0xfffc0000_00000000_00000000_00000000u128
    } else if n == 32768 {
        0xfffe0000_00000000_00000000_00000000u128
    } else if n == 65536 {
        0xffff0000_00000000_00000000_00000000u128
    } else {
        0u128
    }
}

/// The key shift for a supported bucket count, zero otherwise.
pub open spec fn shift_of(n: usize) -> u128 {
    if n == 256 {
        120u128
    } else if n == 512 {
        119u128
    } else if n == 1024 {
        118u128
    } else if n == 2048 {
        117u128
    } else if n == 4096 {
        116u128
    } else if n == 8192 {
        115u128
    } else if n == 16384 {
        114u128
    } else if n == 32768 {
        113u128
    } else if n == 65536 {
        112u128
    } else {
        0u128
    }
}

/// The key mask for a bucket count: the top bits that select the
/// bucket. Only the supported power-of-two counts get a mask; any
/// other count masks to zero, putting everything in bucket zero.
pub fn bitmask(n: usize) -> (r: u128)
    ensures
        r == mask_of(n),
{
    if n == 256 {
        0xff000000_00000000_00000000_00000000
    } else if n == 512 {
        0xff800000_00000000_00000000_00000000
    } else if n == 1024 {
        0xffc00000_00000000_00000000_00000000
    } else if n == 2048 {
        0xffe00000_00000000_00000000_00000000
    } else if n == 4096 {
        0xfff00000_00000000_00000000_00000000
    } else if n == 8192 {
        0xfff80000_00000000_00000000_00000000
    } else if n == 16384 {
        0xfffc0000_00000000_00000000_00000000
    } else if n == 32768 {
        0xfffe0000_00000000_00000000_00000000
    } else if n == 65536 {
        0xffff0000_00000000_00000000_00000000
    } else {
        0
    }
}

/// The key shift matching `bitmask`.
pub fn bitshift(n: usize) -> (r: u128)
    ensures
        r == shift_of(n),
{
    if n == 256 {
        120
    } else if n == 512 {
        119
    } else if n == 1024 {
        118
    } else if n == 2048 {
        117
    } else if n == 4096 {
        116
    } else if n == 8192 {
        115
    } else if n == 16384 {
        114
    } else if n == 32768 {
        113
    } else if n == 65536 {
        112
    } else {
        0
    }
}

/// Which bucket a key falls in.
pub open spec fn bucket_of(key: u128, n: usize) -> int {
    ((key & mask_of(n)) >> shift_of(n)) as int
}

/// A key's bucket index is always below the bucket count.
pub proof fn lemma_bucket_in_range(key: u128, n: usize)
    requires
        n >= 1,
    ensures
        0 <= bucket_of(key, n) < n,
{
    if n == 256 {
        assert((key & 0xff000000_00000000_00000000_00000000u128) >> 120u128 < 256) by (bit_vector);
    } else if n == 512 {
        assert((key & 0xff800000_00000000_00000000_00000000u128) >> 119u128 < 512) by (bit_vector);
    } else if n == 1024 {
        assert((key & 0xffc00000_00000000_00000000_00000000u128) >> 118u128 < 1024)
            by (bit_vector);
    } else if n == 2048 {
        assert((key & 0xffe00000_00000000_00000000_00000000u128) >> 117u128 < 2048)
            by (bit_vector);
    } else if n == 4096 {
        assert((key & 0xfff00000_00000000_00000000_00000000u128) >> 116u128 < 4096)
            by (bit_vector);
    } else if n == 8192 {
        assert((key & 0xfff80000_00000000_00000000_00000000u128) >> 115u128 < 8192)
            by (bit_vector);
    } else if n == 16384 {
        assert((key & 0xfffc0000_00000000_00000000_00000000u128) >> 114u128 < 16384)
            by (bit_vector);
    } else if n == 32768 {
        assert((key & 0xfffe0000_00000000_00000000_00000000u128) >> 113u128 < 32768)
            by (bit_vector);
    } else if n == 65536 {
        assert((key & 0xffff0000_00000000_00000000_00000000u128) >> 112u128 < 65536)
            by (bit_vector);
    } else {
        assert((key & 0u128) >> 0u128 == 0) by (bit_vector);
    }
}

/// One bucket: key-value pairs sorted ascending by key.
pub type SortedTable<T> = Vec<(u128, T)>;

/// A bucketed sorted map from 128-bit keys to values.
pub struct OidMap<T, const N: usize> {
    /// The buckets; entry `i` holds the keys whose bucket index is
    /// `i`, sorted ascending.
    pub root: Vec<SortedTable<T>>,
}

/// Does the table hold `key` at some position?
pub open spec fn table_has_key<T>(t: Seq<(u128, T)>, key: u128) -> bool {
    exists|i: int| 0 <= i < t.len() && (#[trigger] t[i]).0 == key
}

impl<T, const N: usize> OidMap<T, N> {
    /// The map's internal soundness: `N` buckets, each sorted by key,
    /// each entry in the bucket its key selects.
    pub open spec fn wf(self) -> bool {
        &&& N >= 1
        &&& self.root@.len() == N
        &&& forall|b: int, i: int, j: int|
            0 <= b < N && 0 <= i <= j < self.root@[b]@.len() ==> (#[trigger] self.root@[b]@[i]).0
                <= (#[trigger] self.root@[b]@[j]).0
        &&& forall|b: int, i: int|
            0 <= b < N && 0 <= i < self.root@[b]@.len() ==> bucket_of(
                (#[trigger] self.root@[b]@[i]).0,
                N,
            ) == b
    }

    /// Does the map hold `key`?
    pub open spec fn has_key(self, key: u128) -> bool {
        table_has_key(self.root@[bucket_of(key, N)]@, key)
    }

    /// Is `(key, value)` one of the map's entries?
    pub open spec fn has_entry(self, key: u128, value: T) -> bool {
        exists|i: int|
            0 <= i < self.root@[bucket_of(key, N)]@.len() && (#[trigger] self.root@[bucket_of(
                key,
                N,
            )]@[i]) == (key, value)
    }

    /// How many entries the map holds in buckets up to `b`.
    pub open spec fn count_to(self, b: int) -> int
        decreases b,
    {
        if b <= 0 {
            0
        } else {
            self.count_to(b - 1) + self.root@[b - 1]@.len()
        }
    }

    /// How many entries the map holds.
    pub open spec fn total(self) -> int {
        self.count_to(N as int)
    }

    /// Find the bucket a key selects.
    fn bucket_index(&self, key: &u128) -> (r: usize)
        requires
            self.wf(),
        ensures
            r == bucket_of(*key, N),
            r < self.root@.len(),
    {
        let mask = bitmask(N);
        let shift = bitshift(N);
        proof {
            lemma_bucket_in_range(*key, N);
        }
        ((*key & mask) >> shift) as usize
    }

    /// Binary search a sorted table for a key: the position of some
    /// entry holding it, or the position where it would be inserted.
    pub fn binary_search_table_for_key(table: &SortedTable<T>, key: &u128) -> (r: Result<
        usize,
        usize,
    >)
        requires
            forall|i: int, j: int|
                0 <= i <= j < table@.len() ==> (#[trigger] table@[i]).0 <= (#[trigger] table@[j]).0,
        ensures
            match r {
                Ok(i) => i < table@.len() && table@[i as int].0 == *key,
                Err(i) => {
                    &&& i <= table@.len()
                    &&& !table_has_key(table@, *key)
                    &&& forall|j: int| 0 <= j < i ==> (#[trigger] table@[j]).0 < *key
                    &&& forall|j: int|
                        i <= j < table@.len() ==> (#[trigger] table@[j]).0 > *key
                },
            },
    {
        let mut lo: usize = 0;
        let mut hi: usize = table.len();
        while lo < hi
            invariant
                lo <= hi <= table@.len(),
                forall|i: int, j: int|
                    0 <= i <= j < table@.len() ==> (#[trigger] table@[i]).0 <= (
                    #[trigger] table@[j]).0,
                forall|j: int| 0 <= j < lo ==> (#[trigger] table@[j]).0 < *key,
                forall|j: int| hi <= j < table@.len() ==> (#[trigger] table@[j]).0 > *key,
            decreases hi - lo,
        {
            let mid = lo + (hi - lo) / 2;
            let k = table[mid].0;
            if k < *key {
                lo = mid + 1;
            } else if k > *key {
                hi = mid;
            } else {
                return Ok(mid);
            }
        }
        proof {
            assert forall|j: int| 0 <= j < table@.len() implies (#[trigger] table@[j]).0
                != *key by {
                if j < lo {
                } else {
                }
            }
        }
        Err(lo)
    }

    /// How many entries the map holds; were the count ever to exceed
    /// the platform's index type, it saturates.
    pub fn len(&self) -> (r: usize)
        requires
            self.wf(),
        ensures
            self.total() <= usize::MAX ==> r == self.total(),
            r <= self.total(),
    {
        let mut sum: usize = 0;
        let mut b: usize = 0;
        let n = self.root.len();
        proof {
            lemma_count_nonneg(*self, 0);
        }
        while b < n
            invariant
                self.wf(),
                n == self.root@.len(),
                b <= n,
                self.count_to(b as int) <= usize::MAX ==> sum == self.count_to(b as int),
                self.count_to(b as int) > usize::MAX ==> sum == usize::MAX,
                sum <= self.count_to(b as int),
            decreases n - b,
        {
            proof {
                lemma_count_step_bound(*self, b as int);
            }
            let tl = self.root[b].len();
            if tl > usize::MAX - sum {
                sum = usize::MAX;
            } else {
                sum = sum + tl;
            }
            b = b + 1;
        }
        sum
    }

    /// Does the map hold `key`?
    pub fn contains_key(&self, key: &u128) -> (r: bool)
        requires
            self.wf(),
        ensures
            r == self.has_key(*key),
    {
        let bi = self.bucket_index(key);
        let table = &self.root[bi];
        match Self::binary_search_table_for_key(table, key) {
            Ok(_) => true,
            Err(_) => false,
        }
    }

    /// The value stored under `key`, if any; with several entries
    /// under one key, one of them.
    pub fn get(&self, key: &u128) -> (r: Option<&T>)
        requires
            self.wf(),
        ensures
            r is Some <==> self.has_key(*key),
            r is Some ==> self.has_entry(*key, *r->0),
    {
        let bi = self.bucket_index(key);
        let table = &self.root[bi];
        match Self::binary_search_table_for_key(table, key) {
            Ok(i) => Some(&table[i].1),
            Err(_) => None,
        }
    }

    /// The value stored under `key`, mutably, if any: an entry is
    /// handed out exactly when the key is present.
    pub fn get_mut(&mut self, key: &u128) -> (r: Option<&mut T>)
        requires
            old(self).wf(),
        ensures
            r is Some <==> old(self).has_key(*key),
            r is None ==> *final(self) == *old(self),
    {
        let bi = self.bucket_index(key);
        match Self::binary_search_table_for_key(&self.root[bi], key) {
            Ok(i) => {
                proof {
                    assert(old(self).root@[bi as int]@[i as int].0 == *key);
                }
                let table = &mut self.root[bi];
                Some(&mut table[i].1)
            },
            Err(_) => None,
        }
    }

    /// Insert an entry. A key already present gains another entry
    /// beside the existing one, as the underlying tables allow
    /// duplicates. Only the bucket the key selects changes: it
    /// becomes its old table with `(key, t)` inserted at one
    /// position, and every other bucket is left as it was.
    pub fn insert(&mut self, key: u128, t: T)
        requires
            old(self).wf(),
        ensures
            final(self).wf(),
            final(self).has_entry(key, t),
            forall|k2: u128, v2: T|
                old(self).has_entry(k2, v2) ==> final(self).has_entry(k2, v2),
            forall|k2: u128, v2: T|
                final(self).has_entry(k2, v2) ==> old(self).has_entry(k2, v2) || (k2 == key && v2
                    == t),
            forall|k2: u128| final(self).has_key(k2) ==> old(self).has_key(k2) || k2 == key,
            final(self).total() == old(self).total() + 1,
            forall|b: int|
                0 <= b < N && b != bucket_of(key, N) ==> #[trigger] final(self).root@[b] == old(
                    self,
                ).root@[b],
            exists|p: int|
                0 <= p <= old(self).root@[bucket_of(key, N)]@.len() && final(self).root@[bucket_of(
                    key,
                    N,
                )]@ == #[trigger] old(self).root@[bucket_of(key, N)]@.insert(p, (key, t)),
    {
        let bi = self.bucket_index(&key);
        let insert_at = match Self::binary_search_table_for_key(&self.root[bi], &key) {
            Ok(i) => i,
            Err(i) => i,
        };
        let ghost old_table = self.root@[bi as int]@;
        let ghost old_root = self.root@;
        let table = &mut self.root[bi];
        table.insert(insert_at, (key, t));
        proof {
            let new_table = self.root@[bi as int]@;
            assert(new_table == old_table.insert(insert_at as int, (key, t)));
            lemma_bucket_in_range(key, N);
            assert forall|b: int, i: int, j: int|
                0 <= b < N && 0 <= i <= j < self.root@[b]@.len() implies (
            #[trigger] self.root@[b]@[i]).0 <= (#[trigger] self.root@[b]@[j]).0 by {
                if b == bi as int {
                    lemma_sorted_after_insert(old_table, insert_at as int, key, t, i, j);
                } else {
                    assert(self.root@[b] == old_root[b]);
                }
            }
            assert forall|b: int, i: int|
                0 <= b < N && 0 <= i < self.root@[b]@.len() implies bucket_of(
                (#[trigger] self.root@[b]@[i]).0,
                N,
            ) == b by {
                if b == bi as int {
                    if i < insert_at {
                        assert(new_table[i] == old_table[i]);
                    } else if i == insert_at {
                        assert(new_table[i] == (key, t));
                    } else {
                        assert(new_table[i] == old_table[i - 1]);
                    }
                } else {
                    assert(self.root@[b] == old_root[b]);
                }
            }
            assert(new_table[insert_at as int] == (key, t));
            lemma_count_insert(*old(self), *self, bi as int, N as int);
            assert forall|k2: u128, v2: T|
                final(self).has_entry(k2, v2) implies old(self).has_entry(k2, v2) || (k2 == key
                && v2 == t) by {
                lemma_bucket_in_range(k2, N);
                let nb = bucket_of(k2, N);
                let ni = choose|ni: int|
                    0 <= ni < self.root@[nb]@.len() && (#[trigger] self.root@[nb]@[ni]) == (
                    k2,
                    v2,
                );
                if nb == bi as int {
                    if ni < insert_at {
                        assert(old_root[nb]@[ni] == (k2, v2));
                    } else if ni == insert_at {
                        assert(new_table[ni] == (key, t));
                    } else {
                        assert(old_root[nb]@[ni - 1] == (k2, v2));
                    }
                } else {
                    assert(self.root@[nb] == old_root[nb]);
                    assert(old_root[nb]@[ni] == (k2, v2));
                }
            }
            assert forall|k2: u128|
                final(self).has_key(k2) implies old(self).has_key(k2) || k2 == key by {
                lemma_bucket_in_range(k2, N);
                let nb = bucket_of(k2, N);
                let ni = choose|ni: int|
                    0 <= ni < self.root@[nb]@.len() && (#[trigger] self.root@[nb]@[ni]).0 == k2;
                if nb == bi as int {
                    if ni < insert_at {
                        assert(old_root[nb]@[ni].0 == k2);
                    } else if ni == insert_at {
                    } else {
                        assert(old_root[nb]@[ni - 1].0 == k2);
                    }
                } else {
                    assert(self.root@[nb] == old_root[nb]);
                    assert(old_root[nb]@[ni].0 == k2);
                }
            }
            assert forall|k2: u128, v2: T|
                old(self).has_entry(k2, v2) implies final(self).has_entry(k2, v2) by {
                lemma_bucket_in_range(k2, N);
                let ob = bucket_of(k2, N);
                let oi = choose|oi: int|
                    0 <= oi < old_root[ob]@.len() && (#[trigger] old_root[ob]@[oi]) == (k2, v2);
                if ob == bi as int {
                    if oi < insert_at {
                        assert(self.root@[bucket_of(k2, N)]@[oi] == (k2, v2));
                    } else {
                        assert(self.root@[bucket_of(k2, N)]@[oi + 1] == (k2, v2));
                    }
                } else {
                    assert(self.root@[ob] == old_root[ob]);
                    assert(self.root@[bucket_of(k2, N)]@[oi] == (k2, v2));
                }
            }
            assert forall|b: int|
                0 <= b < N && b != bucket_of(key, N) implies #[trigger] self.root@[b] == old_root[
                b] by {
                assert(self.root@[b] == old_root[b]);
            }
            assert(0 <= insert_at as int <= old_table.len());
            assert(self.root@[bucket_of(key, N)]@ == old_table.insert(insert_at as int, (key, t)));
        }
    }
}

/// Inserting one entry into the bucket `bi` raises the running count
/// by one from bucket `bi` on, and leaves it unchanged before.
proof fn lemma_count_insert<T, const N: usize>(
    before: OidMap<T, N>,
    after: OidMap<T, N>,
    bi: int,
    b: int,
)
    requires
        before.root@.len() == N,
        after.root@.len() == N,
        0 <= bi < N,
        b <= N,
        after.root@[bi]@.len() == before.root@[bi]@.len() + 1,
        forall|c: int| 0 <= c < N && c != bi ==> after.root@[c] == #[trigger] before.root@[c],
    ensures
        after.count_to(b) == before.count_to(b) + (if b > bi {
            1int
        } else {
            0int
        }),
    decreases b,
{
    if b > 0 {
        lemma_count_insert(before, after, bi, b - 1);
    }
}

/// Entry counts are not negative.
proof fn lemma_count_nonneg<T, const N: usize>(m: OidMap<T, N>, b: int)
    ensures
        m.count_to(b) >= 0,
    decreases b,
{
    if b > 0 {
        lemma_count_nonneg(m, b - 1);
    }
}

/// A partial count stays within the lengths that produce it, so the
/// running sum in `len` cannot overflow.
proof fn lemma_count_step_bound<T, const N: usize>(m: OidMap<T, N>, b: int)
    requires
        0 <= b < m.root@.len(),
    ensures
        m.count_to(b) + m.root@[b]@.len() == m.count_to(b + 1),
        m.count_to(b) >= 0,
{
    lemma_count_nonneg(m, b);
}

/// Inserting at the position binary search found keeps a table
/// sorted.
proof fn lemma_sorted_after_insert<T>(
    t: Seq<(u128, T)>,
    at: int,
    key: u128,
    v: T,
    i: int,
    j: int,
)
    requires
        0 <= at <= t.len(),
        forall|x: int, y: int| 0 <= x <= y < t.len() ==> (#[trigger] t[x]).0 <= (#[trigger] t[y]).0,
        forall|x: int| 0 <= x < at ==> (#[trigger] t[x]).0 <= key,
        forall|x: int| at <= x < t.len() ==> (#[trigger] t[x]).0 >= key,
        0 <= i <= j < t.insert(at, (key, v)).len(),
    ensures
        t.insert(at, (key, v))[i].0 <= t.insert(at, (key, v))[j].0,
{
    let s = t.insert(at, (key, v));
    if i < at {
        assert(s[i] == t[i]);
    } else if i == at {
        assert(s[i] == (key, v));
    } else {
        assert(s[i] == t[i - 1]);
    }
    if j < at {
        assert(s[j] == t[j]);
    } else if j == at {
        assert(s[j] == (key, v));
    } else {
        assert(s[j] == t[j - 1]);
    }
}

impl<T, const N: usize> Default for OidMap<T, N> {
    /// An empty map with `N` buckets.
    fn default() -> (r: Self)
        ensures
            N >= 1 ==> r.wf(),
            r.root@.len() == N,
            forall|b: int| 0 <= b < N ==> (#[trigger] r.root@[b])@.len() == 0,
    {
        let mut root: Vec<SortedTable<T>> = Vec::new();
        let mut i: usize = 0;
        while i < N
            invariant
                i <= N,
                root@.len() == i,
                forall|b: int| 0 <= b < i ==> (#[trigger] root@[b])@.len() == 0,
            decreases N - i,
        {
            root.push(Vec::new());
            i = i + 1;
        }
        OidMap { root }
    }
}

impl<T, const N: usize> OidMap<T, N> {
    /// An empty map; the requested preallocation is taken as a hint
    /// and not acted on.
    pub fn new_with_prealloc_m_objects(m: usize) -> (r: OidMap<T, N>)
        ensures
            N >= 1 ==> r.wf(),
            r.root@.len() == N,
            forall|b: int| 0 <= b < N ==> (#[trigger] r.root@[b])@.len() == 0,
    {
        Self::default()
    }

    /// The map's entries in bucket order up to bucket `b`: buckets
    /// front to back, each bucket's sorted table front to back.
    pub open spec fn entries_to(self, b: int) -> Seq<(u128, T)>
        decreases b,
    {
        if b <= 0 {
            Seq::empty()
        } else {
            self.entries_to(b - 1) + self.root@[b - 1]@
        }
    }

    /// Every entry of the map, in bucket order with keys ascending
    /// within each bucket: exactly the concatenation of the buckets.
    pub fn collect_entries(&self) -> (r: Vec<(u128, T)>) where T: Copy
        requires
            self.wf(),
        ensures
            r@ == self.entries_to(N as int),
            r@.len() == self.total(),
    {
        let mut out: Vec<(u128, T)> = Vec::new();
        let mut b: usize = 0;
        let n = self.root.len();
        proof {
            lemma_count_nonneg(*self, 0);
            assert(out@ =~= self.entries_to(0));
        }
        while b < n
            invariant
                self.wf(),
                n == self.root@.len(),
                b <= n,
                out@ == self.entries_to(b as int),
                out@.len() == self.count_to(b as int),
            decreases n - b,
        {
            proof {
                lemma_count_step_bound(*self, b as int);
            }
            let table = &self.root[b];
            let tlen = table.len();
            let mut i: usize = 0;
            while i < tlen
                invariant
                    self.wf(),
                    b < n == self.root@.len(),
                    tlen == self.root@[b as int]@.len(),
                    i <= tlen,
                    out@ == self.entries_to(b as int) + self.root@[b as int]@.take(i as int),
                    out@.len() == self.count_to(b as int) + i,
                decreases tlen - i,
            {
                let entry = self.root[b][i];
                proof {
                    assert(self.root@[b as int]@.take(i + 1) =~= self.root@[
                        b as int
                    ]@.take(i as int).push(entry));
                    assert((self.entries_to(b as int) + self.root@[b as int]@.take(i as int)).push(
                        entry,
                    ) =~= self.entries_to(b as int) + self.root@[b as int]@.take(i + 1));
                }
                out.push(entry);
                i = i + 1;
            }
            proof {
                assert(self.root@[b as int]@.take(tlen as int) =~= self.root@[b as int]@);
                assert(self.entries_to(b + 1) == self.entries_to(b as int) + self.root@[
                    b as int
                ]@);
            }
            b = b + 1;
        }
        out
    }
}

} // verus!
