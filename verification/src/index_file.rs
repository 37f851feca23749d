//! The packfile index: a fanout-indexed, sorted table of digests with
//! per-object packfile offsets, in its version 1 and version 2 forms.

use vstd::prelude::*;
use crate::error::DbError;
use crate::object_id::{Oid, OidFull, oid_of_bytes, get_first_byte_of_oid, full_slice_oid_to_u128_oid};
use crate::object_id::PartialOid;
use crate::be_bytes;

verus! {

use vstd::slice::slice_subrange;

/// Which on-disk layout an index file uses.
#[derive(Debug, Copy, Clone, PartialEq, Eq, Structural)]
pub enum IDXVersion {
    V1,
    V2,
}

/// An index file held in memory: the fanout table copied out for fast
/// access, the object count, the version, the identity shared with the
/// packfile, and the raw bytes.
pub struct IDXFileLight {
    /// Cumulative object counts by leading byte; entry 255 is the
    /// total.
    pub fanout_table: Vec<u32>,
    /// The 20-byte identity from the `pack-<40 hex>` file name.
    pub id: OidFull,
    /// The on-disk layout.
    pub version: IDXVersion,
    /// Total number of objects, from the last fanout entry.
    pub num_objects: usize,
    /// The file's bytes.
    pub file: Vec<u8>,
}

impl IDXFileLight {
    /// Where the digest of fanout position `i` starts in the file.
    pub open spec fn oid_start_spec(self, i: int) -> int {
        match self.version {
            IDXVersion::V1 => 1024 + 4 + i * 24,
            IDXVersion::V2 => 1032 + i * 20,
        }
    }

    /// The fanout value for leading byte `b`.
    pub open spec fn fanout_at(self, b: int) -> int {
        self.fanout_table@[b] as int
    }

    /// The identifier at fanout position `i`: the first sixteen bytes
    /// of its digest, big endian.
    pub open spec fn oid_at(self, i: int) -> Oid {
        oid_of_bytes(self.file@.subrange(self.oid_start_spec(i), self.oid_start_spec(i) + 20))
    }

    /// Structural soundness: the copied fanout has 256 entries whose
    /// last is the object count, every fanout value is bounded by the
    /// count, and the file is long enough for the tables the version
    /// requires.
    pub open spec fn wf(self) -> bool {
        &&& self.fanout_table@.len() == 256
        &&& self.num_objects == self.fanout_table@[255]
        &&& forall|b: int| 0 <= b < 256 ==> #[trigger] self.fanout_table@[b] <= self.num_objects
        &&& self.oid_start_spec(self.num_objects as int) + 20 <= self.file@.len()
        &&& (self.version == IDXVersion::V2 ==> 1032 + self.num_objects * 28
            <= self.file@.len())
    }

    /// The fanout table counts exactly the objects whose leading byte
    /// is at most `b`: position `i` lies below `fanout[b]` exactly
    /// when the identifier there starts with a byte at most `b`.
    pub open spec fn fanout_consistent(self) -> bool {
        forall|b: int, i: int|
            #![trigger self.fanout_at(b), self.oid_at(i)]
            0 <= b < 256 && 0 <= i < self.num_objects ==> ((i < self.fanout_at(b)) <==> (
            self.oid_at(i) >> 120 <= b))
    }

    /// The digests are sorted ascending by their 128-bit keys.
    pub open spec fn sorted(self) -> bool {
        forall|i: int, j: int|
            0 <= i <= j < self.num_objects ==> #[trigger] self.oid_at(i) <= #[trigger] self.oid_at(
                j,
            )
    }

    /// Does some position hold this identifier?
    pub open spec fn contains_oid(self, oid: Oid) -> bool {
        exists|i: int| 0 <= i < self.num_objects && self.oid_at(i) == oid
    }

    /// The fanout index where a scan for identifiers starting with
    /// byte `b` begins: the count of objects with a smaller leading
    /// byte.
    pub open spec fn fanout_lo(self, b: int) -> int {
        if b == 0 {
            0
        } else {
            self.fanout_at(b - 1)
        }
    }

    /// The packfile offset stored for fanout position `i`: the four
    /// bytes before the digest in a version 1 file; in a version 2
    /// file the offset-table entry, or the large-table entry its low
    /// 31 bits select when its high bit is set — nothing when that
    /// large entry lies outside the file.
    pub open spec fn offset_at(self, i: int) -> Option<nat> {
        match self.version {
            IDXVersion::V1 => Some(be_bytes::u32_be_at(self.file@, self.oid_start_spec(i) - 4)),
            IDXVersion::V2 => {
                let small = be_bytes::u32_be_at(
                    self.file@,
                    1032 + self.num_objects * 24 + i * 4,
                );
                if small < 0x8000_0000 {
                    Some(small)
                } else {
                    let k = small - 0x8000_0000;
                    let large = 1032 + self.num_objects * 28 + k * 8;
                    if large + 8 <= self.file@.len() {
                        Some(be_bytes::u64_be_at(self.file@, large))
                    } else {
                        None
                    }
                }
            },
        }
    }

    /// Where the digest of fanout position `fanout_index` starts, for
    /// a version 1 file.
    pub fn get_oid_starting_index_from_fanout_index_v1(&self, fanout_index: usize) -> (r: usize)
        requires
            self.wf(),
            self.version == IDXVersion::V1,
            fanout_index <= self.num_objects,
        ensures
            r == self.oid_start_spec(fanout_index as int),
    {
        let flen = self.file.len();
        proof {
            assert(flen == self.file@.len());
            vstd::arithmetic::mul::lemma_mul_inequality(
                fanout_index as int,
                self.num_objects as int,
                24,
            );
        }
        1024 + 4 + fanout_index * 24
    }

    /// Where the digest of fanout position `fanout_index` starts, for
    /// a version 2 file.
    pub fn get_oid_starting_index_from_fanout_index_v2(&self, fanout_index: usize) -> (r: usize)
        requires
            self.wf(),
            self.version == IDXVersion::V2,
            fanout_index <= self.num_objects,
        ensures
            r == self.oid_start_spec(fanout_index as int),
    {
        let flen = self.file.len();
        proof {
            assert(flen == self.file@.len());
            vstd::arithmetic::mul::lemma_mul_inequality(
                fanout_index as int,
                self.num_objects as int,
                20,
            );
            vstd::arithmetic::mul::lemma_mul_inequality(
                self.num_objects as int,
                self.num_objects as int,
                20,
            );
        }
        1032 + fanout_index * 20
    }

    /// Where the digest of fanout position `fanout_index` starts.
    pub fn get_oid_starting_index_from_fanout_index(&self, fanout_index: usize) -> (r: usize)
        requires
            self.wf(),
            fanout_index <= self.num_objects,
        ensures
            r == self.oid_start_spec(fanout_index as int),
    {
        match self.version {
            IDXVersion::V1 => self.get_oid_starting_index_from_fanout_index_v1(fanout_index),
            IDXVersion::V2 => self.get_oid_starting_index_from_fanout_index_v2(fanout_index),
        }
    }

    /// Read the identifier at fanout position `i`.
    pub fn read_oid_at(&self, i: usize) -> (r: Oid)
        requires
            self.wf(),
            i < self.num_objects,
        ensures
            r == self.oid_at(i as int),
    {
        let start = self.get_oid_starting_index_from_fanout_index(i);
        proof {
            lemma_oid_start_monotone(*self, i as int, self.num_objects as int);
        }
        let flen = self.file.len();
        let sha = slice_subrange(self.file.as_slice(), start, start + 20);
        let r = full_slice_oid_to_u128_oid(sha);
        proof {
            assert(sha@.take(16) =~= self.file@.subrange(
                self.oid_start_spec(i as int),
                self.oid_start_spec(i as int) + 20,
            ).take(16));
        }
        r
    }

    /// The packfile offset of fanout position `fanout_index`, for a
    /// version 1 file: the four bytes just before the digest.
    pub fn find_packfile_index_from_fanout_index_v1(&self, fanout_index: usize) -> (r: Option<u64>)
        requires
            self.wf(),
            self.version == IDXVersion::V1,
            fanout_index < self.num_objects,
        ensures
            r == Some(
                be_bytes::u32_be_at(
                    self.file@,
                    self.oid_start_spec(fanout_index as int) - 4,
                ) as u64,
            ),
    {
        let oid_start = self.get_oid_starting_index_from_fanout_index_v1(fanout_index);
        proof {
            lemma_oid_start_monotone(*self, fanout_index as int, self.num_objects as int);
        }
        let v = be_bytes::read_u32_be(self.file.as_slice(), oid_start - 4);
        Some(v as u64)
    }

    /// The packfile offset of fanout position `fanout_index`, for a
    /// version 2 file: the four-byte table entry, or — when its high
    /// bit is set — the eight-byte entry of the large-offset table the
    /// low 31 bits point into. Nothing when that large entry lies
    /// outside the file.
    pub fn find_packfile_index_from_fanout_index_v2(&self, fanout_index: usize) -> (r: Option<u64>)
        requires
            self.wf(),
            self.version == IDXVersion::V2,
            fanout_index < self.num_objects,
        ensures
            ({
                let small = be_bytes::u32_be_at(
                    self.file@,
                    1032 + self.num_objects * 24 + fanout_index * 4,
                );
                if small < 0x8000_0000 {
                    r == Some(small as u64)
                } else {
                    let k = small - 0x8000_0000;
                    let large = 1032 + self.num_objects * 28 + k * 8;
                    if large + 8 <= self.file@.len() {
                        r == Some(be_bytes::u64_be_at(self.file@, large as int) as u64)
                    } else {
                        r is None
                    }
                }
            }),
    {
        let num = self.num_objects;
        let flen0 = self.file.len();
        proof {
            assert(flen0 == self.file@.len());
            vstd::arithmetic::mul::lemma_mul_inequality(fanout_index + 1, num as int, 4);
            let n = num as int;
            let fi = fanout_index as int;
            assert(n * 24 + fi * 4 + 4 <= n * 28) by (nonlinear_arith)
                requires
                    0 <= fi,
                    fi + 1 <= n,
            ;
        }
        let entry = 1032 + num * 24 + fanout_index * 4;
        proof {
            assert(num * 24 + (fanout_index + 1) * 4 <= num * 24 + num * 4) by (nonlinear_arith)
                requires
                    fanout_index + 1 <= num,
            ;
            assert(num * 24 + num * 4 == num * 28) by (nonlinear_arith);
        }
        let four_byte_offset = be_bytes::read_u32_be(self.file.as_slice(), entry);
        if four_byte_offset < 0x8000_0000 {
            return Some(four_byte_offset as u64);
        }
        let k = four_byte_offset - 0x8000_0000;
        proof {
            assert(num * 28 <= usize::MAX - 1032);
        }
        let flen = self.file.len();
        if k as usize > (usize::MAX - 1032 - num * 28) / 8 {
            // the large entry cannot lie inside any addressable file
            proof {
                let kk = k as int;
                let large = 1032 + num * 28 + kk * 8;
                assert(large + 8 > flen) by (nonlinear_arith)
                    requires
                        kk > (usize::MAX - 1032 - (num as int) * 28) / 8,
                        flen <= usize::MAX,
                        1032 + (num as int) * 28 <= usize::MAX,
                        large == 1032 + (num as int) * 28 + kk * 8,
                ;
            }
            return None;
        }
        let large = 1032 + num * 28 + (k as usize) * 8;
        if large > flen || flen - large < 8 {
            return None;
        }
        Some(be_bytes::read_u64_be(self.file.as_slice(), large))
    }

    /// The packfile offset of fanout position `fanout_index`.
    pub fn find_packfile_index_from_fanout_index(&self, fanout_index: usize) -> (r: Option<u64>)
        requires
            self.wf(),
            fanout_index < self.num_objects,
        ensures
            match r {
                Some(v) => self.offset_at(fanout_index as int) == Some(v as nat),
                None => self.offset_at(fanout_index as int) is None,
            },
    {
        match self.version {
            IDXVersion::V1 => self.find_packfile_index_from_fanout_index_v1(fanout_index),
            IDXVersion::V2 => self.find_packfile_index_from_fanout_index_v2(fanout_index),
        }
    }

    /// The CRC-32 of fanout position `fanout_index`, read straight
    /// from the version 2 table; only a version 2 file has one to
    /// read.
    pub fn get_crc32_from_fanout_index_unchecked(&self, fanout_index: usize) -> (r: Option<u32>)
        requires
            self.wf(),
            self.version == IDXVersion::V2,
            fanout_index < self.num_objects,
        ensures
            r == Some(
                be_bytes::u32_be_at(
                    self.file@,
                    1032 + self.num_objects * 20 + fanout_index * 4,
                ) as u32,
            ),
    {
        let num = self.num_objects;
        let flen0 = self.file.len();
        proof {
            assert(flen0 == self.file@.len());
            let n = num as int;
            let fi = fanout_index as int;
            assert(n * 20 + fi * 4 + 4 <= n * 28) by (nonlinear_arith)
                requires
                    0 <= fi,
                    fi + 1 <= n,
            ;
        }
        let entry = 1032 + num * 20 + fanout_index * 4;
        Some(be_bytes::read_u32_be(self.file.as_slice(), entry))
    }

    /// The CRC-32 of fanout position `fanout_index`; only version 2
    /// files carry one.
    pub fn get_crc32_from_fanout_index(&self, fanout_index: usize) -> (r: Option<u32>)
        requires
            self.wf(),
            fanout_index < self.num_objects,
        ensures
            self.version == IDXVersion::V1 ==> r is None,
            self.version == IDXVersion::V2 ==> r == Some(
                be_bytes::u32_be_at(
                    self.file@,
                    1032 + self.num_objects * 20 + fanout_index * 4,
                ) as u32,
            ),
    {
        match self.version {
            IDXVersion::V2 => self.get_crc32_from_fanout_index_unchecked(fanout_index),
            IDXVersion::V1 => None,
        }
    }

    /// The fanout position where a walk from `start_byte` begins:
    /// `fanout[b-1]`, or zero for byte zero or no byte at all.
    pub fn walk_start(&self, start_byte: Option<u8>) -> (r: usize)
        requires
            self.wf(),
        ensures
            match start_byte {
                Some(b) => r == self.fanout_lo(b as int) && r <= self.num_objects,
                None => r == 0,
            },
    {
        match start_byte {
            Some(first_byte) => {
                if first_byte > 0 {
                    let v = self.fanout_table[(first_byte - 1) as usize];
                    v as usize
                } else {
                    0
                }
            },
            None => 0,
        }
    }

    /// Collect every identifier from `start_byte`'s fanout region to
    /// the end of the file, each with its fanout position.
    pub fn walk_all_oids_with_index_and_from(&self, start_byte: Option<u8>) -> (r: Vec<
        (Oid, usize),
    >)
        requires
            self.wf(),
        ensures
            ({
                let start = match start_byte {
                    Some(b) => self.fanout_lo(b as int),
                    None => 0,
                };
                &&& r@.len() == self.num_objects - start
                &&& forall|k: int|
                    0 <= k < r@.len() ==> #[trigger] r@[k] == (
                    self.oid_at(start + k),
                    (start + k) as usize,
                )
            }),
    {
        let start = self.walk_start(start_byte);
        let mut out: Vec<(Oid, usize)> = Vec::new();
        let mut i: usize = start;
        while i < self.num_objects
            invariant
                self.wf(),
                start <= i <= self.num_objects,
                out@.len() == i - start,
                forall|k: int|
                    0 <= k < out@.len() ==> #[trigger] out@[k] == (
                    self.oid_at(start + k),
                    (start + k) as usize,
                ),
            decreases self.num_objects - i,
        {
            let oid = self.read_oid_at(i);
            out.push((oid, i));
            i = i + 1;
        }
        out
    }

    /// Collect every identifier from `start_byte`'s fanout region to
    /// the end of the file.
    pub fn walk_all_oids_from(&self, start_byte: Option<u8>) -> (r: Vec<Oid>)
        requires
            self.wf(),
        ensures
            ({
                let start = match start_byte {
                    Some(b) => self.fanout_lo(b as int),
                    None => 0,
                };
                &&& r@.len() == self.num_objects - start
                &&& forall|k: int|
                    0 <= k < r@.len() ==> #[trigger] r@[k] == self.oid_at(start + k)
            }),
    {
        let pairs = self.walk_all_oids_with_index_and_from(start_byte);
        let mut out: Vec<Oid> = Vec::new();
        let mut i: usize = 0;
        let n = pairs.len();
        while i < n
            invariant
                n == pairs@.len(),
                i <= n,
                out@.len() == i,
                forall|k: int| 0 <= k < i ==> #[trigger] out@[k] == pairs@[k].0,
            decreases n - i,
        {
            let (o, _) = pairs[i];
            out.push(o);
            i = i + 1;
        }
        out
    }

    /// Find the fanout position of an identifier, scanning its fanout
    /// region and stopping at the first entry whose leading byte is
    /// larger. On a well-formed, sorted index this succeeds exactly
    /// when the identifier is present; the position found lies within
    /// the identifier's fanout window and is the first one holding it.
    pub fn find_oid_and_fanout_index(&self, oid: Oid) -> (r: Result<usize, DbError>)
        requires
            self.wf(),
        ensures
            r is Ok ==> {
                let i = r->Ok_0;
                &&& i < self.num_objects
                &&& self.oid_at(i as int) == oid
                &&& self.fanout_lo((oid >> 120) as int) <= i
                &&& (self.fanout_consistent() ==> i < self.fanout_at((oid >> 120) as int))
                &&& forall|j: int|
                    self.fanout_lo((oid >> 120) as int) <= j < i ==> #[trigger] self.oid_at(j)
                        != oid
                &&& (self.fanout_consistent() ==> forall|j: int|
                    0 <= j < i ==> #[trigger] self.oid_at(j) != oid)
            },
            r is Err && self.sorted() && self.fanout_consistent() ==> !self.contains_oid(oid),
    {
        let first_byte = get_first_byte_of_oid(oid);
        let start = self.walk_start(Some(first_byte));
        let mut i: usize = start;
        while i < self.num_objects
            invariant
                self.wf(),
                first_byte == oid >> 120,
                start == self.fanout_lo(first_byte as int),
                start <= i <= self.num_objects,
                forall|j: int| start <= j < i ==> #[trigger] self.oid_at(j) != oid,
            decreases self.num_objects - i,
        {
            let found = self.read_oid_at(i);
            if found == oid {
                proof {
                    if self.fanout_consistent() {
                        assert(self.oid_at(i as int) >> 120 <= first_byte);
                        assert forall|j: int| 0 <= j < i implies #[trigger] self.oid_at(j)
                            != oid by {
                            if j < start {
                                lemma_first_byte_lt(*self, j, first_byte as int);
                            }
                        }
                    }
                }
                return Ok(i);
            }
            let found_fb = get_first_byte_of_oid(found);
            if found_fb > first_byte {
                // sorted by digest: nothing at or past this entry can match
                proof {
                    if self.sorted() && self.fanout_consistent() {
                        assert forall|j: int|
                            0 <= j < self.num_objects implies #[trigger] self.oid_at(j)
                            != oid by {
                            if j < start {
                                lemma_first_byte_lt(*self, j, first_byte as int);
                            } else if j >= i {
                                assert(self.oid_at(i as int) <= self.oid_at(j));
                                lemma_shift_monotone(self.oid_at(i as int), self.oid_at(j));
                                assert(self.oid_at(j) >> 120 > first_byte);
                            }
                        }
                    }
                }
                return Err(DbError::NotFound);
            }
            i = i + 1;
        }
        proof {
            if self.sorted() && self.fanout_consistent() {
                assert forall|j: int| 0 <= j < self.num_objects implies #[trigger] self.oid_at(j)
                    != oid by {
                    if j < start {
                        lemma_first_byte_lt(*self, j, first_byte as int);
                    }
                }
            }
        }
        Err(DbError::NotFound)
    }

    /// Does the index hold this identifier? Exact on a well-formed,
    /// sorted, fanout-consistent index; a positive answer is always
    /// backed by a real entry.
    pub fn has_oid(&self, oid: Oid) -> (r: bool)
        requires
            self.wf(),
        ensures
            r ==> self.contains_oid(oid),
            self.sorted() && self.fanout_consistent() ==> r == self.contains_oid(oid),
    {
        match self.find_oid_and_fanout_index(oid) {
            Ok(i) => {
                proof {
                    assert(self.oid_at(i as int) == oid);
                }
                true
            },
            Err(_) => false,
        }
    }

    /// Every identifier in the index that the partial identifier
    /// matches, each with its fanout position: the scan starts at the
    /// prefix's fanout region and stops once leading bytes pass it.
    /// On a well-formed, sorted, fanout-consistent index the result
    /// holds exactly the matching positions, in ascending order.
    pub fn get_partial_matches_with_indices(&self, partial: &PartialOid) -> (r: Vec<(Oid, usize)>)
        requires
            self.wf(),
            partial.wf(),
        ensures
            forall|k: int|
                0 <= k < r@.len() ==> {
                    let (o, i) = #[trigger] r@[k];
                    &&& i < self.num_objects
                    &&& self.oid_at(i as int) == o
                    &&& partial.match_spec(o)
                },
            forall|k1: int, k2: int|
                0 <= k1 < k2 < r@.len() ==> (#[trigger] r@[k1]).1 < (#[trigger] r@[k2]).1,
            self.sorted() && self.fanout_consistent() ==> forall|i: int|
                0 <= i < self.num_objects && partial.match_spec(#[trigger] self.oid_at(i))
                    ==> r@.contains((self.oid_at(i), i as usize)),
    {
        let pb = get_first_byte_of_oid(partial.oid);
        let start = self.walk_start(Some(pb));
        let mut out: Vec<(Oid, usize)> = Vec::new();
        let mut i: usize = start;
        while i < self.num_objects
            invariant
                self.wf(),
                partial.wf(),
                pb == partial.oid >> 120,
                start == self.fanout_lo(pb as int),
                start <= i <= self.num_objects,
                forall|k: int|
                    0 <= k < out@.len() ==> {
                        let (o, ii) = #[trigger] out@[k];
                        &&& ii < self.num_objects
                        &&& ii < i
                        &&& self.oid_at(ii as int) == o
                        &&& partial.match_spec(o)
                    },
                forall|k1: int, k2: int|
                    0 <= k1 < k2 < out@.len() ==> (#[trigger] out@[k1]).1 < (
                    #[trigger] out@[k2]).1,
                forall|j: int|
                    start <= j < i && partial.match_spec(#[trigger] self.oid_at(j))
                        ==> out@.contains((self.oid_at(j), j as usize)),
            decreases self.num_objects - i,
        {
            let found = self.read_oid_at(i);
            let ghost old_out = out@;
            if partial.matches(found) {
                out.push((found, i));
            }
            proof {
                assert forall|k1: int, k2: int|
                    0 <= k1 < k2 < out@.len() implies (#[trigger] out@[k1]).1 < (
                #[trigger] out@[k2]).1 by {
                    if k2 < old_out.len() {
                    } else {
                        assert(out@[k2].1 == i);
                        assert(out@[k1].1 < i);
                    }
                }
                assert forall|j: int|
                    start <= j < i + 1 && partial.match_spec(#[trigger] self.oid_at(j))
                        implies out@.contains((self.oid_at(j), j as usize)) by {
                    if j < i {
                        assert(old_out.contains((self.oid_at(j), j as usize)));
                        let k = choose|k: int|
                            0 <= k < old_out.len() && old_out[k] == (self.oid_at(j), j as usize);
                        assert(out@[k] == (self.oid_at(j), j as usize));
                    } else {
                        assert(out@[out@.len() - 1] == (self.oid_at(j), j as usize));
                    }
                }
            }
            let found_fb = get_first_byte_of_oid(found);
            if found_fb > pb {
                // sorted by digest: nothing at or past this entry matches
                proof {
                    if self.sorted() && self.fanout_consistent() {
                        assert forall|j: int|
                            0 <= j < self.num_objects && partial.match_spec(
                                #[trigger] self.oid_at(j),
                            ) implies out@.contains((self.oid_at(j), j as usize)) by {
                            if j < start {
                                lemma_first_byte_lt(*self, j, pb as int);
                                lemma_match_first_byte(*partial, self.oid_at(j));
                            } else if j > i {
                                assert(self.oid_at(i as int) <= self.oid_at(j));
                                lemma_shift_monotone(self.oid_at(i as int), self.oid_at(j));
                                lemma_match_first_byte(*partial, self.oid_at(j));
                            }
                        }
                    }
                }
                return out;
            }
            i = i + 1;
        }
        proof {
            if self.sorted() && self.fanout_consistent() {
                assert forall|j: int|
                    0 <= j < self.num_objects && partial.match_spec(#[trigger] self.oid_at(j))
                        implies out@.contains((self.oid_at(j), j as usize)) by {
                    if j < start {
                        lemma_first_byte_lt(*self, j, pb as int);
                        lemma_match_first_byte(*partial, self.oid_at(j));
                    }
                }
            }
        }
        out
    }
}

/// Does the file open with the version 2 signature `\xff t O c`?
pub open spec fn is_v2_sig(d: Seq<u8>) -> bool {
    d.len() >= 4 && d[0] == 255 && d[1] == 116 && d[2] == 79 && d[3] == 99
}

/// Where the fanout table starts: after the eight-byte header in a
/// version 2 file, at the very front in a version 1 file.
pub open spec fn idx_fanout_base(d: Seq<u8>) -> int {
    if is_v2_sig(d) {
        8
    } else {
        0
    }
}

/// The object count an index file declares: its last fanout entry.
pub open spec fn idx_num_spec(d: Seq<u8>) -> nat {
    be_bytes::u32_be_at(d, idx_fanout_base(d) + 4 * 255)
}

/// Is this a sound index file: large enough for fanout and trailer, a
/// version number of 2 behind a version 2 signature, every fanout
/// entry at most the object count, and a file long enough for the
/// tables the layout requires.
pub open spec fn idx_open_ok(d: Seq<u8>) -> bool {
    &&& d.len() >= 1064
    &&& (is_v2_sig(d) ==> be_bytes::u32_be_at(d, 4) == 2)
    &&& (forall|b: int|
        0 <= b < 256 ==> #[trigger] be_bytes::u32_be_at(d, idx_fanout_base(d) + 4 * b)
            <= idx_num_spec(d))
    &&& (if is_v2_sig(d) {
        1032 + idx_num_spec(d) * 20 + 20 <= d.len() && 1032 + idx_num_spec(d) * 28 <= d.len()
    } else {
        1024 + 4 + idx_num_spec(d) * 24 + 20 <= d.len()
    })
}

/// Copy the 256-entry fanout table out of the file, starting at `at`.
pub fn fill_fan(d: &[u8], at: usize) -> (r: Vec<u32>)
    requires
        at + 1024 <= d@.len(),
    ensures
        r@.len() == 256,
        forall|b: int| 0 <= b < 256 ==> #[trigger] r@[b] == be_bytes::u32_be_at(d@, at + 4 * b),
{
    let mut fan: Vec<u32> = Vec::new();
    let mut b: usize = 0;
    let dlen = d.len();
    while b < 256
        invariant
            at + 1024 <= dlen == d@.len(),
            b <= 256,
            fan@.len() == b,
            forall|k: int| 0 <= k < b ==> #[trigger] fan@[k] == be_bytes::u32_be_at(d@, at + 4 * k),
        decreases 256 - b,
    {
        fan.push(be_bytes::read_u32_be(d, at + 4 * b));
        b = b + 1;
    }
    fan
}

/// Open an index file from its raw bytes and the identity in its file
/// name: detect the version, copy the fanout out, and validate that
/// the file is large enough for the tables its object count implies.
/// Succeeds exactly on a sound file.
pub fn open_idx_file_light(data: Vec<u8>, id: OidFull) -> (r: Result<IDXFileLight, DbError>)
    ensures
        r is Ok <==> idx_open_ok(data@),
        r is Ok ==> {
            let idx = r->Ok_0;
            &&& idx.wf()
            &&& idx.file@ == data@
            &&& idx.id@ == id@
            &&& (idx.version == IDXVersion::V2 <==> is_v2_sig(data@))
            &&& idx.num_objects == idx_num_spec(data@)
            &&& forall|b: int|
                0 <= b < 256 ==> #[trigger] idx.fanout_table@[b] == be_bytes::u32_be_at(
                    data@,
                    idx_fanout_base(data@) + 4 * b,
                )
        },
{
    let dlen = data.len();
    if dlen < 1064 {
        return Err(DbError::Corrupt);
    }
    let d = data.as_slice();
    let v2 = d[0] == 255 && d[1] == 116 && d[2] == 79 && d[3] == 99;
    let fan_base: usize = if v2 {
        8
    } else {
        0
    };
    if v2 {
        let version_number = be_bytes::read_u32_be(d, 4);
        if version_number != 2 {
            return Err(DbError::Corrupt);
        }
    }
    let fanout_table = fill_fan(d, fan_base);
    let num32 = fanout_table[255];
    let num = num32 as usize;
    // every fanout entry must stay within the object count
    let mut b: usize = 0;
    while b < 256
        invariant
            b <= 256,
            fanout_table@.len() == 256,
            num == fanout_table@[255],
            num == idx_num_spec(data@),
            forall|k: int|
                0 <= k < 256 ==> #[trigger] fanout_table@[k] == be_bytes::u32_be_at(
                    data@,
                    idx_fanout_base(data@) + 4 * k,
                ),
            forall|k: int| 0 <= k < b ==> #[trigger] fanout_table@[k] <= num,
        decreases 256 - b,
    {
        if fanout_table[b] as usize > num {
            proof {
                assert(be_bytes::u32_be_at(data@, idx_fanout_base(data@) + 4 * b)
                    > idx_num_spec(data@));
            }
            return Err(DbError::Corrupt);
        }
        b = b + 1;
    }
    // the file must hold the tables the layout requires
    if v2 {
        if (1032 + num as u128 * 20 + 20 > dlen as u128) || (1032 + num as u128 * 28
            > dlen as u128) {
            return Err(DbError::Corrupt);
        }
    } else {
        if 1024 + 4 + num as u128 * 24 + 20 > dlen as u128 {
            return Err(DbError::Corrupt);
        }
    }
    let version = if v2 {
        IDXVersion::V2
    } else {
        IDXVersion::V1
    };
    proof {
        assert forall|bb: int| 0 <= bb < 256 implies #[trigger] be_bytes::u32_be_at(
            data@,
            idx_fanout_base(data@) + 4 * bb,
        ) <= idx_num_spec(data@) by {
            assert(fanout_table@[bb] == be_bytes::u32_be_at(
                data@,
                idx_fanout_base(data@) + 4 * bb,
            ));
            assert(fanout_table@[bb] <= num);
        }
    }
    Ok(IDXFileLight { fanout_table, id, version, num_objects: num, file: data })
}

/// Digest start positions grow with the fanout position.
proof fn lemma_oid_start_monotone(idx: IDXFileLight, i: int, j: int)
    requires
        i <= j,
    ensures
        idx.oid_start_spec(i) <= idx.oid_start_spec(j),
{
    match idx.version {
        IDXVersion::V1 => {
            vstd::arithmetic::mul::lemma_mul_inequality(i, j, 24);
        },
        IDXVersion::V2 => {
            vstd::arithmetic::mul::lemma_mul_inequality(i, j, 20);
        },
    }
}

/// On a fanout-consistent index, entries before byte `b`'s region
/// start with a byte smaller than `b`.
proof fn lemma_first_byte_lt(idx: IDXFileLight, j: int, b: int)
    requires
        idx.wf(),
        idx.fanout_consistent(),
        0 <= b < 256,
        0 <= j < idx.num_objects,
        j < idx.fanout_lo(b),
    ensures
        idx.oid_at(j) >> 120 < b,
{
    assert(j < idx.fanout_at(b - 1));
    assert(idx.oid_at(j) >> 120 <= b - 1);
}

/// Shifting preserves order.
proof fn lemma_shift_monotone(a: u128, b: u128)
    requires
        a <= b,
    ensures
        a >> 120 <= b >> 120,
{
    assert(a <= b ==> a >> 120 <= b >> 120) by (bit_vector);
}

/// A partial identifier only matches identifiers that share its
/// leading byte.
proof fn lemma_match_first_byte(p: PartialOid, o: Oid)
    requires
        p.wf(),
        p.match_spec(o),
    ensures
        o >> 120 == p.oid >> 120,
{
    let s = p.shift_by as u128;
    let q = p.oid;
    assert(s <= 112 && o >> s == q >> s ==> o >> 120 == q >> 120) by (bit_vector);
    assert(o >> (p.shift_by as u128) == q >> (p.shift_by as u128));
}

/// Sortedness and fanout consistency place a present identifier's
/// position inside its leading byte's fanout window.
pub proof fn lemma_found_index_in_fanout_window(idx: IDXFileLight, i: int, oid: Oid)
    requires
        idx.wf(),
        idx.fanout_consistent(),
        0 <= i < idx.num_objects,
        idx.oid_at(i) == oid,
    ensures
        idx.fanout_lo((oid >> 120) as int) <= i < idx.fanout_at((oid >> 120) as int),
{
    let b = (oid >> 120) as int;
    assert(oid >> 120 <= 0xff) by (bit_vector);
    assert(idx.oid_at(i) >> 120 <= b);
    if b > 0 {
        if i < idx.fanout_at(b - 1) {
            assert(idx.oid_at(i) >> 120 <= b - 1);
        }
    }
}

/// On a sorted, fanout-consistent index, leading bytes are ascending
/// along the table, and each fanout boundary separates entries with
/// leading byte at most `b` from those beyond it.
pub proof fn lemma_fanout_boundaries(idx: IDXFileLight, i: int, b: int)
    requires
        idx.wf(),
        idx.sorted(),
        idx.fanout_consistent(),
        0 <= b < 256,
    ensures
        0 <= i && i + 1 < idx.num_objects ==> idx.oid_at(i) >> 120 <= idx.oid_at(i + 1) >> 120,
        0 < idx.fanout_at(b) <= idx.num_objects ==> idx.oid_at(idx.fanout_at(b) - 1) >> 120 <= b,
        idx.fanout_at(b) < idx.num_objects ==> idx.oid_at(idx.fanout_at(b)) >> 120 > b,
{
    if 0 <= i && i + 1 < idx.num_objects {
        assert(idx.oid_at(i) <= idx.oid_at(i + 1));
        lemma_shift_monotone(idx.oid_at(i), idx.oid_at(i + 1));
    }
    if 0 < idx.fanout_at(b) <= idx.num_objects {
        assert(idx.fanout_at(b) - 1 < idx.fanout_at(b));
    }
}

} // verus!
