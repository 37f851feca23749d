//! The packfile payload: a 12-byte header, then variable-length
//! entries — each a type-and-size head, an optional delta reference,
//! and a zlib stream — and a trailing digest.

use vstd::prelude::*;
use crate::error::DbError;
use crate::object_id::OidFull;
use crate::loose::{UnparsedObject, UnparsedObjectType};
use crate::varint;
use crate::delta;
use crate::zlib;
use crate::be_bytes;

verus! {

use vstd::arithmetic::power2::pow2;
use vstd::slice::slice_subrange;

/// The type of a packfile entry before its delta reference is read.
#[derive(Debug, Copy, Clone, PartialEq, Eq, Structural)]
pub enum PackFileObjectTypeInner {
    Commit,
    Tree,
    Blob,
    Tag,
    OfsDelta,
    RefDelta,
}

/// The type of a packfile entry, delta references included.
#[derive(Debug, Copy, Clone)]
pub enum PackFileObjectType {
    Commit,
    Tree,
    Blob,
    Tag,
    /// The index where the base entry starts.
    OfsDelta(usize),
    /// The digest of the object that serves as the base.
    RefDelta(OidFull),
}

impl PackFileObjectTypeInner {
    /// The entry type named by a masked type byte, as the low seven
    /// bits of an entry's first byte encode it: tag 1 through 4 for
    /// the simple types, 6 and 7 for the deltas. Tag 0 is illegal and
    /// tag 5 reserved.
    pub fn try_from(value: u8) -> (r: Result<Self, DbError>)
        ensures
            match r {
                Ok(t) => (value == 0x10 && t == PackFileObjectTypeInner::Commit) || (value == 0x20
                    && t == PackFileObjectTypeInner::Tree) || (value == 0x30 && t
                    == PackFileObjectTypeInner::Blob) || (value == 0x40 && t
                    == PackFileObjectTypeInner::Tag) || (value == 0x60 && t
                    == PackFileObjectTypeInner::OfsDelta) || (value == 0x70 && t
                    == PackFileObjectTypeInner::RefDelta),
                Err(_) => value != 0x10 && value != 0x20 && value != 0x30 && value != 0x40 && value
                    != 0x60 && value != 0x70,
            },
    {
        match value {
            0x10 => Ok(PackFileObjectTypeInner::Commit),
            0x20 => Ok(PackFileObjectTypeInner::Tree),
            0x30 => Ok(PackFileObjectTypeInner::Blob),
            0x40 => Ok(PackFileObjectTypeInner::Tag),
            0x60 => Ok(PackFileObjectTypeInner::OfsDelta),
            0x70 => Ok(PackFileObjectTypeInner::RefDelta),
            0x50 => Err(DbError::Unsupported),
            _ => Err(DbError::Corrupt),
        }
    }
}

impl PackFileObjectType {
    /// Lift a simple entry type; the delta kinds carry data this
    /// conversion cannot supply.
    pub fn from_simple(simple: PackFileObjectTypeInner) -> (r: Option<PackFileObjectType>)
        ensures
            match simple {
                PackFileObjectTypeInner::Commit => r matches Some(PackFileObjectType::Commit),
                PackFileObjectTypeInner::Tree => r matches Some(PackFileObjectType::Tree),
                PackFileObjectTypeInner::Blob => r matches Some(PackFileObjectType::Blob),
                PackFileObjectTypeInner::Tag => r matches Some(PackFileObjectType::Tag),
                _ => r is None,
            },
    {
        match simple {
            PackFileObjectTypeInner::Commit => Some(PackFileObjectType::Commit),
            PackFileObjectTypeInner::Tree => Some(PackFileObjectType::Tree),
            PackFileObjectTypeInner::Blob => Some(PackFileObjectType::Blob),
            PackFileObjectTypeInner::Tag => Some(PackFileObjectType::Tag),
            PackFileObjectTypeInner::OfsDelta => None,
            PackFileObjectTypeInner::RefDelta => None,
        }
    }

    /// The object kind of a simple entry type; the delta kinds have
    /// none of their own.
    pub fn into_unparsed_type(&self) -> (r: Option<UnparsedObjectType>)
        ensures
            match self {
                PackFileObjectType::Commit => r == Some(UnparsedObjectType::Commit),
                PackFileObjectType::Tree => r == Some(UnparsedObjectType::Tree),
                PackFileObjectType::Blob => r == Some(UnparsedObjectType::Blob),
                PackFileObjectType::Tag => r == Some(UnparsedObjectType::Tag),
                _ => r is None,
            },
    {
        match self {
            PackFileObjectType::Commit => Some(UnparsedObjectType::Commit),
            PackFileObjectType::Tree => Some(UnparsedObjectType::Tree),
            PackFileObjectType::Blob => Some(UnparsedObjectType::Blob),
            PackFileObjectType::Tag => Some(UnparsedObjectType::Tag),
            PackFileObjectType::OfsDelta(_) => None,
            PackFileObjectType::RefDelta(_) => None,
        }
    }
}

/// The object kind of a simple entry type, none for the delta kinds.
pub open spec fn simple_kind(t: PackFileObjectType) -> Option<UnparsedObjectType> {
    match t {
        PackFileObjectType::Commit => Some(UnparsedObjectType::Commit),
        PackFileObjectType::Tree => Some(UnparsedObjectType::Tree),
        PackFileObjectType::Blob => Some(UnparsedObjectType::Blob),
        PackFileObjectType::Tag => Some(UnparsedObjectType::Tag),
        PackFileObjectType::OfsDelta(_) => None,
        PackFileObjectType::RefDelta(_) => None,
    }
}

/// The type-and-size head of the entry at `i`: the three tag bits, the
/// size assembled from the first byte's low four bits and any 7-bit
/// continuations, and the index just past the head.
pub open spec fn entry_head_parse(d: Seq<u8>, i: int) -> Option<(u8, nat, int)> {
    if i < 0 || i >= d.len() {
        None
    } else {
        let b0 = d[i];
        let tag = (b0 >> 4) & 7;
        if b0 < 128 {
            Some((tag, (b0 & 0x0f) as nat, i + 1))
        } else {
            match varint::varint7_parse(d, i + 1, (b0 & 0x0f) as nat, 4) {
                Some((sz, after)) => Some((tag, sz, after)),
                None => None,
            }
        }
    }
}

/// The zlib window an entry's payload is decompressed from: from
/// `start`, speculatively `size + 128` bytes, clamped to the end.
pub open spec fn window(d: Seq<u8>, start: int, size: nat) -> Seq<u8> {
    let end = if start + size + 128 > d.len() {
        d.len() as int
    } else {
        start + size + 128
    };
    d.subrange(start, end)
}

/// The payload a delta entry denotes, given the base object's payload
/// `bp`: decompress this entry's own stream at `pstart` to exactly
/// `sz` bytes, strip the two size varints heading it, apply the
/// remaining opcodes to the base, and demand exactly the declared
/// result size. Varints past 16 bytes or sizes beyond the platform's
/// index type are rejected.
pub open spec fn delta_finish_spec(d: Seq<u8>, bp: Seq<u8>, sz: nat, pstart: int) -> Option<
    Seq<u8>,
> {
    if pstart > d.len() {
        None
    } else {
        match zlib::inflate_prefix(window(d, pstart, sz)) {
            None => None,
            Some(ddata) => if ddata.len() != sz {
                None
            } else {
                match varint::varint7_parse(ddata, 0, 0, 0) {
                    None => None,
                    Some((bsz, c1)) => if c1 > 16 || bsz > usize::MAX {
                        None
                    } else {
                        match varint::varint7_parse(ddata.skip(c1), 0, 0, 0) {
                            None => None,
                            Some((rsz, c2)) => if c2 > 16 || rsz > usize::MAX {
                                None
                            } else {
                                match delta::delta_eval(bp, ddata.skip(c1).skip(c2)) {
                                    None => None,
                                    Some(out) => if out.len() == rsz {
                                        Some(out)
                                    } else {
                                        None
                                    },
                                }
                            },
                        }
                    },
                }
            },
        }
    }
}

/// The object the entry at `entry` denotes, resolving offset-delta
/// chains within this packfile. A reference delta cannot be resolved
/// from the packfile alone and denotes nothing here; the database
/// facade supplies its base.
pub open spec fn resolve_entry_spec(d: Seq<u8>, entry: int) -> Option<
    (UnparsedObjectType, Seq<u8>),
>
    decreases entry,
{
    if entry < 0 {
        None
    } else {
        match entry_head_parse(d, entry) {
            None => None,
            Some((tag, sz, af)) => {
                if af - entry > 18 || sz > usize::MAX || af > d.len() {
                    None
                } else if tag == 1 || tag == 2 || tag == 3 || tag == 4 {
                    let ty = if tag == 1 {
                        UnparsedObjectType::Commit
                    } else if tag == 2 {
                        UnparsedObjectType::Tree
                    } else if tag == 3 {
                        UnparsedObjectType::Blob
                    } else {
                        UnparsedObjectType::Tag
                    };
                    match zlib::inflate_prefix(window(d, af, sz)) {
                        Some(s) => if s.len() == sz {
                            Some((ty, s))
                        } else {
                            None
                        },
                        None => None,
                    }
                } else if tag == 6 {
                    match varint::neg_offset_parse(d.skip(af)) {
                        Some((dist, c)) => if 1 <= dist <= entry && c <= 16 {
                            match resolve_entry_spec(d, entry - dist) {
                                Some((bty, bp)) => match delta_finish_spec(d, bp, sz, af + c) {
                                    Some(out) => Some((bty, out)),
                                    None => None,
                                },
                                None => None,
                            }
                        } else {
                            None
                        },
                        None => None,
                    }
                } else {
                    None
                }
            },
        }
    }
}

/// Is the pack header sound: the `PACK` signature and version 2 or 3?
pub open spec fn pack_header_ok(d: Seq<u8>) -> bool {
    &&& d.len() >= 16
    &&& d[0] == 80 && d[1] == 65 && d[2] == 67 && d[3] == 75
    &&& (be_bytes::u32_be_at(d, 4) == 2 || be_bytes::u32_be_at(d, 4) == 3)
}

/// A packfile held in memory: the identity it shares with its index,
/// the object count its header declares, and the raw bytes.
pub struct PackFile {
    /// The 20-byte identity from the `pack-<40 hex>` file name.
    pub id: OidFull,
    /// The object count from the header.
    pub num_objects: u32,
    /// The file's bytes.
    pub data: Vec<u8>,
}

/// Validate a packfile's header and take ownership of its bytes.
/// Succeeds exactly on a sound header, and then carries the declared
/// object count.
pub fn open_pack_file(data: Vec<u8>, id: OidFull) -> (r: Result<PackFile, DbError>)
    ensures
        r is Ok <==> pack_header_ok(data@),
        r is Ok ==> {
            let p = r->Ok_0;
            &&& p.data@ == data@
            &&& p.id@ == id@
            &&& p.num_objects == be_bytes::u32_be_at(data@, 8)
        },
{
    if data.len() < 16 {
        return Err(DbError::Corrupt);
    }
    let d = data.as_slice();
    if !(d[0] == 80 && d[1] == 65 && d[2] == 67 && d[3] == 75) {
        return Err(DbError::Corrupt);
    }
    let version = be_bytes::read_u32_be(d, 4);
    if version != 2 && version != 3 {
        return Err(DbError::Corrupt);
    }
    let num_objects = be_bytes::read_u32_be(d, 8);
    Ok(PackFile { id, num_objects, data })
}

impl PackFile {
    /// How many bytes the packfile holds.
    pub fn get_pack_size(&self) -> (r: usize)
        ensures
            r == self.data@.len(),
    {
        self.data.len()
    }

    /// Parse the entry head at `index`: the entry's type — with an
    /// offset delta's base position or a reference delta's base digest
    /// — its decompressed size, and the index where its zlib stream
    /// starts. The head, size varint included, may span at most 18
    /// bytes; an offset delta must name a base strictly earlier in the
    /// file.
    pub fn get_object_type_and_len_at_index(&self, index: usize) -> (r: Result<
        (PackFileObjectType, u128, usize),
        DbError,
    >)
        ensures
            match r {
                Ok((t, size, pstart)) => {
                    let h = entry_head_parse(self.data@, index as int);
                    &&& h is Some
                    &&& {
                        let (tag, sz, af) = h->0;
                        &&& size == sz
                        &&& af - index <= 18
                        &&& af <= self.data@.len()
                        &&& pstart <= self.data@.len()
                        &&& match t {
                            PackFileObjectType::Commit => tag == 1 && pstart == af,
                            PackFileObjectType::Tree => tag == 2 && pstart == af,
                            PackFileObjectType::Blob => tag == 3 && pstart == af,
                            PackFileObjectType::Tag => tag == 4 && pstart == af,
                            PackFileObjectType::OfsDelta(base) => {
                                &&& tag == 6
                                &&& {
                                    let no = varint::neg_offset_parse(self.data@.skip(af));
                                    &&& no is Some
                                    &&& {
                                        let (dist, c) = no->0;
                                        &&& c <= 16
                                        &&& 1 <= dist <= index
                                        &&& base == index - dist
                                        &&& pstart == af + c
                                    }
                                }
                            },
                            PackFileObjectType::RefDelta(id) => {
                                &&& tag == 7
                                &&& af + 20 <= self.data@.len()
                                &&& id@ == self.data@.subrange(af, af + 20)
                                &&& pstart == af + 20
                            },
                        }
                    }
                },
                Err(_) => !entry_header_ok(self.data@, index as int),
            },
            r is Ok ==> entry_header_ok(self.data@, index as int),
    {
        let dlen = self.data.len();
        let (tag, size, after) = match self.parse_entry_head(index) {
            Some(h) => h,
            None => {
                return Err(DbError::Corrupt);
            }
        };
        if tag == 1 || tag == 2 || tag == 3 || tag == 4 {
            let t = if tag == 1 {
                PackFileObjectType::Commit
            } else if tag == 2 {
                PackFileObjectType::Tree
            } else if tag == 3 {
                PackFileObjectType::Blob
            } else {
                PackFileObjectType::Tag
            };
            Ok((t, size, after))
        } else if tag == 6 {
            let tail = slice_subrange(self.data.as_slice(), after, dlen);
            proof {
                assert(tail@ =~= self.data@.skip(after as int));
            }
            let (dist, c) = match varint::find_negative_offset(tail) {
                Some(p) => p,
                None => {
                    return Err(DbError::Corrupt);
                }
            };
            if dist == 0 || dist > index {
                return Err(DbError::Corrupt);
            }
            Ok((PackFileObjectType::OfsDelta(index - dist), size, after + c))
        } else if tag == 7 {
            if dlen - after < 20 {
                return Err(DbError::Corrupt);
            }
            let mut id: OidFull = [0; 20];
            let mut i: usize = 0;
            while i < 20
                invariant
                    after + 20 <= dlen == self.data@.len(),
                    i <= 20,
                    forall|j: int| 0 <= j < i ==> id@[j] == self.data@[after + j],
                decreases 20 - i,
            {
                id[i] = self.data[after + i];
                i = i + 1;
            }
            proof {
                assert(id@ =~= self.data@.subrange(after as int, after + 20));
            }
            Ok((PackFileObjectType::RefDelta(id), size, after + 20))
        } else if tag == 5 {
            Err(DbError::Unsupported)
        } else {
            // tag 0: not a valid entry type
            Err(DbError::Corrupt)
        }
    }

    /// Parse the tag and size varint at `index`, capped at 18 bytes.
    fn parse_entry_head(&self, index: usize) -> (r: Option<(u8, u128, usize)>)
        ensures
            match r {
                Some((tag, size, after)) => {
                    &&& entry_head_parse(self.data@, index as int) == Some(
                        (tag, size as nat, after as int),
                    )
                    &&& after - index <= 18
                    &&& index < after <= self.data@.len()
                    &&& tag <= 7
                },
                None => match entry_head_parse(self.data@, index as int) {
                    Some(h) => h.2 - index > 18,
                    None => true,
                },
            },
    {
        let dlen = self.data.len();
        if index >= dlen {
            return None;
        }
        let b0 = self.data[index];
        let tag = (b0 >> 4) & 7;
        proof {
            assert((b0 >> 4) & 7 <= 7) by (bit_vector);
            assert(b0 & 0x0f < 16) by (bit_vector);
        }
        let mut value: u128 = (b0 & 0x0f) as u128;
        if b0 < 128 {
            return Some((tag, value, index + 1));
        }
        let ghost d = self.data@;
        let mut mult: u128 = 16;
        let mut j: usize = 1;
        proof {
            vstd::arithmetic::power2::lemma2_to64();
        }
        while j < 18
            invariant
                1 <= j <= 18,
                dlen == d.len(),
                d == self.data@,
                index < dlen,
                index + j <= dlen,
                d[index as int] >= 128,
                tag == (d[index as int] >> 4) & 7,
                tag <= 7,
                mult == pow2((4 + 7 * (j - 1)) as nat),
                value < mult,
                varint::varint7_parse(d, index + 1, (d[index as int] & 0x0f) as nat, 4)
                    == varint::varint7_parse(d, index + j, value as nat, (4 + 7 * (j
                    - 1)) as nat),
            decreases 18 - j,
        {
            if index + j >= dlen {
                proof {
                    assert(varint::varint7_parse(
                        d,
                        index + j,
                        value as nat,
                        (4 + 7 * (j - 1)) as nat,
                    ) is None);
                    assert(entry_head_parse(d, index as int) is None);
                }
                return None;
            }
            let b = self.data[index + j];
            let group = b & 0x7f;
            proof {
                assert(b & 0x7f < 128) by (bit_vector);
                let m = mult as int;
                let v = value as int;
                let g = group as int;
                assert(v + g * m < m * 128) by (nonlinear_arith)
                    requires
                        0 <= v < m,
                        0 <= g < 128,
                        m >= 1,
                ;
                vstd::arithmetic::power2::lemma_pow2_adds((4 + 7 * (j - 1)) as nat, 7);
                varint::lemma_pow2_le_varint((4 + 7 * j) as nat, 123);
                vstd::arithmetic::power2::lemma_pow2_strictly_increases(123, 128);
                lemma_pow2_128_pack();
                vstd::arithmetic::power2::lemma2_to64();
            }
            value = value + (group as u128) * mult;
            if b < 128 {
                proof {
                    assert(varint::varint7_parse(
                        d,
                        index + j,
                        (value - (group as u128) * mult) as nat,
                        (4 + 7 * (j - 1)) as nat,
                    ) == Some((value as nat, index + j + 1)));
                    assert(entry_head_parse(d, index as int) == Some(
                        (tag, value as nat, index + j + 1),
                    ));
                }
                return Some((tag, value, index + j + 1));
            }
            mult = mult * 128;
            j = j + 1;
        }
        // The head would span more than 18 bytes: reject it.
        proof {
            let sz0 = (d[index as int] & 0x0f) as nat;
            if varint::varint7_parse(d, index + 1, sz0, 4) is Some {
                varint::lemma_varint7_end_grows(d, index + 18, value as nat, (4 + 7 * 17) as nat);
            }
        }
        None
    }

    /// Decompress the entry stream at `starts_at` into exactly
    /// `decompressed_size` bytes, feeding the decompressor a window of
    /// `decompressed_size + 128` bytes clamped to the end of the file.
    /// Succeeds exactly when a well-formed stream sits there and
    /// inflates to the requested size.
    pub fn get_decompressed_data_from_index(
        &self,
        decompressed_size: usize,
        starts_at: usize,
    ) -> (r: Result<Vec<u8>, DbError>)
        ensures
            match r {
                Ok(v) => {
                    &&& starts_at <= self.data@.len()
                    &&& zlib::inflate_prefix(
                        window(self.data@, starts_at as int, decompressed_size as nat),
                    ) == Some(v@)
                    &&& v@.len() == decompressed_size
                },
                Err(_) => starts_at > self.data@.len() || (match zlib::inflate_prefix(
                    window(self.data@, starts_at as int, decompressed_size as nat),
                ) {
                    Some(s) => s.len() != decompressed_size,
                    None => true,
                }),
            },
    {
        let dlen = self.data.len();
        if starts_at > dlen {
            return Err(DbError::Corrupt);
        }
        let remaining = dlen - starts_at;
        let want = decompressed_size as u128 + 128;
        let take: usize = if want > remaining as u128 {
            remaining
        } else {
            decompressed_size + 128
        };
        let w = slice_subrange(self.data.as_slice(), starts_at, starts_at + take);
        proof {
            assert(w@ =~= window(self.data@, starts_at as int, decompressed_size as nat));
        }
        let out = match zlib::inflate_all(w) {
            Some(v) => v,
            None => {
                return Err(DbError::Corrupt);
            }
        };
        if out.len() != decompressed_size {
            return Err(DbError::Corrupt);
        }
        Ok(out)
    }

    /// Decompress a simple entry and tag it with its kind.
    pub fn resolve_simple_object(
        &self,
        decompressed_size: usize,
        starts_at: usize,
        unparsed_type: UnparsedObjectType,
    ) -> (r: Result<UnparsedObject, DbError>)
        ensures
            match r {
                Ok(obj) => {
                    &&& starts_at <= self.data@.len()
                    &&& obj.object_type == unparsed_type
                    &&& zlib::inflate_prefix(
                        window(self.data@, starts_at as int, decompressed_size as nat),
                    ) == Some(obj.payload@)
                    &&& obj.payload@.len() == decompressed_size
                },
                Err(_) => starts_at > self.data@.len() || (match zlib::inflate_prefix(
                    window(self.data@, starts_at as int, decompressed_size as nat),
                ) {
                    Some(s) => s.len() != decompressed_size,
                    None => true,
                }),
            },
    {
        let data = self.get_decompressed_data_from_index(decompressed_size, starts_at)?;
        Ok(UnparsedObject { object_type: unparsed_type, payload: data })
    }

    /// Finish a delta entry whose base payload is already in hand:
    /// decompress the delta stream, strip its two size varints, and
    /// apply the opcodes to the base.
    fn finish_delta(&self, base_payload: &Vec<u8>, decompressed_size: usize, pstart: usize) -> (r:
        Result<Vec<u8>, DbError>)
        ensures
            match r {
                Ok(v) => delta_finish_spec(
                    self.data@,
                    base_payload@,
                    decompressed_size as nat,
                    pstart as int,
                ) == Some(v@),
                Err(_) => delta_finish_spec(
                    self.data@,
                    base_payload@,
                    decompressed_size as nat,
                    pstart as int,
                ) is None,
            },
    {
        let this_data = self.get_decompressed_data_from_index(decompressed_size, pstart)?;
        let (_base_size, c1) = match varint::find_encoded_length(this_data.as_slice()) {
            Some(p) => p,
            None => {
                return Err(DbError::Corrupt);
            }
        };
        let tlen = this_data.len();
        let rest1 = slice_subrange(this_data.as_slice(), c1, tlen);
        proof {
            assert(rest1@ =~= this_data@.skip(c1 as int));
        }
        let (result_size, c2) = match varint::find_encoded_length(rest1) {
            Some(p) => p,
            None => {
                return Err(DbError::Corrupt);
            }
        };
        let rest2 = slice_subrange(rest1, c2, tlen - c1);
        proof {
            assert(rest2@ =~= this_data@.skip(c1 as int).skip(c2 as int));
        }
        let out = match delta::apply_delta(base_payload.as_slice(), rest2, result_size) {
            Ok(v) => v,
            Err(e) => {
                return Err(e);
            }
        };
        Ok(out)
    }

    /// Resolve the entry that starts at `entry_start`, following
    /// offset-delta chains backwards through the file. A reference
    /// delta is an error here: its base lives outside this packfile's
    /// reach and the facade must supply it.
    pub fn resolve_entry(&self, entry_start: usize) -> (r: Result<UnparsedObject, DbError>)
        ensures
            match r {
                Ok(obj) => resolve_entry_spec(self.data@, entry_start as int) == Some(
                    (obj.object_type, obj.payload@),
                ),
                Err(_) => resolve_entry_spec(self.data@, entry_start as int) is None,
            },
        decreases entry_start,
    {
        let (t, size, pstart) = match self.get_object_type_and_len_at_index(entry_start) {
            Ok(h) => h,
            Err(e) => {
                return Err(e);
            }
        };
        if size > usize::MAX as u128 {
            return Err(DbError::Oversize);
        }
        let size_us = size as usize;
        match t {
            PackFileObjectType::Commit => self.resolve_simple_object(
                size_us,
                pstart,
                UnparsedObjectType::Commit,
            ),
            PackFileObjectType::Tree => self.resolve_simple_object(
                size_us,
                pstart,
                UnparsedObjectType::Tree,
            ),
            PackFileObjectType::Blob => self.resolve_simple_object(
                size_us,
                pstart,
                UnparsedObjectType::Blob,
            ),
            PackFileObjectType::Tag => self.resolve_simple_object(
                size_us,
                pstart,
                UnparsedObjectType::Tag,
            ),
            PackFileObjectType::OfsDelta(base_start) => {
                let base_obj = match self.resolve_entry(base_start) {
                    Ok(o) => o,
                    Err(e) => {
                        return Err(e);
                    }
                };
                let out = match self.finish_delta(&base_obj.payload, size_us, pstart) {
                    Ok(v) => v,
                    Err(e) => {
                        return Err(e);
                    }
                };
                Ok(UnparsedObject { object_type: base_obj.object_type, payload: out })
            },
            PackFileObjectType::RefDelta(_) => Err(DbError::NotFound),
        }
    }

    /// Resolve an entry whose head has already been parsed. Offset
    /// deltas are followed recursively; a reference delta is an error
    /// here, as its base must be found through the index.
    pub fn resolve_unparsed_object(
        &self,
        decompressed_size: usize,
        starts_at: usize,
        object_type: PackFileObjectType,
    ) -> (r: Result<UnparsedObject, DbError>)
        ensures
            match r {
                Ok(obj) => match object_type {
                    PackFileObjectType::OfsDelta(base) => match resolve_entry_spec(
                        self.data@,
                        base as int,
                    ) {
                        Some((bty, bp)) => obj.object_type == bty && delta_finish_spec(
                            self.data@,
                            bp,
                            decompressed_size as nat,
                            starts_at as int,
                        ) == Some(obj.payload@),
                        None => false,
                    },
                    PackFileObjectType::RefDelta(_) => false,
                    _ => {
                        &&& simple_kind(object_type) == Some(obj.object_type)
                        &&& starts_at <= self.data@.len()
                        &&& zlib::inflate_prefix(
                            window(self.data@, starts_at as int, decompressed_size as nat),
                        ) == Some(obj.payload@)
                        &&& obj.payload@.len() == decompressed_size
                    },
                },
                Err(_) => match object_type {
                    PackFileObjectType::OfsDelta(base) => match resolve_entry_spec(
                        self.data@,
                        base as int,
                    ) {
                        Some((bty, bp)) => delta_finish_spec(
                            self.data@,
                            bp,
                            decompressed_size as nat,
                            starts_at as int,
                        ) is None,
                        None => true,
                    },
                    PackFileObjectType::RefDelta(_) => true,
                    _ => starts_at > self.data@.len() || (match zlib::inflate_prefix(
                        window(self.data@, starts_at as int, decompressed_size as nat),
                    ) {
                        Some(s) => s.len() != decompressed_size,
                        None => true,
                    }),
                },
            },
    {
        match object_type {
            PackFileObjectType::Commit => self.resolve_simple_object(
                decompressed_size,
                starts_at,
                UnparsedObjectType::Commit,
            ),
            PackFileObjectType::Tree => self.resolve_simple_object(
                decompressed_size,
                starts_at,
                UnparsedObjectType::Tree,
            ),
            PackFileObjectType::Blob => self.resolve_simple_object(
                decompressed_size,
                starts_at,
                UnparsedObjectType::Blob,
            ),
            PackFileObjectType::Tag => self.resolve_simple_object(
                decompressed_size,
                starts_at,
                UnparsedObjectType::Tag,
            ),
            PackFileObjectType::OfsDelta(base_start) => self.resolve_ofs_delta_object(
                decompressed_size,
                starts_at,
                base_start,
            ),
            PackFileObjectType::RefDelta(_) => Err(DbError::NotFound),
        }
    }

    /// Apply the delta entry at `starts_at` to a base object already
    /// in hand, as reference deltas need once the index has located
    /// their base.
    pub fn resolve_unparsed_object_with_base(
        &self,
        decompressed_size: usize,
        starts_at: usize,
        base_obj: &UnparsedObject,
    ) -> (r: Result<UnparsedObject, DbError>)
        ensures
            match r {
                Ok(obj) => obj.object_type == base_obj.object_type && delta_finish_spec(
                    self.data@,
                    base_obj.payload@,
                    decompressed_size as nat,
                    starts_at as int,
                ) == Some(obj.payload@),
                Err(_) => delta_finish_spec(
                    self.data@,
                    base_obj.payload@,
                    decompressed_size as nat,
                    starts_at as int,
                ) is None,
            },
    {
        let out = match self.finish_delta(&base_obj.payload, decompressed_size, starts_at) {
            Ok(v) => v,
            Err(e) => {
                return Err(e);
            }
        };
        Ok(UnparsedObject { object_type: base_obj.object_type, payload: out })
    }

    /// Resolve an offset delta: materialize the base entry, then apply
    /// this entry's delta stream to it.
    pub fn resolve_ofs_delta_object(
        &self,
        decompressed_size: usize,
        starts_at: usize,
        base_starts_at: usize,
    ) -> (r: Result<UnparsedObject, DbError>)
        ensures
            match r {
                Ok(obj) => match resolve_entry_spec(self.data@, base_starts_at as int) {
                    Some((bty, bp)) => obj.object_type == bty && delta_finish_spec(
                        self.data@,
                        bp,
                        decompressed_size as nat,
                        starts_at as int,
                    ) == Some(obj.payload@),
                    None => false,
                },
                Err(_) => match resolve_entry_spec(self.data@, base_starts_at as int) {
                    Some((bty, bp)) => delta_finish_spec(
                        self.data@,
                        bp,
                        decompressed_size as nat,
                        starts_at as int,
                    ) is None,
                    None => true,
                },
            },
    {
        let base_obj = match self.resolve_entry(base_starts_at) {
            Ok(o) => o,
            Err(e) => {
                return Err(e);
            }
        };
        let out = match self.finish_delta(&base_obj.payload, decompressed_size, starts_at) {
            Ok(v) => v,
            Err(e) => {
                return Err(e);
            }
        };
        Ok(UnparsedObject { object_type: base_obj.object_type, payload: out })
    }
}

/// Is the entry head at `i` sound: a parseable head within 18 bytes
/// whose tag names a usable entry type, with an offset delta's base
/// strictly inside the file before the entry and a reference delta's
/// digest fully present?
pub open spec fn entry_header_ok(d: Seq<u8>, i: int) -> bool {
    match entry_head_parse(d, i) {
        None => false,
        Some((tag, sz, af)) => {
            &&& af - i <= 18
            &&& {
                ||| tag == 1
                ||| tag == 2
                ||| tag == 3
                ||| tag == 4
                ||| (tag == 6 && match varint::neg_offset_parse(d.skip(af)) {
                    Some((dist, c)) => 1 <= dist <= i && c <= 16,
                    None => false,
                })
                ||| (tag == 7 && af + 20 <= d.len())
            }
        },
    }
}

/// Every delta entry that resolves end to end produces exactly the
/// number of bytes its stream's result-size varint declares.
pub proof fn lemma_delta_payload_has_declared_size(d: Seq<u8>, bp: Seq<u8>, sz: nat, pstart: int)
    requires
        delta_finish_spec(d, bp, sz, pstart) is Some,
    ensures
        ({
            let ddata = zlib::inflate_prefix(window(d, pstart, sz))->0;
            let c1 = (varint::varint7_parse(ddata, 0, 0, 0)->0).1;
            let rsz = (varint::varint7_parse(ddata.skip(c1), 0, 0, 0)->0).0;
            delta_finish_spec(d, bp, sz, pstart)->0.len() == rsz
        }),
{
}

/// An entry that resolves has a sound header.
pub proof fn lemma_resolve_some_entry_header_ok(d: Seq<u8>, e: int)
    requires
        resolve_entry_spec(d, e) is Some,
    ensures
        entry_header_ok(d, e),
{
}

/// `2^128` is exactly one beyond the largest `u128`.
proof fn lemma_pow2_128_pack()
    ensures
        pow2(128) == 0x1_0000_0000_0000_0000_0000_0000_0000_0000,
{
    vstd::arithmetic::power2::lemma_pow2_adds(64, 64);
    vstd::arithmetic::power2::lemma2_to64();
}

} // verus!
