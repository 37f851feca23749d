//! The database facade's verifiable core: identifier matching over
//! discovered objects, allocation-free path building for loose
//! objects and pack files, and object retrieval from an in-memory
//! pack and its index.

use vstd::prelude::*;
use crate::error::DbError;
use crate::object_id::{Oid, OidFull, PartialOid, get_first_byte_of_oid, oid_full_to_string_no_alloc, full_hex_of};
use crate::index_file::IDXFileLight;
use crate::pack_file::{PackFile, PackFileObjectType, entry_head_parse, resolve_entry_spec, delta_finish_spec};
use crate::loose::{UnparsedObject, UnparsedObjectType};
use crate::object_id::oid_of_bytes;
use crate::hex;

verus! {

use vstd::slice::slice_subrange;
use vstd::string::StringSliceAdditionalSpecFns;

/// The longest path the stack buffer can carry.
pub const MAX_PATH_TO_DB_LEN: usize = 4096;

/// The platform's path separator as a byte.
/// Relies on std's `MAIN_SEPARATOR`: a slash on Unix-like platforms,
/// a backslash on Windows.
#[verifier::external_body]
pub fn main_sep_byte() -> (r: u8)
    ensures
        r == 47 || r == 92,
{
    match std::path::MAIN_SEPARATOR {
        '/' => 47,
        _ => 92,
    }
}

/// Seeing whether an identifier, full or partial, matches a candidate
/// without caring which of the two it is.
pub trait DoesMatch: Sized {
    /// What the implementation demands of its value.
    spec fn inv(&self) -> bool;

    /// What matching means.
    spec fn match_spec(&self, other: Oid) -> bool;

    /// The leading byte the scan starts at.
    spec fn first_byte_spec(&self) -> u8;

    /// Does this identifier match the candidate?
    fn matches(&self, other: Oid) -> (r: bool)
        requires
            self.inv(),
        ensures
            r == self.match_spec(other),
    ;

    /// The leading byte of this identifier.
    fn get_first_byte(&self) -> (r: u8)
        requires
            self.inv(),
        ensures
            r == self.first_byte_spec(),
    ;
}

impl DoesMatch for Oid {
    open spec fn inv(&self) -> bool {
        true
    }

    open spec fn match_spec(&self, other: Oid) -> bool {
        *self == other
    }

    open spec fn first_byte_spec(&self) -> u8 {
        (*self >> 120) as u8
    }

    fn matches(&self, other: Oid) -> (r: bool) {
        *self == other
    }

    fn get_first_byte(&self) -> (r: u8) {
        get_first_byte_of_oid(*self)
    }
}

impl DoesMatch for PartialOid {
    open spec fn inv(&self) -> bool {
        self.wf()
    }

    open spec fn match_spec(&self, other: Oid) -> bool {
        PartialOid::match_spec(*self, other)
    }

    open spec fn first_byte_spec(&self) -> u8 {
        (self.oid >> 120) as u8
    }

    fn matches(&self, other: Oid) -> (r: bool) {
        PartialOid::matches(self, other)
    }

    fn get_first_byte(&self) -> (r: u8) {
        get_first_byte_of_oid(self.oid)
    }
}

/// Where a packed object was found: which pack holds it, where its
/// entry starts, and its position in the index's sorted list.
#[derive(Debug, Copy, Clone)]
pub struct FoundPackedLocation {
    /// The identity shared by the `.idx` and `.pack` files.
    pub id: OidFull,
    /// The byte offset of the entry inside the pack file.
    pub object_starts_at: u64,
    /// The object's position in the index's sorted list.
    pub oid_index: usize,
}

/// Where an object was found: a loose file's path, or a place inside
/// a pack.
#[derive(Debug, Clone)]
pub enum FoundObjectLocation {
    /// The path of the loose object file.
    FoundLoose(String),
    /// The information needed to read the object out of a pack.
    FoundPacked(FoundPackedLocation),
}

/// The identifiers among `oids` that the partial identifier matches,
/// in their original order: exactly the matching subset.
pub fn find_matching_in_oids(oids: &Vec<Oid>, partial: &PartialOid) -> (r: Vec<Oid>)
    requires
        partial.wf(),
    ensures
        r@ == matching_subset(oids@, *partial),
{
    let mut out: Vec<Oid> = Vec::new();
    let mut i: usize = 0;
    let n = oids.len();
    proof {
        reveal(Seq::filter);
        assert(oids@.take(0) =~= Seq::<Oid>::empty());
        assert(matching_subset(Seq::<Oid>::empty(), *partial) =~= Seq::<Oid>::empty());
    }
    while i < n
        invariant
            partial.wf(),
            i <= n == oids@.len(),
            out@ == matching_subset(oids@.take(i as int), *partial),
        decreases n - i,
    {
        let o = oids[i];
        let ghost prefix = oids@.take(i as int);
        proof {
            reveal(Seq::filter);
            assert(oids@.take(i + 1) =~= prefix.push(o));
            assert(prefix.push(o).drop_last() =~= prefix);
            assert(prefix.push(o).last() == o);
        }
        if partial.matches(o) {
            out.push(o);
        }
        i = i + 1;
    }
    proof {
        assert(oids@.take(n as int) =~= oids@);
    }
    out
}

/// The ambiguity policy over a set of matches: no match is not
/// found, one match is that identifier, and two or more are reported
/// together as ambiguous.
pub fn classify_matches(matches: &Vec<Oid>) -> (r: Result<Oid, DbError>)
    ensures
        matches@.len() == 0 ==> r == Result::<Oid, DbError>::Err(DbError::NotFound),
        matches@.len() == 1 ==> r == Result::<Oid, DbError>::Ok(matches@[0]),
        matches@.len() >= 2 ==> (r matches Err(DbError::Ambiguous(v)) && v@ == matches@),
{
    if matches.len() == 0 {
        Err(DbError::NotFound)
    } else if matches.len() == 1 {
        Ok(matches[0])
    } else {
        let mut copy: Vec<Oid> = Vec::new();
        let mut i: usize = 0;
        let n = matches.len();
        while i < n
            invariant
                i <= n == matches@.len(),
                copy@ =~= matches@.take(i as int),
            decreases n - i,
        {
            copy.push(matches[i]);
            i = i + 1;
        }
        proof {
            assert(copy@ =~= matches@);
        }
        Err(DbError::Ambiguous(copy))
    }
}

/// The matching subset of a sequence of identifiers: those the
/// partial identifier matches, in their original order.
pub open spec fn matching_subset(oids: Seq<Oid>, partial: PartialOid) -> Seq<Oid> {
    oids.filter(|o: Oid| partial.match_spec(o))
}

/// For any set of identifiers and any partial identifier, the
/// matching subset holds exactly the identifiers whose pinned-down
/// leading bits equal the prefix: every identifier in it matches, and
/// every matching identifier is in it.
pub proof fn lemma_matching_subset_characterization(oids: Seq<Oid>, partial: PartialOid)
    requires
        partial.wf(),
    ensures
        forall|k: int|
            0 <= k < matching_subset(oids, partial).len() ==> partial.match_spec(
                #[trigger] matching_subset(oids, partial)[k],
            ),
        forall|i: int|
            0 <= i < oids.len() && partial.match_spec(#[trigger] oids[i]) ==> matching_subset(
                oids,
                partial,
            ).contains(oids[i]),
{
    let pred = |o: Oid| partial.match_spec(o);
    assert forall|k: int| 0 <= k < oids.filter(pred).len() implies partial.match_spec(
        #[trigger] oids.filter(pred)[k],
    ) by {
        oids.lemma_filter_pred(pred, k);
    }
    assert forall|i: int|
        0 <= i < oids.len() && partial.match_spec(#[trigger] oids[i]) implies oids.filter(
        pred,
    ).contains(oids[i]) by {
        oids.lemma_filter_contains(pred, i);
    }
}

/// A database rooted at one objects directory, holding the directory
/// path pre-copied into a stack buffer so derived paths need no
/// allocation.
pub struct LightObjectDB<'a> {
    /// The objects directory.
    pub path_to_db: &'a str,
    /// The directory's bytes followed by one separator, zero padded.
    pub path_to_db_bytes: [u8; 4096],
    /// How many of those bytes are meaningful.
    pub path_to_db_bytes_start: usize,
}

impl<'a> LightObjectDB<'a> {
    /// The buffer holds the directory bytes and a trailing separator,
    /// and leaves room for the longest name ever appended.
    pub open spec fn wf(self) -> bool {
        &&& self.path_to_db_bytes_start >= 1
        &&& self.path_to_db_bytes_start <= 4096 - 60
        &&& (self.path_to_db_bytes@[self.path_to_db_bytes_start - 1] == 47
            || self.path_to_db_bytes@[self.path_to_db_bytes_start - 1] == 92)
    }

    /// The meaningful prefix of the buffer: directory plus separator.
    pub open spec fn base_bytes(self) -> Seq<u8> {
        self.path_to_db_bytes@.subrange(0, self.path_to_db_bytes_start as int)
    }

    /// Root a database at an objects directory. Fails exactly when
    /// the path is too long for the stack buffer.
    pub fn new(p: &'a str) -> (r: Result<LightObjectDB<'a>, DbError>)
        ensures
            match r {
                Ok(db) => {
                    &&& db.wf()
                    &&& db.path_to_db == p
                    &&& db.path_to_db_bytes_start == p.spec_bytes().len() + 1
                    &&& db.base_bytes().take(
                        p.spec_bytes().len() as int,
                    ) == p.spec_bytes()
                },
                Err(_) => p.spec_bytes().len() >= 4096 - 60,
            },
    {
        let pb = p.as_bytes();
        let p_len = pb.len();
        if p_len >= MAX_PATH_TO_DB_LEN - 60 {
            return Err(DbError::Oversize);
        }
        let mut path_to_db_bytes: [u8; 4096] = [0; 4096];
        let mut i: usize = 0;
        while i < p_len
            invariant
                i <= p_len < 4096 - 60,
                pb@ == p.spec_bytes(),
                pb@.len() == p_len,
                path_to_db_bytes@.len() == 4096,
                forall|j: int| 0 <= j < i ==> path_to_db_bytes@[j] == pb@[j],
            decreases p_len - i,
        {
            path_to_db_bytes[i] = pb[i];
            i = i + 1;
        }
        path_to_db_bytes[p_len] = main_sep_byte();
        let out = LightObjectDB {
            path_to_db: p,
            path_to_db_bytes,
            path_to_db_bytes_start: p_len + 1,
        };
        proof {
            assert(out.base_bytes().take(p_len as int) =~= p.spec_bytes());
        }
        Ok(out)
    }

    /// The base path extended by a relative name: the filled buffer
    /// and the index its meaningful bytes run to.
    pub fn get_static_path_str(&self, extend_by: &[u8]) -> (r: ([u8; 4096], usize))
        requires
            self.wf(),
            extend_by@.len() <= 60,
        ensures
            r.1 == self.path_to_db_bytes_start + extend_by@.len(),
            r.0@.subrange(0, r.1 as int) == self.base_bytes() + extend_by@,
    {
        let mut stack_arr = self.path_to_db_bytes;
        let extend_num = extend_by.len();
        let start = self.path_to_db_bytes_start;
        let mut i: usize = 0;
        while i < extend_num
            invariant
                i <= extend_num <= 60,
                extend_num == extend_by@.len(),
                start + 60 <= 4096,
                start == self.path_to_db_bytes_start,
                stack_arr@.len() == 4096,
                forall|j: int| 0 <= j < start ==> stack_arr@[j] == self.path_to_db_bytes@[j],
                forall|j: int| 0 <= j < i ==> stack_arr@[start + j] == extend_by@[j],
            decreases extend_num - i,
        {
            stack_arr[start + i] = extend_by[i];
            i = i + 1;
        }
        let take_slice_to = start + extend_num;
        proof {
            assert(stack_arr@.subrange(0, take_slice_to as int) =~= self.base_bytes()
                + extend_by@);
        }
        (stack_arr, take_slice_to)
    }

    /// The relative name `pack/pack-<40 hex>.pack` built from a hex
    /// digest.
    pub open spec fn pack_rel_name(sep: u8, hex40: Seq<u8>) -> Seq<u8> {
        seq![112u8, 97u8, 99u8, 107u8, sep, 112u8, 97u8, 99u8, 107u8, 45u8] + hex40 + seq![
            46u8,
            112u8,
            97u8,
            99u8,
            107u8,
        ]
    }

    /// The relative name `pack/pack-<40 hex>.idx` built from a hex
    /// digest.
    pub open spec fn idx_rel_name(sep: u8, hex40: Seq<u8>) -> Seq<u8> {
        seq![112u8, 97u8, 99u8, 107u8, sep, 112u8, 97u8, 99u8, 107u8, 45u8] + hex40 + seq![
            46u8,
            105u8,
            100u8,
            120u8,
        ]
    }

    /// Build the relative pack or index file name from 40 hex
    /// characters.
    fn build_pack_rel(&self, hex_str: &[u8], idx: bool) -> (r: ([u8; 55], usize))
        requires
            hex_str@.len() >= 40,
        ensures
            idx ==> r.1 == 54 && r.0@.subrange(0, 54) == Self::idx_rel_name(
                r.0@[4],
                hex_str@.take(40),
            ) && (r.0@[4] == 47 || r.0@[4] == 92),
            !idx ==> r.1 == 55 && r.0@.subrange(0, 55) == Self::pack_rel_name(
                r.0@[4],
                hex_str@.take(40),
            ) && (r.0@[4] == 47 || r.0@[4] == 92),
    {
        let sep = main_sep_byte();
        let mut out: [u8; 55] = [0; 55];
        out[0] = 112;
        out[1] = 97;
        out[2] = 99;
        out[3] = 107;
        out[4] = sep;
        out[5] = 112;
        out[6] = 97;
        out[7] = 99;
        out[8] = 107;
        out[9] = 45;
        let mut i: usize = 0;
        while i < 40
            invariant
                i <= 40,
                hex_str@.len() >= 40,
                out@.len() == 55,
                out@[0] == 112 && out@[1] == 97 && out@[2] == 99 && out@[3] == 107,
                out@[4] == sep,
                out@[5] == 112 && out@[6] == 97 && out@[7] == 99 && out@[8] == 107,
                out@[9] == 45,
                forall|j: int| 0 <= j < i ==> out@[10 + j] == hex_str@[j],
            decreases 40 - i,
        {
            out[10 + i] = hex_str[i];
            i = i + 1;
        }
        if idx {
            out[50] = 46;
            out[51] = 105;
            out[52] = 100;
            out[53] = 120;
            proof {
                assert(out@.subrange(0, 54) =~= Self::idx_rel_name(sep, hex_str@.take(40)));
            }
            (out, 54)
        } else {
            out[50] = 46;
            out[51] = 112;
            out[52] = 97;
            out[53] = 99;
            out[54] = 107;
            proof {
                assert(out@.subrange(0, 55) =~= Self::pack_rel_name(sep, hex_str@.take(40)));
            }
            (out, 55)
        }
    }

    /// The full path of `pack/pack-<40 hex>.pack` under the base,
    /// from the hex characters of the pack's identity.
    pub fn get_pack_file_str_array_from_hash(&self, hex_str: &[u8]) -> (r: ([u8; 4096], usize))
        requires
            self.wf(),
            hex_str@.len() >= 40,
        ensures
            r.1 == self.path_to_db_bytes_start + 55,
            exists|sep: u8|
                (sep == 47 || sep == 92) && r.0@.subrange(0, r.1 as int) == self.base_bytes()
                    + #[trigger] Self::pack_rel_name(sep, hex_str@.take(40)),
    {
        let (rel, rel_len) = self.build_pack_rel(hex_str, false);
        let rel_slice = slice_subrange(rel.as_slice(), 0, 55);
        let r = self.get_static_path_str(rel_slice);
        proof {
            assert(rel_slice@ =~= rel@.subrange(0, 55));
        }
        r
    }

    /// The full path of `pack/pack-<40 hex>.idx` under the base, from
    /// the hex characters of the pack's identity.
    pub fn get_idx_file_str_array_from_hash(&self, hex_str: &[u8]) -> (r: ([u8; 4096], usize))
        requires
            self.wf(),
            hex_str@.len() >= 40,
        ensures
            r.1 == self.path_to_db_bytes_start + 54,
            exists|sep: u8|
                (sep == 47 || sep == 92) && r.0@.subrange(0, r.1 as int) == self.base_bytes()
                    + #[trigger] Self::idx_rel_name(sep, hex_str@.take(40)),
    {
        let (rel, rel_len) = self.build_pack_rel(hex_str, true);
        let rel_slice = slice_subrange(rel.as_slice(), 0, 54);
        let r = self.get_static_path_str(rel_slice);
        proof {
            assert(rel_slice@ =~= rel@.subrange(0, 54));
        }
        r
    }

    /// The full pack file path from a pack's 20-byte identity.
    pub fn get_pack_file_str_array(&self, oidfull: OidFull) -> (r: ([u8; 4096], usize))
        requires
            self.wf(),
        ensures
            r.1 == self.path_to_db_bytes_start + 55,
            exists|sep: u8|
                (sep == 47 || sep == 92) && r.0@.subrange(0, r.1 as int) == self.base_bytes()
                    + #[trigger] Self::pack_rel_name(sep, full_hex_of(oidfull@)),
    {
        let hex_str = oid_full_to_string_no_alloc(oidfull);
        let r = self.get_pack_file_str_array_from_hash(hex_str.as_slice());
        proof {
            assert(hex_str@.take(40) =~= full_hex_of(oidfull@));
        }
        r
    }

    /// The full index file path from a pack's 20-byte identity.
    pub fn get_idx_file_str_array(&self, oidfull: OidFull) -> (r: ([u8; 4096], usize))
        requires
            self.wf(),
        ensures
            r.1 == self.path_to_db_bytes_start + 54,
            exists|sep: u8|
                (sep == 47 || sep == 92) && r.0@.subrange(0, r.1 as int) == self.base_bytes()
                    + #[trigger] Self::idx_rel_name(sep, full_hex_of(oidfull@)),
    {
        let hex_str = oid_full_to_string_no_alloc(oidfull);
        let r = self.get_idx_file_str_array_from_hash(hex_str.as_slice());
        proof {
            assert(hex_str@.take(40) =~= full_hex_of(oidfull@));
        }
        r
    }

    /// The full path of the loose folder `<hh>` for a leading byte.
    pub fn get_loose_folder_str_array(&self, first_byte: u8) -> (r: ([u8; 4096], usize))
        requires
            self.wf(),
        ensures
            r.1 == self.path_to_db_bytes_start + 2,
            r.0@.subrange(0, r.1 as int) == self.base_bytes() + seq![
                hex::hex_digit_byte(first_byte as int / 16),
                hex::hex_digit_byte(first_byte as int % 16),
            ],
    {
        let hi = hex::hex_digit_of(first_byte / 16);
        let lo = hex::hex_digit_of(first_byte % 16);
        let rel: [u8; 2] = [hi, lo];
        let r = self.get_static_path_str(rel.as_slice());
        proof {
            assert(rel@ =~= seq![
                hex::hex_digit_byte(first_byte as int / 16),
                hex::hex_digit_byte(first_byte as int % 16),
            ]);
        }
        r
    }

    /// Read an object out of an in-memory pack by its identifier,
    /// looking its entry up in the pack's index. An offset delta is
    /// followed within the pack; a reference delta's base is looked
    /// up in the same index, and must itself stand alone there. On
    /// success the identifier was present, and the returned object is
    /// what its entry — or its entry's delta against the base the
    /// index names — denotes; on a sorted, fanout-consistent index
    /// holding a servable identifier, success is owed.
    pub fn get_packed_object_from_oid(
        &self,
        oid: Oid,
        pack_file: &PackFile,
        idx_file: &IDXFileLight,
    ) -> (r: Result<UnparsedObject, DbError>)
        requires
            idx_file.wf(),
        ensures
            r is Ok ==> idx_file.contains_oid(oid),
            idx_file.sorted() && idx_file.fanout_consistent() && idx_file.contains_oid(oid)
                && oid_resolvable(pack_file.data@, *idx_file, oid) ==> r is Ok,
            match r {
                Ok(obj) => exists|i: int|
                    {
                        &&& 0 <= i < idx_file.num_objects
                        &&& #[trigger] idx_file.oid_at(i) == oid
                        &&& match idx_file.offset_at(i) {
                            Some(off) => resolve_entry_spec(pack_file.data@, off as int) == Some(
                                (obj.object_type, obj.payload@),
                            ) || ref_delta_resolution(
                                pack_file.data@,
                                *idx_file,
                                off as int,
                                obj.object_type,
                                obj.payload@,
                            ),
                            None => false,
                        }
                    },
                Err(_) => true,
            },
    {
        let ghost d = pack_file.data@;
        let ghost served = idx_file.sorted() && idx_file.fanout_consistent()
            && idx_file.contains_oid(oid) && oid_resolvable(pack_file.data@, *idx_file, oid);
        let oid_index = match idx_file.find_oid_and_fanout_index(oid) {
            Ok(i) => i,
            Err(e) => {
                return Err(e);
            }
        };
        let pack_index = match idx_file.find_packfile_index_from_fanout_index(oid_index) {
            Some(i) => i,
            None => {
                proof {
                    if served {
                        assert(idx_file.oid_at(oid_index as int) == oid);
                        assert(false);
                    }
                }
                return Err(DbError::Corrupt);
            }
        };
        proof {
            if served {
                assert(idx_file.oid_at(oid_index as int) == oid);
            }
        }
        if pack_index > usize::MAX as u64 {
            return Err(DbError::Oversize);
        }
        let start = pack_index as usize;
        let ghost entry_served = served && (resolve_entry_spec(d, start as int) is Some
            || ref_delta_ok(d, *idx_file, start as int));
        proof {
            if served {
                assert(entry_served);
            }
        }
        let (obj_type, obj_size, obj_starts_at) = match pack_file.get_object_type_and_len_at_index(
            start,
        ) {
            Ok(h) => h,
            Err(e) => {
                proof {
                    if entry_served {
                        if resolve_entry_spec(d, start as int) is Some {
                            crate::pack_file::lemma_resolve_some_entry_header_ok(
                                d,
                                start as int,
                            );
                        }
                        assert(false);
                    }
                }
                return Err(e);
            }
        };
        if obj_size > usize::MAX as u128 {
            proof {
                if entry_served {
                    assert(false);
                }
            }
            return Err(DbError::Oversize);
        }
        let size_us = obj_size as usize;
        match obj_type {
            PackFileObjectType::RefDelta(base_id) => {
                // resolve the base through the same index, then apply
                // this entry's delta to it
                proof {
                    if entry_served {
                        assert(ref_delta_ok(d, *idx_file, start as int));
                    }
                }
                let base_oid = crate::object_id::full_oid_to_u128_oid(base_id);
                let base_index = match idx_file.find_oid_and_fanout_index(base_oid) {
                    Ok(i) => i,
                    Err(e) => {
                        proof {
                            if entry_served {
                                assert(false);
                            }
                        }
                        return Err(e);
                    }
                };
                let base_off = match idx_file.find_packfile_index_from_fanout_index(base_index) {
                    Some(i) => i,
                    None => {
                        proof {
                            if entry_served {
                                assert(idx_file.oid_at(base_index as int) == base_oid);
                                assert(false);
                            }
                        }
                        return Err(DbError::Corrupt);
                    }
                };
                proof {
                    if entry_served {
                        assert(idx_file.oid_at(base_index as int) == base_oid);
                    }
                }
                if base_off > usize::MAX as u64 {
                    proof {
                        if entry_served {
                            assert(false);
                        }
                    }
                    return Err(DbError::Oversize);
                }
                let base_obj = match pack_file.resolve_entry(base_off as usize) {
                    Ok(o) => o,
                    Err(e) => {
                        proof {
                            if entry_served {
                                assert(false);
                            }
                        }
                        return Err(e);
                    }
                };
                let out = match pack_file.resolve_unparsed_object_with_base(
                    size_us,
                    obj_starts_at,
                    &base_obj,
                ) {
                    Ok(o) => o,
                    Err(e) => {
                        proof {
                            if entry_served {
                                assert(false);
                            }
                        }
                        return Err(e);
                    }
                };
                proof {
                    let d = pack_file.data@;
                    assert(ref_delta_resolution(
                        d,
                        *idx_file,
                        start as int,
                        out.object_type,
                        out.payload@,
                    )) by {
                        assert(idx_file.oid_at(base_index as int) == base_oid);
                        assert(idx_file.offset_at(base_index as int) == Some(
                            base_off as nat,
                        ));
                    }
                    assert(idx_file.oid_at(oid_index as int) == oid);
                }
                Ok(out)
            },
            _ => {
                let out = match pack_file.resolve_unparsed_object(
                    size_us,
                    obj_starts_at,
                    obj_type,
                ) {
                    Ok(o) => o,
                    Err(e) => {
                        proof {
                            if entry_served {
                                assert(false);
                            }
                        }
                        return Err(e);
                    }
                };
                proof {
                    let d = pack_file.data@;
                    assert(resolve_entry_spec(d, start as int) == Some(
                        (out.object_type, out.payload@),
                    ));
                    assert(idx_file.oid_at(oid_index as int) == oid);
                }
                Ok(out)
            },
        }
    }
}

/// The entry at `start` is a reference delta the index can fully
/// serve: a usable offset stands at every position holding the named
/// base, and the base entry there resolves standalone to a payload
/// this entry's delta applies to.
pub open spec fn ref_delta_ok(d: Seq<u8>, idx: IDXFileLight, start: int) -> bool {
    match entry_head_parse(d, start) {
        Some((tag, sz, af)) => {
            &&& tag == 7
            &&& af - start <= 18
            &&& af + 20 <= d.len()
            &&& sz <= usize::MAX
            &&& {
                let base_oid = oid_of_bytes(d.subrange(af, af + 20));
                &&& idx.contains_oid(base_oid)
                &&& forall|j: int|
                    0 <= j < idx.num_objects && #[trigger] idx.oid_at(j) == base_oid
                        ==> match idx.offset_at(j) {
                        Some(boff) => boff <= usize::MAX && match resolve_entry_spec(
                            d,
                            boff as int,
                        ) {
                            Some((bty, bp)) => delta_finish_spec(d, bp, sz, af + 20) is Some,
                            None => false,
                        },
                        None => false,
                    }
            }
        },
        None => false,
    }
}

/// Every position holding `oid` can be served: a usable offset is
/// stored there, and the entry it points at resolves — standalone or
/// as a reference delta the index can serve.
pub open spec fn oid_resolvable(d: Seq<u8>, idx: IDXFileLight, oid: Oid) -> bool {
    forall|i: int|
        0 <= i < idx.num_objects && #[trigger] idx.oid_at(i) == oid ==> match idx.offset_at(i) {
            Some(off) => off <= usize::MAX && (resolve_entry_spec(d, off as int) is Some
                || ref_delta_ok(d, idx, off as int)),
            None => false,
        }
}

/// The entry at `start` is a reference delta, and the index locates
/// its base: some position holds the named base identifier, the base
/// entry there resolves, and applying this entry's delta to it gives
/// exactly the stated type and payload.
pub open spec fn ref_delta_resolution(
    d: Seq<u8>,
    idx: IDXFileLight,
    start: int,
    ty: UnparsedObjectType,
    payload: Seq<u8>,
) -> bool {
    match entry_head_parse(d, start) {
        Some((tag, sz, af)) => tag == 7 && af + 20 <= d.len() && {
            let base_oid = oid_of_bytes(d.subrange(af, af + 20));
            exists|j: int|
                #![trigger idx.oid_at(j)]
                {
                    &&& 0 <= j < idx.num_objects
                    &&& idx.oid_at(j) == base_oid
                    &&& match idx.offset_at(j) {
                        Some(boff) => match resolve_entry_spec(d, boff as int) {
                            Some((bty, bp)) => ty == bty && delta_finish_spec(
                                d,
                                bp,
                                sz,
                                af + 20,
                            ) == Some(payload),
                            None => false,
                        },
                        None => false,
                    }
                }
        },
        None => false,
    }
}

} // verus!
