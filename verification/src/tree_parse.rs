//! The tree object grammar: repeated
//! `<mode-octal-ascii> " " <path> "\0" <20-raw-bytes>` until the
//! payload ends.

use vstd::prelude::*;
use crate::error::DbError;
use crate::object_id::{Oid, oid_of_bytes};
use crate::loose::find_byte;
use crate::strings_util;

verus! {

use vstd::slice::slice_subrange;
use vstd::utf8::encode_utf8;

/// A tree entry's mode, from its octal ASCII form.
#[derive(Debug, Copy, Clone, PartialEq, Eq, Structural)]
pub enum TreeMode {
    /// `40000`
    Directory,
    /// `100644`, and the rare `100640`
    RegularNonEx,
    /// `100664`
    RegularNonExGroupWrite,
    /// `100755`
    RegularEx,
    /// `120000`
    SymLink,
    /// `160000`
    GitLink,
}

impl Default for TreeMode {
    /// A directory.
    fn default() -> (r: Self)
        ensures
            r == TreeMode::Directory,
    {
        TreeMode::Directory
    }
}

impl TreeMode {
    /// Whether this mode names blob content rather than a tree.
    /// Whether a gitlink is one or the other is deliberately left
    /// open, so gitlinks are excluded here.
    pub fn is_blob(&self) -> (r: bool)
        requires
            *self != TreeMode::GitLink,
        ensures
            r == (*self != TreeMode::Directory),
    {
        match self {
            TreeMode::Directory => false,
            TreeMode::RegularNonEx
            | TreeMode::RegularNonExGroupWrite
            | TreeMode::RegularEx
            | TreeMode::SymLink => true,
            TreeMode::GitLink => false,
        }
    }
}

/// The mode named by an octal ASCII token, if any.
pub open spec fn tree_mode_of(s: Seq<u8>) -> Option<TreeMode> {
    if s == seq![52u8, 48u8, 48u8, 48u8, 48u8] {
        Some(TreeMode::Directory)
    } else if s == seq![49u8, 48u8, 48u8, 54u8, 52u8, 52u8] {
        Some(TreeMode::RegularNonEx)
    } else if s == seq![49u8, 48u8, 48u8, 54u8, 54u8, 52u8] {
        Some(TreeMode::RegularNonExGroupWrite)
    } else if s == seq![49u8, 48u8, 48u8, 54u8, 52u8, 48u8] {
        Some(TreeMode::RegularNonEx)
    } else if s == seq![49u8, 48u8, 48u8, 55u8, 53u8, 53u8] {
        Some(TreeMode::RegularEx)
    } else if s == seq![49u8, 50u8, 48u8, 48u8, 48u8, 48u8] {
        Some(TreeMode::SymLink)
    } else if s == seq![49u8, 54u8, 48u8, 48u8, 48u8, 48u8] {
        Some(TreeMode::GitLink)
    } else {
        None
    }
}

impl TreeMode {
    /// The mode named by an octal ASCII token: `40000` a directory,
    /// `100644`, `100664` and `100640` regular files, `100755` an
    /// executable, `120000` a symlink, `160000` a gitlink.
    pub fn try_from(value: &[u8]) -> (r: Result<TreeMode, DbError>)
        ensures
            match r {
                Ok(m) => tree_mode_of(value@) == Some(m),
                Err(_) => tree_mode_of(value@) is None,
            },
    {
        let pats: [&[u8]; 7] = [
            &[52, 48, 48, 48, 48],
            &[49, 48, 48, 54, 52, 52],
            &[49, 48, 48, 54, 54, 52],
            &[49, 48, 48, 54, 52, 48],
            &[49, 48, 48, 55, 53, 53],
            &[49, 50, 48, 48, 48, 48],
            &[49, 54, 48, 48, 48, 48],
        ];
        let modes: [TreeMode; 7] = [
            TreeMode::Directory,
            TreeMode::RegularNonEx,
            TreeMode::RegularNonExGroupWrite,
            TreeMode::RegularNonEx,
            TreeMode::RegularEx,
            TreeMode::SymLink,
            TreeMode::GitLink,
        ];
        let mut k: usize = 0;
        while k < 7
            invariant
                k <= 7,
                pats@.len() == 7,
                modes@.len() == 7,
                pats@[0]@ =~= seq![52u8, 48u8, 48u8, 48u8, 48u8],
                pats@[1]@ =~= seq![49u8, 48u8, 48u8, 54u8, 52u8, 52u8],
                pats@[2]@ =~= seq![49u8, 48u8, 48u8, 54u8, 54u8, 52u8],
                pats@[3]@ =~= seq![49u8, 48u8, 48u8, 54u8, 52u8, 48u8],
                pats@[4]@ =~= seq![49u8, 48u8, 48u8, 55u8, 53u8, 53u8],
                pats@[5]@ =~= seq![49u8, 50u8, 48u8, 48u8, 48u8, 48u8],
                pats@[6]@ =~= seq![49u8, 54u8, 48u8, 48u8, 48u8, 48u8],
                modes@[0] == TreeMode::Directory,
                modes@[1] == TreeMode::RegularNonEx,
                modes@[2] == TreeMode::RegularNonExGroupWrite,
                modes@[3] == TreeMode::RegularNonEx,
                modes@[4] == TreeMode::RegularEx,
                modes@[5] == TreeMode::SymLink,
                modes@[6] == TreeMode::GitLink,
                forall|j: int| 0 <= j < k ==> value@ != #[trigger] pats@[j]@,
            decreases 7 - k,
        {
            if crate::be_bytes::slice_eq(value, pats[k]) {
                return Ok(modes[k]);
            }
            k = k + 1;
        }
        Err(DbError::Corrupt)
    }
}

/// One parsed tree entry.
#[derive(Debug)]
pub struct TreeEntry {
    /// The named object's identifier.
    pub id: Oid,
    /// The path component, UTF-8 decoded.
    pub path_component: String,
    /// The entry's mode.
    pub entry_mode: TreeMode,
}

/// A parsed tree: its entries in file order.
#[derive(Debug)]
pub struct TreeObject {
    pub entries: Vec<TreeEntry>,
}

impl Default for TreeObject {
    /// A tree with no entries.
    fn default() -> (r: Self)
        ensures
            r.entries@.len() == 0,
    {
        TreeObject { entries: Vec::new() }
    }
}

/// The entry at `pos`: its mode, its path component's bytes, the
/// identifier from the 20 raw digest bytes after the null, and the
/// position just past the entry. Nothing when no null byte follows,
/// the mode token is unknown, the space is missing, or the digest is
/// cut short.
pub open spec fn tree_entry_spec(d: Seq<u8>, pos: int) -> Option<(TreeMode, Seq<u8>, Oid, int)> {
    match find_byte(d, 0, pos, d.len() as int) {
        None => None,
        Some(n) => match find_byte(d, 32, pos, n) {
            None => None,
            Some(sp) => match tree_mode_of(d.subrange(pos, sp)) {
                None => None,
                Some(m) => if n + 21 <= d.len() {
                    Some((m, d.subrange(sp + 1, n), oid_of_bytes(d.subrange(n + 1, n + 21)), n
                        + 21))
                } else {
                    None
                },
            },
        },
    }
}

/// Parse the tree entry at `*curr`, advancing `*curr` past it.
/// Succeeds exactly when the entry is well formed and its path
/// component is valid UTF-8; the decoded path encodes back to exactly
/// the path bytes. On failure `*curr` is unchanged.
pub fn get_tree_entry(raw: &[u8], curr: &mut usize) -> (r: Result<TreeEntry, DbError>)
    requires
        *old(curr) <= raw@.len(),
    ensures
        match r {
            Ok(e) => {
                let t = tree_entry_spec(raw@, *old(curr) as int);
                &&& t is Some
                &&& {
                    let (m, pb, oid, nx) = t->0;
                    &&& e.entry_mode == m
                    &&& encode_utf8(e.path_component@) == pb
                    &&& e.id == oid
                    &&& *final(curr) == nx
                    &&& *old(curr) < nx <= raw@.len()
                }
            },
            Err(_) => {
                &&& *final(curr) == *old(curr)
                &&& match tree_entry_spec(raw@, *old(curr) as int) {
                    Some((m, pb, oid, nx)) => !strings_util::utf8_decodable(pb),
                    None => true,
                }
            },
        },
{
    let rlen = raw.len();
    let start = *curr;
    // find the null ending the textual part
    let mut n: usize = start;
    while n < rlen && raw[n] != 0
        invariant
            start <= n <= rlen,
            rlen == raw@.len(),
            find_byte(raw@, 0, start as int, rlen as int) == find_byte(
                raw@,
                0,
                n as int,
                rlen as int,
            ),
        decreases rlen - n,
    {
        n = n + 1;
    }
    if n >= rlen {
        return Err(DbError::Corrupt);
    }
    // find the space separating mode from path
    let mut sp: usize = start;
    while sp < n && raw[sp] != 32
        invariant
            start <= sp <= n < rlen == raw@.len(),
            find_byte(raw@, 0, start as int, rlen as int) == Some(n as int),
            raw@[n as int] == 0,
            find_byte(raw@, 32, start as int, n as int) == find_byte(
                raw@,
                32,
                sp as int,
                n as int,
            ),
        decreases n - sp,
    {
        sp = sp + 1;
    }
    if sp >= n {
        return Err(DbError::Corrupt);
    }
    let mode_slice = slice_subrange(raw, start, sp);
    proof {
        assert(mode_slice@ =~= raw@.subrange(start as int, sp as int));
    }
    let tree_mode = match TreeMode::try_from(mode_slice) {
        Ok(m) => m,
        Err(e) => {
            return Err(e);
        }
    };
    if rlen - n < 21 {
        return Err(DbError::Corrupt);
    }
    let path_slice = slice_subrange(raw, sp + 1, n);
    proof {
        assert(path_slice@ =~= raw@.subrange(sp + 1, n as int));
    }
    let path_component = match strings_util::utf8_bytes_to_string(path_slice) {
        Some(s) => s,
        None => {
            return Err(DbError::Corrupt);
        }
    };
    let sha_slice = slice_subrange(raw, n + 1, n + 21);
    proof {
        assert(sha_slice@ =~= raw@.subrange(n + 1, n + 21));
    }
    let oid = crate::object_id::full_slice_oid_to_u128_oid(sha_slice);
    *curr = n + 21;
    Ok(TreeEntry { id: oid, path_component, entry_mode: tree_mode })
}

/// Does some entry's path fail to decode as UTF-8?
pub open spec fn has_undecodable_path(es: Seq<(TreeMode, Seq<u8>, Oid)>) -> bool {
    exists|k: int|
        0 <= k < es.len() && !strings_util::utf8_decodable((#[trigger] es[k]).1)
}

/// When every entry's path bytes have a decoding, none is
/// undecodable.
pub proof fn lemma_decodable_not_undecodable(es: Seq<(TreeMode, Seq<u8>, Oid)>)
    requires
        forall|k: int|
            0 <= k < es.len() ==> strings_util::utf8_decodable((#[trigger] es[k]).1),
    ensures
        !has_undecodable_path(es),
{
    if has_undecodable_path(es) {
        let k = choose|k: int|
            0 <= k < es.len() && !strings_util::utf8_decodable((#[trigger] es[k]).1);
        assert(strings_util::utf8_decodable(es[k].1));
    }
}

/// The abstract form of a parsed entry: its mode, the bytes its path
/// decoded from, and its identifier.
pub open spec fn abs_entry(e: TreeEntry) -> (TreeMode, Seq<u8>, Oid) {
    (e.entry_mode, encode_utf8(e.path_component@), e.id)
}

/// The abstract form of a run of parsed entries.
pub open spec fn abs_entries(es: Seq<TreeEntry>) -> Seq<(TreeMode, Seq<u8>, Oid)> {
    es.map_values(|e: TreeEntry| abs_entry(e))
}

/// The whole tree at `pos`: the entries to the end of the payload.
/// Nothing when some entry is malformed.
pub open spec fn tree_parse_spec(d: Seq<u8>, pos: int) -> Option<Seq<(TreeMode, Seq<u8>, Oid)>>
    decreases d.len() - pos,
{
    if pos >= d.len() {
        Some(Seq::empty())
    } else {
        match tree_entry_spec(d, pos) {
            None => None,
            Some((m, pb, oid, nx)) => if pos < nx <= d.len() {
                match tree_parse_spec(d, nx) {
                    None => None,
                    Some(rest) => Some(seq![(m, pb, oid)] + rest),
                }
            } else {
                None
            },
        }
    }
}

impl TreeObject {
    /// Parse a whole tree payload. Succeeds exactly when every entry
    /// is well formed and every path component is valid UTF-8; the
    /// entries come out in file order, each path encoding back to its
    /// bytes in the payload.
    pub fn parse(raw: &[u8]) -> (r: Result<TreeObject, DbError>)
        ensures
            match r {
                Ok(t) => tree_parse_spec(raw@, 0) == Some(abs_entries(t.entries@)),
                Err(_) => match tree_parse_spec(raw@, 0) {
                    Some(es) => has_undecodable_path(es),
                    None => true,
                },
            },
    {
        let rlen = raw.len();
        let mut index: usize = 0;
        let mut entries: Vec<TreeEntry> = Vec::new();
        proof {
            assert(abs_entries(entries@) =~= Seq::<(TreeMode, Seq<u8>, Oid)>::empty());
        }
        while index < rlen
            invariant
                index <= rlen == raw@.len(),
                match tree_parse_spec(raw@, index as int) {
                    Some(rest) => tree_parse_spec(raw@, 0) == Some(abs_entries(entries@) + rest),
                    None => tree_parse_spec(raw@, 0) is None || has_undecodable_path(
                        tree_parse_spec(raw@, 0)->0,
                    ),
                },
            decreases rlen - index,
        {
            let ghost old_entries = entries@;
            let ghost old_index = index as int;
            let entry = match get_tree_entry(raw, &mut index) {
                Ok(e) => e,
                Err(e) => {
                    proof {
                        match tree_parse_spec(raw@, old_index) {
                            Some(rest) => {
                                match tree_entry_spec(raw@, old_index) {
                                    Some((m, pb, oid, nx)) => {
                                        // the entry parses, so its path failed to decode
                                        let rest2 = tree_parse_spec(raw@, nx)->0;
                                        assert(rest == seq![(m, pb, oid)] + rest2);
                                        assert(rest[0] == (m, pb, oid));
                                        let whole = tree_parse_spec(raw@, 0)->0;
                                        let pfx = abs_entries(old_entries);
                                        assert(whole == pfx + rest);
                                        let k = pfx.len() as int;
                                        assert(0 <= k < whole.len());
                                        assert(whole[k] == rest[0]);
                                        assert(!strings_util::utf8_decodable(whole[k].1));
                                        assert(has_undecodable_path(whole));
                                    },
                                    None => {
                                        assert(false);
                                    },
                                }
                            },
                            None => {},
                        }
                    }
                    return Err(e);
                }
            };
            entries.push(entry);
            proof {
                let pfx = abs_entries(old_entries);
                let pfx2 = abs_entries(entries@);
                match tree_parse_spec(raw@, index as int) {
                    Some(rest2) => {
                        assert(tree_parse_spec(raw@, old_index) == Some(
                            seq![abs_entry(entry)] + rest2,
                        ));
                        assert(pfx + (seq![abs_entry(entry)] + rest2) =~= pfx2 + rest2);
                    },
                    None => {},
                }
            }
        }
        proof {
            assert(tree_parse_spec(raw@, rlen as int) == Some(Seq::<
                (TreeMode, Seq<u8>, Oid),
            >::empty()));
            assert(abs_entries(entries@) + Seq::<(TreeMode, Seq<u8>, Oid)>::empty()
                =~= abs_entries(entries@));
        }
        Ok(TreeObject { entries })
    }
}

} // verus!
