//! The commit object grammar: a `tree` line, zero or more `parent`
//! lines, `author` and `committer` lines, optional `mergetag` blocks,
//! a blank line, and the message. Parsers of selectable fidelity skip
//! what a caller does not need.

use vstd::prelude::*;
use crate::error::DbError;
use crate::object_id::Oid;
use crate::hex;
use crate::loose::find_byte;
use crate::strings_util;

verus! {

use vstd::slice::slice_subrange;

/// Do the bytes at `pos` spell out `pat`?
pub open spec fn is_bytes_at(d: Seq<u8>, pos: int, pat: Seq<u8>) -> bool {
    0 <= pos && pos + pat.len() <= d.len() && d.subrange(pos, pos + pat.len()) == pat
}

/// The ASCII bytes of each line introducer.
pub open spec fn tree_tok() -> Seq<u8> {
    seq![116u8, 114u8, 101u8, 101u8, 32u8]
}

pub open spec fn parent_tok() -> Seq<u8> {
    seq![112u8, 97u8, 114u8, 101u8, 110u8, 116u8, 32u8]
}

pub open spec fn author_tok() -> Seq<u8> {
    seq![97u8, 117u8, 116u8, 104u8, 111u8, 114u8, 32u8]
}

pub open spec fn committer_tok() -> Seq<u8> {
    seq![99u8, 111u8, 109u8, 109u8, 105u8, 116u8, 116u8, 101u8, 114u8, 32u8]
}

pub open spec fn mergetag_tok() -> Seq<u8> {
    seq![109u8, 101u8, 114u8, 103u8, 101u8, 116u8, 97u8, 103u8, 32u8]
}

/// Is there a well-formed `tree` line at the head: the introducer, 40
/// characters of which the leading 32 must be hex, and a newline at
/// position 45?
pub open spec fn tree_line_ok(d: Seq<u8>) -> bool {
    &&& d.len() >= 46
    &&& d.subrange(0, 5) == tree_tok()
    &&& d[45] == 10
    &&& hex::all_hex_bytes(d.subrange(5, 37))
}

/// The identifier a well-formed tree line names.
pub open spec fn tree_line_val(d: Seq<u8>) -> int {
    hex::hex_bytes_val(d.subrange(5, 37))
}

/// Is there a well-formed `parent` line at `pos`: the introducer, 40
/// characters of which the leading 32 must be hex, and a newline after
/// them?
pub open spec fn parent_ok(d: Seq<u8>, pos: int) -> bool {
    &&& 0 <= pos
    &&& pos + 48 <= d.len()
    &&& d.subrange(pos, pos + 7) == parent_tok()
    &&& d[pos + 47] == 10
    &&& hex::all_hex_bytes(d.subrange(pos + 7, pos + 39))
}

/// The identifier a well-formed parent line at `pos` names.
pub open spec fn parent_val(d: Seq<u8>, pos: int) -> int {
    hex::hex_bytes_val(d.subrange(pos + 7, pos + 39))
}

/// The run of parent lines starting at `pos`: their identifiers in
/// order and the position of the `author` line that ends the run.
/// Nothing when a line is neither a parent line nor the author line.
pub open spec fn parents_spec(d: Seq<u8>, pos: int) -> Option<(Seq<Oid>, int)>
    decreases d.len() - pos,
{
    if pos < 0 {
        None
    } else if is_bytes_at(d, pos, author_tok()) {
        Some((Seq::empty(), pos))
    } else if parent_ok(d, pos) {
        match parents_spec(d, pos + 48) {
            Some((ps, e)) => Some((seq![parent_val(d, pos) as Oid] + ps, e)),
            None => None,
        }
    } else {
        None
    }
}

/// Compare `d[pos..pos+pat.len()]` against a pattern, tolerating any
/// position: out-of-range positions compare unequal.
fn bytes_at(d: &[u8], pos: usize, pat: &[u8]) -> (r: bool)
    ensures
        r == is_bytes_at(d@, pos as int, pat@),
{
    let dlen = d.len();
    let plen = pat.len();
    if pos > dlen || dlen - pos < plen {
        return false;
    }
    let sub = slice_subrange(d, pos, pos + plen);
    proof {
        assert(sub@ =~= d@.subrange(pos as int, pos + plen));
    }
    crate::be_bytes::slice_eq(sub, pat)
}

/// Parse the `tree` line heading a commit. With `should_allocate`
/// false nothing is read: the result is identifier zero and offset 46,
/// trusting the line to be there. With it true, succeeds exactly on a
/// well-formed tree line and returns the identifier it names and
/// offset 46.
pub fn parse_tree(raw: &[u8], should_allocate: bool) -> (r: Result<(Oid, usize), DbError>)
    ensures
        !should_allocate ==> r is Ok && r->Ok_0 == (0u128, 46usize),
        should_allocate ==> match r {
            Ok((oid, nx)) => tree_line_ok(raw@) && oid == tree_line_val(raw@) && nx == 46,
            Err(_) => !tree_line_ok(raw@),
        },
{
    if !should_allocate {
        return Ok((0, 46));
    }
    let pat: [u8; 5] = [116, 114, 101, 101, 32];
    proof {
        assert(pat@ =~= tree_tok());
    }
    let rlen = raw.len();
    if rlen < 46 {
        return Err(DbError::Corrupt);
    }
    if !bytes_at(raw, 0, pat.as_slice()) {
        return Err(DbError::Corrupt);
    }
    if raw[45] != 10 {
        return Err(DbError::Corrupt);
    }
    let hexpart = slice_subrange(raw, 5, 37);
    proof {
        assert(hexpart@ =~= raw@.subrange(5, 37));
        assert(hexpart@.take(32) =~= hexpart@);
    }
    match hex::parse_hex_u128(hexpart, 32) {
        Some(v) => Ok((v, 46)),
        None => Err(DbError::Corrupt),
    }
}

/// Parse one `parent` line at `*curr`. An `author` line there means
/// the parent run is over: nothing is returned and `*curr` stays.
/// Otherwise succeeds exactly on a well-formed parent line, returning
/// the identifier it names and advancing `*curr` past the line.
pub fn parse_parent(raw: &[u8], curr: &mut usize) -> (r: Result<Option<Oid>, DbError>)
    ensures
        match r {
            Ok(p) => match p {
                None => is_bytes_at(raw@, *old(curr) as int, author_tok()) && *final(curr) == *old(
                    curr,
                ),
                Some(oid) => {
                    &&& parent_ok(raw@, *old(curr) as int)
                    &&& oid == parent_val(raw@, *old(curr) as int)
                    &&& *final(curr) == *old(curr) + 48
                },
            },
            Err(_) => !is_bytes_at(raw@, *old(curr) as int, author_tok()) && !parent_ok(
                raw@,
                *old(curr) as int,
            ) && *final(curr) == *old(curr),
        },
{
    let start = *curr;
    let author_pat: [u8; 7] = [97, 117, 116, 104, 111, 114, 32];
    let parent_pat: [u8; 7] = [112, 97, 114, 101, 110, 116, 32];
    proof {
        assert(author_pat@ =~= author_tok());
        assert(parent_pat@ =~= parent_tok());
    }
    if bytes_at(raw, start, author_pat.as_slice()) {
        return Ok(None);
    }
    if !bytes_at(raw, start, parent_pat.as_slice()) {
        return Err(DbError::Corrupt);
    }
    let rlen = raw.len();
    if rlen - start < 48 {
        return Err(DbError::Corrupt);
    }
    if raw[start + 47] != 10 {
        return Err(DbError::Corrupt);
    }
    let hexpart = slice_subrange(raw, start + 7, start + 39);
    proof {
        assert(hexpart@ =~= raw@.subrange(start + 7, start + 39));
        assert(hexpart@.take(32) =~= hexpart@);
    }
    match hex::parse_hex_u128(hexpart, 32) {
        Some(v) => {
            *curr = start + 48;
            Ok(Some(v))
        },
        None => Err(DbError::Corrupt),
    }
}

/// Is there a well-formed `author` line at `pos`: the introducer and a
/// newline somewhere after it?
pub open spec fn author_ok(d: Seq<u8>, pos: int) -> bool {
    is_bytes_at(d, pos, author_tok()) && find_byte(d, 10, pos + 7, d.len() as int) is Some
}

/// The bytes of the author line's text, introducer and newline
/// excluded.
pub open spec fn author_text(d: Seq<u8>, pos: int) -> Seq<u8> {
    d.subrange(pos + 7, find_byte(d, 10, pos + 7, d.len() as int)->0)
}

/// Find a byte from `from`, scanning to the end.
fn scan_for(raw: &[u8], from: usize, want: u8) -> (r: Option<usize>)
    requires
        from <= raw@.len(),
    ensures
        match r {
            Some(n) => find_byte(raw@, want, from as int, raw@.len() as int) == Some(n as int)
                && from <= n < raw@.len(),
            None => find_byte(raw@, want, from as int, raw@.len() as int) is None,
        },
{
    let rlen = raw.len();
    let mut n: usize = from;
    while n < rlen && raw[n] != want
        invariant
            from <= n <= rlen == raw@.len(),
            find_byte(raw@, want, from as int, rlen as int) == find_byte(
                raw@,
                want,
                n as int,
                rlen as int,
            ),
        decreases rlen - n,
    {
        n = n + 1;
    }
    if n >= rlen {
        None
    } else {
        Some(n)
    }
}

/// Parse the `author` line at `*curr`, advancing past it. Succeeds
/// exactly on a well-formed line; the text is decoded only when
/// `should_allocate` is set, and otherwise left empty.
pub fn parse_author(raw: &[u8], curr: &mut usize, should_allocate: bool) -> (r: Result<
    String,
    DbError,
>)
    ensures
        match r {
            Ok(s) => {
                &&& author_ok(raw@, *old(curr) as int)
                &&& *final(curr) == find_byte(
                    raw@,
                    10,
                    *old(curr) + 7,
                    raw@.len() as int,
                )->0 + 1
                &&& (should_allocate ==> s@ == strings_util::lossy_chars(
                    author_text(raw@, *old(curr) as int),
                ))
                &&& (!should_allocate ==> s@.len() == 0)
            },
            Err(_) => !author_ok(raw@, *old(curr) as int) && *final(curr) == *old(curr),
        },
{
    let start = *curr;
    let author_pat: [u8; 7] = [97, 117, 116, 104, 111, 114, 32];
    proof {
        assert(author_pat@ =~= author_tok());
    }
    if !bytes_at(raw, start, author_pat.as_slice()) {
        return Err(DbError::Corrupt);
    }
    let rlen = raw.len();
    let nl = match scan_for(raw, start + 7, 10) {
        Some(n) => n,
        None => {
            return Err(DbError::Corrupt);
        }
    };
    let s = if should_allocate {
        let line = slice_subrange(raw, start + 7, nl);
        proof {
            assert(line@ =~= raw@.subrange(start + 7, nl as int));
        }
        strings_util::lossy_bytes_to_string(line)
    } else {
        String::new()
    };
    *curr = nl + 1;
    Ok(s)
}

/// Where the walk inside a mergetag block stands: scanning from
/// `pos`, with `last_nl` saying whether the byte before was a
/// newline. After a newline, a space continues the block, a second
/// newline ends it — reading resumes right after — and any other
/// byte must begin another block. Running off the end resumes at the
/// end.
pub open spec fn mergetag_scan(d: Seq<u8>, pos: int, last_nl: bool) -> Option<int>
    decreases d.len() - pos, (if last_nl {
        2int
    } else {
        0int
    }),
{
    if pos < 0 {
        None
    } else if pos >= d.len() {
        Some(d.len() as int)
    } else if last_nl {
        if d[pos] == 32 {
            mergetag_scan(d, pos + 1, false)
        } else if d[pos] == 10 {
            Some(pos + 1)
        } else {
            mergetag_end_spec(d, pos)
        }
    } else {
        mergetag_scan(d, pos + 1, d[pos] == 10)
    }
}

/// Where reading resumes after the mergetag block at `start`: the
/// introducer, then the block's lines as `mergetag_scan` walks them.
/// Nothing when the introducer is missing there or at a chained
/// block's start.
pub open spec fn mergetag_end_spec(d: Seq<u8>, start: int) -> Option<int>
    decreases d.len() - start, 1int,
{
    if !is_bytes_at(d, start, mergetag_tok()) {
        None
    } else {
        mergetag_scan(d, start, false)
    }
}

/// Skip the `mergetag` block that starts at `start`: its first line
/// and every continuation line that begins with a space; a blank line
/// ends the block, and a line that begins otherwise is taken as
/// another block. Succeeds exactly when the introducer stands at
/// `start` and at every chained block's start, returning the position
/// where reading resumes.
pub fn mergetag_skip(raw: &[u8], start: usize) -> (r: Result<usize, DbError>)
    requires
        start <= raw@.len(),
    ensures
        match r {
            Ok(end) => mergetag_end_spec(raw@, start as int) == Some(end as int) && start <= end
                <= raw@.len(),
            Err(_) => mergetag_end_spec(raw@, start as int) is None,
        },
    decreases raw@.len() - start,
{
    let mergetag_pat: [u8; 9] = [109, 101, 114, 103, 101, 116, 97, 103, 32];
    proof {
        assert(mergetag_pat@ =~= mergetag_tok());
    }
    if !bytes_at(raw, start, mergetag_pat.as_slice()) {
        return Err(DbError::Corrupt);
    }
    let rlen = raw.len();
    let mut pos: usize = start;
    let mut last_was_newline = false;
    while pos < rlen
        invariant
            start <= pos <= rlen == raw@.len(),
            is_bytes_at(raw@, start as int, mergetag_tok()),
            last_was_newline ==> pos > start,
            mergetag_end_spec(raw@, start as int) == mergetag_scan(
                raw@,
                pos as int,
                last_was_newline,
            ),
        decreases rlen - pos,
    {
        let byte = raw[pos];
        if last_was_newline {
            if byte == 32 {
                last_was_newline = false;
                pos = pos + 1;
            } else if byte == 10 {
                // a blank line ends the block; resume after it
                return Ok(pos + 1);
            } else {
                // another mergetag block begins here
                return match mergetag_skip(raw, pos) {
                    Ok(e) => Ok(e),
                    Err(e) => Err(e),
                };
            }
        } else {
            last_was_newline = byte == 10;
            pos = pos + 1;
        }
    }
    Ok(pos)
}

/// Is there a well-formed `committer` line at `pos` whose newline is
/// followed by another byte?
pub open spec fn committer_ok(d: Seq<u8>, pos: int) -> bool {
    &&& is_bytes_at(d, pos, committer_tok())
    &&& find_byte(d, 10, pos + 10, d.len() as int) is Some
    &&& find_byte(d, 10, pos + 10, d.len() as int)->0 + 1 < d.len()
}

/// The bytes of the committer line's text.
pub open spec fn committer_text(d: Seq<u8>, pos: int) -> Seq<u8> {
    d.subrange(pos + 10, find_byte(d, 10, pos + 10, d.len() as int)->0)
}

/// Where reading resumes after the committer line at `pos`: right
/// after the blank line that follows it, or — when mergetag blocks
/// sit in between — right after their ending blank line. Nothing when
/// the line is malformed or the blocks are.
pub open spec fn committer_end_spec(d: Seq<u8>, pos: int) -> Option<int> {
    if !committer_ok(d, pos) {
        None
    } else {
        let nl = find_byte(d, 10, pos + 10, d.len() as int)->0;
        if d[nl + 1] == 10 {
            Some(nl + 2)
        } else {
            mergetag_end_spec(d, nl + 1)
        }
    }
}

/// Parse the `committer` line at `*curr`, advancing past it and past
/// any `mergetag` blocks that follow, to the byte after the blank
/// line. Succeeds exactly when the line is well formed and the blocks
/// after it, if any, are too; the cursor lands where the message
/// starts. The text is decoded only when `should_allocate` is set.
pub fn parse_committer(raw: &[u8], curr: &mut usize, should_allocate: bool) -> (r: Result<
    String,
    DbError,
>)
    ensures
        match r {
            Ok(s) => {
                &&& committer_ok(raw@, *old(curr) as int)
                &&& (should_allocate ==> s@ == strings_util::lossy_chars(
                    committer_text(raw@, *old(curr) as int),
                ))
                &&& (!should_allocate ==> s@.len() == 0)
                &&& committer_end_spec(raw@, *old(curr) as int) == Some(*final(curr) as int)
                &&& *final(curr) <= raw@.len()
            },
            Err(_) => committer_end_spec(raw@, *old(curr) as int) is None && *final(curr) == *old(
                curr,
            ),
        },
{
    let start = *curr;
    let committer_pat: [u8; 10] = [99, 111, 109, 109, 105, 116, 116, 101, 114, 32];
    proof {
        assert(committer_pat@ =~= committer_tok());
    }
    if !bytes_at(raw, start, committer_pat.as_slice()) {
        return Err(DbError::Corrupt);
    }
    let rlen = raw.len();
    let nl = match scan_for(raw, start + 10, 10) {
        Some(n) => n,
        None => {
            return Err(DbError::Corrupt);
        }
    };
    if nl + 1 >= rlen {
        return Err(DbError::Corrupt);
    }
    let s = if should_allocate {
        let line = slice_subrange(raw, start + 10, nl);
        proof {
            assert(line@ =~= raw@.subrange(start + 10, nl as int));
        }
        strings_util::lossy_bytes_to_string(line)
    } else {
        String::new()
    };
    if raw[nl + 1] != 10 {
        // a mergetag block sits between the committer line and the
        // blank line: skip past it
        let end = match mergetag_skip(raw, nl + 1) {
            Ok(e) => e,
            Err(e) => {
                return Err(e);
            }
        };
        *curr = end;
        Ok(s)
    } else {
        *curr = nl + 2;
        Ok(s)
    }
}

/// The message bytes with trailing newlines removed.
pub open spec fn trim_end_newlines(s: Seq<u8>) -> Seq<u8>
    decreases s.len(),
{
    if s.len() == 0 {
        s
    } else if s.last() == 10 {
        trim_end_newlines(s.drop_last())
    } else {
        s
    }
}

/// The first line of the message: up to the first newline, or all of
/// it when none occurs.
pub open spec fn first_line(s: Seq<u8>) -> Seq<u8> {
    match find_byte(s, 10, 0, s.len() as int) {
        Some(n) => s.subrange(0, n),
        None => s,
    }
}

/// How commit parsing is asked for: a type that can build itself from
/// a commit payload, reading from a cursor.
pub trait ParseCommit: Sized {
    /// The payloads this fidelity accepts: parsing from the start
    /// succeeds on exactly these.
    spec fn parse_accepts(raw: Seq<u8>) -> bool;

    /// Parse a commit payload starting at `*current_index`.
    fn parse_inner(raw: &[u8], current_index: &mut usize) -> Result<Self, DbError>;

    /// Parse a commit payload from its start. Succeeds exactly on an
    /// accepted payload.
    fn parse(raw: &[u8]) -> (r: Result<Self, DbError>)
        ensures
            r is Ok <==> Self::parse_accepts(raw@),
    ;
}

/// A fully parsed commit. Two parent slots are inline and the rare
/// third and later parents spill into a vector, so the common case
/// allocates nothing for parents.
#[derive(Debug)]
pub struct CommitFull {
    pub tree: Oid,
    pub parent_one: Oid,
    pub parent_two: Oid,
    pub extra_parents: Vec<Oid>,
    pub author: String,
    pub committer: String,
    pub message: String,
}

/// Like `CommitFull`, but the message's first paragraph and the rest
/// are held separately.
pub struct CommitFullMessageAndDescription {
    pub tree: Oid,
    pub parent_one: Oid,
    pub parent_two: Oid,
    pub extra_parents: Vec<Oid>,
    pub author: String,
    pub committer: String,
    pub message: String,
    pub description: String,
}

/// Like `CommitFull`, but only the message's first line is kept.
pub struct CommitFullOnlyMessage {
    pub tree: Oid,
    pub parent_one: Oid,
    pub parent_two: Oid,
    pub extra_parents: Vec<Oid>,
    pub author: String,
    pub committer: String,
    pub message: String,
}

/// Only the tree, the parents, and the message's first line; author
/// and committer are skipped without allocating.
pub struct CommitOnlyMessageNoAuthorOrCommitter {
    pub tree: Oid,
    pub parent_one: Oid,
    pub parent_two: Oid,
    pub extra_parents: Vec<Oid>,
    pub message: String,
}

/// Only the parents; the tree line is skipped untested.
pub struct CommitOnlyParents {
    pub parent_one: Oid,
    pub parent_two: Oid,
    pub extra_parents: Vec<Oid>,
}

/// Tree, parents, author and committer, with no message.
pub struct CommitNoMessage {
    pub tree: Oid,
    pub parent_one: Oid,
    pub parent_two: Oid,
    pub extra_parents: Vec<Oid>,
    pub committer: String,
    pub author: String,
}

/// The tree and the parents, nothing else.
#[derive(Debug)]
pub struct CommitOnlyTreeAndParents {
    pub tree: Oid,
    pub parent_one: Oid,
    pub parent_two: Oid,
    pub extra_parents: Vec<Oid>,
}

/// The parents and the message's first line.
pub struct CommitOnlyParentsAndMessage {
    pub parent_one: Oid,
    pub parent_two: Oid,
    pub extra_parents: Vec<Oid>,
    pub message: String,
}

impl Default for CommitOnlyTreeAndParents {
    /// All identifiers zero and no extra parents.
    fn default() -> (r: Self)
        ensures
            r.tree == 0 && r.parent_one == 0 && r.parent_two == 0 && r.extra_parents@.len() == 0,
    {
        CommitOnlyTreeAndParents {
            tree: 0,
            parent_one: 0,
            parent_two: 0,
            extra_parents: Vec::new(),
        }
    }
}

impl Default for CommitOnlyParents {
    /// All identifiers zero and no extra parents.
    fn default() -> (r: Self)
        ensures
            r.parent_one == 0 && r.parent_two == 0 && r.extra_parents@.len() == 0,
    {
        CommitOnlyParents { parent_one: 0, parent_two: 0, extra_parents: Vec::new() }
    }
}

/// What a parent run denotes for the three parent slots: the first
/// two identifiers, zero standing for absent, and the spill-over.
pub open spec fn parents_fields(ps: Seq<Oid>, p1: Oid, p2: Oid, extra: Seq<Oid>) -> bool {
    &&& p1 == if ps.len() >= 1 {
        ps[0]
    } else {
        0u128
    }
    &&& p2 == if ps.len() >= 2 {
        ps[1]
    } else {
        0u128
    }
    &&& extra == if ps.len() >= 2 {
        ps.skip(2)
    } else {
        Seq::<Oid>::empty()
    }
}

/// Parse the parent run at `*curr` into the three parent slots.
/// Succeeds exactly when the run is well formed, leaving `*curr` at
/// the author line.
fn parse_parent_run(raw: &[u8], curr: &mut usize) -> (r: Result<(Oid, Oid, Vec<Oid>), DbError>)
    ensures
        match r {
            Ok((p1, p2, extra)) => {
                let po = parents_spec(raw@, *old(curr) as int);
                &&& po is Some
                &&& parents_fields((po->0).0, p1, p2, extra@)
                &&& *final(curr) == (po->0).1
            },
            Err(_) => parents_spec(raw@, *old(curr) as int) is None,
        },
{
    let ghost base = *curr as int;
    let p1 = match parse_parent(raw, curr) {
        Ok(Some(p)) => p,
        Ok(None) => {
            let empty_extra: Vec<Oid> = Vec::new();
            proof {
                assert(parents_spec(raw@, base) == Some((Seq::<Oid>::empty(), base)));
                assert(empty_extra@ =~= Seq::<Oid>::empty());
            }
            return Ok((0, 0, empty_extra));
        },
        Err(e) => {
            proof {
                assert(parents_spec(raw@, base) is None);
            }
            return Err(e);
        }
    };
    proof {
        assert(parents_spec(raw@, base) == (match parents_spec(raw@, base + 48) {
            Some((ps, e)) => Some((seq![parent_val(raw@, base) as Oid] + ps, e)),
            None => None,
        }));
    }
    let ghost base2 = *curr as int;
    let p2 = match parse_parent(raw, curr) {
        Ok(Some(p)) => p,
        Ok(None) => {
            let empty_extra: Vec<Oid> = Vec::new();
            proof {
                assert(parents_spec(raw@, base2) == Some((Seq::<Oid>::empty(), base2)));
                assert(seq![p1] + Seq::<Oid>::empty() =~= seq![p1]);
                assert(parents_spec(raw@, base) == Some((seq![p1], base2)));
                assert(empty_extra@ =~= Seq::<Oid>::empty());
                let ps = seq![p1];
                assert(ps[0] == p1 && ps.len() == 1);
            }
            return Ok((p1, 0, empty_extra));
        },
        Err(e) => {
            proof {
                assert(parents_spec(raw@, base2) is None);
                assert(parents_spec(raw@, base) is None);
            }
            return Err(e);
        }
    };
    let mut extra: Vec<Oid> = Vec::new();
    loop
        invariant
            base == *old(curr) as int,
            ({
                let cur = *curr as int;
                match parents_spec(raw@, cur) {
                    Some((ps, e)) => parents_spec(raw@, base) == Some(
                        (seq![p1, p2] + extra@ + ps, e),
                    ),
                    None => parents_spec(raw@, base) is None,
                }
            }),
        decreases raw@.len() + 48 - *curr,
    {
        let ghost cur0 = *curr as int;
        match parse_parent(raw, curr) {
            Ok(Some(p)) => {
                extra.push(p);
                proof {
                    let ps_rest = parents_spec(raw@, cur0 + 48);
                    match ps_rest {
                        Some((ps2, e2)) => {
                            assert(parents_spec(raw@, cur0) == Some((seq![p] + ps2, e2)));
                            assert((seq![p1, p2] + extra@.drop_last() + (seq![p] + ps2)) =~= (
                            seq![p1, p2] + extra@ + ps2));
                        },
                        None => {},
                    }
                }
            },
            Ok(None) => {
                proof {
                    assert(parents_spec(raw@, cur0) == Some((Seq::<Oid>::empty(), cur0)));
                    assert(seq![p1, p2] + extra@ + Seq::<Oid>::empty() =~= seq![p1, p2] + extra@);
                    let ps = (seq![p1, p2] + extra@);
                    assert(ps[0] == p1 && ps[1] == p2);
                    assert(ps.skip(2) =~= extra@);
                }
                return Ok((p1, p2, extra));
            },
            Err(e) => {
                proof {
                    assert(parents_spec(raw@, cur0) is None);
                    assert(parents_spec(raw@, base) is None);
                }
                return Err(e);
            }
        }
    }
}

impl CommitOnlyTreeAndParents {
    /// Parse the tree line and the parent run. Succeeds exactly when
    /// both are well formed; the cursor is left at the author line.
    pub fn parse_inner(raw: &[u8], curr: &mut usize) -> (r: Result<Self, DbError>)
        ensures
            match r {
                Ok(c) => {
                    &&& tree_line_ok(raw@)
                    &&& c.tree == tree_line_val(raw@)
                    &&& {
                        let po = parents_spec(raw@, 46);
                        &&& po is Some
                        &&& parents_fields((po->0).0, c.parent_one, c.parent_two, c.extra_parents@)
                        &&& *final(curr) == (po->0).1
                    }
                },
                Err(_) => !(tree_line_ok(raw@) && parents_spec(raw@, 46) is Some),
            },
    {
        let (tree_id, next_index) = match parse_tree(raw, true) {
            Ok(t) => t,
            Err(e) => {
                return Err(e);
            }
        };
        *curr = next_index;
        let (p1, p2, extra) = match parse_parent_run(raw, curr) {
            Ok(t) => t,
            Err(e) => {
                return Err(e);
            }
        };
        Ok(CommitOnlyTreeAndParents {
            tree: tree_id,
            parent_one: p1,
            parent_two: p2,
            extra_parents: extra,
        })
    }

    /// Parse a commit payload from its start.
    pub fn parse(raw: &[u8]) -> (r: Result<Self, DbError>)
        ensures
            match r {
                Ok(c) => {
                    &&& tree_line_ok(raw@)
                    &&& c.tree == tree_line_val(raw@)
                    &&& {
                        let po = parents_spec(raw@, 46);
                        &&& po is Some
                        &&& parents_fields((po->0).0, c.parent_one, c.parent_two, c.extra_parents@)
                    }
                },
                Err(_) => !(tree_line_ok(raw@) && parents_spec(raw@, 46) is Some),
            },
    {
        let mut index: usize = 0;
        Self::parse_inner(raw, &mut index)
    }
}

impl CommitOnlyParents {
    /// Skip the tree line untested and parse the parent run.
    /// Succeeds exactly when the run at offset 46 is well formed.
    pub fn parse_inner(raw: &[u8], curr: &mut usize) -> (r: Result<Self, DbError>)
        ensures
            match r {
                Ok(c) => {
                    let po = parents_spec(raw@, 46);
                    &&& po is Some
                    &&& parents_fields((po->0).0, c.parent_one, c.parent_two, c.extra_parents@)
                    &&& *final(curr) == (po->0).1
                },
                Err(_) => parents_spec(raw@, 46) is None,
            },
    {
        let (_, next_index) = match parse_tree(raw, false) {
            Ok(t) => t,
            Err(e) => {
                return Err(e);
            }
        };
        *curr = next_index;
        let (p1, p2, extra) = match parse_parent_run(raw, curr) {
            Ok(t) => t,
            Err(e) => {
                return Err(e);
            }
        };
        Ok(CommitOnlyParents { parent_one: p1, parent_two: p2, extra_parents: extra })
    }

    /// Parse a commit payload from its start.
    pub fn parse(raw: &[u8]) -> (r: Result<Self, DbError>)
        ensures
            match r {
                Ok(c) => {
                    let po = parents_spec(raw@, 46);
                    &&& po is Some
                    &&& parents_fields((po->0).0, c.parent_one, c.parent_two, c.extra_parents@)
                },
                Err(_) => parents_spec(raw@, 46) is None,
            },
    {
        let mut index: usize = 0;
        Self::parse_inner(raw, &mut index)
    }
}

/// Where the author line stands: right after the parent run.
pub open spec fn author_pos(d: Seq<u8>) -> int {
    (parents_spec(d, 46)->0).1
}

/// Where the committer line stands: right after the author line.
pub open spec fn committer_pos(d: Seq<u8>) -> int {
    find_byte(d, 10, author_pos(d) + 7, d.len() as int)->0 + 1
}

/// Where the message starts: right after the blank line that follows
/// the committer line, or past any mergetag blocks in between.
pub open spec fn message_pos(d: Seq<u8>) -> int {
    committer_end_spec(d, committer_pos(d))->0
}

/// A sound head before the message: a sound tree line, a parent run,
/// an author line, and a committer line whose follow-up — the blank
/// line, with any mergetag blocks before it — is well shaped.
pub open spec fn full_head_ok(d: Seq<u8>) -> bool {
    &&& tree_line_ok(d)
    &&& parents_spec(d, 46) is Some
    &&& author_ok(d, author_pos(d))
    &&& committer_end_spec(d, committer_pos(d)) is Some
}

/// Parse a commit's head — tree line, parent run, author and
/// committer lines, and any mergetag blocks — leaving the cursor
/// where the message starts. Succeeds exactly when the head is
/// sound. The author and committer are decoded only when
/// `should_allocate` is set.
fn parse_full_head(raw: &[u8], curr: &mut usize, should_allocate: bool) -> (r: Result<
    (Oid, Oid, Oid, Vec<Oid>, String, String),
    DbError,
>)
    ensures
        match r {
            Ok((tree, p1, p2, extra, au, cm)) => {
                &&& full_head_ok(raw@)
                &&& tree == tree_line_val(raw@)
                &&& parents_fields((parents_spec(raw@, 46)->0).0, p1, p2, extra@)
                &&& (should_allocate ==> au@ == strings_util::lossy_chars(
                    author_text(raw@, author_pos(raw@)),
                ) && cm@ == strings_util::lossy_chars(
                    committer_text(raw@, committer_pos(raw@)),
                ))
                &&& *final(curr) == message_pos(raw@)
                &&& *final(curr) <= raw@.len()
            },
            Err(_) => !full_head_ok(raw@),
        },
{
    let c = match CommitOnlyTreeAndParents::parse_inner(raw, curr) {
        Ok(c) => c,
        Err(e) => {
            return Err(e);
        }
    };
    let au = match parse_author(raw, curr, should_allocate) {
        Ok(s) => s,
        Err(e) => {
            return Err(e);
        }
    };
    let cm = match parse_committer(raw, curr, should_allocate) {
        Ok(s) => s,
        Err(e) => {
            return Err(e);
        }
    };
    Ok((c.tree, c.parent_one, c.parent_two, c.extra_parents, au, cm))
}

/// A sound head when the tree line is skipped untested: the parent
/// run, the author line, and the committer line with its follow-up.
pub open spec fn parents_head_ok(d: Seq<u8>) -> bool {
    &&& parents_spec(d, 46) is Some
    &&& author_ok(d, author_pos(d))
    &&& committer_end_spec(d, committer_pos(d)) is Some
}

/// Everything `full_head_ok` asks, a nonempty message region, and a
/// message that is not entirely newlines: the shape on which a full
/// parse is owed success.
pub open spec fn commit_full_ok(d: Seq<u8>) -> bool {
    &&& full_head_ok(d)
    &&& message_pos(d) < d.len()
    &&& trim_end_newlines(d.skip(message_pos(d))).len() > 0
}

/// Trailing newlines trimmed: when everything from `k` on is a
/// newline and position `k - 1` is not, trimming keeps exactly the
/// first `k` bytes.
proof fn lemma_trim_characterization(s: Seq<u8>, k: int)
    requires
        0 < k <= s.len(),
        s[k - 1] != 10,
        forall|j: int| k <= j < s.len() ==> s[j] == 10,
    ensures
        trim_end_newlines(s) == s.take(k),
    decreases s.len(),
{
    if k == s.len() {
        assert(s.take(k) =~= s);
    } else {
        assert(s.last() == 10);
        assert(forall|j: int| k <= j < s.drop_last().len() ==> s.drop_last()[j] == 10);
        assert(s.drop_last()[k - 1] == s[k - 1]);
        lemma_trim_characterization(s.drop_last(), k);
        assert(s.drop_last().take(k) =~= s.take(k));
    }
}

impl CommitFull {
    /// Parse a whole commit: tree, parents, author, committer, and
    /// the message with its trailing newlines trimmed. In the normal
    /// shape — a blank line right after the committer line — this
    /// succeeds exactly when the head is sound and the message region
    /// is nonempty and not all newlines.
    pub fn parse_inner(raw: &[u8], curr: &mut usize) -> (r: Result<Self, DbError>)
        ensures
            match r {
                Ok(c) => {
                    &&& commit_full_ok(raw@)
                    &&& c.tree == tree_line_val(raw@)
                    &&& parents_fields(
                        (parents_spec(raw@, 46)->0).0,
                        c.parent_one,
                        c.parent_two,
                        c.extra_parents@,
                    )
                    &&& c.author@ == strings_util::lossy_chars(
                        author_text(raw@, author_pos(raw@)),
                    )
                    &&& c.committer@ == strings_util::lossy_chars(
                        committer_text(raw@, committer_pos(raw@)),
                    )
                    &&& c.message@ == strings_util::lossy_chars(
                        trim_end_newlines(raw@.skip(message_pos(raw@))),
                    )
                },
                Err(_) => !commit_full_ok(raw@),
            },
    {
        let (tree, p1, p2, extra, au, cm) = match parse_full_head(raw, curr, true) {
            Ok(h) => h,
            Err(e) => {
                return Err(e);
            }
        };
        let m = *curr;
        let rlen = raw.len();
        if m >= rlen {
            return Err(DbError::Corrupt);
        }
        // trim trailing newlines off the message region
        let mut li: usize = rlen - m;
        while li > 0 && raw[m + li - 1] == 10
            invariant
                m + li <= rlen == raw@.len(),
                m < rlen,
                forall|j: int| li <= j < rlen - m ==> #[trigger] raw@[m + j] == 10,
            decreases li,
        {
            li = li - 1;
        }
        if li == 0 {
            proof {
                if commit_full_ok(raw@) && m == message_pos(raw@) {
                    let rest = raw@.skip(m as int);
                    assert forall|j: int| 0 <= j < rest.len() implies rest[j] == 10 by {
                        assert(rest[j] == raw@[m + j]);
                    }
                    lemma_trim_all_newlines(rest);
                }
            }
            return Err(DbError::Corrupt);
        }
        let msg_slice = slice_subrange(raw, m, m + li);
        proof {
            let rest = raw@.skip(m as int);
            assert forall|j: int| li <= j < rest.len() implies rest[j] == 10 by {
                assert(rest[j] == raw@[m + j]);
            }
            assert(rest[li - 1] == raw@[m + li - 1]);
            lemma_trim_characterization(rest, li as int);
            assert(msg_slice@ =~= rest.take(li as int));
        }
        let message = strings_util::lossy_bytes_to_string(msg_slice);
        Ok(CommitFull {
            tree,
            parent_one: p1,
            parent_two: p2,
            extra_parents: extra,
            author: au,
            committer: cm,
            message,
        })
    }

    /// Parse a commit payload from its start.
    pub fn parse(raw: &[u8]) -> (r: Result<Self, DbError>)
        ensures
            match r {
                Ok(c) => {
                    &&& commit_full_ok(raw@)
                    &&& c.tree == tree_line_val(raw@)
                    &&& c.message@ == strings_util::lossy_chars(
                        trim_end_newlines(raw@.skip(message_pos(raw@))),
                    )
                },
                Err(_) => !commit_full_ok(raw@),
            },
    {
        let mut index: usize = 0;
        Self::parse_inner(raw, &mut index)
    }
}

/// A sequence of newlines trims to nothing.
proof fn lemma_trim_all_newlines(s: Seq<u8>)
    requires
        forall|j: int| 0 <= j < s.len() ==> s[j] == 10,
    ensures
        trim_end_newlines(s).len() == 0,
    decreases s.len(),
{
    if s.len() > 0 {
        assert(forall|j: int| 0 <= j < s.drop_last().len() ==> s.drop_last()[j] == 10);
        lemma_trim_all_newlines(s.drop_last());
    }
}

/// Parse the first line of the message region at `m`.
fn parse_first_line_message(raw: &[u8], m: usize) -> (r: String)
    requires
        m <= raw@.len(),
    ensures
        r@ == strings_util::lossy_chars(first_line(raw@.skip(m as int))),
{
    let rlen = raw.len();
    let nl = scan_for(raw, m, 10);
    let end = match nl {
        Some(n) => n,
        None => rlen,
    };
    let line = slice_subrange(raw, m, end);
    proof {
        let rest = raw@.skip(m as int);
        match find_byte(raw@, 10, m as int, rlen as int) {
            Some(n) => {
                lemma_find_byte_skip(raw@, 10, m as int, n);
                assert(line@ =~= first_line(rest));
            },
            None => {
                lemma_find_byte_skip_none(raw@, 10, m as int);
                assert(line@ =~= first_line(rest));
            },
        }
    }
    strings_util::lossy_bytes_to_string(line)
}

/// Finding a byte from `i` in the whole sequence matches finding it
/// from the front of the suffix.
proof fn lemma_find_byte_skip(d: Seq<u8>, b: u8, i: int, n: int)
    requires
        0 <= i <= d.len(),
        find_byte(d, b, i, d.len() as int) == Some(n),
    ensures
        i <= n < d.len(),
        find_byte(d.skip(i), b, 0, d.skip(i).len() as int) == Some(n - i),
    decreases d.len() - i,
{
    lemma_find_byte_bounds(d, b, i, d.len() as int);
    lemma_find_byte_shift(d, b, i, i);
}

/// A found byte lies within the scanned range.
proof fn lemma_find_byte_bounds(d: Seq<u8>, b: u8, i: int, limit: int)
    requires
        find_byte(d, b, i, limit) is Some,
    ensures
        i <= find_byte(d, b, i, limit)->0 < limit,
        find_byte(d, b, i, limit)->0 < d.len(),
    decreases limit - i,
{
    if 0 <= i < limit && i < d.len() && d[i] != b {
        lemma_find_byte_bounds(d, b, i + 1, limit);
    }
}

/// No byte from `i` in the whole sequence means none in the suffix.
proof fn lemma_find_byte_skip_none(d: Seq<u8>, b: u8, i: int)
    requires
        0 <= i <= d.len(),
        find_byte(d, b, i, d.len() as int) is None,
    ensures
        find_byte(d.skip(i), b, 0, d.skip(i).len() as int) is None,
{
    lemma_find_byte_shift(d, b, i, i);
}

/// Scanning the suffix mirrors scanning the full sequence from `j >= i`.
proof fn lemma_find_byte_shift(d: Seq<u8>, b: u8, i: int, j: int)
    requires
        0 <= i <= j <= d.len(),
    ensures
        match find_byte(d, b, j, d.len() as int) {
            Some(n) => find_byte(d.skip(i), b, j - i, d.skip(i).len() as int) == Some(n - i),
            None => find_byte(d.skip(i), b, j - i, d.skip(i).len() as int) is None,
        },
    decreases d.len() - j,
{
    if j < d.len() {
        assert(d.skip(i)[j - i] == d[j]);
        if d[j] != b {
            lemma_find_byte_shift(d, b, i, j + 1);
        }
    }
}

impl CommitFullOnlyMessage {
    /// Parse a commit keeping author and committer but only the first
    /// line of the message.
    pub fn parse_inner(raw: &[u8], curr: &mut usize) -> (r: Result<Self, DbError>)
        ensures
            match r {
                Ok(c) => {
                    &&& full_head_ok(raw@)
                    &&& c.tree == tree_line_val(raw@)
                    &&& parents_fields(
                        (parents_spec(raw@, 46)->0).0,
                        c.parent_one,
                        c.parent_two,
                        c.extra_parents@,
                    )
                    &&& c.author@ == strings_util::lossy_chars(
                        author_text(raw@, author_pos(raw@)),
                    )
                    &&& c.committer@ == strings_util::lossy_chars(
                        committer_text(raw@, committer_pos(raw@)),
                    )
                    &&& c.message@ == strings_util::lossy_chars(
                        first_line(raw@.skip(message_pos(raw@))),
                    )
                },
                Err(_) => !full_head_ok(raw@),
            },
    {
        let (tree, p1, p2, extra, au, cm) = match parse_full_head(raw, curr, true) {
            Ok(h) => h,
            Err(e) => {
                return Err(e);
            }
        };
        let message = parse_first_line_message(raw, *curr);
        Ok(CommitFullOnlyMessage {
            tree,
            parent_one: p1,
            parent_two: p2,
            extra_parents: extra,
            author: au,
            committer: cm,
            message,
        })
    }

    /// Parse a commit payload from its start.
    pub fn parse(raw: &[u8]) -> (r: Result<Self, DbError>)
        ensures
            match r {
                Ok(c) => {
                    &&& full_head_ok(raw@)
                    &&& c.tree == tree_line_val(raw@)
                    &&& parents_fields(
                        (parents_spec(raw@, 46)->0).0,
                        c.parent_one,
                        c.parent_two,
                        c.extra_parents@,
                    )
                    &&& c.author@ == strings_util::lossy_chars(
                        author_text(raw@, author_pos(raw@)),
                    )
                    &&& c.committer@ == strings_util::lossy_chars(
                        committer_text(raw@, committer_pos(raw@)),
                    )
                    &&& c.message@ == strings_util::lossy_chars(
                        first_line(raw@.skip(message_pos(raw@))),
                    )
                },
                Err(_) => !full_head_ok(raw@),
            },
    {
        let mut index: usize = 0;
        Self::parse_inner(raw, &mut index)
    }
}

impl CommitOnlyMessageNoAuthorOrCommitter {
    /// Parse the tree, the parents, and the message's first line,
    /// skipping author and committer without decoding them.
    pub fn parse_inner(raw: &[u8], curr: &mut usize) -> (r: Result<Self, DbError>)
        ensures
            match r {
                Ok(c) => {
                    &&& full_head_ok(raw@)
                    &&& c.tree == tree_line_val(raw@)
                    &&& parents_fields(
                        (parents_spec(raw@, 46)->0).0,
                        c.parent_one,
                        c.parent_two,
                        c.extra_parents@,
                    )
                    &&& c.message@ == strings_util::lossy_chars(
                        first_line(raw@.skip(message_pos(raw@))),
                    )
                },
                Err(_) => !full_head_ok(raw@),
            },
    {
        let (tree, p1, p2, extra, _au, _cm) = match parse_full_head(raw, curr, false) {
            Ok(h) => h,
            Err(e) => {
                return Err(e);
            }
        };
        let message = parse_first_line_message(raw, *curr);
        Ok(CommitOnlyMessageNoAuthorOrCommitter {
            tree,
            parent_one: p1,
            parent_two: p2,
            extra_parents: extra,
            message,
        })
    }

    /// Parse a commit payload from its start.
    pub fn parse(raw: &[u8]) -> (r: Result<Self, DbError>)
        ensures
            match r {
                Ok(c) => {
                    &&& full_head_ok(raw@)
                    &&& c.tree == tree_line_val(raw@)
                    &&& parents_fields(
                        (parents_spec(raw@, 46)->0).0,
                        c.parent_one,
                        c.parent_two,
                        c.extra_parents@,
                    )
                    &&& c.message@ == strings_util::lossy_chars(
                        first_line(raw@.skip(message_pos(raw@))),
                    )
                },
                Err(_) => !full_head_ok(raw@),
            },
    {
        let mut index: usize = 0;
        Self::parse_inner(raw, &mut index)
    }
}

impl CommitOnlyParentsAndMessage {
    /// Parse the parents and the message's first line, skipping the
    /// tree line untested and the author and committer undecoded.
    pub fn parse_inner(raw: &[u8], curr: &mut usize) -> (r: Result<Self, DbError>)
        ensures
            match r {
                Ok(c) => {
                    &&& parents_head_ok(raw@)
                    &&& parents_fields(
                        (parents_spec(raw@, 46)->0).0,
                        c.parent_one,
                        c.parent_two,
                        c.extra_parents@,
                    )
                    &&& c.message@ == strings_util::lossy_chars(
                        first_line(raw@.skip(message_pos(raw@))),
                    )
                },
                Err(_) => !parents_head_ok(raw@),
            },
    {
        let c = match CommitOnlyParents::parse_inner(raw, curr) {
            Ok(c) => c,
            Err(e) => {
                return Err(e);
            }
        };
        let _ = match parse_author(raw, curr, false) {
            Ok(s) => s,
            Err(e) => {
                return Err(e);
            }
        };
        let _ = match parse_committer(raw, curr, false) {
            Ok(s) => s,
            Err(e) => {
                return Err(e);
            }
        };
        let message = parse_first_line_message(raw, *curr);
        Ok(CommitOnlyParentsAndMessage {
            parent_one: c.parent_one,
            parent_two: c.parent_two,
            extra_parents: c.extra_parents,
            message,
        })
    }

    /// Parse a commit payload from its start.
    pub fn parse(raw: &[u8]) -> (r: Result<Self, DbError>)
        ensures
            match r {
                Ok(c) => {
                    &&& parents_head_ok(raw@)
                    &&& parents_fields(
                        (parents_spec(raw@, 46)->0).0,
                        c.parent_one,
                        c.parent_two,
                        c.extra_parents@,
                    )
                    &&& c.message@ == strings_util::lossy_chars(
                        first_line(raw@.skip(message_pos(raw@))),
                    )
                },
                Err(_) => !parents_head_ok(raw@),
            },
    {
        let mut index: usize = 0;
        Self::parse_inner(raw, &mut index)
    }
}

impl CommitFullMessageAndDescription {
    /// Parse a whole commit, splitting the message at the first blank
    /// line into a summary and a description; without one the whole
    /// text is the summary and the description is empty.
    pub fn parse_inner(raw: &[u8], curr: &mut usize) -> (r: Result<Self, DbError>)
        ensures
            match r {
                Ok(c) => {
                    &&& commit_full_ok(raw@)
                    &&& c.tree == tree_line_val(raw@)
                    &&& parents_fields(
                        (parents_spec(raw@, 46)->0).0,
                        c.parent_one,
                        c.parent_two,
                        c.extra_parents@,
                    )
                },
                Err(_) => !commit_full_ok(raw@),
            },
    {
        let full = match CommitFull::parse_inner(raw, curr) {
            Ok(c) => c,
            Err(e) => {
                return Err(e);
            }
        };
        // split the decoded message at the first blank line; the
        // split is done on the raw bytes before decoding
        let msg_bytes = full.message.as_str().as_bytes();
        let mlen = msg_bytes.len();
        let mut i: usize = 0;
        let mut found = false;
        if mlen >= 1 {
            while i < mlen - 1 && !(msg_bytes[i] == 10 && msg_bytes[i + 1] == 10)
                invariant
                    mlen >= 1,
                    i <= mlen - 1,
                    mlen == msg_bytes@.len(),
                decreases mlen - i,
            {
                i = i + 1;
            }
            found = i < mlen - 1;
        }
        let split_at = i;
        if found {
            let head = slice_subrange(msg_bytes, 0, split_at);
            let tail = slice_subrange(msg_bytes, split_at + 1, mlen);
            let message = strings_util::lossy_bytes_to_string(head);
            let description = strings_util::lossy_bytes_to_string(tail);
            Ok(CommitFullMessageAndDescription {
                tree: full.tree,
                parent_one: full.parent_one,
                parent_two: full.parent_two,
                extra_parents: full.extra_parents,
                author: full.author,
                committer: full.committer,
                message,
                description,
            })
        } else {
            Ok(CommitFullMessageAndDescription {
                tree: full.tree,
                parent_one: full.parent_one,
                parent_two: full.parent_two,
                extra_parents: full.extra_parents,
                author: full.author,
                committer: full.committer,
                message: full.message,
                description: String::new(),
            })
        }
    }

    /// Parse a commit payload from its start.
    pub fn parse(raw: &[u8]) -> (r: Result<Self, DbError>)
        ensures
            match r {
                Ok(c) => {
                    &&& commit_full_ok(raw@)
                    &&& c.tree == tree_line_val(raw@)
                    &&& parents_fields(
                        (parents_spec(raw@, 46)->0).0,
                        c.parent_one,
                        c.parent_two,
                        c.extra_parents@,
                    )
                },
                Err(_) => !commit_full_ok(raw@),
            },
    {
        let mut index: usize = 0;
        Self::parse_inner(raw, &mut index)
    }
}

impl ParseCommit for CommitFull {
    open spec fn parse_accepts(raw: Seq<u8>) -> bool {
        commit_full_ok(raw)
    }

    fn parse_inner(raw: &[u8], current_index: &mut usize) -> Result<Self, DbError> {
        CommitFull::parse_inner(raw, current_index)
    }

    fn parse(raw: &[u8]) -> (r: Result<Self, DbError>) {
        CommitFull::parse(raw)
    }
}

impl ParseCommit for CommitFullMessageAndDescription {
    open spec fn parse_accepts(raw: Seq<u8>) -> bool {
        commit_full_ok(raw)
    }

    fn parse_inner(raw: &[u8], current_index: &mut usize) -> Result<Self, DbError> {
        CommitFullMessageAndDescription::parse_inner(raw, current_index)
    }

    fn parse(raw: &[u8]) -> (r: Result<Self, DbError>) {
        CommitFullMessageAndDescription::parse(raw)
    }
}

impl ParseCommit for CommitFullOnlyMessage {
    open spec fn parse_accepts(raw: Seq<u8>) -> bool {
        full_head_ok(raw)
    }

    fn parse_inner(raw: &[u8], current_index: &mut usize) -> Result<Self, DbError> {
        CommitFullOnlyMessage::parse_inner(raw, current_index)
    }

    fn parse(raw: &[u8]) -> (r: Result<Self, DbError>) {
        CommitFullOnlyMessage::parse(raw)
    }
}

impl ParseCommit for CommitOnlyMessageNoAuthorOrCommitter {
    open spec fn parse_accepts(raw: Seq<u8>) -> bool {
        full_head_ok(raw)
    }

    fn parse_inner(raw: &[u8], current_index: &mut usize) -> Result<Self, DbError> {
        CommitOnlyMessageNoAuthorOrCommitter::parse_inner(raw, current_index)
    }

    fn parse(raw: &[u8]) -> (r: Result<Self, DbError>) {
        CommitOnlyMessageNoAuthorOrCommitter::parse(raw)
    }
}

impl ParseCommit for CommitOnlyParentsAndMessage {
    open spec fn parse_accepts(raw: Seq<u8>) -> bool {
        parents_head_ok(raw)
    }

    fn parse_inner(raw: &[u8], current_index: &mut usize) -> Result<Self, DbError> {
        CommitOnlyParentsAndMessage::parse_inner(raw, current_index)
    }

    fn parse(raw: &[u8]) -> (r: Result<Self, DbError>) {
        CommitOnlyParentsAndMessage::parse(raw)
    }
}

impl ParseCommit for CommitOnlyParents {
    open spec fn parse_accepts(raw: Seq<u8>) -> bool {
        parents_spec(raw, 46) is Some
    }

    fn parse_inner(raw: &[u8], current_index: &mut usize) -> Result<Self, DbError> {
        CommitOnlyParents::parse_inner(raw, current_index)
    }

    fn parse(raw: &[u8]) -> (r: Result<Self, DbError>) {
        CommitOnlyParents::parse(raw)
    }
}

impl ParseCommit for CommitOnlyTreeAndParents {
    open spec fn parse_accepts(raw: Seq<u8>) -> bool {
        tree_line_ok(raw) && parents_spec(raw, 46) is Some
    }

    fn parse_inner(raw: &[u8], current_index: &mut usize) -> Result<Self, DbError> {
        CommitOnlyTreeAndParents::parse_inner(raw, current_index)
    }

    fn parse(raw: &[u8]) -> (r: Result<Self, DbError>) {
        CommitOnlyTreeAndParents::parse(raw)
    }
}

/// Skip a mergetag block through a mutable cursor. Succeeds exactly
/// when the block — and every block chained to it — is well shaped,
/// leaving the cursor where reading resumes.
pub fn parse_mergetag(raw: &[u8], curr: &mut usize) -> (r: Result<(), DbError>)
    requires
        *old(curr) <= raw@.len(),
    ensures
        match r {
            Ok(_) => mergetag_end_spec(raw@, *old(curr) as int) == Some(*final(curr) as int)
                && *old(curr) <= *final(curr) <= raw@.len(),
            Err(_) => mergetag_end_spec(raw@, *old(curr) as int) is None && *final(curr) == *old(
                curr,
            ),
        },
{
    match mergetag_skip(raw, *curr) {
        Ok(e) => {
            *curr = e;
            Ok(())
        },
        Err(e) => Err(e),
    }
}

} // verus!
