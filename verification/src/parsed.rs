//! The parsed object: a tagged union over the four object kinds,
//! driven by a capability choice that says how deeply commits, trees
//! and blobs are parsed.

use vstd::prelude::*;
use crate::error::DbError;
use crate::loose::{UnparsedObject, UnparsedObjectType};
use crate::commit_parse::ParseCommit;
use crate::blob_parse::ParseBlob;
use crate::tree_parse::{TreeObject, abs_entries, tree_parse_spec, has_undecodable_path,
    lemma_decodable_not_undecodable};

verus! {

use vstd::utf8::encode_utf8;

/// How tree payloads are taken in.
pub trait ParseTree: Sized {
    /// The payloads this representation accepts: parsing succeeds on
    /// exactly these.
    spec fn parse_accepts(raw: Seq<u8>) -> bool;

    /// Build the tree representation from the raw payload. Succeeds
    /// exactly on an accepted payload.
    fn parse(raw: &[u8]) -> (r: Result<Self, DbError>)
        ensures
            r is Ok <==> Self::parse_accepts(raw@),
    ;
}

impl ParseTree for TreeObject {
    open spec fn parse_accepts(raw: Seq<u8>) -> bool {
        match tree_parse_spec(raw, 0) {
            Some(es) => !has_undecodable_path(es),
            None => false,
        }
    }

    fn parse(raw: &[u8]) -> (r: Result<Self, DbError>) {
        let r = TreeObject::parse(raw);
        proof {
            if r is Ok {
                let t = r->Ok_0;
                let es = abs_entries(t.entries@);
                assert(tree_parse_spec(raw@, 0) == Some(es));
                assert forall|k: int|
                    0 <= k < es.len() implies crate::strings_util::utf8_decodable(
                    (#[trigger] es[k]).1,
                ) by {
                    let cs = t.entries@[k].path_component@;
                    assert(encode_utf8(cs) == es[k].1);
                }
                lemma_decodable_not_undecodable(es);
            }
        }
        r
    }
}

/// A capability choice: how to parse each object kind.
pub trait ParseObject {
    type Commit: ParseCommit;
    type Blob: ParseBlob;
    type Tree: ParseTree;
}

/// Parse commits and trees fully; blobs keep their raw bytes.
pub struct ParseEverything {}

impl ParseObject for ParseEverything {
    type Commit = crate::commit_parse::CommitFull;

    type Blob = crate::blob_parse::BlobObjRaw;

    type Tree = TreeObject;
}

/// Like `ParseEverything`, but blobs must be valid UTF-8 text.
pub struct ParseEverythingBlobStrings {}

impl ParseObject for ParseEverythingBlobStrings {
    type Commit = crate::commit_parse::CommitFull;

    type Blob = crate::blob_parse::BlobObjStringOrError;

    type Tree = TreeObject;
}

/// Like `ParseEverything`, but blobs become text with invalid
/// sequences replaced.
pub struct ParseEverythingBlobStringsLossy {}

impl ParseObject for ParseEverythingBlobStringsLossy {
    type Commit = crate::commit_parse::CommitFull;

    type Blob = crate::blob_parse::BlobObjStringLossy;

    type Tree = TreeObject;
}

/// Parse commits and trees fully and drop blobs.
pub struct ParseEverythingButBlobs {}

impl ParseObject for ParseEverythingButBlobs {
    type Commit = crate::commit_parse::CommitFull;

    type Blob = crate::blob_parse::BlobObjectNone;

    type Tree = TreeObject;
}

/// The fastest choice that can still walk the object graph: commits
/// keep only tree and parents, blobs are dropped.
pub struct ParseBareMinimal {}

impl ParseObject for ParseBareMinimal {
    type Commit = crate::commit_parse::CommitOnlyTreeAndParents;

    type Blob = crate::blob_parse::BlobObjectNone;

    type Tree = TreeObject;
}

/// Tags are recognized but not parsed further.
#[derive(Debug)]
pub struct TagObject {}

/// A parsed object of one of the four kinds, with the representations
/// the capability choice `T` selects.
pub enum ParsedObject<T: ParseObject> {
    Commit(T::Commit),
    Tree(T::Tree),
    Blob(T::Blob),
    Tag(TagObject),
}

impl<T: ParseObject> ParsedObject<T> {
    /// Parse an object's payload as its kind directs. The resulting
    /// variant always follows the stored type tag, and parsing
    /// succeeds exactly when the chosen parser accepts the payload;
    /// a tag always does.
    pub fn try_from(unparsed: UnparsedObject) -> (r: Result<Self, DbError>)
        ensures
            r is Ok ==> match unparsed.object_type {
                UnparsedObjectType::Tree => r->Ok_0 is Tree,
                UnparsedObjectType::Commit => r->Ok_0 is Commit,
                UnparsedObjectType::Blob => r->Ok_0 is Blob,
                UnparsedObjectType::Tag => r->Ok_0 is Tag,
            },
            match unparsed.object_type {
                UnparsedObjectType::Tree => r is Ok <==> T::Tree::parse_accepts(
                    unparsed.payload@,
                ),
                UnparsedObjectType::Commit => r is Ok <==> T::Commit::parse_accepts(
                    unparsed.payload@,
                ),
                UnparsedObjectType::Blob => r is Ok <==> T::Blob::parse_accepts(
                    unparsed.payload@,
                ),
                UnparsedObjectType::Tag => r is Ok,
            },
    {
        match unparsed.object_type {
            UnparsedObjectType::Tree => {
                let tree_obj = match <T::Tree as ParseTree>::parse(unparsed.payload.as_slice()) {
                    Ok(t) => t,
                    Err(e) => {
                        return Err(e);
                    }
                };
                Ok(ParsedObject::Tree(tree_obj))
            },
            UnparsedObjectType::Commit => {
                let commit_obj = match <T::Commit as ParseCommit>::parse(
                    unparsed.payload.as_slice(),
                ) {
                    Ok(c) => c,
                    Err(e) => {
                        return Err(e);
                    }
                };
                Ok(ParsedObject::Commit(commit_obj))
            },
            UnparsedObjectType::Blob => {
                let blob_obj = match <T::Blob as ParseBlob>::parse(unparsed.payload.as_slice()) {
                    Ok(b) => b,
                    Err(e) => {
                        return Err(e);
                    }
                };
                Ok(ParsedObject::Blob(blob_obj))
            },
            UnparsedObjectType::Tag => Ok(ParsedObject::Tag(TagObject {  })),
        }
    }
}

} // verus!
