//! File identity and cover metadata.

use vstd::prelude::*;
use crate::id::{spec_encode, spec_decode, encode_u64, decode_u64, DecodeError};

verus! {

/// The schema of a document, fixed at creation: free-form text or a table.
#[derive(Debug, Clone, Copy, PartialEq, Eq, Structural)]
pub enum Category {
    Text,
    Table,
}

/// The identifier of one document: an opaque 64-bit value whose canonical
/// string form names the document's directory on disk.
#[derive(Debug, Clone, Copy, PartialEq, Eq, Hash, Structural)]
pub struct FileID(pub u64);

impl FileID {
    /// The canonical string form of this identifier.
    pub fn to_string(&self) -> (s: String)
        ensures
            s@ == spec_encode(self.0),
    {
        encode_u64(self.0)
    }

    /// Parse the canonical string form; fails on any string that
    /// [`Self::to_string`] cannot produce.
    pub fn from_str(s: &str) -> (r: Result<FileID, DecodeError>)
        ensures
            r matches Ok(id) ==> spec_decode(s@) == Some(id.0),
            r is Err <==> spec_decode(s@) is None,
    {
        match decode_u64(s) {
            Ok(v) => Ok(FileID(v)),
            Err(e) => Err(e),
        }
    }
}

impl Default for FileID {
    /// The all-zero identifier.
    fn default() -> (r: FileID)
        ensures
            r.0 == 0,
    {
        FileID(0)
    }
}

/// The cover metadata of one document: its display title, its schema, and
/// its keywords in order.
#[derive(Debug, Clone)]
pub struct FileDisplay {
    pub title: String,
    pub category: Category,
    pub keywords: Vec<String>,
}

/// The mathematical value of a [`FileDisplay`].
pub struct FileDisplayV {
    pub title: Seq<char>,
    pub category: Category,
    pub keywords: Seq<Seq<char>>,
}

impl DeepView for FileDisplay {
    type V = FileDisplayV;

    open spec fn deep_view(&self) -> FileDisplayV {
        FileDisplayV {
            title: self.title@,
            category: self.category,
            keywords: self.keywords.deep_view(),
        }
    }
}

} // verus!
