//! Table columns and their identifiers.
//!
//! A column identifier uses the same 64-bit codec as a file identifier but
//! is scoped to the columns of one table document.

use vstd::prelude::*;
use crate::id::{spec_encode, spec_decode, encode_u64, decode_u64, DecodeError};

verus! {

/// The identifier of one table column.
#[derive(Debug, Clone, Copy, PartialEq, Eq, Hash, Structural)]
pub struct ColumnID(pub u64);

impl DeepView for ColumnID {
    type V = u64;

    open spec fn deep_view(&self) -> u64 {
        self.0
    }
}

impl ColumnID {
    /// The canonical string form of this identifier.
    pub fn to_string(&self) -> (s: String)
        ensures
            s@ == spec_encode(self.0),
    {
        encode_u64(self.0)
    }

    /// Parse the canonical string form; fails on any string that
    /// [`Self::to_string`] cannot produce.
    pub fn from_str(s: &str) -> (r: Result<ColumnID, DecodeError>)
        ensures
            r matches Ok(id) ==> spec_decode(s@) == Some(id.0),
            r is Err <==> spec_decode(s@) is None,
    {
        match decode_u64(s) {
            Ok(v) => Ok(ColumnID(v)),
            Err(e) => Err(e),
        }
    }
}

/// One column of a table document: its identifier, its display name, and a
/// flag reserved for a future uniqueness constraint (not enforced today).
#[derive(Debug, Clone)]
pub struct Column {
    pub id: ColumnID,
    pub name: String,
    pub unique: bool,
}

/// The mathematical value of a [`Column`].
pub struct ColumnV {
    pub id: u64,
    pub name: Seq<char>,
    pub unique: bool,
}

impl DeepView for Column {
    type V = ColumnV;

    open spec fn deep_view(&self) -> ColumnV {
        ColumnV { id: self.id.0, name: self.name@, unique: self.unique }
    }
}

} // verus!
