//! Persisting an editing buffer: each content type can serialize itself
//! and name the file it belongs in.

use vstd::prelude::*;
use crate::data::FileID;
use crate::text::TextContent;
use crate::table::TableContent;
use crate::db::{StoreOp, spec_dir, content_file, dir_path_of, content_path_of};
use crate::store::{
    spec_store_text, spec_store_table, store_note_content, store_table_content,
};

verus! {

/// Content that can be handed back to disk: serializing it yields the
/// write that persists it under its file's content path.
pub trait Saveable {
    /// The write that persists this content for the file `id` under
    /// `root`.
    fn save(&self, root: String, id: FileID) -> (op: StoreOp)
        ensures
            op.dir@ == spec_dir(root@, id.0),
            op.path@ == spec_dir(root@, id.0) + content_file(),
    ;
}

impl Saveable for TextContent {
    fn save(&self, root: String, id: FileID) -> (op: StoreOp)
        ensures
            op.body@ == spec_store_text(self.deep_view()),
    {
        StoreOp {
            dir: dir_path_of(root.as_str(), id),
            path: content_path_of(root.as_str(), id),
            body: store_note_content(self),
        }
    }
}

impl Saveable for TableContent {
    fn save(&self, root: String, id: FileID) -> (op: StoreOp)
        ensures
            op.body@ == spec_store_table(self.columns.deep_view(), self.cells.deep_view()),
    {
        StoreOp {
            dir: dir_path_of(root.as_str(), id),
            path: content_path_of(root.as_str(), id),
            body: store_table_content(self),
        }
    }
}

} // verus!
