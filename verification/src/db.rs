//! The document registry: the process-wide catalog of file identifiers to
//! cover metadata.
//!
//! The registry holds the in-memory catalog and decides everything the
//! store has to decide; the caller performs the file-system work. It is
//! built from the cover files the caller read from disk, and every
//! operation that the design backs with a disk write returns the
//! [`StoreOp`] naming the directory to create, the file to overwrite and
//! the exact body to write.

use std::collections::HashMap;
use vstd::prelude::*;
use vstd::string::StringExecFns;
use crate::data::{FileID, FileDisplay, FileDisplayV, Category};
use crate::id::{spec_encode, spec_decode};
use crate::text::{TextContent, ParagraphV};
use crate::table::TableContent;
use crate::column::ColumnV;
use crate::store::{
    spec_load_cover, spec_store_cover, spec_load_text, spec_store_text, spec_load_table,
    spec_store_table, load_file_display, store_file_display, load_text_content,
    store_note_content, load_table_content, store_table_content,
};

verus! {

broadcast use vstd::std_specs::hash::group_hash_axioms;

/// One entry of the root's file directory, as the caller read it: the
/// directory's name and the text of its cover file.
pub struct CoverEntry {
    pub name: String,
    pub cover: String,
}

impl DeepView for CoverEntry {
    type V = (Seq<char>, Seq<char>);

    open spec fn deep_view(&self) -> (Seq<char>, Seq<char>) {
        (self.name@, self.cover@)
    }
}

/// A write the caller is to perform: create `dir` if it is missing, then
/// overwrite the file at `path` with `body`.
pub struct StoreOp {
    pub dir: String,
    pub path: String,
    pub body: String,
}

/// The path segment between the root and a file's directory.
pub open spec fn files_seg() -> Seq<char> {
    seq!['/', 'f', 'i', 'l', 'e', 's', '/']
}

/// The name of the cover file inside a file's directory.
pub open spec fn cover_file() -> Seq<char> {
    seq!['/', 'c', 'o', 'v', 'e', 'r', '.', 'j', 's', 'o', 'n']
}

/// The name of the content file inside a file's directory.
pub open spec fn content_file() -> Seq<char> {
    seq!['/', 'c', 'o', 'n', 't', 'e', 'n', 't', '.', 'j', 's', 'o', 'n']
}

/// The directory of the file with identifier `id` under `root`.
pub open spec fn spec_dir(root: Seq<char>, id: u64) -> Seq<char> {
    root + files_seg() + spec_encode(id)
}

/// What one directory entry contributes to the catalog: its identifier and
/// record if both its name and its cover parse, nothing otherwise.
pub open spec fn entry_record(name: Seq<char>, cover: Seq<char>) -> Option<(u64, FileDisplayV)> {
    match spec_decode(name) {
        Some(id) => match spec_load_cover(cover) {
            Some(d) => Some((id, d)),
            None => None,
        },
        None => None,
    }
}

/// The catalog built from directory entries in order, an unreadable entry
/// silently omitted, a repeated identifier keeping the later record.
pub open spec fn load_map(entries: Seq<(Seq<char>, Seq<char>)>) -> Map<u64, FileDisplayV>
    decreases entries.len(),
{
    if entries.len() == 0 {
        Map::empty()
    } else {
        let m = load_map(entries.drop_last());
        match entry_record(entries.last().0, entries.last().1) {
            Some((id, d)) => m.insert(id, d),
            None => m,
        }
    }
}

/// The catalog a hash map stands for.
pub open spec fn files_view(m: HashMap<u64, FileDisplay>) -> Map<u64, FileDisplayV> {
    Map::new(|k: u64| m@.contains_key(k), |k: u64| m@[k].deep_view())
}

/// Relies on `rand::random`: a value drawn from the thread-local
/// generator; nothing is promised of which value comes back.
pub assume_specification<T>[ rand::random::<T> ]() -> (r: T)
    where
        rand::distributions::Standard: rand::distributions::Distribution<T>,
;

/// A copy of a keyword list, element for element.
fn clone_strings(v: &Vec<String>) -> (r: Vec<String>)
    ensures
        r@ == v@,
{
    let mut r: Vec<String> = Vec::new();
    let n = v.len();
    let mut i: usize = 0;
    while i < n
        invariant
            i <= n,
            n == v@.len(),
            r@ == v@.take(i as int),
        decreases n - i,
    {
        r.push(v[i].clone());
        assert(r@ =~= v@.take(i + 1));
        i += 1;
    }
    assert(r@ =~= v@);
    r
}


/// If every value below `k` occurs in a duplicate-free sequence, the
/// sequence has at least `k` elements.
proof fn lemma_all_below_known(order: Seq<u64>, k: int)
    requires
        order.no_duplicates(),
        0 <= k <= u64::MAX as int + 1,
        forall|w: u64| (w as int) < k ==> order.contains(w),
    ensures
        k <= order.len(),
{
    broadcast use vstd::seq_lib::seq_to_set_is_finite;
    broadcast use vstd::set::group_set_axioms;

    let si = order.map_values(|x: u64| x as int);
    assert(si.no_duplicates()) by {
        assert forall|i: int, j: int|
            0 <= i < si.len() && 0 <= j < si.len() && i != j implies si[i] != si[j] by {
            assert(order[i] != order[j]);
        }
    }
    si.unique_seq_to_set();
    assert(vstd::set_lib::set_int_range(0, k).subset_of(si.to_set())) by {
        assert forall|x: int|
            vstd::set_lib::set_int_range(0, k).contains(x) implies si.to_set().contains(x) by {
            let w = x as u64;
            assert(order.contains(w));
            let idx = choose|idx: int| 0 <= idx < order.len() && order[idx] == w;
            assert(si[idx] == x);
            assert(si.contains(x));
        }
    }
    vstd::set_lib::lemma_int_range(0, k);
    vstd::set_lib::lemma_len_subset(vstd::set_lib::set_int_range(0, k), si.to_set());
}


/// Appending one value extends a sequence's membership by exactly it.
proof fn lemma_push_contains(s: Seq<u64>, x: u64, y: u64)
    ensures
        s.push(x).contains(y) <==> (s.contains(y) || y == x),
{
    if s.contains(y) {
        let i = choose|i: int| 0 <= i < s.len() && s[i] == y;
        assert(s.push(x)[i] == y);
    }
    assert(s.push(x)[s.len() as int] == x);
    if s.push(x).contains(y) {
        let i = choose|i: int| 0 <= i < s.push(x).len() && s.push(x)[i] == y;
        if i < s.len() {
            assert(s[i] == y);
        }
    }
}

/// Appending a value that does not occur keeps a sequence duplicate-free.
proof fn lemma_push_no_dup(s: Seq<u64>, x: u64)
    requires
        s.no_duplicates(),
        !s.contains(x),
    ensures
        s.push(x).no_duplicates(),
{
    let p = s.push(x);
    assert forall|i: int, j: int|
        0 <= i < p.len() && 0 <= j < p.len() && i != j implies p[i] != p[j] by {
        if i < s.len() && j < s.len() {
            assert(s[i] != s[j]);
        } else if i < s.len() {
            if s[i] == x {
                assert(s.contains(x));
            }
        } else if j < s.len() {
            if s[j] == x {
                assert(s.contains(x));
            }
        }
    }
}


/// The directory of the file with identifier `id` under `root`.
pub fn dir_path_of(root: &str, id: FileID) -> (r: String)
    ensures
        r@ == spec_dir(root@, id.0),
{
    let e = id.to_string();
    let r = String::from_str(root).concat("/files/").concat(e.as_str());
    proof {
        reveal_strlit("/files/");
        assert("/files/"@ =~= files_seg());
        assert(r@ =~= spec_dir(root@, id.0));
    }
    r
}

/// The path of the cover file of the file with identifier `id` under
/// `root`.
pub fn cover_path_of(root: &str, id: FileID) -> (r: String)
    ensures
        r@ == spec_dir(root@, id.0) + cover_file(),
{
    let r = dir_path_of(root, id).concat("/cover.json");
    proof {
        reveal_strlit("/cover.json");
        assert("/cover.json"@ =~= cover_file());
        assert(r@ =~= spec_dir(root@, id.0) + cover_file());
    }
    r
}

/// The path of the content file of the file with identifier `id` under
/// `root`.
pub fn content_path_of(root: &str, id: FileID) -> (r: String)
    ensures
        r@ == spec_dir(root@, id.0) + content_file(),
{
    let r = dir_path_of(root, id).concat("/content.json");
    proof {
        reveal_strlit("/content.json");
        assert("/content.json"@ =~= content_file());
        assert(r@ =~= spec_dir(root@, id.0) + content_file());
    }
    r
}

/// The document registry. It owns the catalog of cover records; content
/// bodies are never cached, every content access goes back to the caller's
/// disk.
pub struct DB {
    pub root: String,
    files: HashMap<u64, FileDisplay>,
    order: Vec<u64>,
}

impl DB {
    /// The root directory this registry serves.
    pub closed spec fn spec_root(self) -> Seq<char> {
        self.root@
    }

    /// The catalog: each known identifier's cover record.
    pub closed spec fn spec_files(self) -> Map<u64, FileDisplayV> {
        files_view(self.files)
    }

    /// The known identifiers, in the order they became known.
    pub closed spec fn spec_ids(self) -> Seq<u64> {
        self.order@
    }

    /// The registry's invariant: the identifier list names exactly the
    /// catalog's keys, each once.
    pub closed spec fn wf(self) -> bool {
        &&& self.order@.no_duplicates()
        &&& forall|k: u64| self.spec_files().contains_key(k) <==> self.order@.contains(k)
    }

    /// Build the registry from the cover entries the caller read from the
    /// root's file directory. An entry whose name or cover does not parse
    /// is silently omitted; no fault is raised for it.
    pub fn load(root: String, covers: Vec<CoverEntry>) -> (db: DB)
        ensures
            db.wf(),
            db.spec_root() == root@,
            db.spec_files() == load_map(covers.deep_view()),
    {
        let mut files: HashMap<u64, FileDisplay> = HashMap::new();
        let mut order: Vec<u64> = Vec::new();
        proof {
            assert(files_view(files) =~= load_map(covers.deep_view().take(0)));
        }
        let n = covers.len();
        let mut i: usize = 0;
        while i < n
            invariant
                i <= n,
                n == covers@.len(),
                files_view(files) == load_map(covers.deep_view().take(i as int)),
                order@.no_duplicates(),
                forall|k: u64| files_view(files).contains_key(k) <==> order@.contains(k),
            decreases n - i,
        {
            let ghost prefix = covers.deep_view().take(i as int);
            let entry = &covers[i];
            match FileID::from_str(entry.name.as_str()) {
                Ok(id) => {
                    match load_file_display(entry.cover.as_str()) {
                        Some(d) => {
                            let ghost oldorder = order@;
                            let had = files.contains_key(&id.0);
                            if !had {
                                order.push(id.0);
                            }
                            let ghost oldf = files;
                            files.insert(id.0, d);
                            proof {
                                assert(files_view(files) =~= files_view(oldf).insert(
                                    id.0,
                                    d.deep_view(),
                                ));
                                if !had {
                                    assert(!oldorder.contains(id.0));
                                    lemma_push_no_dup(oldorder, id.0);
                                }
                                assert forall|k: u64|
                                    files_view(files).contains_key(k) <==> order@.contains(
                                    k,
                                ) by {
                                    if !had {
                                        lemma_push_contains(oldorder, id.0, k);
                                    }
                                    if k == id.0 && had {
                                        assert(files_view(oldf).contains_key(k));
                                    }
                                }
                            }
                        },
                        None => {},
                    }
                },
                Err(_) => {},
            }
            proof {
                let next = covers.deep_view().take(i + 1);
                assert(next.drop_last() =~= prefix);
                assert(next.last() == covers@[i as int].deep_view());
                assert(files_view(files) =~= load_map(next));
            }
            i += 1;
        }
        proof {
            assert(covers.deep_view().take(n as int) =~= covers.deep_view());
        }
        DB { root, files, order }
    }

    /// The known identifiers, in the order they became known: every
    /// identifier of the catalog exactly once, and nothing else.
    pub fn ids(&self) -> (r: Vec<FileID>)
        requires
            self.wf(),
        ensures
            r@.len() == self.spec_ids().len(),
            forall|i: int| 0 <= i < r@.len() ==> (#[trigger] r@[i]).0 == self.spec_ids()[i],
            forall|i: int, j: int|
                0 <= i < r@.len() && 0 <= j < r@.len() && i != j ==> r@[i] != r@[j],
            forall|k: u64|
                self.spec_files().contains_key(k) <==> exists|i: int|
                    0 <= i < r@.len() && (#[trigger] r@[i]).0 == k,
    {
        let mut r: Vec<FileID> = Vec::new();
        let n = self.order.len();
        let mut i: usize = 0;
        while i < n
            invariant
                i <= n,
                n == self.order@.len(),
                r@.len() == i,
                forall|k: int| 0 <= k < i ==> (#[trigger] r@[k]).0 == self.order@[k],
            decreases n - i,
        {
            r.push(FileID(self.order[i]));
            i += 1;
        }
        proof {
            assert forall|i: int, j: int|
                0 <= i < r@.len() && 0 <= j < r@.len() && i != j implies r@[i] != r@[j] by {
                assert(self.order@[i] != self.order@[j]);
            }
            assert forall|k: u64| self.spec_files().contains_key(k) implies exists|i: int|
                0 <= i < r@.len() && (#[trigger] r@[i]).0 == k by {
                assert(self.order@.contains(k));
                let i = choose|i: int| 0 <= i < self.order@.len() && self.order@[i] == k;
                assert(r@[i].0 == k);
            }
            assert forall|k: u64| (exists|i: int|
                0 <= i < r@.len() && (#[trigger] r@[i]).0 == k) implies self.spec_files().contains_key(
                k,
            ) by {
                let i = choose|i: int| 0 <= i < r@.len() && (#[trigger] r@[i]).0 == k;
                assert(self.order@[i] == k);
                assert(self.order@.contains(k));
            }
        }
        r
    }

    /// The cover record of a known identifier, or nothing for an unknown
    /// one.
    pub fn get_file(&self, id: FileID) -> (r: Option<&FileDisplay>)
        ensures
            (match r {
                Some(d) => self.spec_files().contains_key(id.0) && d.deep_view()
                    == self.spec_files()[id.0],
                None => !self.spec_files().contains_key(id.0),
            }),
    {
        self.files.get(&id.0)
    }

    /// The directory of the file with identifier `id` under this root.
    pub fn dir_path(&self, id: FileID) -> (r: String)
        ensures
            r@ == spec_dir(self.spec_root(), id.0),
    {
        dir_path_of(self.root.as_str(), id)
    }

    /// The path of the cover file of the file with identifier `id`.
    pub fn cover_path(&self, id: FileID) -> (r: String)
        ensures
            r@ == spec_dir(self.spec_root(), id.0) + cover_file(),
    {
        cover_path_of(self.root.as_str(), id)
    }

    /// The path of the content file of the file with identifier `id`.
    pub fn content_path(&self, id: FileID) -> (r: String)
        ensures
            r@ == spec_dir(self.spec_root(), id.0) + content_file(),
    {
        content_path_of(self.root.as_str(), id)
    }

    /// The text content of a file, load-or-create: `disk` is what the
    /// caller read from the file's content path (nothing if the file was
    /// missing or unreadable). If it holds a JSON array, its content is
    /// returned; in every other case — missing, not JSON, or a parsed
    /// non-array root — the default empty content is returned together
    /// with the write that persists it, so that later loads are stable.
    pub fn get_text_content(&self, id: FileID, disk: Option<String>) -> (r: (
        TextContent,
        Option<StoreOp>,
    ))
        ensures
            (match (match disk {
                Some(s) => spec_load_text(s@),
                None => None::<Seq<ParagraphV>>,
            }) {
                Some(ps) => r.0.deep_view() == ps && r.1 is None,
                None => r.0.deep_view() == Seq::<ParagraphV>::empty() && (r.1 matches Some(op)
                    && op.dir@ == spec_dir(self.spec_root(), id.0) && op.path@ == spec_dir(
                    self.spec_root(),
                    id.0,
                ) + content_file() && op.body@ == spec_store_text(Seq::<ParagraphV>::empty())),
            }),
    {
        let parsed: Option<TextContent> = match &disk {
            Some(s) => load_text_content(s.as_str()),
            None => None,
        };
        match parsed {
            Some(t) => (t, None),
            None => {
                let t = TextContent::default();
                let body = store_note_content(&t);
                let op = StoreOp {
                    dir: self.dir_path(id),
                    path: self.content_path(id),
                    body,
                };
                (t, Some(op))
            },
        }
    }

    /// The table content of a file, load-or-create, exactly as
    /// [`Self::get_text_content`] but for the table schema.
    pub fn get_table_content(&self, id: FileID, disk: Option<String>) -> (r: (
        TableContent,
        Option<StoreOp>,
    ))
        ensures
            (match (match disk {
                Some(s) => spec_load_table(s@),
                None => None::<(Seq<ColumnV>, Seq<Option<Seq<char>>>)>,
            }) {
                Some(tc) => r.0.columns.deep_view() == tc.0 && r.0.cells.deep_view() == tc.1
                    && r.1 is None,
                None => r.0.columns.deep_view() == Seq::<ColumnV>::empty()
                    && r.0.cells.deep_view() == Seq::<Option<Seq<char>>>::empty() && (
                r.1 matches Some(op) && op.dir@ == spec_dir(self.spec_root(), id.0) && op.path@
                    == spec_dir(self.spec_root(), id.0) + content_file() && op.body@
                    == spec_store_table(
                    Seq::<ColumnV>::empty(),
                    Seq::<Option<Seq<char>>>::empty(),
                )),
            }),
    {
        let parsed: Option<TableContent> = match &disk {
            Some(s) => load_table_content(s.as_str()),
            None => None,
        };
        match parsed {
            Some(t) => (t, None),
            None => {
                let t = TableContent { columns: Vec::new(), cells: Vec::new() };
                proof {
                    assert(t.columns.deep_view() =~= Seq::<ColumnV>::empty());
                    assert(t.cells.deep_view() =~= Seq::<Option<Seq<char>>>::empty());
                }
                let body = store_table_content(&t);
                let op = StoreOp {
                    dir: self.dir_path(id),
                    path: self.content_path(id),
                    body,
                };
                (t, Some(op))
            },
        }
    }

    /// A fresh identifier, not yet in the catalog: drawn at random and
    /// redrawn on collision, with an exhaustive scan as the last resort so
    /// that the search provably ends.
    fn gen_id(&self) -> (id: FileID)
        requires
            self.wf(),
        ensures
            !self.spec_files().contains_key(id.0),
    {
        let mut tries: usize = 0;
        while tries < 16
            invariant
                tries <= 16,
            decreases 16 - tries,
        {
            let v: u64 = rand::random::<u64>();
            if !self.files.contains_key(&v) {
                return FileID(v);
            }
            tries += 1;
        }
        let n = self.order.len();
        let mut v: u64 = 0;
        while self.files.contains_key(&v)
            invariant
                self.wf(),
                n == self.order@.len(),
                forall|w: u64| w < v ==> self.order@.contains(w),
                v as int <= n as int,
            decreases n as int - v as int,
        {
            proof {
                assert(self.order@.contains(v));
                assert forall|w: u64| (w as int) < v as int + 1 implies self.order@.contains(
                    w,
                ) by {}
                lemma_all_below_known(self.order@, v as int + 1);
            }
            v = v + 1;
        }
        FileID(v)
    }

    /// Create a new file: assign a fresh identifier, register its cover
    /// record with empty keywords, and hand back the identifier together
    /// with the write that persists the cover.
    pub fn new_file(&mut self, title: String, category: Category) -> (r: (FileID, StoreOp))
        requires
            old(self).wf(),
        ensures
            final(self).wf(),
            final(self).spec_root() == old(self).spec_root(),
            !old(self).spec_files().contains_key(r.0.0),
            final(self).spec_files() == old(self).spec_files().insert(
                r.0.0,
                FileDisplayV { title: title@, category, keywords: Seq::<Seq<char>>::empty() },
            ),
            final(self).spec_ids() == old(self).spec_ids().push(r.0.0),
            r.1.dir@ == spec_dir(old(self).spec_root(), r.0.0),
            r.1.path@ == spec_dir(old(self).spec_root(), r.0.0) + cover_file(),
            r.1.body@ == spec_store_cover(
                FileDisplayV { title: title@, category, keywords: Seq::<Seq<char>>::empty() },
            ),
    {
        let id = self.gen_id();
        let d = FileDisplay { title, category, keywords: Vec::new() };
        proof {
            assert(d.deep_view().keywords =~= Seq::<Seq<char>>::empty());
        }
        let body = store_file_display(&d);
        let dir = self.dir_path(id);
        let path = self.cover_path(id);
        let ghost oldf = self.files;
        let ghost oldorder = self.order@;
        self.order.push(id.0);
        self.files.insert(id.0, d);
        proof {
            assert(files_view(self.files) =~= files_view(oldf).insert(id.0, d.deep_view()));
            assert(!oldorder.contains(id.0));
            lemma_push_no_dup(oldorder, id.0);
            assert forall|k: u64|
                files_view(self.files).contains_key(k) <==> self.order@.contains(k) by {
                lemma_push_contains(oldorder, id.0, k);
            }
        }
        (id, StoreOp { dir, path, body })
    }

    /// Give a known file a new title, and hand back the write that
    /// persists its updated cover.
    pub fn rename_file(&mut self, id: FileID, title: String) -> (op: StoreOp)
        requires
            old(self).wf(),
            old(self).spec_files().contains_key(id.0),
        ensures
            final(self).wf(),
            final(self).spec_root() == old(self).spec_root(),
            final(self).spec_ids() == old(self).spec_ids(),
            final(self).spec_files() == old(self).spec_files().insert(
                id.0,
                FileDisplayV {
                    title: title@,
                    category: old(self).spec_files()[id.0].category,
                    keywords: old(self).spec_files()[id.0].keywords,
                },
            ),
            op.dir@ == spec_dir(old(self).spec_root(), id.0),
            op.path@ == spec_dir(old(self).spec_root(), id.0) + cover_file(),
            op.body@ == spec_store_cover(
                FileDisplayV {
                    title: title@,
                    category: old(self).spec_files()[id.0].category,
                    keywords: old(self).spec_files()[id.0].keywords,
                },
            ),
    {
        let nd: FileDisplay = match self.files.get(&id.0) {
            Some(d) => FileDisplay {
                title,
                category: d.category,
                keywords: clone_strings(&d.keywords),
            },
            None => {
                proof {
                    assert(false);
                }
                FileDisplay { title, category: Category::Text, keywords: Vec::new() }
            },
        };
        let body = store_file_display(&nd);
        let dir = self.dir_path(id);
        let path = self.cover_path(id);
        let ghost oldf = self.files;
        self.files.insert(id.0, nd);
        proof {
            assert(files_view(self.files) =~= files_view(oldf).insert(id.0, nd.deep_view()));
        }
        StoreOp { dir, path, body }
    }

    /// Replace a known file's keywords, and hand back the write that
    /// persists its updated cover.
    pub fn set_file_keywords(&mut self, id: FileID, keywords: Vec<String>) -> (op: StoreOp)
        requires
            old(self).wf(),
            old(self).spec_files().contains_key(id.0),
        ensures
            final(self).wf(),
            final(self).spec_root() == old(self).spec_root(),
            final(self).spec_ids() == old(self).spec_ids(),
            final(self).spec_files() == old(self).spec_files().insert(
                id.0,
                FileDisplayV {
                    title: old(self).spec_files()[id.0].title,
                    category: old(self).spec_files()[id.0].category,
                    keywords: keywords.deep_view(),
                },
            ),
            op.dir@ == spec_dir(old(self).spec_root(), id.0),
            op.path@ == spec_dir(old(self).spec_root(), id.0) + cover_file(),
            op.body@ == spec_store_cover(
                FileDisplayV {
                    title: old(self).spec_files()[id.0].title,
                    category: old(self).spec_files()[id.0].category,
                    keywords: keywords.deep_view(),
                },
            ),
    {
        let nd: FileDisplay = match self.files.get(&id.0) {
            Some(d) => FileDisplay {
                title: d.title.clone(),
                category: d.category,
                keywords,
            },
            None => {
                proof {
                    assert(false);
                }
                FileDisplay { title: String::new(), category: Category::Text, keywords }
            },
        };
        let body = store_file_display(&nd);
        let dir = self.dir_path(id);
        let path = self.cover_path(id);
        let ghost oldf = self.files;
        self.files.insert(id.0, nd);
        proof {
            assert(files_view(self.files) =~= files_view(oldf).insert(id.0, nd.deep_view()));
        }
        StoreOp { dir, path, body }
    }
}

} // verus!
