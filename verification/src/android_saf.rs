//! Storage on a document tree that an Android user granted: how paths are found in
//! the tree, and what follows what the system answers.
use crate::error::{StorageErrorKind, StorageFault};
use crate::text::{
    after_last, ascii_lower, before_last, concat2, concat3, contains_text, has_infix, has_prefix,
    is_space_char, last_pos, rsplit_once, split, split_char, starts_with, text_eq, to_ascii_lowercase, trim,
    trim_end_char, trim_end_matches, trim_start_char, trim_start_matches, trimmed, views,
};
use vstd::prelude::*;

verus! {

pub const ANDROID_SAF_SCHEME: &'static str = "android_saf";

/// Type of a directory among documents.
pub const ANDROID_SAF_MIME_DIR: &'static str = "vnd.android.document/directory";

/// Type with which a file is created.
pub const MIME_OCTET_STREAM: &'static str = "application/octet-stream";

// ---------------------------------------------------------------- set-up
/// Builder of the backend; the root is the address of a document tree.
#[derive(Debug)]
pub struct AndroidSafBuilder {
    tree_uri: Option<String>,
}

impl Default for AndroidSafBuilder {
    fn default() -> (res: AndroidSafBuilder)
        ensures
            res@ is None,
    {
        AndroidSafBuilder { tree_uri: None }
    }
}

impl AndroidSafBuilder {
    /// The address of the tree, where one was given.
    pub closed spec fn view(self) -> Option<Seq<char>> {
        match self.tree_uri {
            Some(t) => Some(t@),
            None => None,
        }
    }

    /// Set the address; a blank one is none.
    pub fn root(self, tree_uri: &str) -> (res: AndroidSafBuilder)
        ensures
            res@ == if trimmed(tree_uri@).len() == 0 {
                None
            } else {
                Some(trimmed(tree_uri@))
            },
    {
        let t = trim(tree_uri);
        AndroidSafBuilder {
            tree_uri: if t.is_empty() {
                None
            } else {
                Some(t.to_owned())
            },
        }
    }

    /// The address to build the backend on.
    pub fn into_tree_uri(self) -> (res: Result<String, StorageFault>)
        ensures
            match res {
                Ok(uri) => self@ == Some(uri@) && has_prefix(trimmed(uri@), "content://"@),
                Err(e) => if self@ is None {
                    e.is(
                        StorageErrorKind::ConfigInvalid,
                        "android_saf root (tree uri) is not specified"@,
                    )
                } else {
                    !has_prefix(trimmed(self@->0), "content://"@) && e.is(
                        StorageErrorKind::ConfigInvalid,
                        "android_saf root must be a SAF tree uri (content://...)"@,
                    )
                },
            },
    {
        match self.tree_uri {
            Some(uri) => if starts_with(trim(uri.as_str()), "content://") {
                Ok(uri)
            } else {
                Err(
                    StorageFault::new(
                        StorageErrorKind::ConfigInvalid,
                        "android_saf root must be a SAF tree uri (content://...)",
                    ),
                )
            },
            None => Err(
                StorageFault::new(
                    StorageErrorKind::ConfigInvalid,
                    "android_saf root (tree uri) is not specified",
                ),
            ),
        }
    }
}

/// A write is accepted: it does not append, and is in one piece.
pub fn check_write(append: bool, concurrent: usize) -> (res: Result<(), StorageFault>)
    ensures
        match res {
            Ok(()) => !append && concurrent <= 1,
            Err(e) => if append {
                e.is(
                    StorageErrorKind::Unsupported,
                    "android_saf doesn't support append writes"@,
                )
            } else {
                concurrent > 1 && e.is(
                    StorageErrorKind::Unsupported,
                    "android_saf doesn't support concurrent writes"@,
                )
            },
        },
{
    if append {
        return Err(
            StorageFault::new(
                StorageErrorKind::Unsupported,
                "android_saf doesn't support append writes",
            ),
        );
    }
    if concurrent > 1 {
        return Err(
            StorageFault::new(
                StorageErrorKind::Unsupported,
                "android_saf doesn't support concurrent writes",
            ),
        );
    }
    Ok(())
}

/// What kind of failure an exception of the system tells.
pub open spec fn exception_kind(exception: Seq<char>) -> StorageErrorKind {
    if has_infix(exception, "SecurityException"@) || has_infix(
        ascii_lower(exception),
        "permission"@,
    ) {
        StorageErrorKind::PermissionDenied
    } else if has_infix(exception, "FileNotFound"@) {
        StorageErrorKind::NotFound
    } else if has_infix(exception, "UnsupportedOperationException"@) {
        StorageErrorKind::Unsupported
    } else {
        StorageErrorKind::Unexpected
    }
}

/// The failure that a call into the system ended with; `exception` is the text of
/// the exception, where there was one.
pub fn system_fault(action: &str, exception: Option<&str>) -> (res: StorageFault)
    ensures
        match exception {
            Some(ex) => res.is(
                exception_kind(ex@),
                "android_saf jni error during "@ + action@ + ": "@ + ex@,
            ),
            None => res.is(
                StorageErrorKind::Unexpected,
                "android_saf jni error during "@ + action@,
            ),
        },
{
    let base: String = concat2("android_saf jni error during ", action);
    match exception {
        Some(ex) => {
            let lower: String = to_ascii_lowercase(ex);
            let kind: StorageErrorKind = if contains_text(ex, "SecurityException") || contains_text(
                lower.as_str(),
                "permission",
            ) {
                StorageErrorKind::PermissionDenied
            } else if contains_text(ex, "FileNotFound") {
                StorageErrorKind::NotFound
            } else if contains_text(ex, "UnsupportedOperationException") {
                StorageErrorKind::Unsupported
            } else {
                StorageErrorKind::Unexpected
            };
            StorageFault { kind, message: concat3(base.as_str(), ": ", ex) }
        },
        None => StorageFault { kind: StorageErrorKind::Unexpected, message: base },
    }
}

// ---------------------------------------------------------------- paths
/// A path without surrounding space and slashes.
pub open spec fn bare_path(path: Seq<char>) -> Seq<char> {
    trim_end_char(trim_start_char(trimmed(path), '/'), '/')
}

/// A path without surrounding space and slashes, and whether it is a directory's.
pub fn normalize_path(path: &str) -> (res: (String, bool))
    ensures
        res.0@ == bare_path(path@),
        res.1 == (trimmed(path@).len() > 0 && trimmed(path@).last() == '/'),
{
    let t = trim(path);
    let is_dir: bool = crate::text::ends_with_char(t, '/');
    let p = trim_end_matches(trim_start_matches(t, '/'), '/');
    (p.to_owned(), is_dir)
}

/// Directory and name of a path; the directory of a bare name is empty.
pub fn split_parent_child(path: &str) -> (res: (String, String))
    ensures
        res.1@ == after_last(bare_path(path@), '/'),
        res.0@ == if last_pos(bare_path(path@), '/') >= 0 {
            before_last(bare_path(path@), '/')
        } else {
            Seq::empty()
        },
{
    let (norm, _) = normalize_path(path);
    match rsplit_once(norm.as_str(), '/') {
        Some((parent, name)) => (parent.to_owned(), name.to_owned()),
        None => {
            proof {
                reveal_strlit("");
            }
            ("".to_owned(), norm.as_str().to_owned())
        },
    }
}

/// The names on the way down to a path.
pub open spec fn components(path: Seq<char>) -> Seq<Seq<char>> {
    if bare_path(path).len() == 0 {
        Seq::empty()
    } else {
        split_char(bare_path(path), '/').filter(|p: Seq<char>| p.len() > 0)
    }
}

fn path_components(path: &str) -> (res: Vec<String>)
    ensures
        views(res@) == components(path@),
{
    let (norm, _) = normalize_path(path);
    let mut out: Vec<String> = Vec::new();
    if norm.as_str().is_empty() {
        assert(views(out@) =~= Seq::empty());
        return out;
    }
    let pieces: Vec<String> = split(norm.as_str(), '/');
    let ghost all = views(pieces@);
    let ghost keep = |p: Seq<char>| p.len() > 0;
    let mut i: usize = 0;
    proof {
        reveal(Seq::filter);
        assert(all.take(0) =~= Seq::<Seq<char>>::empty());
        assert(views(out@) =~= all.take(0).filter(keep));
    }
    while i < pieces.len()
        invariant
            i <= pieces@.len(),
            all == views(pieces@),
            keep == (|p: Seq<char>| p.len() > 0),
            views(out@) == all.take(i as int).filter(keep),
        decreases pieces@.len() - i,
    {
        proof {
            reveal(Seq::filter);
            assert(all.take(i + 1).drop_last() =~= all.take(i as int));
            assert(all.take(i + 1).last() == pieces@[i as int]@);
        }
        if !pieces[i].as_str().is_empty() {
            let ghost before = views(out@);
            out.push(pieces[i].as_str().to_owned());
            assert(views(out@) =~= before.push(pieces@[i as int]@));
        }
        i += 1;
    }
    assert(all.take(i as int) =~= all);
    out
}

// ---------------------------------------------------------------- documents
/// A document in a directory.
#[derive(Debug)]
pub struct DocRow {
    pub id: String,
    pub name: String,
    pub mime: String,
}

/// The document at `i` is the first of the name.
pub open spec fn first_named(rows: Seq<DocRow>, name: Seq<char>, i: int) -> bool {
    &&& 0 <= i < rows.len()
    &&& rows[i].name@ == name
    &&& forall|j: int| 0 <= j < i ==> (#[trigger] rows[j]).name@ != name
}

pub open spec fn none_named(rows: Seq<DocRow>, name: Seq<char>) -> bool {
    forall|j: int| 0 <= j < rows.len() ==> (#[trigger] rows[j]).name@ != name
}

/// Position of the first document of the name.
pub fn find_child(rows: &Vec<DocRow>, name: &str) -> (res: Option<usize>)
    ensures
        match res {
            Some(i) => first_named(rows@, name@, i as int),
            None => none_named(rows@, name@),
        },
{
    let mut i: usize = 0;
    while i < rows.len()
        invariant
            i <= rows@.len(),
            forall|j: int| 0 <= j < i ==> (#[trigger] rows@[j]).name@ != name@,
        decreases rows@.len() - i,
    {
        if text_eq(rows[i].name.as_str(), name) {
            return Some(i);
        }
        i += 1;
    }
    None
}

/// What a walk looks for.
#[derive(Debug, Clone, Copy, PartialEq, Eq, Structural)]
pub enum WalkKind {
    /// Anything that exists.
    Existing,
    /// A directory that exists.
    Directory,
    /// A directory; those that are missing are created.
    CreateDirectory,
}

/// The way down from a directory to a document.
pub struct DocWalk {
    kind: WalkKind,
    parts: Vec<String>,
    at: usize,
    current: String,
}

/// What follows one directory's listing.
#[derive(Debug)]
pub enum WalkStep {
    /// The walk went one step down.
    Entered,
    /// The next directory has to be created, and reported.
    Create,
    Failed(StorageFault),
}

impl DocWalk {
    pub closed spec fn wf(self) -> bool {
        self.at <= self.parts@.len()
    }

    pub closed spec fn wanted(self) -> WalkKind {
        self.kind
    }

    /// Document that the walk has come to.
    pub closed spec fn here(self) -> Seq<char> {
        self.current@
    }

    /// The names that are left on the way.
    pub closed spec fn ahead(self) -> Seq<Seq<char>> {
        views(self.parts@).skip(self.at as int)
    }

    pub fn new(kind: WalkKind, from_doc_id: &str, path: &str) -> (res: DocWalk)
        ensures
            res.wf(),
            res.wanted() == kind,
            res.here() == from_doc_id@,
            res.ahead() == components(path@),
    {
        let res: DocWalk = DocWalk {
            kind,
            parts: path_components(path),
            at: 0,
            current: from_doc_id.to_owned(),
        };
        assert(res.ahead() =~= components(path@));
        res
    }

    /// The directory to list and the name to look for there, unless the walk is over.
    pub fn pending(&self) -> (res: Option<(&str, &str)>)
        requires
            self.wf(),
        ensures
            match res {
                Some((dir, name)) => self.ahead().len() > 0 && dir@ == self.here() && name@
                    == self.ahead()[0],
                None => self.ahead().len() == 0,
            },
    {
        if self.at < self.parts.len() {
            Some((self.current.as_str(), self.parts[self.at].as_str()))
        } else {
            None
        }
    }

    /// The document that the walk has come to.
    pub fn current(&self) -> (res: &str)
        ensures
            res@ == self.here(),
    {
        self.current.as_str()
    }

    /// `next` is the walk one step further, at the document `id`.
    pub open spec fn goes_to(self, id: Seq<char>, next: DocWalk) -> bool {
        &&& next.wf()
        &&& next.wanted() == self.wanted()
        &&& next.here() == id
        &&& next.ahead() == self.ahead().skip(1)
    }

    /// Go on with the listing of the current directory; `None` where the system gave
    /// none.
    pub fn enter(&mut self, rows: Option<&Vec<DocRow>>) -> (res: WalkStep)
        requires
            old(self).wf(),
            old(self).ahead().len() > 0,
        ensures
            final(self).wf(),
            !(res is Entered) ==> *final(self) == *old(self),
            match res {
                WalkStep::Entered => rows is Some && exists|i: int|
                    {
                        &&& #[trigger] first_named(rows->0@, old(self).ahead()[0], i)
                        &&& old(self).goes_to(rows->0@[i].id@, *final(self))
                        &&& old(self).wanted() == WalkKind::Existing || rows->0@[i].mime@
                            == ANDROID_SAF_MIME_DIR@
                    },
                WalkStep::Create => rows is Some && none_named(rows->0@, old(self).ahead()[0])
                    && old(self).wanted() == WalkKind::CreateDirectory,
                WalkStep::Failed(e) => {
                    ||| rows is None && e.is(
                        StorageErrorKind::Unexpected,
                        "ContentResolver.query returned null cursor"@,
                    )
                    ||| rows is Some && none_named(rows->0@, old(self).ahead()[0]) && old(
                        self,
                    ).wanted() == WalkKind::Existing && e.is(
                        StorageErrorKind::NotFound,
                        "Path component not found"@,
                    )
                    ||| rows is Some && none_named(rows->0@, old(self).ahead()[0]) && old(
                        self,
                    ).wanted() == WalkKind::Directory && e.is(
                        StorageErrorKind::NotFound,
                        "Directory not found"@,
                    )
                    ||| rows is Some && old(self).wanted() != WalkKind::Existing && e.is(
                        StorageErrorKind::NotADirectory,
                        "Path component is not a directory"@,
                    ) && exists|i: int|
                        #[trigger] first_named(rows->0@, old(self).ahead()[0], i)
                            && rows->0@[i].mime@ != ANDROID_SAF_MIME_DIR@
                },
            },
    {
        let list: &Vec<DocRow> = match rows {
            Some(list) => list,
            None => return WalkStep::Failed(
                StorageFault::new(
                    StorageErrorKind::Unexpected,
                    "ContentResolver.query returned null cursor",
                ),
            ),
        };
        assert(self.ahead()[0] == self.parts@[self.at as int]@);
        match find_child(list, self.parts[self.at].as_str()) {
            Some(i) => {
                if self.kind != WalkKind::Existing && !text_eq(
                    list[i].mime.as_str(),
                    ANDROID_SAF_MIME_DIR,
                ) {
                    return WalkStep::Failed(
                        StorageFault::new(
                            StorageErrorKind::NotADirectory,
                            "Path component is not a directory",
                        ),
                    );
                }
                let ghost before = *self;
                let n: usize = self.parts.len();
                assert(self.at < n);
                self.current = list[i].id.as_str().to_owned();
                self.at = self.at + 1;
                assert(self.ahead() =~= before.ahead().skip(1));
                WalkStep::Entered
            },
            None => match self.kind {
                WalkKind::Existing => WalkStep::Failed(
                    StorageFault::new(StorageErrorKind::NotFound, "Path component not found"),
                ),
                WalkKind::Directory => WalkStep::Failed(
                    StorageFault::new(StorageErrorKind::NotFound, "Directory not found"),
                ),
                WalkKind::CreateDirectory => WalkStep::Create,
            },
        }
    }

    /// Go on into the directory that was created.
    pub fn created(&mut self, doc_id: &str)
        requires
            old(self).wf(),
            old(self).ahead().len() > 0,
        ensures
            old(self).goes_to(doc_id@, *final(self)),
    {
        let ghost before = *self;
        let n: usize = self.parts.len();
        assert(self.ahead().len() == n - self.at);
        self.current = doc_id.to_owned();
        self.at = self.at + 1;
        assert(self.ahead() =~= before.ahead().skip(1));
    }
}

/// The first document of the name.
pub open spec fn child_id(rows: Seq<DocRow>, name: Seq<char>) -> Seq<char> {
    rows[choose|i: int| first_named(rows, name, i)].id@
}

/// The document at the end of the way from `id` through `names`, where each
/// directory lists what `tree` says.
pub open spec fn destination(
    tree: spec_fn(Seq<char>) -> Seq<DocRow>,
    id: Seq<char>,
    names: Seq<Seq<char>>,
) -> Option<Seq<char>>
    decreases names.len(),
{
    if names.len() == 0 {
        Some(id)
    } else if none_named(tree(id), names[0]) {
        None
    } else {
        destination(tree, child_id(tree(id), names[0]), names.skip(1))
    }
}

/// A walk over a tree that stays as it is comes to the document that the path names
/// from the start: no step changes where it leads.
pub proof fn walk_keeps_its_destination(
    tree: spec_fn(Seq<char>) -> Seq<DocRow>,
    before: DocWalk,
    after: DocWalk,
    i: int,
)
    requires
        before.ahead().len() > 0,
        first_named(tree(before.here()), before.ahead()[0], i),
        before.goes_to(tree(before.here())[i].id@, after),
    ensures
        destination(tree, before.here(), before.ahead()) == destination(
            tree,
            after.here(),
            after.ahead(),
        ),
{
    let rows = tree(before.here());
    let k = choose|k: int| first_named(rows, before.ahead()[0], k);
    assert(first_named(rows, before.ahead()[0], k));
    assert(k == i) by {
        if k < i {
            assert(rows[k].name@ != before.ahead()[0]);
        } else if i < k {
            assert(rows[i].name@ != before.ahead()[0]);
        }
    }
    assert(!none_named(rows, before.ahead()[0]));
}

// ---------------------------------------------------------------- what is told of a document
/// What is told of a document.
#[derive(Debug, Clone, Copy, PartialEq, Eq, Structural)]
pub struct DocStat {
    pub is_dir: bool,
    pub size: u64,
    /// Milliseconds since the epoch.
    pub modified_ms: Option<i64>,
}

/// What the columns of a document say; a time that is not after the epoch is none.
pub fn doc_stat(mime: &str, size: Option<i64>, last_modified: Option<i64>) -> (res: DocStat)
    ensures
        res.is_dir == (mime@ == ANDROID_SAF_MIME_DIR@),
        res.size == match size {
            Some(n) => n as u64,
            None => 0,
        },
        res.modified_ms == match last_modified {
            Some(ms) => if ms <= 0 {
                None
            } else {
                Some(ms)
            },
            None => None,
        },
{
    let bytes: u64 = match size {
        Some(n) => #[verifier::truncate] (n as u64),
        None => 0,
    };
    let modified_ms: Option<i64> = match last_modified {
        Some(ms) => if ms <= 0 {
            None
        } else {
            Some(ms)
        },
        None => None,
    };
    DocStat { is_dir: text_eq(mime, ANDROID_SAF_MIME_DIR), size: bytes, modified_ms }
}

/// Path of a document in the listing of a directory.
pub fn entry_path(dir_path: &str, name: &str, is_dir: bool) -> (res: String)
    ensures
        res@ == (if bare_path(dir_path@).len() == 0 {
            Seq::empty()
        } else {
            trim_end_char(bare_path(dir_path@), '/') + "/"@
        }) + name@ + (if is_dir {
            "/"@
        } else {
            Seq::empty()
        }),
{
    let (norm, _) = normalize_path(dir_path);
    let suffix: &str = if is_dir {
        "/"
    } else {
        ""
    };
    proof {
        reveal_strlit("");
    }
    if norm.as_str().is_empty() {
        let res: String = concat2(name, suffix);
        assert(res@ =~= Seq::<char>::empty() + name@ + suffix@);
        res
    } else {
        crate::text::concat4(trim_end_matches(norm.as_str(), '/'), "/", name, suffix)
    }
}

// ---------------------------------------------------------------- writing, deleting, renaming
/// A file can be written at the path: it has a name.
pub fn check_write_path(path: &str) -> (res: Result<(String, String), StorageFault>)
    ensures
        match res {
            Ok((parent, name)) => after_last(bare_path(path@), '/').len() > 0 && name@
                == after_last(bare_path(path@), '/') && parent@ == if last_pos(
                bare_path(path@),
                '/',
            ) >= 0 {
                before_last(bare_path(path@), '/')
            } else {
                Seq::empty()
            },
            Err(e) => after_last(bare_path(path@), '/').len() == 0 && e.is(
                StorageErrorKind::ConfigInvalid,
                "Invalid path for write"@,
            ),
        },
{
    let (parent, name) = split_parent_child(path);
    if name.as_str().is_empty() {
        Err(StorageFault::new(StorageErrorKind::ConfigInvalid, "Invalid path for write"))
    } else {
        Ok((parent, name))
    }
}

/// What is opened for a write.
#[derive(Debug)]
pub enum WriteTarget {
    /// The document that is there.
    Existing(String),
    /// A document that is created first.
    Create,
}

/// What is opened for a write, by what the walk to the file found.
pub open spec fn is_write_target(
    found: Result<String, StorageFault>,
    if_not_exists: bool,
    res: Result<WriteTarget, StorageFault>,
) -> bool {
    match found {
        Ok(id) => if if_not_exists {
            res is Err && res->Err_0.is(
                StorageErrorKind::ConditionNotMatch,
                "file already exists (if_not_exists)"@,
            )
        } else {
            res == Ok::<WriteTarget, StorageFault>(WriteTarget::Existing(id))
        },
        Err(e) => if e.kind == StorageErrorKind::NotFound {
            res == Ok::<WriteTarget, StorageFault>(WriteTarget::Create)
        } else {
            res == Err::<WriteTarget, StorageFault>(e)
        },
    }
}

pub fn write_target(found: Result<String, StorageFault>, if_not_exists: bool) -> (res: Result<
    WriteTarget,
    StorageFault,
>)
    ensures
        is_write_target(found, if_not_exists, res),
{
    match found {
        Ok(id) => if if_not_exists {
            Err(
                StorageFault::new(
                    StorageErrorKind::ConditionNotMatch,
                    "file already exists (if_not_exists)",
                ),
            )
        } else {
            Ok(WriteTarget::Existing(id))
        },
        Err(e) => if e.kind == StorageErrorKind::NotFound {
            Ok(WriteTarget::Create)
        } else {
            Err(e)
        },
    }
}

/// The document to delete, where there is one, by what the walk to it found. The root
/// of the tree is never deleted.
pub open spec fn is_delete_target(
    found: Result<String, StorageFault>,
    root_doc_id: Seq<char>,
    res: Result<Option<String>, StorageFault>,
) -> bool {
    match found {
        Ok(id) => if id@ == root_doc_id {
            res is Err && res->Err_0.is(
                StorageErrorKind::PermissionDenied,
                "Refusing to delete SAF tree root"@,
            )
        } else {
            res == Ok::<Option<String>, StorageFault>(Some(id))
        },
        Err(e) => if e.kind == StorageErrorKind::NotFound {
            res == Ok::<Option<String>, StorageFault>(None)
        } else {
            res == Err::<Option<String>, StorageFault>(e)
        },
    }
}

pub fn delete_target(found: Result<String, StorageFault>, root_doc_id: &str) -> (res: Result<
    Option<String>,
    StorageFault,
>)
    ensures
        is_delete_target(found, root_doc_id@, res),
{
    match found {
        Ok(id) => if text_eq(id.as_str(), root_doc_id) {
            Err(
                StorageFault::new(
                    StorageErrorKind::PermissionDenied,
                    "Refusing to delete SAF tree root",
                ),
            )
        } else {
            Ok(Some(id))
        },
        Err(e) => if e.kind == StorageErrorKind::NotFound {
            Ok(None)
        } else {
            Err(e)
        },
    }
}

/// What the system answered to a deletion.
pub fn delete_outcome(deleted: bool) -> (res: Result<(), StorageFault>)
    ensures
        match res {
            Ok(()) => deleted,
            Err(e) => !deleted && e.is(
                StorageErrorKind::Unexpected,
                "DocumentsContract.deleteDocument returned false"@,
            ),
        },
{
    if deleted {
        Ok(())
    } else {
        Err(
            StorageFault::new(
                StorageErrorKind::Unexpected,
                "DocumentsContract.deleteDocument returned false",
            ),
        )
    }
}

/// A directory that does not exist lists nothing.
pub open spec fn is_list_outcome(
    found: Result<Vec<DocRow>, StorageFault>,
    res: Result<Vec<DocRow>, StorageFault>,
) -> bool {
    match found {
        Ok(rows) => res == Ok::<Vec<DocRow>, StorageFault>(rows),
        Err(e) => if e.kind == StorageErrorKind::NotFound {
            res is Ok && res->Ok_0@.len() == 0
        } else {
            res == Err::<Vec<DocRow>, StorageFault>(e)
        },
    }
}

pub fn list_outcome(found: Result<Vec<DocRow>, StorageFault>) -> (res: Result<
    Vec<DocRow>,
    StorageFault,
>)
    ensures
        is_list_outcome(found, res),
{
    match found {
        Ok(rows) => Ok(rows),
        Err(e) => if e.kind == StorageErrorKind::NotFound {
            Ok(Vec::new())
        } else {
            Err(e)
        },
    }
}

/// A step of a renaming.
#[derive(Debug, Clone, Copy, PartialEq, Eq, Structural)]
pub enum RenameStep {
    /// Move the document to its new directory.
    MoveDocument,
    /// Give the document its new name.
    RenameDocument,
    /// Copy the file and delete the old one.
    CopyAndDelete,
    Done,
}

/// Both paths of a renaming have a name.
pub fn check_rename(from: &str, to: &str) -> (res: Result<(), StorageFault>)
    ensures
        match res {
            Ok(()) => after_last(bare_path(from@), '/').len() > 0 && after_last(
                bare_path(to@),
                '/',
            ).len() > 0,
            Err(e) => (after_last(bare_path(from@), '/').len() == 0 || after_last(
                bare_path(to@),
                '/',
            ).len() == 0) && e.is(StorageErrorKind::ConfigInvalid, "Invalid rename path"@),
        },
{
    let (_, from_name) = split_parent_child(from);
    let (_, to_name) = split_parent_child(to);
    if from_name.as_str().is_empty() || to_name.as_str().is_empty() {
        Err(StorageFault::new(StorageErrorKind::ConfigInvalid, "Invalid rename path"))
    } else {
        Ok(())
    }
}

/// The first step of a renaming.
pub open spec fn first_rename_step(same_directory: bool, same_name: bool) -> RenameStep {
    if !same_directory {
        RenameStep::MoveDocument
    } else if !same_name {
        RenameStep::RenameDocument
    } else {
        RenameStep::Done
    }
}

pub fn rename_start(same_directory: bool, same_name: bool) -> (res: RenameStep)
    ensures
        res == first_rename_step(same_directory, same_name),
{
    if !same_directory {
        RenameStep::MoveDocument
    } else if !same_name {
        RenameStep::RenameDocument
    } else {
        RenameStep::Done
    }
}

/// The step that follows a step of a renaming: what the system cannot do is done by
/// copying and deleting.
pub open spec fn rename_step_after(step: RenameStep, ok: bool, same_name: bool) -> RenameStep {
    match step {
        RenameStep::MoveDocument => if !ok {
            RenameStep::CopyAndDelete
        } else if same_name {
            RenameStep::Done
        } else {
            RenameStep::RenameDocument
        },
        RenameStep::RenameDocument => if ok {
            RenameStep::Done
        } else {
            RenameStep::CopyAndDelete
        },
        _ => RenameStep::Done,
    }
}

pub fn rename_next(step: RenameStep, ok: bool, same_name: bool) -> (res: RenameStep)
    ensures
        res == rename_step_after(step, ok, same_name),
{
    match step {
        RenameStep::MoveDocument => if !ok {
            RenameStep::CopyAndDelete
        } else if same_name {
            RenameStep::Done
        } else {
            RenameStep::RenameDocument
        },
        RenameStep::RenameDocument => if ok {
            RenameStep::Done
        } else {
            RenameStep::CopyAndDelete
        },
        _ => RenameStep::Done,
    }
}

// ---------------------------------------------------------------- laws
/// What is told of an exception: that something is not permitted comes before that
/// something is missing, and what says neither is unexpected or not supported.
pub proof fn exceptions_tell_what_failed(exception: Seq<char>)
    ensures
        exception_kind(exception) == StorageErrorKind::PermissionDenied <==> has_infix(
            exception,
            "SecurityException"@,
        ) || has_infix(ascii_lower(exception), "permission"@),
        exception_kind(exception) == StorageErrorKind::NotFound ==> has_infix(
            exception,
            "FileNotFound"@,
        ),
        has_infix(exception, "FileNotFound"@) ==> exception_kind(exception)
            == StorageErrorKind::NotFound || exception_kind(exception)
            == StorageErrorKind::PermissionDenied,
        exception_kind(exception) == StorageErrorKind::Unsupported ==> has_infix(
            exception,
            "UnsupportedOperationException"@,
        ),
        exception_kind(exception) == StorageErrorKind::Unexpected ==> !has_infix(
            exception,
            "UnsupportedOperationException"@,
        ),
{
}

/// A path is known without the slashes around it, and leads down through its names,
/// one after the other.
pub proof fn paths_lead_down_by_their_names(dir: Seq<char>, name: Seq<char>)
    requires
        dir.len() > 0,
        bare_path(dir) == dir,
        name.len() > 0,
        !name.contains('/'),
        bare_path(dir + seq!['/'] + name) == dir + seq!['/'] + name,
    ensures
        components(dir + seq!['/'] + name) == components(dir).push(name),
        components(Seq::empty()) == Seq::<Seq<char>>::empty(),
{
    let p = dir + seq!['/'] + name;
    let named = |s: Seq<char>| s.len() > 0;
    assert(p =~= dir.push('/') + name);
    crate::text::split_at_a_separator(dir, name, '/');
    crate::text::split_without_separator(name, '/');
    let parts = split_char(dir, '/');
    assert(split_char(p, '/') == parts + seq![name]);
    Seq::filter_distributes_over_add(parts, seq![name], named);
    reveal(Seq::filter);
    assert(seq![name].drop_last() =~= Seq::<Seq<char>>::empty());
    assert(seq![name].drop_last().filter(named) =~= Seq::<Seq<char>>::empty());
    assert(seq![name].filter(named) =~= seq![name]);
    assert(components(p) =~= components(dir).push(name));
    assert(trimmed(Seq::empty()).len() == 0);
    assert(bare_path(Seq::empty()).len() == 0);
}

/// Slashes around a path make no difference.
pub proof fn slashes_around_a_path_are_cut(path: Seq<char>)
    requires
        path.len() > 0,
        path[0] != '/' && !is_space_char(path[0]),
        path.last() != '/' && !is_space_char(path.last()),
    ensures
        bare_path(path) == path,
        bare_path(seq!['/'] + path) == path,
        bare_path(path + seq!['/']) == path,
{
    let a = seq!['/'] + path;
    let b = path + seq!['/'];
    assert(!is_space_char('/')) by {
        crate::text::trimming_cuts_space(path);
    }
    nothing_to_cut(path);
    nothing_to_cut(a);
    nothing_to_cut(b);
    assert(trim_start_char(path, '/') == path);
    assert(trim_end_char(path, '/') == path);
    assert(a.drop_first() =~= path);
    assert(trim_start_char(a, '/') == path);
    assert(trim_start_char(b, '/') == b);
    assert(b.drop_last() =~= path);
    assert(trim_end_char(b, '/') == path);
}

proof fn nothing_to_cut(s: Seq<char>)
    requires
        s.len() > 0,
        !is_space_char(s[0]),
        !is_space_char(s.last()),
    ensures
        trimmed(s) == s,
{
}

/// A write replaces what is there unless that is forbidden, and makes a file where there
/// is none; it goes nowhere else.
pub proof fn a_write_goes_to_its_file(
    found: Result<String, StorageFault>,
    if_not_exists: bool,
    res: Result<WriteTarget, StorageFault>,
)
    requires
        is_write_target(found, if_not_exists, res),
    ensures
        res matches Ok(WriteTarget::Existing(id)) ==> !if_not_exists && found == Ok::<
            String,
            StorageFault,
        >(id),
        res matches Ok(WriteTarget::Create) ==> found is Err && found->Err_0.kind
            == StorageErrorKind::NotFound,
        res is Err ==> (found is Ok && if_not_exists) || (found is Err && found->Err_0.kind
            != StorageErrorKind::NotFound && res->Err_0 == found->Err_0),
{
}

/// The root of the tree is never deleted; what is not there need not be.
pub proof fn the_root_is_never_deleted(
    found: Result<String, StorageFault>,
    root_doc_id: Seq<char>,
    res: Result<Option<String>, StorageFault>,
)
    requires
        is_delete_target(found, root_doc_id, res),
    ensures
        res matches Ok(Some(id)) ==> id@ != root_doc_id && found == Ok::<String, StorageFault>(id),
        res matches Ok(None) ==> found is Err && found->Err_0.kind == StorageErrorKind::NotFound,
        res is Err ==> (found is Ok && found->Ok_0@ == root_doc_id) || (found is Err
            && found->Err_0.kind != StorageErrorKind::NotFound && res->Err_0 == found->Err_0),
{
}

/// A listing that failed is empty only where there is no such directory.
pub proof fn only_missing_directories_list_nothing(
    found: Result<Vec<DocRow>, StorageFault>,
    res: Result<Vec<DocRow>, StorageFault>,
)
    requires
        is_list_outcome(found, res),
    ensures
        found is Ok ==> res == found,
        found is Err ==> (res is Ok <==> found->Err_0.kind == StorageErrorKind::NotFound),
        found is Err && res is Ok ==> res->Ok_0@.len() == 0,
        res is Err ==> res == found,
{
}

/// A renaming that comes to its end without copying has moved the document where the
/// directories differ and renamed it where the names do, each exactly once; copying is
/// for what the system could not do.
pub proof fn a_renaming_moves_and_renames(same_directory: bool, same_name: bool, ok: bool)
    ensures
        ({
            let start = first_rename_step(same_directory, same_name);
            let moved = rename_step_after(RenameStep::MoveDocument, ok, same_name);
            let renamed = rename_step_after(RenameStep::RenameDocument, ok, same_name);
            &&& start == RenameStep::MoveDocument <==> !same_directory
            &&& start == RenameStep::RenameDocument <==> same_directory && !same_name
            &&& start == RenameStep::Done <==> same_directory && same_name
            &&& moved == RenameStep::CopyAndDelete <==> !ok
            &&& moved == RenameStep::RenameDocument <==> ok && !same_name
            &&& moved == RenameStep::Done <==> ok && same_name
            &&& renamed == RenameStep::CopyAndDelete <==> !ok
            &&& renamed == RenameStep::Done <==> ok
            &&& rename_step_after(RenameStep::CopyAndDelete, ok, same_name) == RenameStep::Done
        }),
{
}

} // verus!
