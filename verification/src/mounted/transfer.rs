//! Copying and deleting whole trees between storages, step by step.
//!
//! The caller carries out each step on the storages and reports what it found.
use crate::mounted::route::{join_logical_path, joined};
use crate::pathname::{parent_dir_spec, parent_path};
use crate::text::text_eq;
use vstd::prelude::*;

verus! {

/// An entry of a directory that was listed.
#[derive(Debug)]
pub struct ChildEntry {
    pub name: String,
    pub path: String,
}

/// Directory that has to be there before a file is written, unless it is the root.
pub fn needed_parent(path: &str) -> (res: Option<String>)
    ensures
        match res {
            Some(p) => p@ == parent_dir_spec(path@) && p@ != "/"@,
            None => parent_dir_spec(path@) == "/"@,
        },
{
    let parent: String = parent_path(path);
    if text_eq(parent.as_str(), "/") {
        None
    } else {
        Some(parent)
    }
}

// ---------------------------------------------------------------- copying
/// What a copy does next.
#[derive(Debug)]
pub enum CopyStep<'a> {
    /// Find out whether the source is a directory.
    Inspect { src: &'a str },
    CreateDir { dst: &'a str },
    List { src: &'a str },
    CopyFile { src: &'a str, dst: &'a str },
    Done,
}

#[derive(Debug, Clone, Copy, PartialEq, Eq, Structural)]
pub enum CopyPhase {
    Inspect,
    CreateDir,
    List,
    CopyFile,
}

/// A copy of a tree: the pairs of source and destination that are left, the first one
/// in work.
pub struct TreeCopy {
    /// The pairs that are left, the next one last.
    stack: Vec<(String, String)>,
    phase: CopyPhase,
}

/// The pairs that the children of a directory make, in order.
pub open spec fn child_pairs(dst: Seq<char>, children: Seq<ChildEntry>) -> Seq<(
    Seq<char>,
    Seq<char>,
)> {
    children.map_values(|c: ChildEntry| (c.path@, joined(dst, c.name@)))
}

impl TreeCopy {
    /// The pairs that are left, in order.
    pub closed spec fn view(self) -> Seq<(Seq<char>, Seq<char>)> {
        Seq::new(
            self.stack@.len(),
            |i: int|
                {
                    let p = self.stack@[self.stack@.len() - 1 - i];
                    (p.0@, p.1@)
                },
        )
    }

    pub closed spec fn stands_at(self) -> CopyPhase {
        self.phase
    }

    /// A copy that has nothing left is not in the middle of a pair.
    pub open spec fn wf(self) -> bool {
        self@.len() == 0 ==> self.stands_at() == CopyPhase::Inspect
    }

    pub fn new(src: &str, dst: &str) -> (res: TreeCopy)
        ensures
            res.wf(),
            res@ == seq![(src@, dst@)],
            res.stands_at() == CopyPhase::Inspect,
    {
        let res: TreeCopy = TreeCopy {
            stack: vec![(src.to_owned(), dst.to_owned())],
            phase: CopyPhase::Inspect,
        };
        assert(res@ =~= seq![(src@, dst@)]);
        res
    }

    pub fn next(&self) -> (res: CopyStep<'_>)
        requires
            self.wf(),
        ensures
            match res {
                CopyStep::Done => self@.len() == 0,
                CopyStep::Inspect { src } => self@.len() > 0 && self.stands_at()
                    == CopyPhase::Inspect && src@ == self@[0].0,
                CopyStep::CreateDir { dst } => self@.len() > 0 && self.stands_at()
                    == CopyPhase::CreateDir && dst@ == self@[0].1,
                CopyStep::List { src } => self@.len() > 0 && self.stands_at() == CopyPhase::List
                    && src@ == self@[0].0,
                CopyStep::CopyFile { src, dst } => self@.len() > 0 && self.stands_at()
                    == CopyPhase::CopyFile && (src@, dst@) == self@[0],
            },
    {
        let n: usize = self.stack.len();
        if n == 0 {
            return CopyStep::Done;
        }
        let (src, dst) = &self.stack[n - 1];
        match self.phase {
            CopyPhase::Inspect => CopyStep::Inspect { src: src.as_str() },
            CopyPhase::CreateDir => CopyStep::CreateDir { dst: dst.as_str() },
            CopyPhase::List => CopyStep::List { src: src.as_str() },
            CopyPhase::CopyFile => CopyStep::CopyFile { src: src.as_str(), dst: dst.as_str() },
        }
    }

    /// The source is, or is not, a directory: a directory is created, a file copied.
    pub fn inspected(&mut self, is_dir: bool)
        requires
            old(self)@.len() > 0,
            old(self).stands_at() == CopyPhase::Inspect,
        ensures
            final(self).wf(),
            final(self)@ == old(self)@,
            final(self).stands_at() == if is_dir {
                CopyPhase::CreateDir
            } else {
                CopyPhase::CopyFile
            },
    {
        let ghost before = *self;
        self.phase = if is_dir {
            CopyPhase::CreateDir
        } else {
            CopyPhase::CopyFile
        };
        assert(self@ =~= before@);
    }

    /// The directory was created, and is listed next.
    pub fn created(&mut self)
        requires
            old(self)@.len() > 0,
            old(self).stands_at() == CopyPhase::CreateDir,
        ensures
            final(self).wf(),
            final(self)@ == old(self)@,
            final(self).stands_at() == CopyPhase::List,
    {
        let ghost before = *self;
        self.phase = CopyPhase::List;
        assert(self@ =~= before@);
    }

    /// The directory was listed: its entries come next, in order, before what was left.
    pub fn listed(&mut self, children: &Vec<ChildEntry>)
        requires
            old(self)@.len() > 0,
            old(self).stands_at() == CopyPhase::List,
        ensures
            final(self).wf(),
            final(self)@ == child_pairs(old(self)@[0].1, children@) + old(self)@.skip(1),
            final(self).stands_at() == CopyPhase::Inspect,
    {
        let ghost before = *self;
        let n: usize = self.stack.len();
        let dst: String = self.stack[n - 1].1.as_str().to_owned();
        let _ = self.stack.pop();
        let ghost base = self.stack@;
        let mut i: usize = children.len();
        while i > 0
            invariant
                i <= children@.len(),
                dst@ == before@[0].1,
                before@.len() == base.len() + 1,
                self.stack@.len() == base.len() + children@.len() - i,
                self.stack@.take(base.len() as int) == base,
                forall|k: int|
                    base.len() <= k < self.stack@.len() ==> {
                        let c = children@[children@.len() - 1 - (k - base.len())];
                        (#[trigger] self.stack@[k]).0@ == c.path@ && self.stack@[k].1@ == joined(
                            dst@,
                            c.name@,
                        )
                    },
            decreases i,
        {
            i -= 1;
            let ghost prior = self.stack@;
            let target: String = join_logical_path(dst.as_str(), children[i].name.as_str());
            self.stack.push((children[i].path.as_str().to_owned(), target));
            assert(self.stack@.take(base.len() as int) =~= prior.take(base.len() as int));
        }
        self.phase = CopyPhase::Inspect;
        proof {
            let goal = child_pairs(before@[0].1, children@) + before@.skip(1);
            assert(self@.len() == goal.len());
            assert forall|j: int| 0 <= j < goal.len() implies #[trigger] self@[j] == goal[j] by {
                let k = self.stack@.len() - 1 - j;
                if j < children@.len() {
                    assert(k >= base.len());
                    assert(self.stack@[k].0@ == children@[j].path@);
                } else {
                    assert(k < base.len());
                    assert(self.stack@[k] == base[k]) by {
                        assert(self.stack@.take(base.len() as int)[k] == base[k]);
                    }
                    assert(before.stack@[k] == base[k]);
                }
            }
            assert(self@ =~= goal);
        }
    }

    /// The file was copied.
    pub fn copied(&mut self)
        requires
            old(self)@.len() > 0,
            old(self).stands_at() == CopyPhase::CopyFile,
        ensures
            final(self).wf(),
            final(self)@ == old(self)@.skip(1),
            final(self).stands_at() == CopyPhase::Inspect,
    {
        let ghost before = *self;
        let _ = self.stack.pop();
        self.phase = CopyPhase::Inspect;
        assert(self@ =~= before@.skip(1));
    }
}

/// A tree of files: what a storage holds at a path.
pub enum Tree {
    File,
    /// The entries by name, each at its path.
    Dir(Seq<(Seq<char>, Seq<char>, Tree)>),
}

/// Number of entries of a directory.
pub open spec fn width(tree: Tree) -> nat {
    match tree {
        Tree::File => 0,
        Tree::Dir(entries) => entries.len(),
    }
}

/// The files that a copy of the tree at `src` to `dst` copies, in order.
pub open spec fn copies_of(tree: Tree, src: Seq<char>, dst: Seq<char>) -> Seq<(Seq<char>, Seq<char>)>
    decreases tree, width(tree) + 2,
{
    match tree {
        Tree::File => seq![(src, dst)],
        Tree::Dir(entries) => copies_of_entries(tree, entries.len(), dst),
    }
}

/// The files that copying the first `n` entries of a directory copies, in order.
pub open spec fn copies_of_entries(tree: Tree, n: nat, dst: Seq<char>) -> Seq<(Seq<char>, Seq<char>)>
    decreases tree, n + 1,
{
    match tree {
        Tree::File => Seq::empty(),
        Tree::Dir(entries) => if n == 0 || n > entries.len() {
            Seq::empty()
        } else {
            let (name, path, below) = entries[n - 1];
            copies_of_entries(tree, (n - 1) as nat, dst) + copies_of(below, path, joined(dst, name))
        },
    }
}

/// The files that the pairs that are left copy, in order, where the storage holds at
/// each path what `world` says.
pub open spec fn remaining(
    world: spec_fn(Seq<char>) -> Tree,
    pairs: Seq<(Seq<char>, Seq<char>)>,
) -> Seq<(Seq<char>, Seq<char>)>
    decreases pairs.len(),
{
    if pairs.len() == 0 {
        Seq::empty()
    } else {
        copies_of(world(pairs[0].0), pairs[0].0, pairs[0].1) + remaining(world, pairs.skip(1))
    }
}

proof fn remaining_adds(
    world: spec_fn(Seq<char>) -> Tree,
    a: Seq<(Seq<char>, Seq<char>)>,
    b: Seq<(Seq<char>, Seq<char>)>,
)
    ensures
        remaining(world, a + b) == remaining(world, a) + remaining(world, b),
    decreases a.len(),
{
    if a.len() == 0 {
        assert(a + b =~= b);
        assert(remaining(world, a) + remaining(world, b) =~= remaining(world, b));
    } else {
        assert((a + b).skip(1) =~= a.skip(1) + b);
        remaining_adds(world, a.skip(1), b);
        let first = copies_of(world(a[0].0), a[0].0, a[0].1);
        assert(first + (remaining(world, a.skip(1)) + remaining(world, b)) =~= (first + remaining(
            world,
            a.skip(1),
        )) + remaining(world, b));
    }
}

/// `children` is the listing of a directory that `world` holds with these entries.
pub open spec fn lists_entries(
    world: spec_fn(Seq<char>) -> Tree,
    entries: Seq<(Seq<char>, Seq<char>, Tree)>,
    children: Seq<ChildEntry>,
) -> bool {
    &&& children.len() == entries.len()
    &&& forall|i: int|
        0 <= i < entries.len() ==> (#[trigger] children[i]).name@ == entries[i].0
            && children[i].path@ == entries[i].1 && world(entries[i].1) == entries[i].2
}

proof fn children_make_the_entries(
    world: spec_fn(Seq<char>) -> Tree,
    entries: Seq<(Seq<char>, Seq<char>, Tree)>,
    children: Seq<ChildEntry>,
    dst: Seq<char>,
    n: nat,
)
    requires
        lists_entries(world, entries, children),
        n <= entries.len(),
    ensures
        remaining(world, child_pairs(dst, children.take(n as int))) == copies_of_entries(
            Tree::Dir(entries),
            n,
            dst,
        ),
    decreases n,
{
    if n == 0 {
        assert(child_pairs(dst, children.take(0)) =~= Seq::empty());
    } else {
        let c = children[n - 1];
        let head = child_pairs(dst, children.take(n - 1));
        let last = (c.path@, joined(dst, c.name@));
        assert(child_pairs(dst, children.take(n as int)) =~= head + seq![last]);
        children_make_the_entries(world, entries, children, dst, (n - 1) as nat);
        remaining_adds(world, head, seq![last]);
        a_copy_starts_with_the_whole_tree(world, last.0, last.1);
    }
}

/// Listing a directory changes nothing of what is left to be copied: its entries
/// stand for it.
pub proof fn listing_keeps_the_copies(
    world: spec_fn(Seq<char>) -> Tree,
    pairs: Seq<(Seq<char>, Seq<char>)>,
    entries: Seq<(Seq<char>, Seq<char>, Tree)>,
    children: Seq<ChildEntry>,
)
    requires
        pairs.len() > 0,
        world(pairs[0].0) == Tree::Dir(entries),
        lists_entries(world, entries, children),
    ensures
        remaining(world, child_pairs(pairs[0].1, children) + pairs.skip(1)) == remaining(
            world,
            pairs,
        ),
{
    let dst = pairs[0].1;
    remaining_adds(world, child_pairs(dst, children), pairs.skip(1));
    children_make_the_entries(world, entries, children, dst, entries.len());
    assert(children.take(entries.len() as int) =~= children);
}

/// Copying a file makes the next of the copies that are left, and leaves the others:
/// so a copy of a tree makes the copies of the tree, each once and in order.
pub proof fn copying_makes_the_next_copy(
    world: spec_fn(Seq<char>) -> Tree,
    pairs: Seq<(Seq<char>, Seq<char>)>,
)
    requires
        pairs.len() > 0,
        world(pairs[0].0) == Tree::File,
    ensures
        remaining(world, pairs) == seq![pairs[0]] + remaining(world, pairs.skip(1)),
{
}

/// At the start, what is left are the copies of the whole tree.
pub proof fn a_copy_starts_with_the_whole_tree(
    world: spec_fn(Seq<char>) -> Tree,
    src: Seq<char>,
    dst: Seq<char>,
)
    ensures
        remaining(world, seq![(src, dst)]) == copies_of(world(src), src, dst),
{
    let one = seq![(src, dst)];
    assert(one.skip(1) =~= Seq::empty());
    assert(remaining(world, one.skip(1)) =~= Seq::empty());
    assert(remaining(world, one) =~= copies_of(world(src), src, dst));
}

// ---------------------------------------------------------------- deleting
/// What a deletion does next.
#[derive(Debug)]
pub enum DeleteStep<'a> {
    /// Find out whether the path is a directory.
    Inspect { path: &'a str },
    List { path: &'a str },
    Delete { path: &'a str },
    Done,
}

#[derive(Debug, Clone, Copy, PartialEq, Eq, Structural)]
pub enum DeletePhase {
    Inspect,
    List,
    Delete,
}

/// A deletion of a tree: a directory is deleted after what it holds.
pub struct TreeDelete {
    /// The paths that are left, the next one last, each with whether what it holds is
    /// deleted.
    stack: Vec<(String, bool)>,
    phase: DeletePhase,
}

/// The children of a directory as they are left to be deleted.
pub open spec fn unopened(children: Seq<ChildEntry>) -> Seq<(Seq<char>, bool)> {
    children.map_values(|c: ChildEntry| (c.path@, false))
}

impl TreeDelete {
    /// The paths that are left, in order, each with whether what it holds is deleted.
    pub closed spec fn view(self) -> Seq<(Seq<char>, bool)> {
        Seq::new(
            self.stack@.len(),
            |i: int|
                {
                    let p = self.stack@[self.stack@.len() - 1 - i];
                    (p.0@, p.1)
                },
        )
    }

    pub closed spec fn stands_at(self) -> DeletePhase {
        self.phase
    }

    /// What is emptied is deleted next.
    pub open spec fn wf(self) -> bool {
        &&& self@.len() == 0 ==> self.stands_at() == DeletePhase::Inspect
        &&& self@.len() > 0 && self@[0].1 ==> self.stands_at() == DeletePhase::Delete
    }

    pub fn new(path: &str) -> (res: TreeDelete)
        ensures
            res.wf(),
            res@ == seq![(path@, false)],
            res.stands_at() == DeletePhase::Inspect,
    {
        let res: TreeDelete = TreeDelete {
            stack: vec![(path.to_owned(), false)],
            phase: DeletePhase::Inspect,
        };
        assert(res@ =~= seq![(path@, false)]);
        res
    }

    pub fn next(&self) -> (res: DeleteStep<'_>)
        requires
            self.wf(),
        ensures
            match res {
                DeleteStep::Done => self@.len() == 0,
                DeleteStep::Inspect { path } => self@.len() > 0 && self.stands_at()
                    == DeletePhase::Inspect && path@ == self@[0].0,
                DeleteStep::List { path } => self@.len() > 0 && self.stands_at()
                    == DeletePhase::List && path@ == self@[0].0,
                DeleteStep::Delete { path } => self@.len() > 0 && self.stands_at()
                    == DeletePhase::Delete && path@ == self@[0].0,
            },
    {
        let n: usize = self.stack.len();
        if n == 0 {
            return DeleteStep::Done;
        }
        let path: &str = self.stack[n - 1].0.as_str();
        match self.phase {
            DeletePhase::Inspect => DeleteStep::Inspect { path },
            DeletePhase::List => DeleteStep::List { path },
            DeletePhase::Delete => DeleteStep::Delete { path },
        }
    }

    /// The path is, or is not, a directory: a directory is listed, a file deleted.
    pub fn inspected(&mut self, is_dir: bool)
        requires
            old(self).wf(),
            old(self)@.len() > 0,
            old(self).stands_at() == DeletePhase::Inspect,
        ensures
            final(self).wf(),
            final(self)@ == old(self)@,
            final(self).stands_at() == if is_dir {
                DeletePhase::List
            } else {
                DeletePhase::Delete
            },
    {
        let ghost before = *self;
        self.phase = if is_dir {
            DeletePhase::List
        } else {
            DeletePhase::Delete
        };
        assert(self@ =~= before@);
    }

    fn settle(&mut self)
        ensures
            final(self).wf(),
            final(self)@ == old(self)@,
            final(self).stands_at() == if old(self)@.len() > 0 && old(self)@[0].1 {
                DeletePhase::Delete
            } else {
                DeletePhase::Inspect
            },
    {
        let ghost before = *self;
        let n: usize = self.stack.len();
        self.phase = if n > 0 && self.stack[n - 1].1 {
            DeletePhase::Delete
        } else {
            DeletePhase::Inspect
        };
        assert(self@ =~= before@);
    }

    /// The directory was listed: its entries come first, in order, then the directory
    /// itself.
    pub fn listed(&mut self, children: &Vec<ChildEntry>)
        requires
            old(self).wf(),
            old(self)@.len() > 0,
            old(self).stands_at() == DeletePhase::List,
        ensures
            final(self).wf(),
            final(self)@ == unopened(children@) + seq![(old(self)@[0].0, true)] + old(self)@.skip(
                1,
            ),
            final(self).stands_at() == if children@.len() == 0 {
                DeletePhase::Delete
            } else {
                DeletePhase::Inspect
            },
    {
        let ghost before = *self;
        let n: usize = self.stack.len();
        let own: String = self.stack[n - 1].0.as_str().to_owned();
        let _ = self.stack.pop();
        self.stack.push((own, true));
        let ghost base = self.stack@;
        let mut i: usize = children.len();
        while i > 0
            invariant
                i <= children@.len(),
                self.stack@.len() == base.len() + children@.len() - i,
                self.stack@.take(base.len() as int) == base,
                forall|k: int|
                    base.len() <= k < self.stack@.len() ==> {
                        let c = children@[children@.len() - 1 - (k - base.len())];
                        (#[trigger] self.stack@[k]).0@ == c.path@ && !self.stack@[k].1
                    },
            decreases i,
        {
            i -= 1;
            let ghost prior = self.stack@;
            self.stack.push((children[i].path.as_str().to_owned(), false));
            assert(self.stack@.take(base.len() as int) =~= prior.take(base.len() as int));
        }
        proof {
            let goal = unopened(children@) + seq![(before@[0].0, true)] + before@.skip(1);
            assert(self@.len() == goal.len());
            assert forall|j: int| 0 <= j < goal.len() implies #[trigger] self@[j] == goal[j] by {
                let k = self.stack@.len() - 1 - j;
                if j < children@.len() {
                    assert(k >= base.len());
                    assert(self.stack@[k].0@ == children@[j].path@);
                } else {
                    assert(k < base.len());
                    assert(self.stack@[k] == base[k]) by {
                        assert(self.stack@.take(base.len() as int)[k] == base[k]);
                    }
                    if j > children@.len() {
                        assert(before.stack@[k] == base[k]);
                    }
                }
            }
            assert(self@ =~= goal);
        }
        self.settle();
    }

    /// The path was deleted.
    pub fn deleted(&mut self)
        requires
            old(self)@.len() > 0,
            old(self).stands_at() == DeletePhase::Delete,
        ensures
            final(self).wf(),
            final(self)@ == old(self)@.skip(1),
            final(self).stands_at() == if old(self)@.len() > 1 && old(self)@[1].1 {
                DeletePhase::Delete
            } else {
                DeletePhase::Inspect
            },
    {
        let ghost before = *self;
        let _ = self.stack.pop();
        assert(self@ =~= before@.skip(1));
        self.settle();
    }
}

/// The deletions of the tree at `path`, in order: a directory comes after what it
/// holds.
pub open spec fn deletions_of(tree: Tree, path: Seq<char>) -> Seq<Seq<char>>
    decreases tree, width(tree) + 2,
{
    match tree {
        Tree::File => seq![path],
        Tree::Dir(entries) => deletions_of_entries(tree, entries.len()).push(path),
    }
}

/// The deletions of the first `n` entries of a directory, in order.
pub open spec fn deletions_of_entries(tree: Tree, n: nat) -> Seq<Seq<char>>
    decreases tree, n + 1,
{
    match tree {
        Tree::File => Seq::empty(),
        Tree::Dir(entries) => if n == 0 || n > entries.len() {
            Seq::empty()
        } else {
            let (name, path, below) = entries[n - 1];
            deletions_of_entries(tree, (n - 1) as nat) + deletions_of(below, path)
        },
    }
}

/// The deletions that are left, in order: what is emptied is deleted itself, the rest
/// with what it holds.
pub open spec fn left_to_delete(
    world: spec_fn(Seq<char>) -> Tree,
    items: Seq<(Seq<char>, bool)>,
) -> Seq<Seq<char>>
    decreases items.len(),
{
    if items.len() == 0 {
        Seq::empty()
    } else {
        (if items[0].1 {
            seq![items[0].0]
        } else {
            deletions_of(world(items[0].0), items[0].0)
        }) + left_to_delete(world, items.skip(1))
    }
}

proof fn left_to_delete_adds(
    world: spec_fn(Seq<char>) -> Tree,
    a: Seq<(Seq<char>, bool)>,
    b: Seq<(Seq<char>, bool)>,
)
    ensures
        left_to_delete(world, a + b) == left_to_delete(world, a) + left_to_delete(world, b),
    decreases a.len(),
{
    if a.len() == 0 {
        assert(a + b =~= b);
        assert(left_to_delete(world, a) + left_to_delete(world, b) =~= left_to_delete(world, b));
    } else {
        assert((a + b).skip(1) =~= a.skip(1) + b);
        left_to_delete_adds(world, a.skip(1), b);
        let first = if a[0].1 {
            seq![a[0].0]
        } else {
            deletions_of(world(a[0].0), a[0].0)
        };
        assert(first + (left_to_delete(world, a.skip(1)) + left_to_delete(world, b)) =~= (first
            + left_to_delete(world, a.skip(1))) + left_to_delete(world, b));
    }
}

proof fn one_left_to_delete(world: spec_fn(Seq<char>) -> Tree, path: Seq<char>, emptied: bool)
    ensures
        left_to_delete(world, seq![(path, emptied)]) == if emptied {
            seq![path]
        } else {
            deletions_of(world(path), path)
        },
{
    let one = seq![(path, emptied)];
    assert(one.skip(1) =~= Seq::empty());
    assert(left_to_delete(world, one.skip(1)) =~= Seq::empty());
    assert(left_to_delete(world, one) =~= if emptied {
        seq![path]
    } else {
        deletions_of(world(path), path)
    });
}

proof fn children_make_the_deletions(
    world: spec_fn(Seq<char>) -> Tree,
    entries: Seq<(Seq<char>, Seq<char>, Tree)>,
    children: Seq<ChildEntry>,
    n: nat,
)
    requires
        lists_entries(world, entries, children),
        n <= entries.len(),
    ensures
        left_to_delete(world, unopened(children.take(n as int))) == deletions_of_entries(
            Tree::Dir(entries),
            n,
        ),
    decreases n,
{
    if n == 0 {
        assert(unopened(children.take(0)) =~= Seq::empty());
    } else {
        let c = children[n - 1];
        let head = unopened(children.take(n - 1));
        let last = (c.path@, false);
        assert(unopened(children.take(n as int)) =~= head + seq![last]);
        children_make_the_deletions(world, entries, children, (n - 1) as nat);
        left_to_delete_adds(world, head, seq![last]);
        one_left_to_delete(world, last.0, false);
    }
}

/// Listing a directory changes nothing of what is left to be deleted: its entries and
/// then the directory itself stand for it.
pub proof fn listing_keeps_the_deletions(
    world: spec_fn(Seq<char>) -> Tree,
    items: Seq<(Seq<char>, bool)>,
    entries: Seq<(Seq<char>, Seq<char>, Tree)>,
    children: Seq<ChildEntry>,
)
    requires
        items.len() > 0,
        !items[0].1,
        world(items[0].0) == Tree::Dir(entries),
        lists_entries(world, entries, children),
    ensures
        left_to_delete(
            world,
            unopened(children) + seq![(items[0].0, true)] + items.skip(1),
        ) == left_to_delete(world, items),
{
    let path = items[0].0;
    let front = unopened(children) + seq![(path, true)];
    left_to_delete_adds(world, front, items.skip(1));
    left_to_delete_adds(world, unopened(children), seq![(path, true)]);
    one_left_to_delete(world, path, true);
    children_make_the_deletions(world, entries, children, entries.len());
    assert(children.take(entries.len() as int) =~= children);
    assert(left_to_delete(world, front) =~= deletions_of(world(path), path));
}

/// Deleting a file, or an emptied directory, makes the next of the deletions that are
/// left, and leaves the others.
pub proof fn deleting_makes_the_next_deletion(
    world: spec_fn(Seq<char>) -> Tree,
    items: Seq<(Seq<char>, bool)>,
)
    requires
        items.len() > 0,
        items[0].1 || world(items[0].0) == Tree::File,
    ensures
        left_to_delete(world, items) == seq![items[0].0] + left_to_delete(world, items.skip(1)),
{
}

// ---------------------------------------------------------------- laws
/// Each entry of a directory is copied to the place of its name below the destination.
pub proof fn children_keep_their_names(dst: Seq<char>, children: Seq<ChildEntry>, i: int)
    requires
        0 <= i < children.len(),
    ensures
        child_pairs(dst, children).len() == children.len(),
        child_pairs(dst, children)[i] == (children[i].path@, joined(dst, children[i].name@)),
        unopened(children).len() == children.len(),
        unopened(children)[i] == (children[i].path@, false),
{
}

/// A file is copied once, and a directory with all that its entries hold: the copies of
/// each entry are among those of the directory.
pub proof fn a_directory_is_copied_with_all_it_holds(
    entries: Seq<(Seq<char>, Seq<char>, Tree)>,
    src: Seq<char>,
    dst: Seq<char>,
    i: int,
    c: (Seq<char>, Seq<char>),
)
    requires
        0 <= i < entries.len(),
    ensures
        copies_of(Tree::File, src, dst) == seq![(src, dst)],
        copies_of(entries[i].2, entries[i].1, joined(dst, entries[i].0)).contains(c) ==> copies_of(
            Tree::Dir(entries),
            src,
            dst,
        ).contains(c),
        copies_of(Tree::Dir(Seq::empty()), src, dst).len() == 0,
{
    let part = copies_of(entries[i].2, entries[i].1, joined(dst, entries[i].0));
    if part.contains(c) {
        copied_with_its_entries(entries, dst, entries.len(), i, c);
    }
}

proof fn copied_with_its_entries(
    entries: Seq<(Seq<char>, Seq<char>, Tree)>,
    dst: Seq<char>,
    n: nat,
    i: int,
    c: (Seq<char>, Seq<char>),
)
    requires
        0 <= i < n <= entries.len(),
        copies_of(entries[i].2, entries[i].1, joined(dst, entries[i].0)).contains(c),
    ensures
        copies_of_entries(Tree::Dir(entries), n, dst).contains(c),
    decreases n,
{
    let tree = Tree::Dir(entries);
    let before = copies_of_entries(tree, (n - 1) as nat, dst);
    let (name, path, below) = entries[n - 1];
    let last = copies_of(below, path, joined(dst, name));
    assert(copies_of_entries(tree, n, dst) == before + last);
    if i == n - 1 {
        let k = last.index_of(c);
        assert((before + last)[before.len() + k] == c);
    } else {
        copied_with_its_entries(entries, dst, (n - 1) as nat, i, c);
        let k = before.index_of(c);
        assert((before + last)[k] == c);
    }
}

/// A directory is deleted with all that its entries hold, and last of all itself.
pub proof fn a_directory_is_deleted_with_all_it_holds(
    entries: Seq<(Seq<char>, Seq<char>, Tree)>,
    path: Seq<char>,
    i: int,
    p: Seq<char>,
)
    requires
        0 <= i < entries.len(),
    ensures
        deletions_of(Tree::File, path) == seq![path],
        deletions_of(Tree::Dir(entries), path).len() > 0,
        deletions_of(Tree::Dir(entries), path).last() == path,
        deletions_of(entries[i].2, entries[i].1).contains(p) ==> deletions_of(
            Tree::Dir(entries),
            path,
        ).drop_last().contains(p),
        deletions_of(Tree::Dir(Seq::empty()), path) == seq![path],
{
    let whole = deletions_of(Tree::Dir(entries), path);
    assert(whole.drop_last() =~= deletions_of_entries(Tree::Dir(entries), entries.len()));
    if deletions_of(entries[i].2, entries[i].1).contains(p) {
        deleted_with_its_entries(entries, entries.len(), i, p);
    }
    assert(deletions_of(Tree::Dir(Seq::empty()), path) =~= seq![path]);
}

proof fn deleted_with_its_entries(
    entries: Seq<(Seq<char>, Seq<char>, Tree)>,
    n: nat,
    i: int,
    p: Seq<char>,
)
    requires
        0 <= i < n <= entries.len(),
        deletions_of(entries[i].2, entries[i].1).contains(p),
    ensures
        deletions_of_entries(Tree::Dir(entries), n).contains(p),
    decreases n,
{
    let tree = Tree::Dir(entries);
    let before = deletions_of_entries(tree, (n - 1) as nat);
    let (name, path, below) = entries[n - 1];
    let last = deletions_of(below, path);
    assert(deletions_of_entries(tree, n) == before + last);
    if i == n - 1 {
        let k = last.index_of(p);
        assert((before + last)[before.len() + k] == p);
    } else {
        deleted_with_its_entries(entries, (n - 1) as nat, i, p);
        let k = before.index_of(p);
        assert((before + last)[k] == p);
    }
}

} // verus!
