//! File identities and the resolver that maps paths to them.

use crate::model::path_within;
use crate::notification::clone_paths;
use crate::text::{is_within, same_text};
use file_id::FileId;
use vstd::prelude::*;

verus! {

/// `file_id::FileId`: the identity of a file, which it keeps when it is
/// renamed. The engine compares identities and looks no further into them.
#[verifier::external_type_specification]
#[verifier::external_body]
pub struct ExFileId(FileId);

/// `==` on `file_id::FileId`. The type is an enum of integers with a derived
/// `PartialEq`, so two identities compare equal exactly when they are the
/// same value.
#[verifier::external_body]
pub(crate) fn same_file_id(a: &FileId, b: &FileId) -> (r: bool)
    ensures
        r == (*a == *b),
{
    a == b
}

/// Maps paths to stable file identities, so that a rename can be told from
/// an unrelated reuse of a path.
///
/// An implementation says what it holds, and what registering, forgetting
/// and rescanning make of it. The engine fixes none of that: whatever an
/// implementation does, the engine's own state stays well formed.
pub trait FileIdCache: Sized {
    /// The identity that the resolver holds for `path`.
    spec fn held(&self, path: Seq<char>) -> Option<FileId>;

    /// `after` is what registering `path` makes of `before`.
    spec fn registers(before: Self, after: Self, path: Seq<char>) -> bool;

    /// `after` is what forgetting `path` makes of `before`.
    spec fn forgets(before: Self, after: Self, path: Seq<char>) -> bool;

    /// `after` is what a rescan makes of `before`.
    spec fn rescans(before: Self, after: Self) -> bool;

    /// The identity registered for `path`, if there is one.
    fn get_file_id(&self, path: &str) -> (r: Option<FileId>)
        ensures
            r == self.held(path@),
    ;

    /// Registers `path` and what lies below it.
    fn add_path(&mut self, path: &str)
        ensures
            Self::registers(*old(self), *final(self), path@),
    ;

    /// Forgets `path` and what lies below it.
    fn remove_path(&mut self, path: &str)
        ensures
            Self::forgets(*old(self), *final(self), path@),
    ;

    /// Drops what is cached and looks at the watched roots anew.
    fn rescan(&mut self)
        ensures
            Self::rescans(*old(self), *final(self)),
    ;
}

/// One line of a table of identities.
#[derive(Debug, PartialEq, Eq)]
pub struct Entry {
    pub path: String,
    pub file_id: FileId,
}

impl View for Entry {
    type V = (Seq<char>, FileId);

    open spec fn view(&self) -> (Seq<char>, FileId) {
        (self.path@, self.file_id)
    }
}

impl DeepView for Entry {
    type V = (Seq<char>, FileId);

    open spec fn deep_view(&self) -> (Seq<char>, FileId) {
        self@
    }
}

/// The identity that a table gives for `path`: that of the last line for
/// that path.
pub open spec fn lookup(table: Seq<(Seq<char>, FileId)>, path: Seq<char>) -> Option<FileId>
    decreases table.len(),
{
    if table.len() == 0 {
        None
    } else if table.last().0 == path {
        Some(table.last().1)
    } else {
        lookup(table.drop_last(), path)
    }
}

/// The lines for paths that do not lie at or below `root`.
pub open spec fn not_within(root: Seq<char>) -> spec_fn((Seq<char>, FileId)) -> bool {
    |e: (Seq<char>, FileId)| !path_within(e.0, root)
}

/// The lines for paths that lie at or below `root`.
pub open spec fn within(root: Seq<char>) -> spec_fn((Seq<char>, FileId)) -> bool {
    |e: (Seq<char>, FileId)| path_within(e.0, root)
}

/// A table without the lines at or below `root` gives no identity there,
/// and elsewhere what it gave.
pub proof fn lemma_lookup_not_within(
    table: Seq<(Seq<char>, FileId)>,
    root: Seq<char>,
    path: Seq<char>,
)
    ensures
        lookup(table.filter(not_within(root)), path) == if path_within(path, root) {
            None
        } else {
            lookup(table, path)
        },
    decreases table.len(),
{
    reveal(Seq::filter);
    if table.len() > 0 {
        lemma_lookup_not_within(table.drop_last(), root, path);
        let kept = table.drop_last().filter(not_within(root));
        if not_within(root)(table.last()) {
            assert(kept.push(table.last()).drop_last() =~= kept);
        }
    }
}

/// The lines of a table at or below `root` give there what the table gives,
/// and no identity elsewhere.
pub proof fn lemma_lookup_within(table: Seq<(Seq<char>, FileId)>, root: Seq<char>, path: Seq<char>)
    ensures
        lookup(table.filter(within(root)), path) == if path_within(path, root) {
            lookup(table, path)
        } else {
            None
        },
    decreases table.len(),
{
    reveal(Seq::filter);
    if table.len() > 0 {
        lemma_lookup_within(table.drop_last(), root, path);
        let kept = table.drop_last().filter(within(root));
        if within(root)(table.last()) {
            assert(kept.push(table.last()).drop_last() =~= kept);
        }
    }
}

/// Of two tables one after the other, the second decides where it gives an
/// identity.
pub proof fn lemma_lookup_add(
    first: Seq<(Seq<char>, FileId)>,
    second: Seq<(Seq<char>, FileId)>,
    path: Seq<char>,
)
    ensures
        lookup(first + second, path) == if lookup(second, path) is Some {
            lookup(second, path)
        } else {
            lookup(first, path)
        },
    decreases second.len(),
{
    if second.len() > 0 {
        lemma_lookup_add(first, second.drop_last(), path);
        assert((first + second).drop_last() =~= first + second.drop_last());
        assert((first + second).last() == second.last());
    } else {
        assert(first + second =~= first);
    }
}

/// The identity that the lines give for `path`.
fn find(table: &Vec<Entry>, path: &str) -> (r: Option<FileId>)
    ensures
        r == lookup(table.deep_view(), path@),
{
    let ghost all = table.deep_view();
    let mut i: usize = table.len();
    assert(all.take(i as int) =~= all);
    while i > 0
        invariant
            i <= table.len(),
            all == table.deep_view(),
            lookup(all, path@) == lookup(all.take(i as int), path@),
        decreases i,
    {
        assert(all.take(i as int).last() == table[i - 1]@);
        assert(all.take(i as int).drop_last() =~= all.take(i - 1));
        if same_text(table[i - 1].path.as_str(), path) {
            return Some(table[i - 1].file_id);
        }
        i -= 1;
    }
    None
}

/// Drops the lines for paths at or below `root`.
fn remove_within(table: &mut Vec<Entry>, root: &str)
    ensures
        final(table).deep_view() == old(table).deep_view().filter(not_within(root@)),
{
    let ghost before = table.deep_view();
    let ghost keep = not_within(root@);
    let ghost mut done: int = 0;
    let mut i: usize = 0;
    assert(before.take(0) =~= Seq::<(Seq<char>, FileId)>::empty());
    assert(before.skip(0) =~= before);
    proof {
        reveal(Seq::filter);
    }
    assert(table.deep_view() =~= before.take(0).filter(keep) + before.skip(0));
    while i < table.len()
        invariant
            0 <= done <= before.len(),
            i <= table.len(),
            i == before.take(done).filter(keep).len(),
            table.len() - i == before.len() - done,
            table.deep_view() == before.take(done).filter(keep) + before.skip(done),
            keep == not_within(root@),
        decreases table.len() - i,
    {
        let ghost now = table.deep_view();
        let ghost kept = before.take(done).filter(keep);
        assert(now[i as int] == before.skip(done)[0]);
        assert(now[i as int] == table[i as int]@);
        proof {
            before.take(done).lemma_filter_push(before[done], keep);
            assert(before.take(done).push(before[done]) =~= before.take(done + 1));
        }
        if is_within(table[i].path.as_str(), root) {
            table.remove(i);
            assert(table.deep_view() =~= now.remove(i as int));
            assert(now.remove(i as int) =~= kept + before.skip(done + 1));
        } else {
            i += 1;
            assert(now =~= kept.push(before[done]) + before.skip(done + 1));
        }
        proof {
            done = done + 1;
        }
    }
    assert(before.take(done) =~= before);
    assert(table.deep_view() =~= before.filter(keep));
}

/// Adds the lines of `from` for paths at or below `root`, in their order.
fn copy_within(table: &mut Vec<Entry>, from: &Vec<Entry>, root: &str)
    ensures
        final(table).deep_view() == old(table).deep_view() + from.deep_view().filter(
            within(root@),
        ),
{
    let ghost before = table.deep_view();
    let ghost source = from.deep_view();
    let ghost take = within(root@);
    let mut i: usize = 0;
    assert(source.take(0) =~= Seq::<(Seq<char>, FileId)>::empty());
    proof {
        reveal(Seq::filter);
    }
    assert(table.deep_view() =~= before + source.take(0).filter(take));
    while i < from.len()
        invariant
            i <= from.len(),
            source == from.deep_view(),
            take == within(root@),
            table.deep_view() == before + source.take(i as int).filter(take),
        decreases from.len() - i,
    {
        let ghost now = table.deep_view();
        assert(source[i as int] == from[i as int]@);
        proof {
            source.take(i as int).lemma_filter_push(source[i as int], take);
            assert(source.take(i as int).push(source[i as int]) =~= source.take(i + 1));
        }
        if is_within(from[i].path.as_str(), root) {
            table.push(Entry { path: from[i].path.clone(), file_id: from[i].file_id });
            assert(table.deep_view() =~= now.push(source[i as int]));
            assert(table.deep_view() =~= before + source.take(i + 1).filter(take));
        }
        i += 1;
    }
    assert(source.take(source.len() as int) =~= source);
}

/// A resolver that is a table: it holds the identities that it was told of,
/// and registers a path from what it was told is on disk.
#[derive(Debug)]
pub struct FileIdTable {
    paths: Vec<Entry>,
    file_system: Vec<Entry>,
    roots: Vec<String>,
}

impl FileIdTable {
    /// The identity that the resolver holds for `path`.
    pub closed spec fn identity_of(&self, path: Seq<char>) -> Option<FileId> {
        lookup(self.paths.deep_view(), path)
    }

    /// The identity that the file at `path` has on disk.
    pub closed spec fn on_disk(&self, path: Seq<char>) -> Option<FileId> {
        lookup(self.file_system.deep_view(), path)
    }

    /// The watched roots, in the order in which they were added.
    pub closed spec fn watched(&self) -> Seq<Seq<char>> {
        self.roots.deep_view()
    }

    /// Whether `path` lies at or below a watched root.
    pub open spec fn is_watched(&self, path: Seq<char>) -> bool {
        exists|i: int| 0 <= i < self.watched().len() && path_within(path, #[trigger] self.watched()[i])
    }

    /// A table that holds the identities of `cache`, and takes `file_system`
    /// for what is on disk. In both, a later line for a path replaces an
    /// earlier one.
    pub fn new(cache: Vec<Entry>, file_system: Vec<Entry>) -> (r: Self)
        ensures
            forall|p: Seq<char>| #[trigger] r.identity_of(p) == lookup(cache.deep_view(), p),
            forall|p: Seq<char>| #[trigger] r.on_disk(p) == lookup(file_system.deep_view(), p),
            r.watched() == Seq::<Seq<char>>::empty(),
    {
        let r = FileIdTable { paths: cache, file_system, roots: Vec::new() };
        assert(r.roots.deep_view() =~= Seq::<Seq<char>>::empty());
        r
    }

    /// Tells the table that the file at `path` has the identity `file_id` on
    /// disk. What the resolver holds stays as it is.
    pub fn set_on_disk(&mut self, path: String, file_id: FileId)
        ensures
            forall|p: Seq<char>| #[trigger]
                final(self).on_disk(p) == if p == path@ {
                    Some(file_id)
                } else {
                    old(self).on_disk(p)
                },
            forall|p: Seq<char>| #[trigger] final(self).identity_of(p) == old(self).identity_of(p),
            final(self).watched() == old(self).watched(),
    {
        let ghost before = self.file_system.deep_view();
        self.file_system.push(Entry { path, file_id });
        assert(self.file_system.deep_view() =~= before.push((path@, file_id)));
        assert(self.file_system.deep_view().drop_last() =~= before);
    }

    /// Tells the table that nothing is on disk at `path` or below it. What
    /// the resolver holds stays as it is.
    pub fn clear_on_disk(&mut self, path: &str)
        ensures
            forall|p: Seq<char>| #[trigger]
                final(self).on_disk(p) == if path_within(p, path@) {
                    None
                } else {
                    old(self).on_disk(p)
                },
            forall|p: Seq<char>| #[trigger] final(self).identity_of(p) == old(self).identity_of(p),
            final(self).watched() == old(self).watched(),
    {
        let ghost before = self.file_system.deep_view();
        remove_within(&mut self.file_system, path);
        assert forall|p: Seq<char>| #[trigger]
            lookup(self.file_system.deep_view(), p) == if path_within(p, path@) {
                None
            } else {
                lookup(before, p)
            } by {
            lemma_lookup_not_within(before, path@, p);
        }
    }

    /// The watched roots, in the order in which they were added.
    pub fn roots(&self) -> (r: Vec<String>)
        ensures
            r.deep_view() == self.watched(),
    {
        clone_paths(&self.roots)
    }

    /// The identity registered for `path`.
    pub fn resolve(&self, path: &str) -> (r: Option<FileId>)
        ensures
            r == self.identity_of(path@),
    {
        find(&self.paths, path)
    }

    /// Registers `path` and what lies below it: there the resolver holds
    /// afterwards what is on disk, and no identity for what is not.
    pub fn register(&mut self, path: &str)
        ensures
            forall|p: Seq<char>| #[trigger]
                final(self).identity_of(p) == if path_within(p, path@) {
                    old(self).on_disk(p)
                } else {
                    old(self).identity_of(p)
                },
            forall|p: Seq<char>| #[trigger] final(self).on_disk(p) == old(self).on_disk(p),
            final(self).watched() == old(self).watched(),
    {
        let ghost before = self.paths.deep_view();
        let ghost disk = self.file_system.deep_view();
        remove_within(&mut self.paths, path);
        copy_within(&mut self.paths, &self.file_system, path);
        assert forall|p: Seq<char>| #[trigger]
            lookup(self.paths.deep_view(), p) == if path_within(p, path@) {
                lookup(disk, p)
            } else {
                lookup(before, p)
            } by {
            lemma_lookup_not_within(before, path@, p);
            lemma_lookup_within(disk, path@, p);
            lemma_lookup_add(before.filter(not_within(path@)), disk.filter(within(path@)), p);
        }
    }

    /// Forgets `path` and what lies below it.
    pub fn forget(&mut self, path: &str)
        ensures
            forall|p: Seq<char>| #[trigger]
                final(self).identity_of(p) == if path_within(p, path@) {
                    None
                } else {
                    old(self).identity_of(p)
                },
            forall|p: Seq<char>| #[trigger] final(self).on_disk(p) == old(self).on_disk(p),
            final(self).watched() == old(self).watched(),
    {
        let ghost before = self.paths.deep_view();
        remove_within(&mut self.paths, path);
        assert forall|p: Seq<char>| #[trigger]
            lookup(self.paths.deep_view(), p) == if path_within(p, path@) {
                None
            } else {
                lookup(before, p)
            } by {
            lemma_lookup_not_within(before, path@, p);
        }
    }

    /// What the resolver holds agrees with what is on disk.
    pub open spec fn faithful(&self) -> bool {
        forall|p: Seq<char>|
            (#[trigger] self.identity_of(p)) is Some ==> self.identity_of(p) == self.on_disk(p)
    }

    /// No two paths on disk share an identity.
    pub open spec fn disk_is_injective(&self) -> bool {
        forall|p: Seq<char>, q: Seq<char>|
            p != q && (#[trigger] self.on_disk(p)) is Some && (#[trigger] self.on_disk(q)) is Some
                ==> self.on_disk(p) != self.on_disk(q)
    }

    /// Drops what the resolver holds, and registers the watched roots anew.
    pub fn rescan(&mut self)
        ensures
            forall|p: Seq<char>| #[trigger]
                final(self).identity_of(p) == if old(self).is_watched(p) {
                    old(self).on_disk(p)
                } else {
                    None
                },
            forall|p: Seq<char>| #[trigger] final(self).on_disk(p) == old(self).on_disk(p),
            final(self).watched() == old(self).watched(),
    {
        let ghost disk = self.file_system.deep_view();
        let ghost roots = self.roots.deep_view();
        self.paths.clear();
        assert(self.paths.deep_view() =~= Seq::<(Seq<char>, FileId)>::empty());
        let mut i: usize = 0;
        while i < self.roots.len()
            invariant
                i <= self.roots.len(),
                disk == self.file_system.deep_view(),
                roots == self.roots.deep_view(),
                forall|p: Seq<char>| #[trigger]
                    lookup(self.paths.deep_view(), p) == if exists|j: int|
                        0 <= j < i && path_within(p, #[trigger] roots[j]) {
                        lookup(disk, p)
                    } else {
                        None
                    },
            decreases self.roots.len() - i,
        {
            let ghost before = self.paths.deep_view();
            assert(roots[i as int] == self.roots[i as int]@);
            copy_within(&mut self.paths, &self.file_system, self.roots[i].as_str());
            assert forall|p: Seq<char>| #[trigger]
                lookup(self.paths.deep_view(), p) == if exists|j: int|
                    0 <= j < i + 1 && path_within(p, #[trigger] roots[j]) {
                    lookup(disk, p)
                } else {
                    None
                } by {
                lemma_lookup_within(disk, roots[i as int], p);
                lemma_lookup_add(before, disk.filter(within(roots[i as int])), p);
                if path_within(p, roots[i as int]) {
                    assert(0 <= i < i + 1 && path_within(p, roots[i as int]));
                }
            }
            i += 1;
        }
        assert forall|p: Seq<char>| #[trigger]
            lookup(self.paths.deep_view(), p) == if old(self).is_watched(p) {
                lookup(disk, p)
            } else {
                None
            } by {
            if old(self).is_watched(p) {
                let j = choose|j: int|
                    0 <= j < old(self).watched().len() && path_within(
                        p,
                        #[trigger] old(self).watched()[j],
                    );
                assert(path_within(p, roots[j]));
            }
            if exists|j: int| 0 <= j < i && path_within(p, #[trigger] roots[j]) {
                let j = choose|j: int| 0 <= j < i && path_within(p, #[trigger] roots[j]);
                assert(path_within(p, old(self).watched()[j]));
            }
        }
    }

    /// Watches `path`: it is a root from now on, and is registered.
    pub fn add_root(&mut self, path: &str)
        ensures
            final(self).watched() == old(self).watched().push(path@),
            forall|p: Seq<char>| #[trigger]
                final(self).identity_of(p) == if path_within(p, path@) {
                    old(self).on_disk(p)
                } else {
                    old(self).identity_of(p)
                },
            forall|p: Seq<char>| #[trigger] final(self).on_disk(p) == old(self).on_disk(p),
    {
        let ghost before = self.roots.deep_view();
        self.roots.push(path.to_owned());
        assert(self.roots.deep_view() =~= before.push(path@));
        self.register(path);
    }

    /// Stops watching `path`: it is no root any more, and is forgotten.
    pub fn remove_root(&mut self, path: &str)
        ensures
            final(self).watched() == old(self).watched().filter(other_than(path@)),
            forall|p: Seq<char>| #[trigger]
                final(self).identity_of(p) == if path_within(p, path@) {
                    None
                } else {
                    old(self).identity_of(p)
                },
            forall|p: Seq<char>| #[trigger] final(self).on_disk(p) == old(self).on_disk(p),
    {
        let ghost before = self.roots.deep_view();
        let ghost keep = other_than(path@);
        let ghost mut done: int = 0;
        let mut i: usize = 0;
        assert(before.take(0) =~= Seq::<Seq<char>>::empty());
        assert(before.skip(0) =~= before);
        proof {
            reveal(Seq::filter);
        }
        assert(self.roots.deep_view() =~= before.take(0).filter(keep) + before.skip(0));
        while i < self.roots.len()
            invariant
                0 <= done <= before.len(),
                i <= self.roots.len(),
                i == before.take(done).filter(keep).len(),
                self.roots.len() - i == before.len() - done,
                self.roots.deep_view() == before.take(done).filter(keep) + before.skip(done),
                keep == other_than(path@),
                self.paths == old(self).paths,
                self.file_system == old(self).file_system,
            decreases self.roots.len() - i,
        {
            let ghost now = self.roots.deep_view();
            let ghost kept = before.take(done).filter(keep);
            assert(now[i as int] == before.skip(done)[0]);
            assert(now[i as int] == self.roots[i as int]@);
            proof {
                before.take(done).lemma_filter_push(before[done], keep);
                assert(before.take(done).push(before[done]) =~= before.take(done + 1));
            }
            if same_text(self.roots[i].as_str(), path) {
                self.roots.remove(i);
                assert(self.roots.deep_view() =~= now.remove(i as int));
                assert(now.remove(i as int) =~= kept + before.skip(done + 1));
            } else {
                i += 1;
                assert(now =~= kept.push(before[done]) + before.skip(done + 1));
            }
            proof {
                done = done + 1;
            }
        }
        assert(before.take(done) =~= before);
        assert(self.roots.deep_view() =~= before.filter(keep));
        self.forget(path);
    }
}

/// The roots other than `path`.
pub open spec fn other_than(path: Seq<char>) -> spec_fn(Seq<char>) -> bool {
    |root: Seq<char>| root != path
}

impl FileIdTable {
    /// What the table is told of what is on disk, and of which roots are
    /// watched, is the same in `self` and in `other`.
    pub open spec fn same_world(&self, other: &Self) -> bool {
        &&& forall|p: Seq<char>| #[trigger] self.on_disk(p) == other.on_disk(p)
        &&& self.watched() == other.watched()
    }
}

impl FileIdCache for FileIdTable {
    open spec fn held(&self, path: Seq<char>) -> Option<FileId> {
        self.identity_of(path)
    }

    open spec fn registers(before: Self, after: Self, path: Seq<char>) -> bool {
        &&& forall|p: Seq<char>| #[trigger]
            after.identity_of(p) == if path_within(p, path) {
                before.on_disk(p)
            } else {
                before.identity_of(p)
            }
        &&& after.same_world(&before)
    }

    open spec fn forgets(before: Self, after: Self, path: Seq<char>) -> bool {
        &&& forall|p: Seq<char>| #[trigger]
            after.identity_of(p) == if path_within(p, path) {
                None
            } else {
                before.identity_of(p)
            }
        &&& after.same_world(&before)
    }

    open spec fn rescans(before: Self, after: Self) -> bool {
        &&& forall|p: Seq<char>| #[trigger]
            after.identity_of(p) == if before.is_watched(p) {
                before.on_disk(p)
            } else {
                None
            }
        &&& after.same_world(&before)
    }

    fn get_file_id(&self, path: &str) -> (r: Option<FileId>) {
        self.resolve(path)
    }

    fn add_path(&mut self, path: &str) {
        self.register(path)
    }

    fn remove_path(&mut self, path: &str) {
        self.forget(path)
    }

    fn rescan(&mut self) {
        FileIdTable::rescan(self)
    }
}

/// A resolver that holds no identity: with it, the two halves of a rename
/// are told by their trackers alone.
#[derive(Debug, Clone, Copy, PartialEq, Eq, Structural)]
pub struct NoCache;

impl FileIdCache for NoCache {
    open spec fn held(&self, path: Seq<char>) -> Option<FileId> {
        None
    }

    open spec fn registers(before: Self, after: Self, path: Seq<char>) -> bool {
        true
    }

    open spec fn forgets(before: Self, after: Self, path: Seq<char>) -> bool {
        true
    }

    open spec fn rescans(before: Self, after: Self) -> bool {
        true
    }

    fn get_file_id(&self, path: &str) -> (r: Option<FileId>) {
        None
    }

    fn add_path(&mut self, path: &str) {
    }

    fn remove_path(&mut self, path: &str) {
    }

    fn rescan(&mut self) {
    }
}

/// Every path lies within itself.
pub proof fn lemma_within_itself(path: Seq<char>)
    ensures
        path_within(path, path),
{
    assert(path.subrange(0, path.len() as int) =~= path);
}

/// Two different paths that a faithful resolver holds have different
/// identities, where no two paths on disk share one.
pub proof fn lemma_identities_are_distinct(table: FileIdTable, p: Seq<char>, q: Seq<char>)
    requires
        table.faithful(),
        table.disk_is_injective(),
        p != q,
        table.identity_of(p) is Some,
        table.identity_of(q) is Some,
    ensures
        table.identity_of(p) != table.identity_of(q),
{
}

/// A resolver that took a registration or forgot a path is faithful where
/// it was before: `after` holds at or below `path` what is on disk or
/// nothing, and elsewhere what `before` held.
pub proof fn lemma_stays_faithful(before: FileIdTable, after: FileIdTable, path: Seq<char>)
    requires
        before.faithful(),
        forall|p: Seq<char>| #[trigger] after.on_disk(p) == before.on_disk(p),
        forall|p: Seq<char>|
            path_within(p, path) ==> (#[trigger] after.identity_of(p)) is None
                || after.identity_of(p) == before.on_disk(p),
        forall|p: Seq<char>|
            !path_within(p, path) ==> #[trigger] after.identity_of(p) == before.identity_of(p),
    ensures
        after.faithful(),
{
    assert forall|p: Seq<char>| (#[trigger] after.identity_of(p)) is Some implies after.identity_of(
        p,
    ) == after.on_disk(p) by {
        if !path_within(p, path) {
            assert(after.identity_of(p) == before.identity_of(p));
        }
    }
}

/// What is registered stays: once `path` is registered, the resolver holds
/// for it what is on disk; after it is forgotten, the resolver holds nothing
/// for it.
pub proof fn lemma_register_then_forget(
    start: FileIdTable,
    registered: FileIdTable,
    forgotten: FileIdTable,
    path: Seq<char>,
)
    requires
        forall|p: Seq<char>| #[trigger]
            registered.identity_of(p) == if path_within(p, path) {
                start.on_disk(p)
            } else {
                start.identity_of(p)
            },
        forall|p: Seq<char>| #[trigger]
            forgotten.identity_of(p) == if path_within(p, path) {
                None
            } else {
                registered.identity_of(p)
            },
    ensures
        registered.identity_of(path) == start.on_disk(path),
        forgotten.identity_of(path) is None,
{
    lemma_within_itself(path);
}

} // verus!
