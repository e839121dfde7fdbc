//! Trees: changes of paths, and the edits that bring them into a tree or take them out of it.
use vstd::prelude::*;
use crate::bytes;
use crate::ids::ObjectId;
use crate::plan::{viewed, viewed_option, viewed_push};

verus! {

/// What happened to a path.
#[derive(Clone, Copy, PartialEq, Eq, Structural, Debug)]
pub enum ChangeKind {
    Added,
    Deleted,
    Modified,
    TypeChanged,
    Renamed,
    Copied,
    Unmerged,
}

/// Where a change is: in the index, in the worktree only, or between two trees.
#[derive(Clone, Copy, PartialEq, Eq, Structural, Debug)]
pub enum ChangeGroup {
    Staged,
    Unstaged,
    Tree,
}

/// A change of a path, with the path that it was renamed or copied from.
#[derive(PartialEq, Eq, Debug)]
pub struct PathChange<T> {
    pub path: T,
    pub source: Option<T>,
    pub group: ChangeGroup,
    pub kind: ChangeKind,
}

impl<T: View> View for PathChange<T> {
    type V = PathChange<T::V>;

    open spec fn view(&self) -> PathChange<T::V> {
        PathChange {
            path: self.path@,
            source: viewed_option(self.source),
            group: self.group,
            kind: self.kind,
        }
    }
}

/// What an entry of a tree is.
#[derive(Clone, Copy, PartialEq, Eq, Structural, Debug)]
pub enum EntryKind {
    Tree,
    Blob,
    BlobExecutable,
    Link,
    Commit,
}

/// An entry of a tree, with its full path.
#[derive(PartialEq, Eq, Debug)]
pub struct Entry<T> {
    pub path: T,
    pub kind: EntryKind,
    pub id: ObjectId,
}

impl<T: View> View for Entry<T> {
    type V = Entry<T::V>;

    open spec fn view(&self) -> Entry<T::V> {
        Entry { path: self.path@, kind: self.kind, id: self.id }
    }
}

/// An edit of a tree.
#[derive(PartialEq, Eq, Debug)]
pub enum TreeEdit<T> {
    Remove(T),
    Upsert(Entry<T>),
}

impl<T: View> View for TreeEdit<T> {
    type V = TreeEdit<T::V>;

    open spec fn view(&self) -> TreeEdit<T::V> {
        match self {
            TreeEdit::Remove(path) => TreeEdit::Remove(path@),
            TreeEdit::Upsert(entry) => TreeEdit::Upsert(entry@),
        }
    }
}

/// Why a tree cannot be edited.
#[derive(Clone, Copy, PartialEq, Eq, Structural, Debug)]
pub enum TreeError {
    InvalidMode,
    AbsentPath,
    NoSource,
    Unmerged,
}

/// The files of a tree by their paths.
pub type Files = Map<Seq<u8>, (EntryKind, ObjectId)>;

/// The files of a tree after an edit.
pub open spec fn edited_once(files: Files, edit: TreeEdit<Seq<u8>>) -> Files {
    match edit {
        TreeEdit::Remove(path) => files.remove(path),
        TreeEdit::Upsert(entry) => files.insert(entry.path, (entry.kind, entry.id)),
    }
}

/// The files of a tree after edits, in order.
pub open spec fn edited(files: Files, edits: Seq<TreeEdit<Seq<u8>>>) -> Files
    decreases edits.len(),
{
    if edits.len() == 0 {
        files
    } else {
        edited_once(edited(files, edits.drop_last()), edits.last())
    }
}

/// The path that an edit is about.
pub open spec fn edited_path(edit: TreeEdit<Seq<u8>>) -> Seq<u8> {
    match edit {
        TreeEdit::Remove(path) => path,
        TreeEdit::Upsert(entry) => entry.path,
    }
}

/// What a tree holds at a path.
pub open spec fn file_at(files: Files, path: Seq<u8>) -> Option<(EntryKind, ObjectId)> {
    if files.dom().contains(path) {
        Some(files[path])
    } else {
        None
    }
}

/// Edits leave alone the paths that they are not about.
pub proof fn other_paths_stay(files: Files, edits: Seq<TreeEdit<Seq<u8>>>, path: Seq<u8>)
    requires
        forall|i: int| 0 <= i < edits.len() ==> edited_path(#[trigger] edits[i]) != path,
    ensures
        file_at(edited(files, edits), path) == file_at(files, path),
    decreases edits.len(),
{
    if edits.len() > 0 {
        let before = edits.drop_last();
        assert(edited_path(edits[edits.len() - 1]) != path);
        assert forall|i: int| 0 <= i < before.len() implies edited_path(#[trigger] before[i])
            != path by {
            assert(before[i] == edits[i]);
        }
        other_paths_stay(files, before, path);
    }
}

/// The first entry at or after `at` with a path.
pub open spec fn entry_from(entries: Seq<Entry<Seq<u8>>>, path: Seq<u8>, at: int) -> Option<
    Entry<Seq<u8>>,
>
    decreases entries.len() - at,
{
    if at < 0 || at >= entries.len() {
        None
    } else if entries[at].path == path {
        Some(entries[at])
    } else {
        entry_from(entries, path, at + 1)
    }
}

/// An entry that is found by its path has that path.
pub proof fn found_entries_have_the_path(entries: Seq<Entry<Seq<u8>>>, path: Seq<u8>, at: int)
    ensures
        entry_from(entries, path, at) matches Some(entry) ==> entry.path == path,
    decreases entries.len() - at,
{
    if 0 <= at < entries.len() {
        found_entries_have_the_path(entries, path, at + 1);
    }
}

/// Copies an entry.
pub fn copy_entry(entry: &Entry<Vec<u8>>) -> (r: Entry<Vec<u8>>)
    ensures
        r@ == entry@,
{
    Entry { path: bytes::copied(entry.path.as_slice()), kind: entry.kind, id: entry.id }
}

/// Finds an entry by its path.
pub fn find_entry(entries: &Vec<Entry<Vec<u8>>>, path: &[u8]) -> (r: Option<Entry<Vec<u8>>>)
    ensures
        viewed_option(r) == entry_from(viewed(entries@), path@, 0),
{
    let ghost all = viewed(entries@);
    let mut at: usize = 0;
    while at < entries.len()
        invariant
            at <= entries@.len(),
            all == viewed(entries@),
            entry_from(all, path@, 0) == entry_from(all, path@, at as int),
        decreases entries@.len() - at,
    {
        assert(all[at as int] == entries@[at as int]@);
        if bytes::equal(entries[at].path.as_slice(), path) {
            return Some(copy_entry(&entries[at]));
        }
        at = at + 1;
    }
    None
}

/// Whether a path is among several.
pub fn contains_path(paths: &Vec<Vec<u8>>, path: &[u8]) -> (r: bool)
    ensures
        r == viewed(paths@).contains(path@),
{
    let ghost all = viewed(paths@);
    let mut at: usize = 0;
    while at < paths.len()
        invariant
            at <= paths@.len(),
            all == viewed(paths@),
            forall|i: int| 0 <= i < at ==> all[i] != path@,
        decreases paths@.len() - at,
    {
        if bytes::equal(paths[at].as_slice(), path) {
            assert(all[at as int] == path@);
            return true;
        }
        at = at + 1;
    }
    false
}

/// An entry of the index: what it is in a tree, if it can be in one, and whether it is part of a
/// conflict.
#[derive(PartialEq, Eq, Debug)]
pub struct IndexEntry<T> {
    pub path: T,
    pub kind: Option<EntryKind>,
    pub id: ObjectId,
    pub conflicted: bool,
}

impl<T: View> View for IndexEntry<T> {
    type V = IndexEntry<T::V>;

    open spec fn view(&self) -> IndexEntry<T::V> {
        IndexEntry {
            path: self.path@,
            kind: self.kind,
            id: self.id,
            conflicted: self.conflicted,
        }
    }
}

/// Whether an index holds conflicts.
pub fn has_conflicts(index: &Vec<IndexEntry<Vec<u8>>>) -> (r: bool)
    ensures
        r == exists|i: int| 0 <= i < index@.len() && (#[trigger] index@[i]).conflicted,
{
    let mut at: usize = 0;
    while at < index.len()
        invariant
            at <= index@.len(),
            forall|i: int| 0 <= i < at ==> !(#[trigger] index@[i]).conflicted,
        decreases index@.len() - at,
    {
        if index[at].conflicted {
            assert(index@[at as int].conflicted);
            return true;
        }
        at = at + 1;
    }
    false
}

/// The edits of the empty tree that make the tree of an index.
pub open spec fn index_edits(index: Seq<IndexEntry<Seq<u8>>>) -> Result<
    Seq<TreeEdit<Seq<u8>>>,
    TreeError,
>
    decreases index.len(),
{
    if index.len() == 0 {
        Ok(Seq::empty())
    } else {
        match index_edits(index.drop_last()) {
            Err(err) => Err(err),
            Ok(edits) => match index.last().kind {
                None => Err(TreeError::InvalidMode),
                Some(kind) => Ok(
                    edits.push(
                        TreeEdit::Upsert(
                            Entry { path: index.last().path, kind, id: index.last().id },
                        ),
                    ),
                ),
            },
        }
    }
}

/// The edits of the empty tree that make the tree of an index.
pub fn index_tree(index: &Vec<IndexEntry<Vec<u8>>>) -> (r: Result<Vec<TreeEdit<Vec<u8>>>, TreeError>)
    ensures
        match r {
            Ok(edits) => index_edits(viewed(index@)) == Ok::<_, TreeError>(viewed(edits@)),
            Err(err) => index_edits(viewed(index@)) == Err::<Seq<TreeEdit<Seq<u8>>>, _>(err),
        },
{
    let ghost all = viewed(index@);
    let mut edits: Vec<TreeEdit<Vec<u8>>> = Vec::new();
    let total: usize = index.len();
    let mut at: usize = 0;
    assert(all.take(0) == Seq::<IndexEntry<Seq<u8>>>::empty());
    assert(viewed(edits@) == Seq::<TreeEdit<Seq<u8>>>::empty());
    while at < total
        invariant
            at <= total,
            total == index@.len(),
            all == viewed(index@),
            index_edits(all.take(at as int)) == Ok::<_, TreeError>(viewed(edits@)),
        decreases total - at,
    {
        assert(all.take(at as int + 1).drop_last() == all.take(at as int));
        assert(all[at as int] == index@[at as int]@);
        match index[at].kind {
            None => {
                proof {
                    index_errors_stay(all, at as int + 1);
                }
                return Err(TreeError::InvalidMode);
            },
            Some(kind) => {
                let edit = TreeEdit::Upsert(
                    Entry { path: bytes::copied(index[at].path.as_slice()), kind, id: index[at].id },
                );
                proof {
                    viewed_push(edits@, edit);
                }
                edits.push(edit);
            },
        }
        at = at + 1;
    }
    assert(all.take(total as int) == all);
    Ok(edits)
}

proof fn index_errors_stay(index: Seq<IndexEntry<Seq<u8>>>, at: int)
    requires
        0 <= at <= index.len(),
        index_edits(index.take(at)) is Err,
    ensures
        index_edits(index) == index_edits(index.take(at)),
    decreases index.len() - at,
{
    if at < index.len() {
        assert(index.take(at + 1).drop_last() == index.take(at));
        index_errors_stay(index, at + 1);
    } else {
        assert(index.take(at) == index);
    }
}

/// The tree of an index holds what the index holds: at each path the last entry of it, and nothing at
/// other paths.
pub proof fn index_trees_hold_the_index(index: Seq<IndexEntry<Seq<u8>>>, path: Seq<u8>)
    requires
        index_edits(index) is Ok,
    ensures
        ({
            let file = file_at(edited(Map::empty(), index_edits(index)->Ok_0), path);
            match file {
                Some((kind, id)) => exists|i: int|
                    0 <= i < index.len() && (#[trigger] index[i]).path == path && index[i].kind
                        == Some(kind) && index[i].id == id && forall|j: int|
                        i < j < index.len() ==> (#[trigger] index[j]).path != path,
                None => forall|i: int| 0 <= i < index.len() ==> (#[trigger] index[i]).path != path,
            }
        }),
    decreases index.len(),
{
    if index.len() > 0 {
        let before = index.drop_last();
        let edits = index_edits(before)->Ok_0;
        let all = index_edits(index)->Ok_0;
        assert(all.drop_last() == edits);
        index_trees_hold_the_index(before, path);
        let last = index.len() - 1;
        if index[last].path == path {
            assert(index[last].path == path);
        } else {
            let file = file_at(edited(Map::empty(), edits), path);
            if let Some((kind, id)) = file {
                let i = choose|i: int|
                    0 <= i < before.len() && (#[trigger] before[i]).path == path && before[i].kind
                        == Some(kind) && before[i].id == id && forall|j: int|
                        i < j < before.len() ==> (#[trigger] before[j]).path != path;
                assert(index[i].path == path);
                assert forall|j: int| i < j < index.len() implies (#[trigger] index[j]).path
                    != path by {
                    if j < last {
                        assert(before[j].path != path);
                    }
                }
            } else {
                assert forall|i: int| 0 <= i < index.len() implies (#[trigger] index[i]).path
                    != path by {
                    if i < last {
                        assert(before[i].path != path);
                    }
                }
            }
        }
    }
}

/// The edits that a change of the worktree makes to a tree, given the files that there are.
pub open spec fn worktree_change(
    change: PathChange<Seq<u8>>,
    files: Seq<Entry<Seq<u8>>>,
) -> Seq<TreeEdit<Seq<u8>>> {
    let moved = match change.source {
        Some(source) if change.kind == ChangeKind::Renamed => seq![TreeEdit::Remove(source)],
        _ => Seq::<TreeEdit<Seq<u8>>>::empty(),
    };
    let file = if change.kind == ChangeKind::Deleted {
        None
    } else {
        entry_from(files, change.path, 0)
    };
    match file {
        Some(entry) => moved.push(TreeEdit::Upsert(entry)),
        None => moved.push(TreeEdit::Remove(change.path)),
    }
}

/// Whether a change of the worktree is left out, as neither its path nor its source is in the index.
pub open spec fn left_out(change: PathChange<Seq<u8>>, index: Option<Seq<Seq<u8>>>) -> bool {
    match index {
        None => false,
        Some(index) => !index.contains(change.path) && (change.source matches Some(source)
            ==> !index.contains(source)),
    }
}

/// The edits that the changes of the worktree make to a tree.
pub open spec fn worktree_edits(
    changes: Seq<PathChange<Seq<u8>>>,
    files: Seq<Entry<Seq<u8>>>,
    index: Option<Seq<Seq<u8>>>,
) -> Seq<TreeEdit<Seq<u8>>>
    decreases changes.len(),
{
    if changes.len() == 0 {
        Seq::empty()
    } else {
        let edits = worktree_edits(changes.drop_last(), files, index);
        let change = changes.last();
        if change.group != ChangeGroup::Unstaged || left_out(change, index) {
            edits
        } else {
            edits + worktree_change(change, files)
        }
    }
}

fn is_left_out(change: &PathChange<Vec<u8>>, index: Option<&Vec<Vec<u8>>>) -> (r: bool)
    ensures
        r == left_out(
            change@,
            match index {
                Some(index) => Some(viewed(index@)),
                None => None,
            },
        ),
{
    match index {
        None => false,
        Some(index) => {
            if contains_path(index, change.path.as_slice()) {
                return false;
            }
            match &change.source {
                Some(source) => !contains_path(index, source.as_slice()),
                None => true,
            }
        },
    }
}

fn push_worktree_change(
    edits: &mut Vec<TreeEdit<Vec<u8>>>,
    change: &PathChange<Vec<u8>>,
    files: &Vec<Entry<Vec<u8>>>,
)
    ensures
        viewed(final(edits)@) == viewed(old(edits)@) + worktree_change(change@, viewed(files@)),
{
    let ghost before = viewed(edits@);
    if change.kind == ChangeKind::Renamed {
        if let Some(source) = &change.source {
            let edit = TreeEdit::Remove(bytes::copied(source.as_slice()));
            proof {
                viewed_push(edits@, edit);
            }
            edits.push(edit);
        }
    }
    let file = if change.kind == ChangeKind::Deleted {
        None
    } else {
        find_entry(files, change.path.as_slice())
    };
    let edit = match file {
        Some(entry) => TreeEdit::Upsert(entry),
        None => TreeEdit::Remove(bytes::copied(change.path.as_slice())),
    };
    proof {
        viewed_push(edits@, edit);
    }
    edits.push(edit);
    assert(viewed(edits@) == before + worktree_change(change@, viewed(files@)));
}

/// The edits that the changes of the worktree make to a tree. `files` are the files that there are, and
/// `index` are the paths to which the changes are restricted, if they are.
pub fn worktree_tree(
    changes: &Vec<PathChange<Vec<u8>>>,
    files: &Vec<Entry<Vec<u8>>>,
    index: Option<&Vec<Vec<u8>>>,
) -> (r: Vec<TreeEdit<Vec<u8>>>)
    ensures
        viewed(r@) == worktree_edits(
            viewed(changes@),
            viewed(files@),
            match index {
                Some(index) => Some(viewed(index@)),
                None => None,
            },
        ),
{
    let ghost all = viewed(changes@);
    let ghost paths = match index {
        Some(index) => Some(viewed(index@)),
        None => None,
    };
    let mut edits: Vec<TreeEdit<Vec<u8>>> = Vec::new();
    let total: usize = changes.len();
    let mut at: usize = 0;
    assert(all.take(0) == Seq::<PathChange<Seq<u8>>>::empty());
    assert(viewed(edits@) == worktree_edits(all.take(0), viewed(files@), paths));
    while at < total
        invariant
            at <= total,
            total == changes@.len(),
            all == viewed(changes@),
            paths == (match index {
                Some(index) => Some(viewed(index@)),
                None => None,
            }),
            viewed(edits@) == worktree_edits(all.take(at as int), viewed(files@), paths),
        decreases total - at,
    {
        assert(all.take(at as int + 1).drop_last() == all.take(at as int));
        assert(all[at as int] == changes@[at as int]@);
        if changes[at].group == ChangeGroup::Unstaged && !is_left_out(&changes[at], index) {
            push_worktree_change(&mut edits, &changes[at], files);
        }
        at = at + 1;
    }
    assert(all.take(total as int) == all);
    edits
}

/// A tree with a change of the worktree holds what the worktree holds at its path: the file that there
/// is, unless the path is deleted. What a path was renamed from is gone.
pub proof fn worktree_changes_are_taken_over(
    tree: Files,
    change: PathChange<Seq<u8>>,
    files: Seq<Entry<Seq<u8>>>,
)
    ensures
        ({
            let after = edited(tree, worktree_change(change, files));
            &&& file_at(after, change.path) == (match entry_from(files, change.path, 0) {
                Some(entry) if change.kind != ChangeKind::Deleted => Some((entry.kind, entry.id)),
                _ => None,
            })
            &&& change.kind == ChangeKind::Renamed && change.source is Some && change.source
                != Some(change.path) ==> file_at(after, change.source->0) is None
        }),
{
    reveal_with_fuel(edited, 3);
    found_entries_have_the_path(files, change.path, 0);
    let edits = worktree_change(change, files);
    if edits.len() == 2 {
        assert(edits.drop_last() == seq![edits[0]]);
        assert(edits.drop_last().drop_last().len() == 0);
    } else {
        assert(edits.drop_last().len() == 0);
    }
}

/// The edits that bring a change of a path from one tree into another.
pub open spec fn path_edits(change: PathChange<Seq<u8>>, source: Seq<Entry<Seq<u8>>>) -> Result<
    Seq<TreeEdit<Seq<u8>>>,
    TreeError,
> {
    let moved = match change.source {
        Some(path) if change.kind == ChangeKind::Renamed => seq![TreeEdit::Remove(path)],
        _ => Seq::<TreeEdit<Seq<u8>>>::empty(),
    };
    if change.kind == ChangeKind::Deleted {
        Ok(moved.push(TreeEdit::Remove(change.path)))
    } else {
        match entry_from(source, change.path, 0) {
            Some(entry) => Ok(moved.push(TreeEdit::Upsert(entry))),
            None => Err(TreeError::AbsentPath),
        }
    }
}

/// The edits that bring a change of a path from the tree with the given entries into another tree.
pub fn path_from_tree(change: &PathChange<Vec<u8>>, source: &Vec<Entry<Vec<u8>>>) -> (r: Result<
    Vec<TreeEdit<Vec<u8>>>,
    TreeError,
>)
    ensures
        match r {
            Ok(edits) => path_edits(change@, viewed(source@)) == Ok::<_, TreeError>(
                viewed(edits@),
            ),
            Err(err) => path_edits(change@, viewed(source@)) == Err::<Seq<TreeEdit<Seq<u8>>>, _>(
                err,
            ),
        },
{
    let mut edits: Vec<TreeEdit<Vec<u8>>> = Vec::new();
    assert(viewed(edits@) == Seq::<TreeEdit<Seq<u8>>>::empty());
    if change.kind == ChangeKind::Renamed {
        if let Some(path) = &change.source {
            let edit = TreeEdit::Remove(bytes::copied(path.as_slice()));
            proof {
                viewed_push(edits@, edit);
            }
            edits.push(edit);
            assert(viewed(edits@) == seq![TreeEdit::Remove(path@)]);
        }
    }
    let edit = if change.kind == ChangeKind::Deleted {
        TreeEdit::Remove(bytes::copied(change.path.as_slice()))
    } else {
        match find_entry(source, change.path.as_slice()) {
            Some(entry) => TreeEdit::Upsert(entry),
            None => {
                return Err(TreeError::AbsentPath);
            },
        }
    };
    proof {
        viewed_push(edits@, edit);
    }
    edits.push(edit);
    Ok(edits)
}

/// The edit that restores a path from a parent.
pub open spec fn restored(parent: Seq<Entry<Seq<u8>>>, path: Seq<u8>) -> Result<
    TreeEdit<Seq<u8>>,
    TreeError,
> {
    match entry_from(parent, path, 0) {
        Some(entry) => Ok(TreeEdit::Upsert(entry)),
        None => Err(TreeError::AbsentPath),
    }
}

/// The edits that take a change out of a tree, so that it holds what the parent holds.
pub open spec fn spill_change(change: PathChange<Seq<u8>>, parent: Seq<Entry<Seq<u8>>>) -> Result<
    Seq<TreeEdit<Seq<u8>>>,
    TreeError,
> {
    match change.kind {
        ChangeKind::Added | ChangeKind::Copied => Ok(seq![TreeEdit::Remove(change.path)]),
        ChangeKind::Deleted | ChangeKind::Modified | ChangeKind::TypeChanged => match restored(
            parent,
            change.path,
        ) {
            Ok(edit) => Ok(seq![edit]),
            Err(err) => Err(err),
        },
        ChangeKind::Renamed => match change.source {
            None => Err(TreeError::NoSource),
            Some(source) => match restored(parent, source) {
                Ok(edit) => Ok(seq![TreeEdit::Remove(change.path), edit]),
                Err(err) => Err(err),
            },
        },
        ChangeKind::Unmerged => Err(TreeError::Unmerged),
    }
}

/// The edits that take changes out of a tree.
pub open spec fn spill_edits(
    changes: Seq<PathChange<Seq<u8>>>,
    parent: Seq<Entry<Seq<u8>>>,
    at: int,
    done: Seq<TreeEdit<Seq<u8>>>,
) -> Result<Seq<TreeEdit<Seq<u8>>>, TreeError>
    decreases changes.len() - at,
{
    if at < 0 || at >= changes.len() {
        Ok(done)
    } else {
        match spill_change(changes[at], parent) {
            Err(err) => Err(err),
            Ok(edits) => spill_edits(changes, parent, at + 1, done + edits),
        }
    }
}

fn push_edit(edits: &mut Vec<TreeEdit<Vec<u8>>>, edit: TreeEdit<Vec<u8>>)
    ensures
        viewed(final(edits)@) == viewed(old(edits)@) + seq![edit@],
{
    proof {
        viewed_push(edits@, edit);
    }
    edits.push(edit);
}

fn push_restored(
    edits: &mut Vec<TreeEdit<Vec<u8>>>,
    parent: &Vec<Entry<Vec<u8>>>,
    path: &[u8],
) -> (r: Result<(), TreeError>)
    ensures
        match restored(viewed(parent@), path@) {
            Ok(edit) => r is Ok && viewed(final(edits)@) == viewed(old(edits)@) + seq![edit],
            Err(err) => r == Err::<(), _>(err),
        },
{
    match find_entry(parent, path) {
        Some(entry) => {
            push_edit(edits, TreeEdit::Upsert(entry));
            Ok(())
        },
        None => Err(TreeError::AbsentPath),
    }
}

fn push_spilled(
    edits: &mut Vec<TreeEdit<Vec<u8>>>,
    change: &PathChange<Vec<u8>>,
    parent: &Vec<Entry<Vec<u8>>>,
) -> (r: Result<(), TreeError>)
    ensures
        match spill_change(change@, viewed(parent@)) {
            Ok(more) => r is Ok && viewed(final(edits)@) == viewed(old(edits)@) + more,
            Err(err) => r == Err::<(), _>(err),
        },
{
    let ghost before = viewed(edits@);
    match change.kind {
        ChangeKind::Added | ChangeKind::Copied => {
            push_edit(edits, TreeEdit::Remove(bytes::copied(change.path.as_slice())));
            Ok(())
        },
        ChangeKind::Deleted | ChangeKind::Modified | ChangeKind::TypeChanged => push_restored(
            edits,
            parent,
            change.path.as_slice(),
        ),
        ChangeKind::Renamed => match &change.source {
            None => Err(TreeError::NoSource),
            Some(source) => {
                push_edit(edits, TreeEdit::Remove(bytes::copied(change.path.as_slice())));
                let pushed = push_restored(edits, parent, source.as_slice());
                proof {
                    if let Ok(edit) = restored(viewed(parent@), source@) {
                        assert(before + seq![TreeEdit::Remove(change.path@)] + seq![edit] == before
                            + seq![TreeEdit::Remove(change.path@), edit]);
                    }
                }
                pushed
            },
        },
        ChangeKind::Unmerged => Err(TreeError::Unmerged),
    }
}

/// The edits that take changes out of a tree, given the entries of the parent.
pub fn spill_paths(changes: &Vec<PathChange<Vec<u8>>>, parent: &Vec<Entry<Vec<u8>>>) -> (r: Result<
    Vec<TreeEdit<Vec<u8>>>,
    TreeError,
>)
    ensures
        ({
            let expected = spill_edits(viewed(changes@), viewed(parent@), 0, Seq::empty());
            match r {
                Ok(edits) => expected == Ok::<_, TreeError>(viewed(edits@)),
                Err(err) => expected == Err::<Seq<TreeEdit<Seq<u8>>>, _>(err),
            }
        }),
{
    let ghost all = viewed(changes@);
    let ghost before = viewed(parent@);
    let mut edits: Vec<TreeEdit<Vec<u8>>> = Vec::new();
    let mut at: usize = 0;
    assert(viewed(edits@) == Seq::<TreeEdit<Seq<u8>>>::empty());
    while at < changes.len()
        invariant
            at <= changes@.len(),
            all == viewed(changes@),
            before == viewed(parent@),
            spill_edits(all, before, 0, Seq::empty()) == spill_edits(
                all,
                before,
                at as int,
                viewed(edits@),
            ),
        decreases changes@.len() - at,
    {
        assert(all[at as int] == changes@[at as int]@);
        if let Err(err) = push_spilled(&mut edits, &changes[at], parent) {
            return Err(err);
        }
        at = at + 1;
    }
    Ok(edits)
}

/// A change that is taken out of a tree is gone: what was added, copied or renamed is not there, and what
/// was deleted, modified or renamed is as the parent has it.
pub proof fn spilled_changes_are_gone(
    tree: Files,
    change: PathChange<Seq<u8>>,
    parent: Seq<Entry<Seq<u8>>>,
)
    requires
        spill_change(change, parent) is Ok,
        change.kind == ChangeKind::Renamed ==> change.source != Some(change.path),
    ensures
        ({
            let after = edited(tree, spill_change(change, parent)->Ok_0);
            let of_parent = |path: Seq<u8>|
                match entry_from(parent, path, 0) {
                    Some(entry) => Some((entry.kind, entry.id)),
                    None => None,
                };
            match change.kind {
                ChangeKind::Added | ChangeKind::Copied => file_at(after, change.path) is None,
                ChangeKind::Renamed => file_at(after, change.path) is None && file_at(
                    after,
                    change.source->0,
                ) == of_parent(change.source->0) && of_parent(change.source->0) is Some,
                _ => file_at(after, change.path) == of_parent(change.path) && of_parent(
                    change.path,
                ) is Some,
            }
        }),
{
    reveal_with_fuel(edited, 3);
    found_entries_have_the_path(parent, change.path, 0);
    if let Some(source) = change.source {
        found_entries_have_the_path(parent, source, 0);
    }
    let edits = spill_change(change, parent)->Ok_0;
    if edits.len() == 2 {
        assert(edits.drop_last() == seq![edits[0]]);
        assert(edits.drop_last().drop_last().len() == 0);
    } else {
        assert(edits.drop_last().len() == 0);
    }
}

/// What a tree holds of a path, given its entries.
pub open spec fn held(entries: Seq<Entry<Seq<u8>>>, path: Seq<u8>) -> Option<(EntryKind, ObjectId)> {
    match entry_from(entries, path, 0) {
        Some(entry) => Some((entry.kind, entry.id)),
        None => None,
    }
}

/// An entry is found by its path if and only if there is one.
pub proof fn entries_are_found(entries: Seq<Entry<Seq<u8>>>, path: Seq<u8>, at: int)
    requires
        0 <= at,
    ensures
        entry_from(entries, path, at) is Some <==> exists|i: int|
            at <= i < entries.len() && (#[trigger] entries[i]).path == path,
        entry_from(entries, path, at) matches Some(entry) ==> entries.contains(entry) && entry.path
            == path,
    decreases entries.len() - at,
{
    if at < entries.len() && entries[at].path != path {
        entries_are_found(entries, path, at + 1);
    }
}

/// A path is taken from a tree as it is there; what it was renamed from goes, and what was deleted goes. What
/// is to be taken but is not there is refused, and nothing else is.
pub proof fn paths_are_taken_from_trees(
    tree: Files,
    change: PathChange<Seq<u8>>,
    source: Seq<Entry<Seq<u8>>>,
)
    ensures
        path_edits(change, source) is Ok <==> change.kind == ChangeKind::Deleted || held(
            source,
            change.path,
        ) is Some,
        path_edits(change, source) matches Ok(edits) ==> {
            let after = edited(tree, edits);
            &&& file_at(after, change.path) == if change.kind == ChangeKind::Deleted {
                None
            } else {
                held(source, change.path)
            }
            &&& change.kind == ChangeKind::Renamed && change.source is Some && change.source
                != Some(change.path) ==> file_at(after, change.source->0) is None
            &&& forall|p: Seq<u8>|
                p != change.path && !(change.kind == ChangeKind::Renamed && change.source == Some(p))
                    ==> #[trigger] file_at(after, p) == file_at(tree, p)
        },
{
    found_entries_have_the_path(source, change.path, 0);
    if let Ok(edits) = path_edits(change, source) {
        reveal_with_fuel(edited, 3);
        if change.kind == ChangeKind::Renamed && change.source is Some {
            assert(edits.drop_last().drop_last() == Seq::<TreeEdit<Seq<u8>>>::empty());
            assert(edits.drop_last() == seq![TreeEdit::Remove(change.source->0)]);
        } else {
            assert(edits.drop_last() == Seq::<TreeEdit<Seq<u8>>>::empty());
        }
    }
}

/// Changes can be taken out of a commit unless they are conflicts, lack what they were renamed from, or
/// lack what the parent should hold.
pub proof fn changes_can_be_spilled(change: PathChange<Seq<u8>>, parent: Seq<Entry<Seq<u8>>>)
    ensures
        ({
            let found = spill_change(change, parent);
            &&& change.kind == ChangeKind::Added || change.kind == ChangeKind::Copied ==> found
                is Ok
            &&& change.kind == ChangeKind::Deleted || change.kind == ChangeKind::Modified
                || change.kind == ChangeKind::TypeChanged ==> (found is Ok <==> held(
                parent,
                change.path,
            ) is Some)
            &&& change.kind == ChangeKind::Renamed ==> (found is Ok <==> change.source is Some
                && held(parent, change.source->0) is Some)
            &&& found == Err::<Seq<TreeEdit<Seq<u8>>>, _>(TreeError::Unmerged) <==> change.kind
                == ChangeKind::Unmerged
            &&& found == Err::<Seq<TreeEdit<Seq<u8>>>, _>(TreeError::NoSource) <==> change.kind
                == ChangeKind::Renamed && change.source is None
        }),
{
}

/// The paths that a change between trees is about.
pub open spec fn about(change: PathChange<Seq<u8>>, path: Seq<u8>) -> bool {
    path == change.path || (change.kind == ChangeKind::Renamed && change.source == Some(path))
}

proof fn joined_edits(files: Files, first: Seq<TreeEdit<Seq<u8>>>, second: Seq<TreeEdit<Seq<u8>>>)
    ensures
        edited(files, first + second) == edited(edited(files, first), second),
    decreases second.len(),
{
    if second.len() == 0 {
        assert(first + second == first);
    } else {
        let all = first + second;
        assert(all.drop_last() == first + second.drop_last());
        assert(all.last() == second.last());
        joined_edits(files, first, second.drop_last());
    }
}

proof fn spilling_stays_within(change: PathChange<Seq<u8>>, parent: Seq<Entry<Seq<u8>>>, tree: Files, path: Seq<u8>)
    requires
        spill_change(change, parent) is Ok,
        !about(change, path),
    ensures
        file_at(edited(tree, spill_change(change, parent)->Ok_0), path) == file_at(tree, path),
{
    let edits = spill_change(change, parent)->Ok_0;
    found_entries_have_the_path(parent, change.path, 0);
    if let Some(source) = change.source {
        found_entries_have_the_path(parent, source, 0);
    }
    assert forall|i: int| 0 <= i < edits.len() implies edited_path(#[trigger] edits[i]) != path by {}
    other_paths_stay(tree, edits, path);
}

proof fn spilling_in_turn(
    tree: Files,
    changes: Seq<PathChange<Seq<u8>>>,
    parent: Seq<Entry<Seq<u8>>>,
    at: int,
    done: Seq<TreeEdit<Seq<u8>>>,
    path: Seq<u8>,
)
    requires
        0 <= at <= changes.len(),
        forall|i: int| at <= i < changes.len() ==> !about(#[trigger] changes[i], path),
    ensures
        spill_edits(changes, parent, at, done) matches Ok(edits) ==> file_at(
            edited(tree, edits),
            path,
        ) == file_at(edited(tree, done), path),
    decreases changes.len() - at,
{
    if at < changes.len() {
        if let Ok(edits) = spill_change(changes[at], parent) {
            spilling_in_turn(tree, changes, parent, at + 1, done + edits, path);
            joined_edits(tree, done, edits);
            spilling_stays_within(changes[at], parent, edited(tree, done), path);
        }
    }
}

proof fn spilling_reaches(
    tree: Files,
    changes: Seq<PathChange<Seq<u8>>>,
    parent: Seq<Entry<Seq<u8>>>,
    at: int,
    done: Seq<TreeEdit<Seq<u8>>>,
    which: int,
    path: Seq<u8>,
)
    requires
        0 <= at <= which < changes.len(),
        about(changes[which], path),
        changes[which].kind == ChangeKind::Renamed ==> changes[which].source != Some(
            changes[which].path,
        ),
        forall|i: int| which < i < changes.len() ==> !about(#[trigger] changes[i], path),
    ensures
        spill_edits(changes, parent, at, done) matches Ok(edits) ==> {
            let change = changes[which];
            file_at(edited(tree, edits), path) == if path == change.path && (change.kind
                == ChangeKind::Added || change.kind == ChangeKind::Copied || change.kind
                == ChangeKind::Renamed) {
                None
            } else {
                held(parent, path)
            }
        },
    decreases which - at,
{
    if let Ok(edits) = spill_change(changes[at], parent) {
        joined_edits(tree, done, edits);
        if at < which {
            spilling_reaches(tree, changes, parent, at + 1, done + edits, which, path);
        } else {
            spilled_changes_are_gone(edited(tree, done), changes[which], parent);
            spilling_in_turn(tree, changes, parent, at + 1, done + edits, path);
        }
    }
}

/// Taking changes out of a commit leaves every path that they are about as the parent has it: what was added,
/// copied or renamed to is gone, and what was deleted, changed or renamed from is as it was. Every other path
/// stays. It can be done if and only if it can be done for each change.
pub proof fn spilled_paths_are_as_in_the_parent(
    tree: Files,
    changes: Seq<PathChange<Seq<u8>>>,
    parent: Seq<Entry<Seq<u8>>>,
    path: Seq<u8>,
)
    requires
        forall|i: int|
            0 <= i < changes.len() && (#[trigger] changes[i]).kind == ChangeKind::Renamed
                ==> changes[i].source != Some(changes[i].path),
    ensures
        spill_edits(changes, parent, 0, Seq::empty()) is Ok <==> forall|i: int|
            0 <= i < changes.len() ==> spill_change(#[trigger] changes[i], parent) is Ok,
        spill_edits(changes, parent, 0, Seq::empty()) matches Ok(edits) ==> {
            let after = file_at(edited(tree, edits), path);
            &&& (forall|i: int| 0 <= i < changes.len() ==> !about(#[trigger] changes[i], path))
                ==> after == file_at(tree, path)
            &&& forall|which: int|
                0 <= which < changes.len() && about(#[trigger] changes[which], path) && (forall|
                    i: int,
                |
                    which < i < changes.len() ==> !about(#[trigger] changes[i], path)) ==> after
                    == if path == changes[which].path && (changes[which].kind == ChangeKind::Added
                    || changes[which].kind == ChangeKind::Copied || changes[which].kind
                    == ChangeKind::Renamed) {
                    None
                } else {
                    held(parent, path)
                }
        },
{
    spilling_succeeds(changes, parent, 0, Seq::empty());
    if forall|i: int| 0 <= i < changes.len() ==> !about(#[trigger] changes[i], path) {
        spilling_in_turn(tree, changes, parent, 0, Seq::empty(), path);
    }
    assert forall|which: int|
        0 <= which < changes.len() && about(#[trigger] changes[which], path) && (forall|i: int|
            which < i < changes.len() ==> !about(#[trigger] changes[i], path)) && spill_edits(
            changes,
            parent,
            0,
            Seq::empty(),
        ) is Ok implies file_at(
        edited(tree, spill_edits(changes, parent, 0, Seq::empty())->Ok_0),
        path,
    ) == if path == changes[which].path && (changes[which].kind == ChangeKind::Added
        || changes[which].kind == ChangeKind::Copied || changes[which].kind == ChangeKind::Renamed) {
        None
    } else {
        held(parent, path)
    } by {
        spilling_reaches(tree, changes, parent, 0, Seq::empty(), which, path);
    }
}

proof fn spilling_succeeds(
    changes: Seq<PathChange<Seq<u8>>>,
    parent: Seq<Entry<Seq<u8>>>,
    at: int,
    done: Seq<TreeEdit<Seq<u8>>>,
)
    requires
        0 <= at <= changes.len(),
    ensures
        spill_edits(changes, parent, at, done) is Ok <==> forall|i: int|
            at <= i < changes.len() ==> spill_change(#[trigger] changes[i], parent) is Ok,
    decreases changes.len() - at,
{
    if at < changes.len() {
        if let Ok(edits) = spill_change(changes[at], parent) {
            spilling_succeeds(changes, parent, at + 1, done + edits);
        }
    }
}

/// Whether a change of the worktree is taken over: not if it is staged, and not if only files of the index are
/// to be taken over and the index holds neither the path nor where it comes from.
pub open spec fn taken_over(change: PathChange<Seq<u8>>, index: Option<Seq<Seq<u8>>>) -> bool {
    change.group == ChangeGroup::Unstaged && (index matches Some(index) ==> index.contains(
        change.path,
    ) || (change.source matches Some(source) && index.contains(source)))
}

proof fn change_stays_within(
    change: PathChange<Seq<u8>>,
    files: Seq<Entry<Seq<u8>>>,
    tree: Files,
    path: Seq<u8>,
)
    requires
        !about(change, path),
    ensures
        file_at(edited(tree, worktree_change(change, files)), path) == file_at(tree, path),
{
    let edits = worktree_change(change, files);
    found_entries_have_the_path(files, change.path, 0);
    assert forall|i: int| 0 <= i < edits.len() implies edited_path(#[trigger] edits[i]) != path by {}
    other_paths_stay(tree, edits, path);
}

/// The changes of the worktree leave each path of theirs as it is there: gone if it was deleted or is not
/// there, and otherwise with what is there; what was renamed from is gone. The last change of a path decides.
/// Paths of changes that are not taken over, and all others, stay.
pub proof fn worktree_paths_are_as_in_the_worktree(
    tree: Files,
    changes: Seq<PathChange<Seq<u8>>>,
    files: Seq<Entry<Seq<u8>>>,
    index: Option<Seq<Seq<u8>>>,
    path: Seq<u8>,
)
    ensures
        ({
            let after = file_at(edited(tree, worktree_edits(changes, files, index)), path);
            &&& (forall|i: int|
                0 <= i < changes.len() && taken_over(changes[i], index) ==> !about(
                    #[trigger] changes[i],
                    path,
                )) ==> after == file_at(tree, path)
            &&& forall|which: int|
                0 <= which < changes.len() && about(#[trigger] changes[which], path) && taken_over(
                    changes[which],
                    index,
                ) && (forall|i: int|
                    which < i < changes.len() && taken_over(changes[i], index) ==> !about(
                        #[trigger] changes[i],
                        path,
                    )) ==> after == if path != changes[which].path || changes[which].kind
                    == ChangeKind::Deleted {
                    None
                } else {
                    held(files, path)
                }
        }),
    decreases changes.len(),
{
    if changes.len() > 0 {
        let rest = changes.drop_last();
        let change = changes.last();
        worktree_paths_are_as_in_the_worktree(tree, rest, files, index, path);
        let edits = worktree_edits(rest, files, index);
        let all = worktree_edits(changes, files, index);
        let after = file_at(edited(tree, all), path);
        assert(forall|i: int| 0 <= i < rest.len() ==> rest[i] == #[trigger] changes[i]);
        assert(changes[changes.len() - 1] == change);
        assert(taken_over(change, index) <==> !(change.group != ChangeGroup::Unstaged || left_out(
            change,
            index,
        )));
        if taken_over(change, index) {
            joined_edits(tree, edits, worktree_change(change, files));
            if about(change, path) {
                worktree_changes_are_taken_over(edited(tree, edits), change, files);
            } else {
                change_stays_within(change, files, edited(tree, edits), path);
            }
        }
        assert forall|which: int|
            0 <= which < changes.len() && about(#[trigger] changes[which], path) && taken_over(
                changes[which],
                index,
            ) && (forall|i: int|
                which < i < changes.len() && taken_over(changes[i], index) ==> !about(
                    #[trigger] changes[i],
                    path,
                )) implies after == if path != changes[which].path || changes[which].kind
            == ChangeKind::Deleted {
            None
        } else {
            held(files, path)
        } by {
            if which < rest.len() {
                assert(rest[which] == changes[which]);
                assert(!(taken_over(change, index) && about(change, path)));
            }
        }
    }
}

} // verus!
