//! Discarding a change of the index or the worktree.
use vstd::prelude::*;
use vstd::string::StringSliceAdditionalSpecFns;
use crate::bytes;
use crate::ids::{hex_of, ObjectId};
use crate::plan::{viewed, viewed_push};
use crate::review::start::commands_view;
use crate::trees::{ChangeGroup, ChangeKind, PathChange};

verus! {

/// Why a change cannot be discarded.
#[derive(Clone, Copy, PartialEq, Eq, Structural, Debug)]
pub enum DiscardError {
    Unavailable,
    Submodule,
}

/// An entry of the index: its path, whether it is a submodule, and whether the path is found by it. That
/// is so unless the entry is in conflict and not from our side.
#[derive(PartialEq, Eq, Debug)]
pub struct IndexPath<T> {
    pub path: T,
    pub submodule: bool,
    pub found: bool,
}

impl<T: View> View for IndexPath<T> {
    type V = IndexPath<T::V>;

    open spec fn view(&self) -> IndexPath<T::V> {
        IndexPath { path: self.path@, submodule: self.submodule, found: self.found }
    }
}

/// Whether a path is found in the index.
pub open spec fn in_index(index: Seq<IndexPath<Seq<u8>>>, path: Seq<u8>) -> bool {
    exists|i: int| 0 <= i < index.len() && (#[trigger] index[i]).path == path && index[i].found
}

/// Whether a path is a submodule.
pub open spec fn is_submodule(index: Seq<IndexPath<Seq<u8>>>, path: Seq<u8>) -> bool {
    exists|i: int|
        0 <= i < index.len() && (#[trigger] index[i]).path == path && index[i].submodule
}

/// What a path was renamed from.
pub open spec fn renamed_from(change: PathChange<Seq<u8>>) -> Option<Seq<u8>> {
    if change.kind == ChangeKind::Renamed {
        change.source
    } else {
        None
    }
}

/// The paths that a change is about.
pub open spec fn paths_of(change: PathChange<Seq<u8>>) -> Seq<Seq<u8>> {
    match renamed_from(change) {
        Some(source) => seq![source, change.path],
        None => seq![change.path],
    }
}

/// What git is told to do with paths, which it takes literally.
pub open spec fn command(words: Seq<Seq<u8>>, paths: Seq<Seq<u8>>) -> Seq<Seq<u8>> {
    seq!["--literal-pathspecs".spec_bytes()] + words + seq!["--".spec_bytes()] + paths
}

/// What git is told to discard a change. A change of the index, or a conflict, goes from both the index
/// and the worktree. What was added goes, from the index too if it is there, and what it was renamed from
/// comes back. Anything else comes back from the index.
pub open spec fn discard_words(
    change: PathChange<Seq<u8>>,
    index: Seq<IndexPath<Seq<u8>>>,
    head_tree: ObjectId,
) -> Seq<Seq<Seq<u8>>> {
    let restore = seq!["restore".spec_bytes(), "--worktree".spec_bytes()];
    if change.group == ChangeGroup::Staged || change.kind == ChangeKind::Unmerged {
        seq![
            command(
                seq![
                    "restore".spec_bytes(),
                    "--staged".spec_bytes(),
                    "--worktree".spec_bytes(),
                    "--source=".spec_bytes() + hex_of(head_tree),
                ],
                paths_of(change),
            ),
        ]
    } else if change.kind == ChangeKind::Added || change.kind == ChangeKind::Copied || change.kind
        == ChangeKind::Renamed {
        let remove = command(
            seq![
                if in_index(index, change.path) {
                    "rm".spec_bytes()
                } else {
                    "clean".spec_bytes()
                },
                "--force".spec_bytes(),
            ],
            seq![change.path],
        );
        match renamed_from(change) {
            Some(source) => seq![command(restore, seq![source]), remove],
            None => seq![remove],
        }
    } else {
        seq![command(restore, paths_of(change))]
    }
}

/// Whether a change is among the changes that there are now. One between trees never is.
pub open spec fn available(change: PathChange<Seq<u8>>, current: Seq<PathChange<Seq<u8>>>) -> bool {
    change.group != ChangeGroup::Tree && current.contains(change)
}

/// What git is told to discard a change, if that is still there and no submodule.
pub open spec fn discarding(
    change: PathChange<Seq<u8>>,
    current: Seq<PathChange<Seq<u8>>>,
    index: Seq<IndexPath<Seq<u8>>>,
    head_tree: ObjectId,
) -> Result<Seq<Seq<Seq<u8>>>, DiscardError> {
    if !available(change, current) {
        Err(DiscardError::Unavailable)
    } else if is_submodule(index, change.path) || (renamed_from(change) matches Some(source)
        && is_submodule(index, source)) {
        Err(DiscardError::Submodule)
    } else {
        Ok(discard_words(change, index, head_tree))
    }
}

fn same_change(a: &PathChange<Vec<u8>>, b: &PathChange<Vec<u8>>) -> (r: bool)
    ensures
        r == (a@ == b@),
{
    if a.group != b.group || a.kind != b.kind || !bytes::equal(a.path.as_slice(), b.path.as_slice()) {
        return false;
    }
    match (&a.source, &b.source) {
        (Some(a), Some(b)) => bytes::equal(a.as_slice(), b.as_slice()),
        (None, None) => true,
        _ => false,
    }
}

fn is_available(change: &PathChange<Vec<u8>>, current: &Vec<PathChange<Vec<u8>>>) -> (r: bool)
    ensures
        r == available(change@, viewed(current@)),
{
    let ghost all = viewed(current@);
    if change.group == ChangeGroup::Tree {
        return false;
    }
    let mut at: usize = 0;
    while at < current.len()
        invariant
            at <= current@.len(),
            all == viewed(current@),
            change.group != ChangeGroup::Tree,
            forall|i: int| 0 <= i < at ==> all[i] != change@,
        decreases current@.len() - at,
    {
        if same_change(&current[at], change) {
            assert(all[at as int] == change@);
            return true;
        }
        assert(all[at as int] == current@[at as int]@);
        at = at + 1;
    }
    false
}

fn look_up(index: &Vec<IndexPath<Vec<u8>>>, path: &[u8]) -> (r: (bool, bool))
    ensures
        r.0 == in_index(viewed(index@), path@),
        r.1 == is_submodule(viewed(index@), path@),
{
    let ghost all = viewed(index@);
    let mut found = false;
    let mut submodule = false;
    let mut at: usize = 0;
    while at < index.len()
        invariant
            at <= index@.len(),
            all == viewed(index@),
            found == exists|i: int|
                0 <= i < at && (#[trigger] all[i]).path == path@ && all[i].found,
            submodule == exists|i: int|
                0 <= i < at && (#[trigger] all[i]).path == path@ && all[i].submodule,
        decreases index@.len() - at,
    {
        assert(all[at as int] == index@[at as int]@);
        if bytes::equal(index[at].path.as_slice(), path) {
            assert(all[at as int].path == path@);
            if index[at].found {
                found = true;
            }
            if index[at].submodule {
                submodule = true;
            }
        }
        at = at + 1;
    }
    (found, submodule)
}

fn push_word(words: &mut Vec<Vec<u8>>, word: &[u8])
    ensures
        viewed(final(words)@) == viewed(old(words)@).push(word@),
{
    let word = bytes::copied(word);
    proof {
        viewed_push(words@, word);
    }
    words.push(word);
}

fn one_command(words: &Vec<Vec<u8>>, paths: &Vec<Vec<u8>>) -> (r: Vec<Vec<u8>>)
    ensures
        viewed(r@) == command(viewed(words@), viewed(paths@)),
{
    let mut out: Vec<Vec<u8>> = Vec::new();
    assert(viewed(out@) == Seq::<Seq<u8>>::empty());
    push_word(&mut out, "--literal-pathspecs".as_bytes());
    let ghost first = viewed(out@);
    let ghost all = viewed(words@);
    let mut at: usize = 0;
    assert(viewed(out@) == first + all.take(0));
    while at < words.len()
        invariant
            at <= words@.len(),
            all == viewed(words@),
            viewed(out@) == first + all.take(at as int),
        decreases words@.len() - at,
    {
        push_word(&mut out, words[at].as_slice());
        assert(first + all.take(at as int + 1) == (first + all.take(at as int)).push(
            all[at as int],
        ));
        at = at + 1;
    }
    assert(all.take(words@.len() as int) == all);
    push_word(&mut out, "--".as_bytes());
    let ghost second = viewed(out@);
    let ghost rest = viewed(paths@);
    let mut at: usize = 0;
    assert(viewed(out@) == second + rest.take(0));
    while at < paths.len()
        invariant
            at <= paths@.len(),
            rest == viewed(paths@),
            viewed(out@) == second + rest.take(at as int),
        decreases paths@.len() - at,
    {
        push_word(&mut out, paths[at].as_slice());
        assert(second + rest.take(at as int + 1) == (second + rest.take(at as int)).push(
            rest[at as int],
        ));
        at = at + 1;
    }
    assert(rest.take(paths@.len() as int) == rest);
    assert(viewed(out@) == command(all, rest));
    out
}

fn one_path(path: &[u8]) -> (r: Vec<Vec<u8>>)
    ensures
        viewed(r@) == seq![path@],
{
    let mut paths: Vec<Vec<u8>> = Vec::new();
    push_word(&mut paths, path);
    assert(viewed(paths@) == seq![path@]);
    paths
}

fn list_paths(change: &PathChange<Vec<u8>>) -> (r: Vec<Vec<u8>>)
    ensures
        viewed(r@) == paths_of(change@),
{
    let mut paths: Vec<Vec<u8>> = Vec::new();
    if change.kind == ChangeKind::Renamed {
        if let Some(source) = &change.source {
            push_word(&mut paths, source.as_slice());
        }
    }
    push_word(&mut paths, change.path.as_slice());
    assert(viewed(paths@) == paths_of(change@));
    paths
}

fn two_words(first: &[u8], second: &[u8]) -> (r: Vec<Vec<u8>>)
    ensures
        viewed(r@) == seq![first@, second@],
{
    let mut words: Vec<Vec<u8>> = Vec::new();
    push_word(&mut words, first);
    push_word(&mut words, second);
    assert(viewed(words@) == seq![first@, second@]);
    words
}

fn write_commands(change: &PathChange<Vec<u8>>, present: bool, head_tree: ObjectId) -> (r: Vec<
    Vec<Vec<u8>>,
>)
    ensures
        forall|index: Seq<IndexPath<Seq<u8>>>|
            present == in_index(index, change@.path) ==> commands_view(r@)
                == #[trigger] discard_words(change@, index, head_tree),
{
    let mut commands: Vec<Vec<Vec<u8>>> = Vec::new();
    if change.group == ChangeGroup::Staged || change.kind == ChangeKind::Unmerged {
        let mut words = two_words("restore".as_bytes(), "--staged".as_bytes());
        push_word(&mut words, "--worktree".as_bytes());
        let source = bytes::joined("--source=".as_bytes(), head_tree.to_hex().as_slice());
        push_word(&mut words, source.as_slice());
        assert(viewed(words@) == seq![
            "restore".spec_bytes(),
            "--staged".spec_bytes(),
            "--worktree".spec_bytes(),
            "--source=".spec_bytes() + hex_of(head_tree),
        ]);
        let line = one_command(&words, &list_paths(change));
        commands.push(line);
        assert(commands_view(commands@) == seq![viewed(line@)]);
        return commands;
    }
    let restore = two_words("restore".as_bytes(), "--worktree".as_bytes());
    if change.kind == ChangeKind::Added || change.kind == ChangeKind::Copied || change.kind
        == ChangeKind::Renamed {
        let words = if present {
            two_words("rm".as_bytes(), "--force".as_bytes())
        } else {
            two_words("clean".as_bytes(), "--force".as_bytes())
        };
        let remove = one_command(&words, &one_path(change.path.as_slice()));
        if change.kind == ChangeKind::Renamed {
            if let Some(source) = &change.source {
                let back = one_command(&restore, &one_path(source.as_slice()));
                commands.push(back);
                commands.push(remove);
                assert(commands_view(commands@) == seq![viewed(back@), viewed(remove@)]);
                return commands;
            }
        }
        commands.push(remove);
        assert(commands_view(commands@) == seq![viewed(remove@)]);
        return commands;
    }
    let line = one_command(&restore, &list_paths(change));
    commands.push(line);
    assert(commands_view(commands@) == seq![viewed(line@)]);
    commands
}

/// Plans to discard a change: the arguments of git, one command after the other. `current` are the changes
/// that there are now.
pub fn plan_discard(
    change: &PathChange<Vec<u8>>,
    current: &Vec<PathChange<Vec<u8>>>,
    index: &Vec<IndexPath<Vec<u8>>>,
    head_tree: ObjectId,
) -> (r: Result<Vec<Vec<Vec<u8>>>, DiscardError>)
    ensures
        ({
            let expected = discarding(change@, viewed(current@), viewed(index@), head_tree);
            match r {
                Ok(commands) => expected == Ok::<_, DiscardError>(commands_view(commands@)),
                Err(err) => expected == Err::<Seq<Seq<Seq<u8>>>, _>(err),
            }
        }),
{
    if !is_available(change, current) {
        return Err(DiscardError::Unavailable);
    }
    let (present, submodule) = look_up(index, change.path.as_slice());
    if submodule {
        return Err(DiscardError::Submodule);
    }
    if change.kind == ChangeKind::Renamed {
        if let Some(source) = &change.source {
            let (_, submodule) = look_up(index, source.as_slice());
            if submodule {
                return Err(DiscardError::Submodule);
            }
        }
    }
    Ok(write_commands(change, present, head_tree))
}

/// What git knows of files: what the index holds of a path, and what the worktree does.
pub struct Checkout {
    pub index: spec_fn(Seq<u8>) -> Option<ObjectId>,
    pub worktree: spec_fn(Seq<u8>) -> Option<ObjectId>,
}

/// What one command of git does to the index and the worktree, given what a tree holds: `restore` brings
/// paths back to the worktree from the index, or to both from a tree; `rm` takes paths that the index holds
/// from both; `clean` takes paths from the worktree that the index does not hold. `None` if git fails, or if
/// the command is another one.
pub open spec fn carried_out(
    before: Checkout,
    tree: ObjectId,
    contents: spec_fn(Seq<u8>) -> Option<ObjectId>,
    words: Seq<Seq<u8>>,
) -> Option<Checkout> {
    let literally = "--literal-pathspecs".spec_bytes();
    let end = "--".spec_bytes();
    if words.len() > 4 && words.take(4) == seq![
        literally,
        "restore".spec_bytes(),
        "--worktree".spec_bytes(),
        end,
    ] {
        Some(
            Checkout {
                index: before.index,
                worktree: |p: Seq<u8>|
                    if words.skip(4).contains(p) {
                        (before.index)(p)
                    } else {
                        (before.worktree)(p)
                    },
            },
        )
    } else if words.len() > 6 && words.take(6) == seq![
        literally,
        "restore".spec_bytes(),
        "--staged".spec_bytes(),
        "--worktree".spec_bytes(),
        "--source=".spec_bytes() + hex_of(tree),
        end,
    ] {
        Some(
            Checkout {
                index: |p: Seq<u8>|
                    if words.skip(6).contains(p) {
                        contents(p)
                    } else {
                        (before.index)(p)
                    },
                worktree: |p: Seq<u8>|
                    if words.skip(6).contains(p) {
                        contents(p)
                    } else {
                        (before.worktree)(p)
                    },
            },
        )
    } else if words.len() > 4 && words.take(4) == seq![
        literally,
        "rm".spec_bytes(),
        "--force".spec_bytes(),
        end,
    ] {
        if forall|p: Seq<u8>| words.skip(4).contains(p) ==> (#[trigger] (before.index)(p)) is Some {
            Some(
                Checkout {
                    index: |p: Seq<u8>|
                        if words.skip(4).contains(p) {
                            None
                        } else {
                            (before.index)(p)
                        },
                    worktree: |p: Seq<u8>|
                        if words.skip(4).contains(p) {
                            None
                        } else {
                            (before.worktree)(p)
                        },
                },
            )
        } else {
            None
        }
    } else if words.len() > 4 && words.take(4) == seq![
        literally,
        "clean".spec_bytes(),
        "--force".spec_bytes(),
        end,
    ] {
        Some(
            Checkout {
                index: before.index,
                worktree: |p: Seq<u8>|
                    if words.skip(4).contains(p) && (before.index)(p) is None {
                        None
                    } else {
                        (before.worktree)(p)
                    },
            },
        )
    } else {
        None
    }
}

/// What commands do one after the other.
pub open spec fn all_carried_out(
    before: Checkout,
    tree: ObjectId,
    contents: spec_fn(Seq<u8>) -> Option<ObjectId>,
    commands: Seq<Seq<Seq<u8>>>,
) -> Option<Checkout>
    decreases commands.len(),
{
    if commands.len() == 0 {
        Some(before)
    } else {
        match carried_out(before, tree, contents, commands[0]) {
            None => None,
            Some(next) => all_carried_out(next, tree, contents, commands.skip(1)),
        }
    }
}

proof fn words_differ()
    ensures
        "restore".spec_bytes() != "rm".spec_bytes(),
        "restore".spec_bytes() != "clean".spec_bytes(),
        "rm".spec_bytes() != "clean".spec_bytes(),
        "--worktree".spec_bytes() != "--staged".spec_bytes(),
{
    broadcast use vstd::string::is_ascii_spec_bytes;

    reveal_strlit("restore");
    assert(vstd::string::is_ascii("restore"));
    reveal_strlit("rm");
    assert(vstd::string::is_ascii("rm"));
    reveal_strlit("clean");
    assert(vstd::string::is_ascii("clean"));
    reveal_strlit("--worktree");
    assert(vstd::string::is_ascii("--worktree"));
    reveal_strlit("--staged");
    assert(vstd::string::is_ascii("--staged"));
    assert("restore".spec_bytes().len() == 7);
    assert("rm".spec_bytes().len() == 2);
    assert("clean".spec_bytes().len() == 5);
    assert("--worktree".spec_bytes().len() == 10);
    assert("--staged".spec_bytes().len() == 8);
}

proof fn restoring_brings_back(
    before: Checkout,
    tree: ObjectId,
    contents: spec_fn(Seq<u8>) -> Option<ObjectId>,
    paths: Seq<Seq<u8>>,
)
    requires
        paths.len() > 0,
    ensures
        ({
            let words = command(seq!["restore".spec_bytes(), "--worktree".spec_bytes()], paths);
            carried_out(before, tree, contents, words) matches Some(after) && after.index
                == before.index && forall|p: Seq<u8>| #[trigger]
                (after.worktree)(p) == if paths.contains(p) {
                    (before.index)(p)
                } else {
                    (before.worktree)(p)
                }
        }),
{
    let words = command(seq!["restore".spec_bytes(), "--worktree".spec_bytes()], paths);
    assert(words.take(4) == seq![
        "--literal-pathspecs".spec_bytes(),
        "restore".spec_bytes(),
        "--worktree".spec_bytes(),
        "--".spec_bytes(),
    ]);
    assert(words.skip(4) == paths);
}

proof fn removing_takes_away(
    before: Checkout,
    tree: ObjectId,
    contents: spec_fn(Seq<u8>) -> Option<ObjectId>,
    word: Seq<u8>,
    path: Seq<u8>,
)
    requires
        (before.index)(path) is Some ==> word == "rm".spec_bytes(),
        (before.index)(path) is None ==> word == "clean".spec_bytes(),
    ensures
        ({
            let words = command(seq![word, "--force".spec_bytes()], seq![path]);
            carried_out(before, tree, contents, words) matches Some(after) && forall|p: Seq<u8>|
                #![trigger (after.worktree)(p)]
                #![trigger (after.index)(p)]
                (after.worktree)(p) == (if p == path {
                    None
                } else {
                    (before.worktree)(p)
                }) && (after.index)(p) == (if p == path {
                    None
                } else {
                    (before.index)(p)
                })
        }),
{
    words_differ();
    let paths = seq![path];
    let words = command(seq![word, "--force".spec_bytes()], paths);
    let head = seq!["--literal-pathspecs".spec_bytes(), word, "--force".spec_bytes(), "--".spec_bytes()];
    assert(words.take(4) == head);
    assert(words.skip(4) == paths);
    assert(words.take(4)[1] == word);
    assert(words[1] == word);
    if words.len() > 6 {
        assert(words.take(6)[1] == word);
    }
    assert(paths[0] == path);
    assert(forall|p: Seq<u8>| #[trigger] paths.contains(p) <==> p == path);
}

proof fn resetting_brings_back(
    before: Checkout,
    tree: ObjectId,
    contents: spec_fn(Seq<u8>) -> Option<ObjectId>,
    paths: Seq<Seq<u8>>,
)
    requires
        paths.len() > 0,
    ensures
        ({
            let words = command(
                seq![
                    "restore".spec_bytes(),
                    "--staged".spec_bytes(),
                    "--worktree".spec_bytes(),
                    "--source=".spec_bytes() + hex_of(tree),
                ],
                paths,
            );
            carried_out(before, tree, contents, words) matches Some(after) && forall|p: Seq<u8>|
                #![trigger (after.worktree)(p)]
                #![trigger (after.index)(p)]
                (after.worktree)(p) == (if paths.contains(p) {
                    contents(p)
                } else {
                    (before.worktree)(p)
                }) && (after.index)(p) == (if paths.contains(p) {
                    contents(p)
                } else {
                    (before.index)(p)
                })
        }),
{
    words_differ();
    let words = command(
        seq![
            "restore".spec_bytes(),
            "--staged".spec_bytes(),
            "--worktree".spec_bytes(),
            "--source=".spec_bytes() + hex_of(tree),
        ],
        paths,
    );
    assert(words.take(6) == seq![
        "--literal-pathspecs".spec_bytes(),
        "restore".spec_bytes(),
        "--staged".spec_bytes(),
        "--worktree".spec_bytes(),
        "--source=".spec_bytes() + hex_of(tree),
        "--".spec_bytes(),
    ]);
    assert(words.skip(6) == paths);
    assert(words.take(4)[2] == "--staged".spec_bytes());
}

/// What discarding a change makes of a path.
pub open spec fn settled(
    change: PathChange<Seq<u8>>,
    contents: spec_fn(Seq<u8>) -> Option<ObjectId>,
    before: Checkout,
    after: Checkout,
    p: Seq<u8>,
) -> bool {
    let source = change.kind == ChangeKind::Renamed && change.source == Some(p);
    if p != change.path && !source {
        (after.index)(p) == (before.index)(p) && (after.worktree)(p) == (before.worktree)(p)
    } else if change.group == ChangeGroup::Staged || change.kind == ChangeKind::Unmerged {
        (after.index)(p) == contents(p) && (after.worktree)(p) == contents(p)
    } else if p == change.path && (change.kind == ChangeKind::Added || change.kind
        == ChangeKind::Copied || change.kind == ChangeKind::Renamed) {
        (after.index)(p) is None && (after.worktree)(p) is None
    } else {
        (after.index)(p) == (before.index)(p) && (after.worktree)(p) == (before.index)(p)
    }
}

/// What discarding a change does to files. A change of the index, and a conflict, leaves its paths in the
/// index and the worktree as the commit at HEAD has them. What was added, copied or renamed to goes from
/// both, and what it was renamed from is in the worktree as the index has it. Anything else, a deletion
/// among them, leaves the index as it is and the path in the worktree as the index has it. Other paths stay
/// as they are.
pub proof fn discarding_restores(
    change: PathChange<Seq<u8>>,
    current: Seq<PathChange<Seq<u8>>>,
    entries: Seq<IndexPath<Seq<u8>>>,
    head_tree: ObjectId,
    contents: spec_fn(Seq<u8>) -> Option<ObjectId>,
    before: Checkout,
)
    requires
        discarding(change, current, entries, head_tree) is Ok,
        in_index(entries, change.path) <==> (before.index)(change.path) is Some,
        change.kind == ChangeKind::Renamed ==> change.source != Some(change.path),
    ensures
        all_carried_out(
            before,
            head_tree,
            contents,
            discarding(change, current, entries, head_tree)->Ok_0,
        ) is Some,
        ({
            let after = all_carried_out(
                before,
                head_tree,
                contents,
                discarding(change, current, entries, head_tree)->Ok_0,
            )->Some_0;
            forall|p: Seq<u8>| #[trigger] settled(change, contents, before, after, p)
        }),
{
    let commands = discarding(change, current, entries, head_tree)->Ok_0;
    let paths = paths_of(change);
    let source = renamed_from(change);
    assert(paths.last() == change.path);
    assert(paths[paths.len() - 1] == change.path);
    assert forall|p: Seq<u8>| #[trigger] paths.contains(p) <==> p == change.path || source == Some(
        p,
    ) by {
        if source == Some(p) {
            assert(paths[0] == p);
        }
    }
    reveal_with_fuel(all_carried_out, 3);
    if change.group == ChangeGroup::Staged || change.kind == ChangeKind::Unmerged {
        resetting_brings_back(before, head_tree, contents, paths);
        assert(commands.skip(1) == Seq::<Seq<Seq<u8>>>::empty());
        let after = carried_out(before, head_tree, contents, commands[0])->Some_0;
        assert(all_carried_out(before, head_tree, contents, commands) == Some(after));
        assert forall|p: Seq<u8>| #[trigger] settled(change, contents, before, after, p) by {
            assert((after.worktree)(p) == if paths.contains(p) {
                contents(p)
            } else {
                (before.worktree)(p)
            });
        }
    } else if change.kind == ChangeKind::Added || change.kind == ChangeKind::Copied || change.kind
        == ChangeKind::Renamed {
        if let Some(source) = source {
            restoring_brings_back(before, head_tree, contents, seq![source]);
            let next = carried_out(before, head_tree, contents, commands[0])->Some_0;
            let word = if in_index(entries, change.path) {
                "rm".spec_bytes()
            } else {
                "clean".spec_bytes()
            };
            removing_takes_away(next, head_tree, contents, word, change.path);
            let sources = seq![source];
            assert(sources[0] == source);
            assert(forall|p: Seq<u8>| #[trigger] sources.contains(p) <==> p == source);
            assert(commands.skip(1)[0] == commands[1]);
            assert(commands.skip(1).skip(1) == Seq::<Seq<Seq<u8>>>::empty());
            let after = carried_out(next, head_tree, contents, commands[1])->Some_0;
            assert(all_carried_out(before, head_tree, contents, commands) == Some(after));
            assert forall|p: Seq<u8>| #[trigger] settled(change, contents, before, after, p) by {
                assert((after.worktree)(p) == if p == change.path {
                    None
                } else {
                    (next.worktree)(p)
                });
                assert((next.worktree)(p) == if sources.contains(p) {
                    (before.index)(p)
                } else {
                    (before.worktree)(p)
                });
            }
        } else {
            let word = if in_index(entries, change.path) {
                "rm".spec_bytes()
            } else {
                "clean".spec_bytes()
            };
            removing_takes_away(before, head_tree, contents, word, change.path);
            assert(commands.skip(1) == Seq::<Seq<Seq<u8>>>::empty());
            let after = carried_out(before, head_tree, contents, commands[0])->Some_0;
            assert(all_carried_out(before, head_tree, contents, commands) == Some(after));
            assert forall|p: Seq<u8>| #[trigger] settled(change, contents, before, after, p) by {
                assert((after.worktree)(p) == if p == change.path {
                    None
                } else {
                    (before.worktree)(p)
                });
            }
        }
    } else {
        restoring_brings_back(before, head_tree, contents, paths);
        assert(commands.skip(1) == Seq::<Seq<Seq<u8>>>::empty());
        let after = carried_out(before, head_tree, contents, commands[0])->Some_0;
        assert(all_carried_out(before, head_tree, contents, commands) == Some(after));
        assert forall|p: Seq<u8>| #[trigger] settled(change, contents, before, after, p) by {
            assert((after.worktree)(p) == if paths.contains(p) {
                (before.index)(p)
            } else {
                (before.worktree)(p)
            });
        }
    }
}

/// A change is discarded if and only if it is one of the index or the worktree, is still there, and neither
/// its path nor what that was renamed from is a submodule.
pub proof fn refused_discards(
    change: PathChange<Seq<u8>>,
    current: Seq<PathChange<Seq<u8>>>,
    entries: Seq<IndexPath<Seq<u8>>>,
    head_tree: ObjectId,
)
    ensures
        ({
            let found = discarding(change, current, entries, head_tree);
            let here = change.group != ChangeGroup::Tree && exists|i: int|
                0 <= i < current.len() && current[i] == change;
            let submodule = exists|i: int|
                0 <= i < entries.len() && (#[trigger] entries[i]).submodule && (entries[i].path
                    == change.path || (change.kind == ChangeKind::Renamed && change.source == Some(
                    entries[i].path,
                )));
            &&& found is Ok <==> here && !submodule
            &&& found == Err::<Seq<Seq<Seq<u8>>>, _>(DiscardError::Unavailable) <==> !here
        }),
{
}

} // verus!
