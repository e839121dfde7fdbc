use gix_tix::auto_merge::definition::Header;
use gix_tix::create::{
    check_parent, commit_from_edit, commit_with_message, document, prepare, CreateError, Head,
    Source, TreeSource as NewTree,
};
use gix_tix::discard::{plan_discard, DiscardError, IndexPath};
use gix_tix::head::{
    amend_index, perform, select_tree, tree_below, HeadCommit, HeadError, Index, Kind, Marking,
    Signature, TreeSource,
};
use gix_tix::ids::ObjectId;
use gix_tix::names::FullName;
use gix_tix::refs::{Reference, State};
use gix_tix::reword::actor::{Actor, Time};
use gix_tix::reword::document as documents;
use gix_tix::reword::RewordError;
use gix_tix::split::{check_split, note_change, pick_lower, pick_upper, Pick, SplitError};
use gix_tix::trees::{
    has_conflicts, index_tree, path_from_tree, spill_paths, worktree_tree, ChangeGroup, ChangeKind,
    Entry, EntryKind, IndexEntry, PathChange, TreeEdit, TreeError,
};
use gix_tix::view::{edited_document, revisions, Tip};

fn id(low: u32) -> ObjectId {
    ObjectId { high: 0, low }
}

fn hex(low: u32) -> String {
    String::from_utf8(id(low).to_hex()).unwrap()
}

fn bytes(text: &str) -> Vec<u8> {
    text.as_bytes().to_vec()
}

fn name(text: &str) -> FullName {
    FullName::new(text.as_bytes()).unwrap()
}

fn change(path: &str, group: ChangeGroup, kind: ChangeKind) -> PathChange<Vec<u8>> {
    PathChange { path: bytes(path), source: None, group, kind }
}

fn renamed(source: &str, path: &str, group: ChangeGroup) -> PathChange<Vec<u8>> {
    PathChange { path: bytes(path), source: Some(bytes(source)), group, kind: ChangeKind::Renamed }
}

fn file(path: &str, low: u32) -> Entry<Vec<u8>> {
    Entry { path: bytes(path), kind: EntryKind::Blob, id: id(low) }
}

fn upsert(path: &str, low: u32) -> TreeEdit<Vec<u8>> {
    TreeEdit::Upsert(file(path, low))
}

fn remove(path: &str) -> TreeEdit<Vec<u8>> {
    TreeEdit::Remove(bytes(path))
}

fn indexed(path: &str, low: u32) -> IndexEntry<Vec<u8>> {
    IndexEntry { path: bytes(path), kind: Some(EntryKind::Blob), id: id(low), conflicted: false }
}

const COMMIT: HeadCommit = HeadCommit {
    tree: ObjectId { high: 0, low: 1 },
    pending: false,
    pending_below: false,
    review: false,
    generated: false,
};

fn index(tree: u32, only: bool) -> Index {
    Index { conflicted: false, tree: id(tree), only }
}

#[test]
fn amend_prefers_the_index_and_leaves_worktree_files_alone() {
    let source = |tree| select_tree(COMMIT, Kind::Amend, None, index(tree, false));
    assert_eq!(source(2), Ok(TreeSource::Index));
    assert_eq!(source(1), Ok(TreeSource::Worktree), "an index without changes is passed over");
    let replaced = perform(COMMIT, Kind::Amend, None, id(2), false).unwrap().unwrap();
    assert_eq!(replaced.tree, id(2));
    assert_eq!(replaced.signature, Signature::RedoIfNeeded);
    assert_eq!(replaced.marking, Marking::LeaveAsIsAndMark);
    assert_eq!(replaced.reset_paths, None);
    assert!(!replaced.finalizes);
    assert_eq!(perform(COMMIT, Kind::Amend, None, id(1), false), Ok(None), "nothing to amend");
}

#[test]
fn signed_worktree_amend_is_finalized_immediately() {
    assert_eq!(
        select_tree(COMMIT, Kind::Amend, None, index(1, false)),
        Ok(TreeSource::Worktree),
        "the worktree change amends HEAD"
    );
    let replaced = perform(COMMIT, Kind::Amend, None, id(2), false).unwrap().unwrap();
    assert_eq!(
        replaced.marking,
        Marking::LeaveAsIsAndMark,
        "the checked-out amended commit needs no later replay"
    );
    assert_eq!(
        replaced.signature,
        Signature::RedoIfNeeded,
        "the amended commit receives a valid configured signature"
    );
    assert_eq!(replaced.reset_paths, None, "the amended index is clean");
}

#[test]
fn index_only_amend_does_not_fall_back_to_worktree_changes() {
    assert_eq!(
        select_tree(COMMIT, Kind::Amend, None, index(1, true)),
        Ok(TreeSource::Index),
        "the worktree is not looked at"
    );
    assert_eq!(amend_index(COMMIT, index(1, true)), Ok(None), "the index has no changes");
    let replaced = amend_index(COMMIT, index(2, true)).unwrap().unwrap();
    assert_eq!(replaced.tree, id(2));
    let conflicted = Index { conflicted: true, tree: id(2), only: true };
    assert_eq!(amend_index(COMMIT, conflicted), Err(HeadError::IndexConflicts));
}

#[test]
fn index_only_amend_finalizes_a_pending_commit_even_when_its_tree_is_unchanged() {
    let pending = HeadCommit { pending: true, ..COMMIT };
    let replaced = amend_index(pending, index(1, true)).unwrap().unwrap();
    assert_eq!(replaced.tree, id(1));
    assert!(replaced.finalizes);
    assert_eq!(replaced.signature, Signature::RedoIfNeeded);
}

#[test]
fn ordinary_amend_rejects_a_pending_head_outside_conflict_resolution() {
    let pending = HeadCommit { pending: true, ..COMMIT };
    for tree in [1, 2] {
        assert_eq!(
            perform(pending, Kind::Amend, None, id(tree), false),
            Err(HeadError::Pending),
            "an ordinary amend must not resolve an arbitrary pending HEAD"
        );
    }
    let resolved = perform(pending, Kind::Amend, None, id(2), true).unwrap().unwrap();
    assert!(resolved.finalizes, "resolving the conflict completes the rebase");
    let spilled = perform(pending, Kind::Spill, None, id(2), false).unwrap().unwrap();
    assert!(!spilled.finalizes);
}

#[test]
fn amend_rejects_an_unmarked_head_above_pending_ancestry() {
    let above = HeadCommit { pending_below: true, ..COMMIT };
    assert_eq!(
        perform(above, Kind::Amend, None, id(2), false),
        Err(HeadError::Pending),
        "amend must not preserve pending checkout ancestry"
    );
    assert_eq!(
        perform(above, Kind::Amend, None, id(1), false),
        Ok(None),
        "without a change there is nothing to refuse"
    );
}

#[test]
fn review_amend_does_not_cross_its_boundary_when_checking_pending_ancestry() {
    let review = HeadCommit { review: true, pending_below: true, ..COMMIT };
    assert_eq!(
        select_tree(review, Kind::Amend, None, index(2, false)),
        Ok(TreeSource::Index),
        "staged review changes amend HEAD"
    );
    let replaced = perform(review, Kind::Amend, None, id(2), false).unwrap().unwrap();
    assert_eq!(replaced.tree, id(2));
    assert_eq!(replaced.marking, Marking::LeaveAsIsAndMarkDescendants);
}

#[test]
fn index_only_review_amend_does_not_cross_its_pending_base() {
    let review = HeadCommit { review: true, pending_below: true, ..COMMIT };
    let replaced = amend_index(review, index(2, true)).unwrap().unwrap();
    assert_eq!(replaced.tree, id(2));
    assert_eq!(replaced.signature, Signature::Remove);
}

#[test]
fn reviews_amend_the_worktree_if_nothing_is_staged() {
    let review = HeadCommit { review: true, ..COMMIT };
    assert_eq!(
        select_tree(review, Kind::Amend, None, index(1, false)),
        Ok(TreeSource::Worktree),
        "the reviewed patch is in the worktree"
    );
    assert_eq!(select_tree(review, Kind::Amend, None, index(2, false)), Ok(TreeSource::Index));
    assert_eq!(select_tree(review, Kind::Amend, None, index(1, true)), Ok(TreeSource::Index));
    let paths = vec![change("a", ChangeGroup::Unstaged, ChangeKind::Modified)];
    assert_eq!(
        select_tree(review, Kind::Amend, Some(&paths), index(1, false)),
        Err(HeadError::ReviewNeedsStaged)
    );
    let replaced = perform(review, Kind::Amend, None, id(2), false).unwrap().unwrap();
    assert_eq!(replaced.signature, Signature::Remove);
    assert_eq!(replaced.marking, Marking::LeaveAsIsAndMarkDescendants);
}

#[test]
fn generated_commits_cannot_be_amended() {
    let generated = HeadCommit { generated: true, ..COMMIT };
    assert_eq!(
        select_tree(generated, Kind::Amend, None, index(2, false)),
        Err(HeadError::Generated)
    );
    for tree in [1, 2] {
        assert_eq!(
            perform(generated, Kind::Amend, None, id(tree), true),
            Err(HeadError::Generated)
        );
    }
    assert_eq!(amend_index(generated, index(2, true)), Err(HeadError::Generated));
}

#[test]
fn amending_one_worktree_path_preserves_unrelated_staging() {
    let chosen = |group| {
        let paths = vec![change("a", group, ChangeKind::Modified)];
        select_tree(COMMIT, Kind::Amend, Some(&paths), index(2, false))
    };
    assert_eq!(chosen(ChangeGroup::Unstaged), Ok(TreeSource::WorktreePath));
    assert_eq!(chosen(ChangeGroup::Staged), Ok(TreeSource::StagedPath));
    assert_eq!(chosen(ChangeGroup::Tree), Err(HeadError::TreeChange));
    assert_eq!(
        select_tree(COMMIT, Kind::Amend, Some(&Vec::new()), index(2, false)),
        Err(HeadError::NotOnePath)
    );
    let path = renamed("old", "new", ChangeGroup::Staged);
    let replaced = perform(COMMIT, Kind::Amend, Some(&path), id(2), true).unwrap().unwrap();
    assert_eq!(replaced.reset_paths, Some(vec![bytes("new"), bytes("old")]));
    assert!(replaced.finalizes);
    let path = change("a", ChangeGroup::Staged, ChangeKind::Modified);
    let replaced = perform(COMMIT, Kind::Amend, Some(&path), id(2), false).unwrap().unwrap();
    assert_eq!(replaced.reset_paths, Some(vec![bytes("a")]));
}

#[test]
fn spill_moves_the_tip_tree_change_to_the_worktree() {
    let conflicted = Index { conflicted: true, tree: id(2), only: false };
    assert_eq!(select_tree(COMMIT, Kind::Spill, None, conflicted), Ok(TreeSource::Parent));
    assert_eq!(
        select_tree(COMMIT, Kind::Spill, Some(&Vec::new()), conflicted),
        Ok(TreeSource::Spilled)
    );
    let replaced = perform(COMMIT, Kind::Spill, None, id(0), true).unwrap().unwrap();
    assert_eq!(replaced.signature, Signature::InvalidateExisting);
    assert!(!replaced.finalizes);
}

#[test]
fn spilling_one_path_keeps_the_other_commit_changes() {
    let parent = vec![file("changed", 1), file("gone", 2), file("old", 3)];
    let spill = |change| spill_paths(&vec![change], &parent);
    assert_eq!(
        spill(change("added", ChangeGroup::Tree, ChangeKind::Added)),
        Ok(vec![remove("added")])
    );
    assert_eq!(
        spill(change("changed", ChangeGroup::Tree, ChangeKind::Modified)),
        Ok(vec![upsert("changed", 1)])
    );
    assert_eq!(
        spill(change("gone", ChangeGroup::Tree, ChangeKind::Deleted)),
        Ok(vec![upsert("gone", 2)])
    );
    assert_eq!(
        spill(renamed("old", "new", ChangeGroup::Tree)),
        Ok(vec![remove("new"), upsert("old", 3)])
    );
    assert_eq!(
        spill(PathChange { kind: ChangeKind::Copied, ..renamed("old", "new", ChangeGroup::Tree) }),
        Ok(vec![remove("new")])
    );
    assert_eq!(
        spill(change("new", ChangeGroup::Tree, ChangeKind::Renamed)),
        Err(TreeError::NoSource)
    );
    assert_eq!(
        spill(change("absent", ChangeGroup::Tree, ChangeKind::TypeChanged)),
        Err(TreeError::AbsentPath)
    );
    assert_eq!(
        spill(change("a", ChangeGroup::Tree, ChangeKind::Unmerged)),
        Err(TreeError::Unmerged)
    );
    assert_eq!(
        spill_paths(
            &vec![
                change("added", ChangeGroup::Tree, ChangeKind::Added),
                change("changed", ChangeGroup::Tree, ChangeKind::Modified),
            ],
            &parent
        ),
        Ok(vec![remove("added"), upsert("changed", 1)])
    );
}

#[test]
fn staged_paths_come_from_the_index_tree() {
    let index = vec![file("new", 4), file("other", 5)];
    assert_eq!(
        path_from_tree(&renamed("old", "new", ChangeGroup::Staged), &index),
        Ok(vec![remove("old"), upsert("new", 4)])
    );
    assert_eq!(
        path_from_tree(&change("other", ChangeGroup::Staged, ChangeKind::Deleted), &index),
        Ok(vec![remove("other")])
    );
    assert_eq!(
        path_from_tree(&change("absent", ChangeGroup::Staged, ChangeKind::Added), &index),
        Err(TreeError::AbsentPath)
    );
}

#[test]
fn indexes_become_trees() {
    let entries = vec![indexed("a", 1), indexed("b", 2)];
    assert_eq!(index_tree(&entries), Ok(vec![upsert("a", 1), upsert("b", 2)]));
    let invalid = vec![indexed("a", 1), IndexEntry { kind: None, ..indexed("b", 2) }];
    assert_eq!(index_tree(&invalid), Err(TreeError::InvalidMode));
    assert!(!has_conflicts(&entries));
    assert!(has_conflicts(&vec![IndexEntry { conflicted: true, ..indexed("a", 1) }]));
}

#[test]
fn implicit_new_commit_ignores_untracked_files() {
    let changes = vec![
        change("known", ChangeGroup::Unstaged, ChangeKind::Modified),
        change("untracked", ChangeGroup::Unstaged, ChangeKind::Added),
        renamed("old", "new", ChangeGroup::Unstaged),
        change("staged", ChangeGroup::Staged, ChangeKind::Modified),
        change("deleted", ChangeGroup::Unstaged, ChangeKind::Deleted),
        change("vanished", ChangeGroup::Unstaged, ChangeKind::Modified),
    ];
    let files = vec![file("known", 1), file("untracked", 2), file("new", 3), file("deleted", 4)];
    let index = vec![bytes("known"), bytes("old"), bytes("deleted"), bytes("vanished")];
    let all = worktree_tree(&changes, &files, None);
    assert_eq!(
        all,
        vec![
            upsert("known", 1),
            upsert("untracked", 2),
            remove("old"),
            upsert("new", 3),
            remove("deleted"),
            remove("vanished"),
        ]
    );
    let some = worktree_tree(&changes, &files, Some(&index));
    assert_eq!(
        some,
        vec![
            upsert("known", 1),
            remove("old"),
            upsert("new", 3),
            remove("deleted"),
            remove("vanished"),
        ]
    );
    assert!(worktree_tree(&Vec::new(), &files, None).is_empty());
}

const AT_PARENT: Head = Head { id: Some(ObjectId { high: 0, low: 7 }), unborn: false, on_branch: true };

#[test]
fn preparation_is_unobservable_and_staged_changes_win() {
    let source = |source, index_tree| {
        gix_tix::create::select_tree(Some(id(7)), AT_PARENT, false, source, id(1), id(index_tree))
    };
    assert_eq!(source(Source::Default, 2), NewTree::Index);
    assert_eq!(source(Source::Default, 1), NewTree::WorktreeOfIndex);
    assert_eq!(source(Source::Index, 1), NewTree::Index);
    assert_eq!(source(Source::Worktree, 2), NewTree::WorktreeOfIndex);
    assert_eq!(source(Source::WorktreeUntracked, 2), NewTree::Worktree);
}

#[test]
fn explicit_empty_commit_preserves_index_and_worktree_changes() {
    assert_eq!(
        gix_tix::create::select_tree(
            Some(id(7)),
            AT_PARENT,
            true,
            Source::WorktreeUntracked,
            id(1),
            id(2)
        ),
        NewTree::Baseline
    );
    let prepared = prepare(Some(id(7)), id(1), id(1), true);
    assert!(prepared.is_empty);
    assert!(!prepared.reset_index, "the index keeps its changes");
    let prepared = prepare(Some(id(7)), id(2), id(1), false);
    assert!(!prepared.is_empty && prepared.reset_index);
    assert_eq!((prepared.parent, prepared.tree), (Some(id(7)), id(2)));
}

#[test]
fn an_unrelated_worktree_head_is_not_checked_out_or_moved() {
    assert_eq!(
        gix_tix::create::select_tree(
            Some(id(8)),
            AT_PARENT,
            false,
            Source::Default,
            id(1),
            id(2)
        ),
        NewTree::Baseline,
        "the index belongs to another commit"
    );
}

#[test]
fn root_commits_need_an_unborn_branch() {
    let unborn = Head { id: None, unborn: true, on_branch: true };
    assert_eq!(check_parent(None, unborn, false), Ok(()));
    assert_eq!(check_parent(None, AT_PARENT, false), Err(CreateError::NotUnborn));
    let off_branch = Head { on_branch: false, ..unborn };
    assert_eq!(check_parent(None, off_branch, false), Err(CreateError::UnbornOffBranch));
    assert_eq!(check_parent(Some(id(7)), AT_PARENT, true), Err(CreateError::IndexConflicts));
    assert_eq!(check_parent(Some(id(7)), AT_PARENT, false), Ok(()));
}

fn signed(name: &str) -> documents::Signature<Vec<u8>> {
    documents::Signature {
        actor: Actor { name: bytes(name), email: bytes(&format!("{name}@example.com")) },
        time: Time { seconds: 978_307_200, offset: 0 },
    }
}

#[test]
fn new_documents_propose_a_message() {
    let lines = vec![bytes("A file"), bytes("1 file changed")];
    let text = document(&signed("author"), &signed("committer"), true, None, None, &lines).unwrap();
    let expected = "Author: author <author@example.com>\n\
                    AuthorDate: 2001-01-01 00:00:00 +0000\n\
                    Committer: committer <committer@example.com>\n\
                    CommitterDate: 2001-01-01 00:00:00 +0000\n\
                    CommentChar: ;\n\
                    Todo\n\
                    ;Message:\n\
                    \n\
                    what\n\
                    \n\
                    why\n\
                    \n\
                    ;Assisted-by: GPT 5.6\n\
                    ;Co-authored-by: GPT 5.6 <codex@openai.com>\n\
                    ; tix.trailer.assistedBy is unset; using the built-in default.\n\
                    ; tix.trailer.coAuthoredBy is unset; using the built-in default.\n\
                    \n\
                    ; Changes to be committed:\n\
                    ; A file\n\
                    ; 1 file changed\n";
    assert_eq!(String::from_utf8(text.clone()).unwrap(), expected);

    let commit = commit_from_edit(&text).unwrap();
    assert_eq!(commit.message, b"what\n\nwhy\n");
    assert_eq!(commit.author, signed("author"));
    assert_eq!(commit.committer, signed("committer"));
    assert!(commit.enrichment.todo);
    let said = commit_with_message(&text, b"said\n\n").unwrap();
    assert_eq!(said.message, b"said\n");
    assert_eq!(said.author, signed("author"));
    assert_eq!(
        commit_with_message(&text, b"\n").map(|_| ()).unwrap_err(),
        RewordError::EmptyMessage
    );
    let nobody = expected.replacen("author <author@example.com>", "nobody", 1);
    assert_eq!(
        commit_from_edit(nobody.as_bytes()).map(|_| ()).unwrap_err(),
        RewordError::InvalidActor
    );
    let nobody = expected.replacen("committer <committer@example.com>", "nobody <>", 1);
    assert_eq!(
        commit_from_edit(nobody.as_bytes()).map(|_| ()).unwrap_err(),
        RewordError::IncompleteActor
    );
}

#[test]
fn splits_staged_and_worktree_changes_without_touching_files_during_preparation() {
    let staged = || change("a", ChangeGroup::Staged, ChangeKind::Modified);
    let unstaged = || change("b", ChangeGroup::Unstaged, ChangeKind::Modified);
    assert_eq!(check_split(&vec![staged(), unstaged()], &Vec::new()), Ok(()));
    assert_eq!(check_split(&vec![staged()], &Vec::new()), Err(SplitError::NotBoth));
    assert_eq!(check_split(&vec![unstaged()], &Vec::new()), Err(SplitError::NotBoth));
    let conflict = change("c", ChangeGroup::Unstaged, ChangeKind::Unmerged);
    assert_eq!(
        check_split(&vec![staged(), unstaged(), conflict], &Vec::new()),
        Err(SplitError::Conflicts)
    );
    let generated = vec![Header {
        name: bytes(gix_tix::auto_merge::definition::HEADER),
        value: bytes("refs/heads/main"),
    }];
    assert_eq!(check_split(&vec![staged(), unstaged()], &generated), Err(SplitError::Generated));

    let (head, index, worktree, source) = (id(2), id(3), id(4), id(5));
    assert_eq!(
        pick_lower(head, index, worktree),
        Pick { base: index, ours: head, theirs: worktree },
        "the source takes the worktree changes"
    );
    assert_eq!(
        pick_upper(head, index, source),
        Pick { base: head, ours: source, theirs: index },
        "the upper commit takes the staged changes"
    );

    let mut changes = Vec::new();
    note_change(&mut changes, name("refs/tix/notes"), State::Missing, State::Missing);
    assert!(changes.is_empty());
    note_change(&mut changes, name("refs/tix/notes"), State::Missing, State::Object(id(1)));
    assert_eq!(changes.len(), 1);
    assert_eq!(changes[0].after, State::Object(id(1)));
}

fn commands(
    change: &PathChange<Vec<u8>>,
    index: &[(&str, bool)],
) -> Result<Vec<String>, DiscardError> {
    let index = index
        .iter()
        .map(|(path, submodule)| IndexPath {
            path: bytes(path),
            submodule: *submodule,
            found: true,
        })
        .collect();
    let current = vec![PathChange {
        path: change.path.clone(),
        source: change.source.clone(),
        group: change.group,
        kind: change.kind,
    }];
    Ok(plan_discard(change, &current, &index, id(9))?
        .iter()
        .map(|words| {
            words
                .iter()
                .map(|word| String::from_utf8_lossy(word).into_owned())
                .collect::<Vec<_>>()
                .join(" ")
        })
        .collect())
}

#[test]
fn discard_uses_the_selected_group_and_preserves_other_paths() {
    assert_eq!(
        commands(&change("tracked", ChangeGroup::Unstaged, ChangeKind::Modified), &[]),
        Ok(vec!["--literal-pathspecs restore --worktree -- tracked".into()])
    );
    assert_eq!(
        commands(&change("tracked", ChangeGroup::Staged, ChangeKind::Modified), &[]),
        Ok(vec![format!(
            "--literal-pathspecs restore --staged --worktree --source={} -- tracked",
            hex(9)
        )])
    );
}

#[test]
fn discard_removes_only_the_selected_addition() {
    let added = change("added[1]", ChangeGroup::Unstaged, ChangeKind::Added);
    assert_eq!(
        commands(&added, &[("added1", false)]),
        Ok(vec!["--literal-pathspecs clean --force -- added[1]".into()])
    );
    assert_eq!(
        commands(&added, &[("added[1]", false)]),
        Ok(vec!["--literal-pathspecs rm --force -- added[1]".into()]),
        "the index has it too"
    );
}

#[test]
fn paths_that_only_the_other_side_has_are_not_in_the_index() {
    let added = change("added", ChangeGroup::Unstaged, ChangeKind::Added);
    let current = vec![change("added", ChangeGroup::Unstaged, ChangeKind::Added)];
    for (found, word) in [(true, "rm"), (false, "clean")] {
        let index = vec![IndexPath { path: bytes("added"), submodule: false, found }];
        let planned = plan_discard(&added, &current, &index, id(9)).unwrap();
        assert_eq!(planned[0][1], bytes(word));
    }
}

#[test]
fn discard_restores_both_sides_of_a_staged_rename() {
    assert_eq!(
        commands(&renamed("old", "new", ChangeGroup::Staged), &[]),
        Ok(vec![format!(
            "--literal-pathspecs restore --staged --worktree --source={} -- old new",
            hex(9)
        )])
    );
    assert_eq!(
        commands(&renamed("old", "new", ChangeGroup::Unstaged), &[("old", false)]),
        Ok(vec![
            "--literal-pathspecs restore --worktree -- old".into(),
            "--literal-pathspecs clean --force -- new".into(),
        ])
    );
}

#[test]
fn discard_conflicts_restores_head_without_disturbing_other_staging() {
    assert_eq!(
        commands(&change("a", ChangeGroup::Unstaged, ChangeKind::Unmerged), &[]),
        Ok(vec![format!(
            "--literal-pathspecs restore --staged --worktree --source={} -- a",
            hex(9)
        )])
    );
}

#[test]
fn stale_selections_and_submodules_are_not_discarded() {
    let tree = change("a", ChangeGroup::Tree, ChangeKind::Modified);
    assert_eq!(commands(&tree, &[]), Err(DiscardError::Unavailable));
    let wanted = change("a", ChangeGroup::Unstaged, ChangeKind::Modified);
    let current = vec![change("a", ChangeGroup::Staged, ChangeKind::Modified)];
    assert_eq!(
        plan_discard(&wanted, &current, &Vec::new(), id(9)),
        Err(DiscardError::Unavailable)
    );
    assert_eq!(commands(&wanted, &[("a", true)]), Err(DiscardError::Submodule));
    assert_eq!(
        commands(&renamed("old", "new", ChangeGroup::Staged), &[("old", true)]),
        Err(DiscardError::Submodule)
    );
}

#[test]
fn discard_keeps_non_utf8_paths_lossless() {
    let odd = PathChange {
        path: b"bad-\xff".to_vec(),
        source: None,
        group: ChangeGroup::Unstaged,
        kind: ChangeKind::Modified,
    };
    let current = vec![PathChange {
        path: b"bad-\xff".to_vec(),
        source: None,
        group: ChangeGroup::Unstaged,
        kind: ChangeKind::Modified,
    }];
    let found = plan_discard(&odd, &current, &Vec::new(), id(9)).unwrap();
    assert_eq!(found[0].last().unwrap(), b"bad-\xff");
}

fn tip(text: &str, state: State<FullName>, commit: bool) -> Tip<FullName> {
    Tip { reference: Reference { name: name(text), state }, commit }
}

#[test]
fn edit_graph_ignores_refs_that_do_not_point_to_commits() {
    let tips = vec![
        tip("HEAD", State::Object(id(1)), true),
        tip("refs/heads/main", State::Object(id(1)), true),
        tip("refs/tags/tree", State::Object(id(2)), false),
        tip("refs/remotes/origin/HEAD", State::Symbolic(name("refs/heads/main")), true),
    ];
    assert_eq!(
        revisions(&tips, b"refs/worktree/tix/stashes/", false),
        vec![bytes("refs/heads/main")]
    );
    assert_eq!(
        revisions(&tips, b"refs/worktree/tix/stashes/", true),
        vec![bytes("refs/heads/main"), bytes("HEAD")]
    );
}

#[test]
fn edit_graph_ignores_undo_queue_retention_commits() {
    let tips = vec![
        tip("refs/heads/main", State::Object(id(1)), true),
        tip("refs/worktree/tix/undo", State::Object(id(2)), true),
        tip("refs/worktree/tix/undo-cursor", State::Object(id(2)), true),
        tip("refs/worktree/tix/stashes/1", State::Object(id(3)), true),
        tip("refs/worktree/tix/review/stashes/1", State::Object(id(4)), true),
        tip("refs/worktree/tix/pins/keep", State::Object(id(5)), true),
    ];
    assert_eq!(
        revisions(&tips, b"refs/worktree/tix/stashes/", false),
        vec![bytes("refs/heads/main"), bytes("refs/worktree/tix/pins/keep")]
    );
}

#[test]
fn documents_that_come_back_unchanged_are_no_edit() {
    assert_eq!(edited_document(b"text", bytes("text")), None);
    assert_eq!(edited_document(b"text", bytes("other")), Some(bytes("other")));
}

/// A tree by paths, and what edits make of it.
fn apply(tree: &[(&str, u32)], edits: &[TreeEdit<Vec<u8>>]) -> Vec<(String, u32)> {
    let mut out: Vec<(String, u32)> =
        tree.iter().map(|(path, low)| (path.to_string(), *low)).collect();
    for edit in edits {
        let path = match edit {
            TreeEdit::Remove(path) => path,
            TreeEdit::Upsert(entry) => &entry.path,
        };
        let path = String::from_utf8(path.clone()).unwrap();
        out.retain(|known| known.0 != path);
        if let TreeEdit::Upsert(entry) = edit {
            out.push((path, entry.id.low));
        }
    }
    out
}

#[test]
fn scoped_amend_synchronizes_changed_index_paths() {
    for (kind, path, source) in [
        (ChangeKind::Added, "added", None),
        (ChangeKind::Deleted, "tracked", None),
        (ChangeKind::Renamed, "renamed", Some("tracked")),
        (ChangeKind::Copied, "copied", Some("tracked")),
    ] {
        let selected = PathChange {
            path: bytes(path),
            source: source.map(bytes),
            group: ChangeGroup::Staged,
            kind,
        };
        let replaced = perform(COMMIT, Kind::Amend, Some(&selected), id(2), false).unwrap().unwrap();
        let reset = if kind == ChangeKind::Renamed {
            vec![bytes("renamed"), bytes("tracked")]
        } else {
            vec![bytes(path)]
        };
        assert_eq!(replaced.reset_paths, Some(reset), "no other path is reset");
        let index = vec![file("other", 3), file(path, 4)];
        let edits = path_from_tree(&selected, &index).unwrap();
        let tree = apply(&[("tracked", 1)], &edits);
        assert_eq!(
            tree.iter().any(|known| known.0 == path),
            kind != ChangeKind::Deleted,
            "the destination follows the selected change"
        );
        if kind == ChangeKind::Renamed {
            assert!(
                !tree.iter().any(|known| known.0 == "tracked"),
                "the renamed source is removed"
            );
        } else if kind == ChangeKind::Copied {
            assert!(
                tree.iter().any(|known| known.0 == "tracked"),
                "the copied source is retained"
            );
        }
        assert!(
            !tree.iter().any(|known| known.0 == "other"),
            "the unrelated addition remains staged"
        );
    }
}

#[test]
fn spilling_a_root_uses_the_empty_tree() {
    let empty = ObjectId::from_hex(b"4b825dc642cb6eb9a060e54bf8d69288fbee4904").unwrap();
    assert_eq!(
        select_tree(COMMIT, Kind::Spill, None, index(2, false)),
        Ok(TreeSource::Parent),
        "the parent of a root has the empty tree"
    );
    assert_eq!(tree_below(None, empty), empty);
    assert_eq!(tree_below(Some(id(1)), empty), id(1));
    let replaced = perform(COMMIT, Kind::Spill, None, empty, false).unwrap().unwrap();
    assert_eq!(replaced.tree, empty);
    let spilled = HeadCommit { tree: empty, ..COMMIT };
    assert_eq!(perform(spilled, Kind::Spill, None, empty, false), Ok(None));
}

#[test]
fn worktree_changes_supply_the_tree_when_the_index_is_unchanged() {
    let (baseline, worktree) = (id(1), id(2));
    assert_eq!(
        gix_tix::create::select_tree(
            Some(id(7)),
            AT_PARENT,
            false,
            Source::Default,
            baseline,
            baseline
        ),
        NewTree::WorktreeOfIndex
    );
    let changes = vec![change("tracked", ChangeGroup::Unstaged, ChangeKind::Modified)];
    let files = vec![file("tracked", 5)];
    let edits = worktree_tree(&changes, &files, Some(&vec![bytes("tracked")]));
    assert_eq!(
        apply(&[("tracked", 4)], &edits),
        vec![("tracked".into(), 5)],
        "worktree changes produce a new tree"
    );
    let prepared = prepare(Some(id(7)), worktree, baseline, false);
    assert_eq!(prepared.tree, worktree);
    assert!(
        prepared.reset_index,
        "checking out the commit updates the index to its worktree-derived tree"
    );
}

const UNBORN: Head = Head { id: None, unborn: true, on_branch: true };

#[test]
fn creates_an_empty_root_commit_for_an_unborn_head() {
    let empty = ObjectId::from_hex(b"4b825dc642cb6eb9a060e54bf8d69288fbee4904").unwrap();
    assert_eq!(check_parent(None, UNBORN, false), Ok(()));
    assert_eq!(
        gix_tix::create::select_tree(None, UNBORN, true, Source::Default, empty, empty),
        NewTree::Baseline,
        "no index or worktree changes reuse the empty tree"
    );
    let prepared = prepare(None, empty, empty, true);
    assert_eq!(prepared.parent, None, "the root has no parent");
    assert_eq!(prepared.tree, empty);
}

#[test]
fn creates_the_unborn_branch_above_an_existing_base() {
    let base = id(7);
    assert_eq!(check_parent(Some(base), UNBORN, false), Ok(()));
    assert_eq!(
        gix_tix::create::select_tree(Some(base), UNBORN, true, Source::Default, id(1), id(2)),
        NewTree::Baseline
    );
    let prepared = prepare(Some(base), id(1), id(1), true);
    assert_eq!(
        prepared.parent,
        Some(base),
        "the first commit is based on the selected hidden tip"
    );
}

#[test]
fn discard_supports_an_unborn_head() {
    let empty = ObjectId::from_hex(b"4b825dc642cb6eb9a060e54bf8d69288fbee4904").unwrap();
    let added = || change("added", ChangeGroup::Staged, ChangeKind::Added);
    let index = vec![IndexPath { path: bytes("added"), submodule: false, found: true }];
    let words: Vec<_> = [
        "--literal-pathspecs",
        "restore",
        "--staged",
        "--worktree",
        "--source=4b825dc642cb6eb9a060e54bf8d69288fbee4904",
        "--",
        "added",
    ]
    .iter()
    .map(|word| bytes(word))
    .collect();
    assert_eq!(plan_discard(&added(), &vec![added()], &index, empty), Ok(vec![words]));
}
