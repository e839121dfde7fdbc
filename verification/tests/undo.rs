use std::collections::BTreeMap;

use gix_tix::ids::ObjectId;
use gix_tix::names::FullName;
use gix_tix::refs::{Reference, State};
use gix_tix::undo::changes::{
    changes_from_edits, checked_edit, checked_edits, normalize_changes, reverse_all,
    rollback_edits, Change, PreviousValue, RefChange, RefEdit, RefLog, Target,
};
use gix_tix::undo::config::{encode_state, parse_config, parse_state, serialize_config};
use gix_tix::undo::queue::{
    load, parse_commit, read_queue_ref, retention_parents, validate_title, Objects, Stored,
    StoredObject, START_TITLE,
};
use gix_tix::undo::record::{
    clear, commit_message, entry_commit, is_queue_commit, publish, record, ref_chain_reaches_queue,
    start_commit, NewCommit, Recording,
};
use gix_tix::undo::steps::{empty_position, plan_redo, plan_undo, position, queue_update, Plan};
use gix_tix::undo::worktrees::{
    first_action, head_destination, next_action, projected_ref_state, resolve_state, transition,
    Action, Files,
};
use gix_tix::undo::{is_queue_ref, UndoError, CURSOR_REF, TIP_REF};

fn id(low: u32) -> ObjectId {
    ObjectId { high: 0, low }
}

fn name(text: &str) -> FullName {
    FullName::new(text.as_bytes()).unwrap()
}

fn change(text: &str, before: State<FullName>, after: State<FullName>) -> RefChange<FullName> {
    RefChange { name: name(text), before, after }
}

fn at(low: u32) -> State<FullName> {
    State::Object(id(low))
}

fn on(text: &str) -> State<FullName> {
    State::Symbolic(name(text))
}

/// References and objects in memory.
struct Repo {
    refs: BTreeMap<Vec<u8>, State<FullName>>,
    objects: Objects,
    next: u32,
}

impl Repo {
    fn new() -> Self {
        Repo { refs: BTreeMap::new(), objects: Vec::new(), next: 1000 }
    }

    fn write(&mut self, low: u32, commit: NewCommit) -> ObjectId {
        self.objects.push(StoredObject {
            id: id(low),
            object: Stored::Commit {
                empty_tree: true,
                message: commit.message,
                parents: commit.parents,
            },
        });
        id(low)
    }

    fn store(&mut self, commit: NewCommit) -> ObjectId {
        self.next += 1;
        self.write(self.next, commit)
    }

    fn commit(&mut self, low: u32) -> ObjectId {
        self.objects.push(StoredObject {
            id: id(low),
            object: Stored::Commit {
                empty_tree: false,
                message: b"title\n".to_vec(),
                parents: Vec::new(),
            },
        });
        id(low)
    }

    fn state(&self, text: &str) -> State<FullName> {
        match self.refs.get(text.as_bytes()) {
            Some(state) => state.copy(),
            None => State::Missing,
        }
    }

    fn edit(&mut self, edits: &[RefEdit<FullName>]) -> Result<(), ()> {
        let state = |target: &Target<FullName>| target.state();
        for edit in edits {
            let found = self.state(std::str::from_utf8(edit.name.as_bytes()).unwrap());
            let expected = match &edit.change {
                Change::Update { expected, .. } | Change::Delete { expected, .. } => expected,
            };
            let holds = match expected {
                PreviousValue::MustNotExist => found == State::Missing,
                PreviousValue::MustExistAndMatch(target) => found == state(target),
                _ => true,
            };
            if !holds {
                return Err(());
            }
        }
        for edit in edits {
            match &edit.change {
                Change::Update { new, .. } => {
                    self.refs.insert(edit.name.as_bytes().to_vec(), state(new));
                }
                Change::Delete { .. } => {
                    self.refs.remove(edit.name.as_bytes());
                }
            }
        }
        Ok(())
    }

    fn names(&self) -> Vec<FullName> {
        self.refs.keys().map(|name| FullName::new(name).unwrap()).collect()
    }

    fn set(&mut self, change: &RefChange<FullName>) {
        let edit = checked_edit(change).unwrap();
        self.edit(&[edit]).unwrap();
    }

    fn record(&mut self, title: &str, changes: Vec<RefChange<FullName>>) -> Option<ObjectId> {
        let (tip, cursor) = (self.state(TIP_REF), self.state(CURSOR_REF));
        match record(title, &changes, &self.names(), &self.objects, &tip, &cursor).unwrap() {
            Recording::Discard(edits) => {
                self.edit(&edits).unwrap();
                None
            }
            Recording::Unchanged => None,
            Recording::Entry { queue, changes } => {
                let predecessor = match queue {
                    Some((_, cursor)) => cursor,
                    None => {
                        let start = start_commit().unwrap();
                        self.store(start)
                    }
                };
                let entry = entry_commit(&self.objects, title, &changes, predecessor).unwrap();
                let entry = self.store(entry);
                self.edit(&publish(queue, entry).unwrap()).unwrap();
                Some(entry)
            }
        }
    }

    fn plan_undo(&self) -> Option<Plan> {
        plan_undo(&self.names(), &self.objects, &self.state(TIP_REF), &self.state(CURSOR_REF)).unwrap()
    }

    fn plan_redo(&self) -> Option<Plan> {
        plan_redo(&self.names(), &self.objects, &self.state(TIP_REF), &self.state(CURSOR_REF)).unwrap()
    }

    fn position(&self) -> (String, usize, usize) {
        let at =
            position(&self.names(), &self.objects, &self.state(TIP_REF), &self.state(CURSOR_REF)).unwrap();
        (String::from_utf8(at.title).unwrap(), at.undo, at.redo)
    }
}

#[test]
fn config_round_trip_is_lossless_and_strict() {
    let changes = vec![
        change("HEAD", on("refs/heads/main"), at(1)),
        change("refs/heads/new", State::Missing, at(1)),
    ];
    let config = serialize_config(&changes).unwrap();
    assert_eq!(
        parse_config(&config).unwrap(),
        changes,
        "all supported reference states round-trip"
    );
    assert_eq!(
        parse_config(b"[undo]\nversion = 1\nextra = nope\n"),
        Err(UndoError::UnexpectedKeys),
        "unknown metadata keys are rejected"
    );
    assert_eq!(
        parse_config(
            b"[undo]\nversion = 1\n[ref \"refs/heads/a\"]\nbefore = missing\nafter = missing\n"
        ),
        Err(UndoError::ChangesNothing),
        "no-op entries are rejected"
    );
}

#[test]
fn undo_and_redo_apply_checked_ref_and_cursor_edits() {
    let mut repo = Repo::new();
    let branch = "refs/heads/undo-test";
    let head = repo.commit(1);
    let created = || change(branch, State::Missing, State::Object(id(1)));
    repo.set(&created());
    let entry = repo.record("create branch", vec![created()]).expect("a change creates an entry");

    let parsed = repo.objects.iter().find(|object| object.id == entry).unwrap();
    match &parsed.object {
        Stored::Commit { parents, .. } => {
            assert_eq!(parents.len(), 2, "the prior queue entry and changed commit are retained");
            assert_eq!(parents[1], head, "the changed commit is a retention parent");
        }
        Stored::Other => panic!("the entry is a commit"),
    }
    assert_eq!(repo.position().1, 1, "the operation is initially applied");

    let undo = repo.plan_undo().expect("one operation can be undone");
    assert_eq!(undo.title, b"create branch");
    assert_eq!(undo.position.title, START_TITLE.as_bytes());
    repo.edit(&undo.edits).unwrap();
    assert_eq!(repo.state(branch), State::Missing, "undo deletes the created branch");
    assert_eq!(repo.position().2, 1, "the operation can be redone");

    let redo = repo.plan_redo().expect("one operation can be redone");
    assert_eq!(redo.position.title, b"create branch");
    repo.edit(&redo.edits).unwrap();
    assert_eq!(repo.state(branch), State::Object(head));
    assert!(repo.plan_redo().is_none(), "the tip has no redo operation");
}

#[test]
fn recording_behind_tip_truncates_redo_and_merges_changes() {
    let mut repo = Repo::new();
    let branch = "refs/heads/undo-test";
    for low in [1, 2, 3] {
        repo.commit(low);
    }
    repo.set(&change(branch, State::Missing, at(1)));
    repo.record("first", vec![change(branch, State::Missing, at(1))]);
    repo.set(&change(branch, at(1), at(2)));
    repo.record("discarded", vec![change(branch, at(1), at(2))]);
    let undo = repo.plan_undo().expect("second entry exists");
    repo.edit(&undo.edits).unwrap();

    repo.set(&change(branch, at(1), at(3)));
    repo.record(
        "replacement",
        vec![change(branch, at(1), at(2)), change(branch, at(2), at(3))],
    );
    assert_eq!(repo.position(), ("replacement".into(), 2, 0));
    assert!(repo.plan_redo().is_none(), "the old redo tail is no longer reachable");
}

#[test]
fn divergent_refs_fail_without_moving_the_cursor() {
    let mut repo = Repo::new();
    let branch = "refs/heads/undo-test";
    repo.commit(1);
    repo.commit(2);
    repo.set(&change(branch, State::Missing, at(1)));
    repo.record("create branch", vec![change(branch, State::Missing, at(1))]);
    let plan = repo.plan_undo().expect("the operation can be planned");
    repo.set(&change(branch, at(1), at(2)));
    assert!(repo.edit(&plan.edits).is_err(), "the stale reference CAS is rejected");
    assert_eq!(repo.position().1, 1, "the cursor remains at the applied operation");
}

#[test]
fn recording_accepts_a_ref_that_the_operation_deleted() {
    let mut repo = Repo::new();
    let branch = "refs/heads/undo-test";
    repo.commit(1);
    repo.set(&change(branch, State::Missing, at(1)));
    repo.set(&change(branch, at(1), State::Missing));
    repo.record("delete branch", vec![change(branch, at(1), State::Missing)])
        .expect("the deletion creates an entry");
    let undo = repo.plan_undo().expect("the deletion can be undone");
    repo.edit(&undo.edits).unwrap();
    assert_eq!(repo.state(branch), at(1), "undo recreates the deleted reference");
}

#[test]
fn an_active_review_blocks_and_discards_ref_only_undo_history() {
    let mut repo = Repo::new();
    repo.commit(1);
    let before_review = "refs/heads/before-review";
    repo.set(&change(before_review, State::Missing, at(1)));
    repo.record("before review", vec![change(before_review, State::Missing, at(1))]);

    repo.set(&change("refs/worktree/tix/review/1", State::Missing, at(9)));
    assert!(repo.plan_undo().is_none(), "review checkout state cannot be undone as refs alone");
    let empty = empty_position();
    assert_eq!(
        repo.position(),
        (String::from_utf8(empty.title).unwrap(), empty.undo, empty.redo),
        "the blocked queue is not presented as available"
    );
    assert_eq!(repo.position(), (START_TITLE.to_string(), 0, 0));

    let during_review = "refs/heads/during-review";
    repo.set(&change(during_review, State::Missing, at(1)));
    assert!(
        repo.record("during review", vec![change(during_review, State::Missing, at(1))]).is_none(),
        "operations during a review are deliberately not journalled"
    );
    assert_eq!(repo.state(TIP_REF), State::Missing, "the old queue tip is discarded");
    assert_eq!(
        repo.state(CURSOR_REF),
        State::Missing,
        "the old queue cursor is discarded atomically"
    );
}

#[test]
fn changes_are_normalized() {
    let changes = vec![
        change("refs/heads/b", at(1), at(2)),
        change("refs/heads/a", State::Missing, at(1)),
        change("refs/heads/b", at(2), at(3)),
        change("refs/heads/c", at(1), at(2)),
        change("refs/heads/c", at(2), at(1)),
    ];
    assert_eq!(
        normalize_changes(changes).unwrap(),
        vec![
            change("refs/heads/a", State::Missing, at(1)),
            change("refs/heads/b", at(1), at(3)),
        ],
        "in order, merged, and without what changes nothing"
    );
    assert_eq!(
        normalize_changes(vec![
            change("refs/heads/a", at(1), at(2)),
            change("refs/heads/a", at(3), at(4)),
        ]),
        Err(UndoError::NotContinuous)
    );
    assert_eq!(
        normalize_changes(vec![change(TIP_REF, at(1), at(2))]),
        Err(UndoError::RecordsItself)
    );
}

#[test]
fn reversed_changes_take_changes_back() {
    let changes = vec![
        change("refs/heads/a", State::Missing, at(1)),
        change("refs/heads/b", at(1), on("refs/heads/a")),
    ];
    let mut repo = Repo::new();
    repo.refs.insert(b"refs/heads/b".to_vec(), at(1));
    repo.edit(&checked_edits(&changes).unwrap()).unwrap();
    assert_eq!(repo.state("refs/heads/b"), on("refs/heads/a"));
    repo.edit(&rollback_edits(&changes).unwrap()).unwrap();
    assert_eq!(repo.state("refs/heads/a"), State::Missing);
    assert_eq!(repo.state("refs/heads/b"), at(1));
    assert_eq!(reverse_all(&reverse_all(&changes)), changes);
    assert_eq!(
        checked_edit(&change("refs/heads/a", State::Missing, State::Missing)),
        Err(UndoError::DeletesMissing)
    );
}

#[test]
fn edits_say_what_they_change() {
    let update = |expected, log| RefEdit {
        name: name("refs/heads/a"),
        change: Change::Update { expected, new: Target::Object(id(2)), log },
    };
    let exact = PreviousValue::MustExistAndMatch(Target::Object(id(1)));
    assert_eq!(
        changes_from_edits(&vec![update(exact, RefLog::AndReference)]).unwrap(),
        vec![change("refs/heads/a", at(1), at(2))]
    );
    assert_eq!(
        changes_from_edits(&vec![update(PreviousValue::Any, RefLog::Only)]).unwrap(),
        Vec::new()
    );
    assert_eq!(
        changes_from_edits(&vec![update(PreviousValue::Any, RefLog::AndReference)]),
        Err(UndoError::InexactPreviousValue)
    );
}

#[test]
fn states_are_encoded() {
    let hex = String::from_utf8(id(7).to_hex()).unwrap();
    for (state, text) in [
        (State::Missing, "missing".to_string()),
        (at(7), format!("object:{hex}")),
        (on("refs/heads/main"), "symbolic:refs/heads/main".to_string()),
    ] {
        assert_eq!(encode_state(&state), text.as_bytes());
        assert_eq!(parse_state(text.as_bytes()).unwrap(), state);
    }
    assert_eq!(parse_state(b"object:12"), Err(UndoError::InvalidObjectId));
    assert_eq!(parse_state(b"symbolic:no name"), Err(UndoError::InvalidSymbolicTarget));
    assert_eq!(parse_state(b"other"), Err(UndoError::UnknownEncoding));
}

#[test]
fn configurations_are_checked() {
    let fails = |text: &str| parse_config(text.as_bytes()).unwrap_err();
    assert_eq!(fails("[undo"), UndoError::MalformedConfig);
    assert_eq!(fails("[other]\nversion = 1\n"), UndoError::NoUndoSection);
    assert_eq!(fails("[undo]\nversion = 2\n"), UndoError::UnsupportedVersion);
    assert_eq!(fails("[undo]\nversion = 1\n[other \"a\"]\n"), UndoError::UnknownSection);
    let change = "before = missing\nafter = symbolic:refs/heads/main\n";
    assert_eq!(
        fails(&format!("[undo]\nversion = 1\n[ref]\n{change}")),
        UndoError::SectionWithoutName
    );
    assert_eq!(
        fails(&format!("[undo]\nversion = 1\n[ref \"no name\"]\n{change}")),
        UndoError::InvalidName
    );
    assert_eq!(
        fails(&format!(
            "[undo]\nversion = 1\n[ref \"refs/heads/b\"]\n{change}[ref \"refs/heads/a\"]\n{change}"
        )),
        UndoError::SectionsOutOfOrder
    );
    assert_eq!(
        fails("[undo]\nversion = 1\n[ref \"refs/heads/a\"]\nafter = missing\n"),
        UndoError::UnexpectedKeys
    );
}

#[test]
fn titles_are_one_line() {
    assert_eq!(validate_title("a title"), Ok(()));
    assert_eq!(validate_title(""), Err(UndoError::EmptyTitle));
    assert_eq!(validate_title("two\nlines"), Err(UndoError::TitleNotOneLine));
    assert_eq!(validate_title("two\rlines"), Err(UndoError::TitleNotOneLine));
}

#[test]
fn commits_of_the_queue_are_checked() {
    let mut repo = Repo::new();
    repo.commit(1);
    assert_eq!(parse_commit(&repo.objects, id(9)).map(|_| ()), Err(UndoError::CommitNotFound));
    assert_eq!(parse_commit(&repo.objects, id(1)).map(|_| ()), Err(UndoError::NotEmptyTree));
    let config = serialize_config(&vec![change("refs/heads/a", State::Missing, at(1))]).unwrap();
    let message = |title: &str, body: &[u8]| [title.as_bytes(), b"\n\n", body].concat();
    let mut fails = |low: u32, message: Vec<u8>, parents: Vec<ObjectId>| {
        repo.write(low, NewCommit { message, parents });
        parse_commit(&repo.objects, id(low)).map(|_| ()).unwrap_err()
    };
    assert_eq!(fails(10, b"title\n".to_vec(), Vec::new()), UndoError::NoMetadata);
    assert_eq!(fails(11, message("\u{e9}", b"x")[1..].to_vec(), Vec::new()), UndoError::TitleNotUtf8);
    assert_eq!(
        fails(12, message("other", b"[undo]\nversion = 1\n"), Vec::new()),
        UndoError::WrongStartTitle
    );
    assert_eq!(fails(13, message(START_TITLE, &config), Vec::new()), UndoError::StartHasChanges);
    assert_eq!(
        fails(14, message("title", b"[undo]\nversion = 1\n"), vec![id(13)]),
        UndoError::NoChanges
    );
    assert_eq!(
        fails(15, message("title", &config), vec![id(13)]),
        UndoError::InvalidRetention
    );
    assert_eq!(
        retention_parents(
            &repo.objects,
            id(13),
            &vec![change("refs/heads/a", State::Missing, at(1)), change("refs/heads/b", at(1), at(1))]
        ),
        Ok(vec![id(13), id(1)]),
        "each commit is retained once"
    );
}

#[test]
fn operations_on_known_objects_are_recorded() {
    let mut repo = Repo::new();
    repo.commit(1);
    repo.commit(2);
    let first = repo.record("first", vec![change("refs/heads/a", State::Missing, at(1))]).unwrap();
    let changes = vec![
        change("refs/heads/a", at(1), at(2)),
        change("refs/heads/b", State::Missing, at(2)),
    ];
    let second = repo.record("second", changes).unwrap();
    assert_eq!(repo.state(TIP_REF), State::Object(second));
    assert_eq!(repo.state(CURSOR_REF), State::Object(second));
    assert_eq!(repo.position(), ("second".to_string(), 2, 0));
    let stored = repo.objects.iter().find(|object| object.id == second).unwrap();
    match &stored.object {
        Stored::Commit { parents, .. } => {
            assert_eq!(parents, &vec![first, id(1), id(2)], "each commit is a parent once")
        }
        Stored::Other => panic!("an entry is a commit"),
    }
}

#[test]
fn entries_are_refused_for_their_title_or_unknown_objects() {
    let mut repo = Repo::new();
    repo.commit(1);
    let known = vec![change("refs/heads/a", State::Missing, at(1))];
    let unknown = vec![change("refs/heads/a", State::Missing, at(9))];
    let entry = |title: &str, changes| entry_commit(&repo.objects, title, changes, id(1));
    assert_eq!(entry("", &known), Err(UndoError::EmptyTitle));
    assert_eq!(entry("two\nlines", &known), Err(UndoError::TitleNotOneLine));
    assert_eq!(entry("title", &unknown), Err(UndoError::UnknownObject));
    let config = serialize_config(&known).unwrap();
    let commit = entry("title", &known).unwrap();
    assert_eq!(commit.message, commit_message("title", &config));
    assert_eq!(commit.message, [b"title\n\n".as_slice(), &config].concat());
    assert_eq!(commit.parents, vec![id(1)]);
}

#[test]
fn both_references_make_a_queue() {
    let mut repo = Repo::new();
    repo.commit(1);
    repo.set(&change("refs/heads/a", State::Missing, at(1)));
    let entry = repo.record("one", vec![change("refs/heads/a", State::Missing, at(1))]).unwrap();
    let tip = State::Object(entry);
    assert!(load(&repo.objects, &State::Missing, &State::Missing).unwrap().is_none());
    assert_eq!(
        load(&repo.objects, &tip, &State::Missing).map(|_| ()),
        Err(UndoError::OnlyOneReference)
    );
    assert_eq!(load(&repo.objects, &tip, &at(1)).map(|_| ()), Err(UndoError::CursorOffChain));
    assert_eq!(read_queue_ref(&on("refs/heads/a")), Err(UndoError::NotDirect));
    assert_eq!(read_queue_ref(&tip), Ok(Some(entry)));
    assert_eq!(read_queue_ref(&State::Missing), Ok(None));
    let queue = load(&repo.objects, &tip, &tip).unwrap().unwrap();
    assert_eq!((queue.entries.len(), queue.cursor_index), (1, 1));
    assert!(is_queue_commit(&repo.objects, &tip, &tip, entry).unwrap());
    assert!(is_queue_commit(&repo.objects, &tip, &tip, queue.sentinel).unwrap());
    assert!(!is_queue_commit(&repo.objects, &tip, &tip, id(1)).unwrap());
    assert_eq!(clear(&tip, &tip).unwrap().len(), 2);
    assert!(clear(&State::Missing, &State::Missing).unwrap().is_empty());
    assert!(is_queue_ref(TIP_REF.as_bytes()) && is_queue_ref(CURSOR_REF.as_bytes()));
    assert!(!is_queue_ref(b"refs/heads/a"));
    let edit = queue_update(TIP_REF, None, entry).unwrap();
    assert_eq!(edit.name, name(TIP_REF));
}

#[test]
fn changes_that_cancel_each_other_out_are_not_recorded() {
    let mut repo = Repo::new();
    repo.commit(1);
    assert_eq!(
        repo.record(
            "nothing",
            vec![
                change("refs/heads/a", State::Missing, at(1)),
                change("refs/heads/a", at(1), State::Missing),
            ]
        ),
        None
    );
    assert_eq!(repo.state(TIP_REF), State::Missing);
}

#[test]
fn references_that_lead_to_the_queue_are_found() {
    let references = vec![
        Reference { name: name("refs/heads/a"), state: on("refs/heads/b") },
        Reference { name: name("refs/heads/b"), state: on(TIP_REF) },
        Reference { name: name("refs/heads/c"), state: at(1) },
        Reference { name: name("refs/heads/d"), state: on("refs/heads/d") },
    ];
    assert_eq!(ref_chain_reaches_queue(&references, &name("refs/heads/a")), Ok(true));
    assert_eq!(ref_chain_reaches_queue(&references, &name("refs/heads/c")), Ok(false));
    assert_eq!(
        ref_chain_reaches_queue(&references, &name("refs/heads/d")),
        Err(UndoError::CyclicReference)
    );
}

#[test]
fn worktrees_follow_their_branch() {
    let references = vec![
        Reference { name: name("refs/heads/main"), state: at(1) },
        Reference { name: name("refs/heads/other"), state: at(5) },
    ];
    let changes = vec![change("refs/heads/main", at(1), at(2))];
    let head = on("refs/heads/main");
    assert_eq!(
        head_destination(&references, &name("HEAD"), &head, &changes, true),
        Ok(Some(id(2)))
    );
    assert_eq!(resolve_state(&references, &on("refs/heads/other"), &changes, true), Ok(Some(id(5))));
    let moved = vec![change("HEAD", head.copy(), at(3))];
    assert_eq!(
        head_destination(&references, &name("HEAD"), &head, &moved, true),
        Ok(Some(id(3)))
    );
    assert_eq!(
        head_destination(&references, &name("HEAD"), &head, &moved, false),
        Ok(Some(id(1))),
        "the HEAD of another worktree stays"
    );
    assert_eq!(
        projected_ref_state(&references, &name("HEAD"), &head, &moved, false),
        on("refs/heads/main")
    );
    let gone = vec![change("HEAD", head.copy(), State::Missing)];
    assert_eq!(
        head_destination(&references, &name("HEAD"), &head, &gone, true),
        Err(UndoError::DeletesHead)
    );
    assert_eq!(transition(Files::Present, id(1), id(1)), Ok(false));
    assert_eq!(transition(Files::Present, id(1), id(2)), Ok(true));
    assert_eq!(transition(Files::Bare, id(1), id(2)), Ok(false));
    assert_eq!(
        transition(Files::Inaccessible, id(1), id(2)),
        Err(UndoError::InaccessibleWorktree)
    );
}

#[test]
fn worktrees_change_before_references_and_back_if_they_fail() {
    let run = |worktrees: usize, fails_at: Option<Action>| {
        let mut action = first_action(worktrees);
        let mut seen = Vec::new();
        while action != Action::Done && action != Action::Failed {
            seen.push(action);
            action = next_action(action, worktrees, Some(action) != fails_at);
        }
        (seen, action)
    };
    assert_eq!(
        run(2, None),
        (
            vec![
                Action::Preflight(0),
                Action::Preflight(1),
                Action::Apply(0),
                Action::Apply(1),
                Action::EditReferences,
            ],
            Action::Done
        )
    );
    let (seen, end) = run(2, Some(Action::EditReferences));
    assert_eq!(end, Action::Failed);
    assert!(seen.contains(&Action::Rollback(0)) && seen.contains(&Action::Rollback(1)));
    let (seen, end) = run(2, Some(Action::Apply(1)));
    assert_eq!(end, Action::Failed);
    assert!(
        seen.ends_with(&[Action::Apply(1), Action::Rollback(1), Action::Rollback(0)]),
        "the worktree that failed may have changed in part"
    );
    let (seen, end) = run(2, Some(Action::Preflight(1)));
    assert_eq!((seen.len(), end), (2, Action::Failed));
    assert_eq!(run(0, None), (vec![Action::EditReferences], Action::Done));
}

/// Where HEAD of a worktree leads, before and after a step through the queue.
fn destinations(repo: &Repo, plan: &Plan, current: bool) -> (Option<ObjectId>, Option<ObjectId>) {
    let references: Vec<_> = repo
        .refs
        .iter()
        .filter(|(known, _)| known.as_slice() != b"HEAD")
        .map(|(known, state)| Reference {
            name: FullName::new(known).unwrap(),
            state: state.copy(),
        })
        .collect();
    let head = repo.state("HEAD");
    let none = Vec::new();
    (
        resolve_state(&references, &head, &none, current).unwrap(),
        head_destination(&references, &name("HEAD"), &head, &plan.changes, current).unwrap(),
    )
}

#[test]
fn attached_branch_checkout_follows_undo_and_redo() {
    let (parent, top, branch) = (1, 2, "refs/heads/main");
    let mut repo = Repo::new();
    repo.commit(parent);
    repo.commit(top);
    repo.set(&change("HEAD", State::Missing, on(branch)));
    repo.set(&change(branch, State::Missing, at(top)));
    repo.record("restore tip", vec![change(branch, at(parent), at(top))]);

    let undo = repo.plan_undo().expect("the tip operation can be undone");
    assert_eq!(
        destinations(&repo, &undo, true),
        (Some(id(top)), Some(id(parent))),
        "the index follows the undo destination"
    );
    repo.edit(&undo.edits).unwrap();
    assert_eq!(repo.state("HEAD"), on(branch));
    assert_eq!(repo.state(branch), at(parent));

    let redo = repo.plan_redo().expect("the tip operation can be redone");
    assert_eq!(destinations(&repo, &redo, true), (Some(id(parent)), Some(id(top))));
    repo.edit(&redo.edits).unwrap();
    assert_eq!(repo.state(branch), at(top));
}

#[test]
fn linked_worktree_head_checkout_follows_undo_and_redo() {
    let (parent, top, branch) = (1, 2, "refs/heads/linked");
    let mut repo = Repo::new();
    repo.commit(parent);
    repo.commit(top);
    repo.set(&change(branch, State::Missing, at(top)));
    repo.set(&change("HEAD", State::Missing, at(parent)));
    repo.record("detach linked worktree", vec![change("HEAD", on(branch), at(parent))]);

    let undo = repo.plan_undo().expect("the linked checkout can be undone");
    assert_eq!(
        destinations(&repo, &undo, true),
        (Some(id(parent)), Some(id(top))),
        "the linked worktree follows the undo destination"
    );
    assert_eq!(
        destinations(&repo, &undo, false),
        (Some(id(parent)), Some(id(parent))),
        "other worktrees stay"
    );
    repo.edit(&undo.edits).unwrap();
    assert_eq!(repo.state("HEAD"), on(branch), "undo restores the attached HEAD");

    let redo = repo.plan_redo().expect("the linked checkout can be redone");
    assert_eq!(
        destinations(&repo, &redo, true),
        (Some(id(top)), Some(id(parent))),
        "the linked worktree follows the redo destination"
    );
    repo.edit(&redo.edits).unwrap();
    assert_eq!(repo.state("HEAD"), at(parent), "redo restores the detached HEAD");
}

#[test]
fn creation_and_checkout_share_one_undo_step() {
    let (a, merge, branch) = (1, 2, "refs/heads/A");
    let pin = "refs/worktree/tix/pins/HEAD";
    let mut repo = Repo::new();
    repo.commit(a);
    repo.commit(merge);
    repo.set(&change("HEAD", State::Missing, on(branch)));
    repo.set(&change(branch, State::Missing, at(a)));
    let changes = || {
        vec![
            change(pin, State::Missing, on(branch)),
            change("HEAD", on(branch), at(merge)),
        ]
    };
    for change in changes() {
        repo.set(&change);
    }
    repo.record("AutoMerge", changes()).expect("creation prepares a merge");
    assert_eq!(repo.position(), ("AutoMerge".into(), 1, 0));

    let undo = repo.plan_undo().expect("creation is undoable");
    assert_eq!(
        destinations(&repo, &undo, true),
        (Some(id(merge)), Some(id(a))),
        "undo restores the original tree"
    );
    repo.edit(&undo.edits).unwrap();
    assert_eq!(
        repo.state("HEAD"),
        on(branch),
        "undo restores the original attached checkout"
    );
    assert_eq!(repo.state(pin), State::Missing);
    assert!(repo.plan_undo().is_none(), "there is one step");

    let redo = repo.plan_redo().expect("creation is redoable");
    assert_eq!(destinations(&repo, &redo, true), (Some(id(a)), Some(id(merge))));
    repo.edit(&redo.edits).unwrap();
    assert_eq!(repo.state("HEAD"), at(merge));
}
