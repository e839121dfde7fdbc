//! Steps through the undo queue: where its cursor is, and how it moves.
use vstd::prelude::*;
use vstd::string::StringSliceAdditionalSpecFns;
use crate::bytes;
use crate::ids::ObjectId;
use crate::names::{plain_name, valid_name, FullName};
use crate::plan::{viewed, viewed_option, viewed_push};
use crate::refs::State;
use crate::undo::changes::{
    checked_edits, copy_changes, edits_of, reverse_all, reversed_all, Change, PreviousValue,
    RefChange, RefEdit, RefLog, Target,
};
use crate::undo::queue::{load, loaded, ObjectView, Objects, Queue, QueueView, START_TITLE};
use crate::undo::record::{review_blocks, review_blocks_undo};
use crate::undo::{UndoError, CURSOR_REF, TIP_REF};

verus! {

/// Where the cursor of the queue is: the title of the operation that was applied last, and how
/// many operations can be undone and redone.
#[derive(PartialEq, Eq, Debug)]
pub struct Position<T, I> {
    pub title: T,
    pub undo: I,
    pub redo: I,
}

impl View for Position<Vec<u8>, usize> {
    type V = Position<Seq<u8>, int>;

    open spec fn view(&self) -> Position<Seq<u8>, int> {
        Position { title: self.title@, undo: self.undo as int, redo: self.redo as int }
    }
}

/// The position where there is nothing to undo or to redo.
pub open spec fn nowhere() -> Position<Seq<u8>, int> {
    Position { title: START_TITLE.spec_bytes(), undo: 0, redo: 0 }
}

/// The position where there is nothing to undo or to redo.
pub fn empty_position() -> (r: Position<Vec<u8>, usize>)
    ensures
        r@ == nowhere(),
{
    Position { title: bytes::copied(START_TITLE.as_bytes()), undo: 0, redo: 0 }
}

impl QueueView {
    /// The position with the given number of entries applied.
    pub open spec fn position(self, cursor_index: int) -> Position<Seq<u8>, int> {
        Position {
            title: if 0 < cursor_index <= self.entries.len() {
                self.entries[cursor_index - 1].title
            } else {
                START_TITLE.spec_bytes()
            },
            undo: cursor_index,
            redo: self.entries.len() - cursor_index,
        }
    }

    /// The commit of the queue that the cursor is on with the given number of entries applied.
    pub open spec fn commit_at(self, cursor_index: int) -> ObjectId {
        if cursor_index == 0 {
            self.sentinel
        } else {
            self.entries[cursor_index - 1].id
        }
    }
}

impl Queue {
    /// The position with the given number of entries applied.
    pub fn position(&self, cursor_index: usize) -> (r: Position<Vec<u8>, usize>)
        requires
            cursor_index <= self.entries@.len(),
        ensures
            r@ == self@.position(cursor_index as int),
    {
        let title = if cursor_index > 0 {
            bytes::copied(self.entries[cursor_index - 1].title.as_slice())
        } else {
            bytes::copied(START_TITLE.as_bytes())
        };
        Position { title, undo: cursor_index, redo: self.entries.len() - cursor_index }
    }
}

/// One step through the queue: the title of the operation that it crosses, the changes from the
/// current position to the destination, the checked edits that make them and move the cursor,
/// and the destination.
#[derive(PartialEq, Eq, Debug)]
pub struct Plan {
    pub title: Vec<u8>,
    pub changes: Vec<RefChange<FullName>>,
    pub edits: Vec<RefEdit<FullName>>,
    pub position: Position<Vec<u8>, usize>,
}

/// One step through the queue, in specifications.
pub struct PlanView {
    pub title: Seq<u8>,
    pub changes: Seq<RefChange<Seq<u8>>>,
    pub edits: Seq<RefEdit<Seq<u8>>>,
    pub position: Position<Seq<u8>, int>,
}

impl View for Plan {
    type V = PlanView;

    open spec fn view(&self) -> PlanView {
        PlanView {
            title: self.title@,
            changes: viewed(self.changes@),
            edits: viewed(self.edits@),
            position: self.position@,
        }
    }
}

/// The edit that moves a reference of the queue, if its name is valid.
pub open spec fn queue_edit(name: Seq<u8>, old_id: Option<ObjectId>, new_id: ObjectId) -> Result<
    RefEdit<Seq<u8>>,
    UndoError,
> {
    if valid_name(name) {
        Ok(
            RefEdit {
                name,
                change: Change::Update {
                    expected: match old_id {
                        None => PreviousValue::MustNotExist,
                        Some(id) => PreviousValue::MustExistAndMatch(Target::Object(id)),
                    },
                    new: Target::Object(new_id),
                    log: RefLog::AndReference,
                },
            },
        )
    } else {
        Err(UndoError::InvalidName)
    }
}

/// The references of the queue have plain names.
pub proof fn queue_names_are_plain()
    ensures
        plain_name(TIP_REF.spec_bytes()),
        plain_name(CURSOR_REF.spec_bytes()),
{
    broadcast use vstd::string::is_ascii_spec_bytes;

    reveal_strlit("refs/worktree/tix/undo");
    reveal_strlit("refs/worktree/tix/undo-cursor");
    assert(vstd::string::is_ascii(TIP_REF));
    assert(vstd::string::is_ascii(CURSOR_REF));
    assert(TIP_REF.spec_bytes() =~= seq![
        114u8, 101, 102, 115, 47, 119, 111, 114, 107, 116, 114, 101, 101, 47, 116, 105, 120, 47,
        117, 110, 100, 111,
    ]);
    assert(CURSOR_REF.spec_bytes() =~= seq![
        114u8, 101, 102, 115, 47, 119, 111, 114, 107, 116, 114, 101, 101, 47, 116, 105, 120, 47,
        117, 110, 100, 111, 45, 99, 117, 114, 115, 111, 114,
    ]);
    assert(TIP_REF.spec_bytes()[4] == 47);
    assert(CURSOR_REF.spec_bytes()[4] == 47);
}

/// The edit that moves a reference of the queue.
pub fn queue_update(name: &str, old_id: Option<ObjectId>, new_id: ObjectId) -> (r: Result<
    RefEdit<FullName>,
    UndoError,
>)
    ensures
        match r {
            Ok(edit) => queue_edit(name.spec_bytes(), old_id, new_id) == Ok::<_, UndoError>(edit@),
            Err(err) => queue_edit(name.spec_bytes(), old_id, new_id) == Err::<
                RefEdit<Seq<u8>>,
                _,
            >(err),
        },
        plain_name(name.spec_bytes()) ==> r is Ok,
{
    match FullName::new(name.as_bytes()) {
        None => Err(UndoError::InvalidName),
        Some(name) => Ok(
            RefEdit {
                name,
                change: Change::Update {
                    expected: match old_id {
                        None => PreviousValue::MustNotExist,
                        Some(id) => PreviousValue::MustExistAndMatch(Target::Object(id)),
                    },
                    new: Target::Object(new_id),
                    log: RefLog::AndReference,
                },
            },
        ),
    }
}

/// The step that makes `changes` and moves the cursor to where `cursor_index` entries are
/// applied.
pub open spec fn plan_to(
    queue: QueueView,
    title: Seq<u8>,
    changes: Seq<RefChange<Seq<u8>>>,
    cursor_index: int,
) -> Result<PlanView, UndoError> {
    match edits_of(changes, 0, Seq::empty()) {
        Err(err) => Err(err),
        Ok(edits) => match queue_edit(
            CURSOR_REF.spec_bytes(),
            Some(queue.cursor),
            queue.commit_at(cursor_index),
        ) {
            Err(err) => Err(err),
            Ok(edit) => Ok(
                PlanView {
                    title,
                    changes,
                    edits: edits.push(edit),
                    position: queue.position(cursor_index),
                },
            ),
        },
    }
}

fn make_plan(
    queue: &Queue,
    title: &[u8],
    changes: Vec<RefChange<FullName>>,
    cursor: ObjectId,
    cursor_index: usize,
) -> (r: Result<Plan, UndoError>)
    requires
        cursor_index <= queue.entries@.len(),
        cursor == queue@.commit_at(cursor_index as int),
    ensures
        match r {
            Ok(plan) => plan_to(queue@, title@, viewed(changes@), cursor_index as int) == Ok::<
                _,
                UndoError,
            >(plan@),
            Err(err) => plan_to(queue@, title@, viewed(changes@), cursor_index as int) == Err::<
                PlanView,
                _,
            >(err),
        },
{
    let mut edits = match checked_edits(&changes) {
        Err(err) => return Err(err),
        Ok(edits) => edits,
    };
    match queue_update(CURSOR_REF, Some(queue.cursor), cursor) {
        Err(err) => Err(err),
        Ok(edit) => {
            proof {
                viewed_push(edits@, edit);
            }
            edits.push(edit);
            Ok(
                Plan {
                    title: bytes::copied(title),
                    changes,
                    edits,
                    position: queue.position(cursor_index),
                },
            )
        },
    }
}

/// The step back from where the queue is, if there is one.
pub open spec fn undo_of(queue: QueueView) -> Result<Option<PlanView>, UndoError> {
    if queue.cursor_index == 0 {
        Ok(None)
    } else {
        let entry = queue.entries[queue.cursor_index - 1];
        match plan_to(queue, entry.title, reversed_all(entry.changes), queue.cursor_index - 1) {
            Err(err) => Err(err),
            Ok(plan) => Ok(Some(plan)),
        }
    }
}

/// The step forward from where the queue is, if there is one.
pub open spec fn redo_of(queue: QueueView) -> Result<Option<PlanView>, UndoError> {
    if queue.cursor_index >= queue.entries.len() {
        Ok(None)
    } else {
        let entry = queue.entries[queue.cursor_index];
        match plan_to(queue, entry.title, entry.changes, queue.cursor_index + 1) {
            Err(err) => Err(err),
            Ok(plan) => Ok(Some(plan)),
        }
    }
}

/// Where the cursor is, if no review is active.
pub open spec fn position_in(
    review: bool,
    objects: Seq<ObjectView>,
    tip: State<Seq<u8>>,
    cursor: State<Seq<u8>>,
) -> Result<Position<Seq<u8>, int>, UndoError> {
    if review {
        Ok(nowhere())
    } else {
        match loaded(objects, tip, cursor) {
            Err(err) => Err(err),
            Ok(None) => Ok(nowhere()),
            Ok(Some(queue)) => Ok(queue.position(queue.cursor_index)),
        }
    }
}

/// The step back or forward, if no review is active and there is one.
pub open spec fn step_in(
    review: bool,
    objects: Seq<ObjectView>,
    tip: State<Seq<u8>>,
    cursor: State<Seq<u8>>,
    forward: bool,
) -> Result<Option<PlanView>, UndoError> {
    if review {
        Ok(None)
    } else {
        match loaded(objects, tip, cursor) {
            Err(err) => Err(err),
            Ok(None) => Ok(None),
            Ok(Some(queue)) => if forward {
                redo_of(queue)
            } else {
                undo_of(queue)
            },
        }
    }
}

/// Where the cursor of the queue is. The queue is not available while a review is active.
pub fn position(
    references: &Vec<FullName>,
    objects: &Objects,
    tip: &State<FullName>,
    cursor: &State<FullName>,
) -> (r: Result<Position<Vec<u8>, usize>, UndoError>)
    ensures
        match r {
            Ok(position) => position_in(
                review_blocks(viewed(references@)),
                viewed(objects@),
                tip@,
                cursor@,
            ) == Ok::<
                _,
                UndoError,
            >(position@),
            Err(err) => position_in(
                review_blocks(viewed(references@)),
                viewed(objects@),
                tip@,
                cursor@,
            ) == Err::<
                Position<Seq<u8>, int>,
                _,
            >(err),
        },
{
    if review_blocks_undo(references) {
        return Ok(empty_position());
    }
    match load(objects, tip, cursor) {
        Err(err) => Err(err),
        Ok(None) => Ok(empty_position()),
        Ok(Some(queue)) => Ok(queue.position(queue.cursor_index)),
    }
}

/// Plans the step that undoes the operation which was applied last.
pub fn plan_undo(
    references: &Vec<FullName>,
    objects: &Objects,
    tip: &State<FullName>,
    cursor: &State<FullName>,
) -> (r: Result<Option<Plan>, UndoError>)
    ensures
        match r {
            Ok(plan) => step_in(
                review_blocks(viewed(references@)),
                viewed(objects@),
                tip@,
                cursor@,
                false,
            ) == Ok::<
                _,
                UndoError,
            >(viewed_option(plan)),
            Err(err) => step_in(
                review_blocks(viewed(references@)),
                viewed(objects@),
                tip@,
                cursor@,
                false,
            ) == Err::<
                Option<PlanView>,
                _,
            >(err),
        },
{
    if review_blocks_undo(references) {
        return Ok(None);
    }
    let queue = match load(objects, tip, cursor) {
        Err(err) => return Err(err),
        Ok(None) => return Ok(None),
        Ok(Some(queue)) => queue,
    };
    if queue.cursor_index == 0 {
        return Ok(None);
    }
    let entry = &queue.entries[queue.cursor_index - 1];
    let cursor = if queue.cursor_index == 1 {
        queue.sentinel
    } else {
        queue.entries[queue.cursor_index - 2].id
    };
    let changes = reverse_all(&entry.changes);
    match make_plan(&queue, entry.title.as_slice(), changes, cursor, queue.cursor_index - 1) {
        Err(err) => Err(err),
        Ok(plan) => Ok(Some(plan)),
    }
}

/// Plans the step that makes the operation again which was undone last.
pub fn plan_redo(
    references: &Vec<FullName>,
    objects: &Objects,
    tip: &State<FullName>,
    cursor: &State<FullName>,
) -> (r: Result<Option<Plan>, UndoError>)
    ensures
        match r {
            Ok(plan) => step_in(
                review_blocks(viewed(references@)),
                viewed(objects@),
                tip@,
                cursor@,
                true,
            ) == Ok::<
                _,
                UndoError,
            >(viewed_option(plan)),
            Err(err) => step_in(
                review_blocks(viewed(references@)),
                viewed(objects@),
                tip@,
                cursor@,
                true,
            ) == Err::<
                Option<PlanView>,
                _,
            >(err),
        },
{
    if review_blocks_undo(references) {
        return Ok(None);
    }
    let queue = match load(objects, tip, cursor) {
        Err(err) => return Err(err),
        Ok(None) => return Ok(None),
        Ok(Some(queue)) => queue,
    };
    if queue.cursor_index >= queue.entries.len() {
        return Ok(None);
    }
    let entry = &queue.entries[queue.cursor_index];
    let changes = copy_changes(&entry.changes);
    match make_plan(&queue, entry.title.as_slice(), changes, entry.id, queue.cursor_index + 1) {
        Err(err) => Err(err),
        Ok(plan) => Ok(Some(plan)),
    }
}

} // verus!
