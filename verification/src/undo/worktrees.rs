//! Worktrees that follow when references move: where their HEAD leads then, and in which order
//! their files and the references change.
use vstd::prelude::*;
use vstd::string::StringSliceAdditionalSpecFns;
use crate::bytes;
use crate::ids::ObjectId;
use crate::names::FullName;
use crate::plan::{viewed, viewed_push};
use crate::refs::{contains_name, find_state, state_of, Reference, State};
use crate::undo::changes::RefChange;
use crate::undo::UndoError;

verus! {

/// The name of the reference that a worktree is on.
pub const HEAD: &'static str = "HEAD";

/// What the first change of a reference, at or after `from`, leaves in it.
pub open spec fn changed_to(
    changes: Seq<RefChange<Seq<u8>>>,
    name: Seq<u8>,
    from: int,
) -> Option<State<Seq<u8>>>
    decreases changes.len() - from,
{
    if from < 0 || from >= changes.len() {
        None
    } else if changes[from].name == name {
        Some(changes[from].after)
    } else {
        changed_to(changes, name, from + 1)
    }
}

/// What a reference of a worktree will hold. The changes are about the HEAD of the current
/// worktree alone; the HEAD of another stays as it is.
pub open spec fn projected(
    references: Seq<Reference<Seq<u8>>>,
    name: Seq<u8>,
    fallback: State<Seq<u8>>,
    changes: Seq<RefChange<Seq<u8>>>,
    current: bool,
) -> State<Seq<u8>> {
    let head = name == HEAD.spec_bytes();
    match changed_to(changes, name, 0) {
        Some(state) if current || !head => state,
        _ => if head {
            fallback
        } else {
            state_of(references, name)
        },
    }
}

fn find_changed<'a>(changes: &'a Vec<RefChange<FullName>>, name: &FullName) -> (r: Option<
    &'a State<FullName>,
>)
    ensures
        match r {
            Some(state) => changed_to(viewed(changes@), name@, 0) == Some(state@),
            None => changed_to(viewed(changes@), name@, 0) is None,
        },
{
    let mut i: usize = 0;
    while i < changes.len()
        invariant
            i <= changes@.len(),
            changed_to(viewed(changes@), name@, 0) == changed_to(
                viewed(changes@),
                name@,
                i as int,
            ),
        decreases changes.len() - i,
    {
        if changes[i].name.same(name) {
            return Some(&changes[i].after);
        }
        i = i + 1;
    }
    None
}

/// What a reference of a worktree will hold once `changes` are made.
pub fn projected_ref_state(
    references: &Vec<Reference<FullName>>,
    name: &FullName,
    fallback: &State<FullName>,
    changes: &Vec<RefChange<FullName>>,
    current: bool,
) -> (r: State<FullName>)
    ensures
        r@ == projected(viewed(references@), name@, fallback@, viewed(changes@), current),
{
    let head = bytes::equal(name.as_bytes(), HEAD.as_bytes());
    if current || !head {
        if let Some(state) = find_changed(changes, name) {
            return state.copy();
        }
    }
    if head {
        fallback.copy()
    } else {
        find_state(references, name)
    }
}

/// The commit that a state leads to through what the references will hold, where `seen` led to
/// it and at most `steps` references follow.
pub open spec fn resolved(
    references: Seq<Reference<Seq<u8>>>,
    state: State<Seq<u8>>,
    changes: Seq<RefChange<Seq<u8>>>,
    current: bool,
    seen: Seq<Seq<u8>>,
    steps: nat,
) -> Result<Option<ObjectId>, UndoError>
    decreases steps,
{
    match state {
        State::Missing => Ok(None),
        State::Object(id) => Ok(Some(id)),
        State::Symbolic(name) => if steps == 0 || seen.contains(name) {
            Err(UndoError::CyclicReference)
        } else {
            resolved(
                references,
                projected(references, name, State::Missing, changes, current),
                changes,
                current,
                seen.push(name),
                (steps - 1) as nat,
            )
        },
    }
}

/// The commit that a state leads to once `changes` are made.
pub fn resolve_state(
    references: &Vec<Reference<FullName>>,
    state: &State<FullName>,
    changes: &Vec<RefChange<FullName>>,
    current: bool,
) -> (r: Result<Option<ObjectId>, UndoError>)
    ensures
        r == resolved(
            viewed(references@),
            state@,
            viewed(changes@),
            current,
            Seq::empty(),
            references@.len() + changes@.len() + 1,
        ),
{
    let mut current_state = state.copy();
    let mut seen: Vec<FullName> = Vec::new();
    let mut some: usize = references.len();
    let mut more: usize = changes.len();
    assert(viewed(seen@) == Seq::<Seq<u8>>::empty());
    loop
        invariant
            resolved(
                viewed(references@),
                state@,
                viewed(changes@),
                current,
                Seq::empty(),
                references@.len() + changes@.len() + 1,
            ) == resolved(
                viewed(references@),
                current_state@,
                viewed(changes@),
                current,
                viewed(seen@),
                (some + more + 1) as nat,
            ),
        decreases some + more,
    {
        let name = match current_state {
            State::Missing => return Ok(None),
            State::Object(id) => return Ok(Some(id)),
            State::Symbolic(name) => name,
        };
        if contains_name(&seen, &name) {
            return Err(UndoError::CyclicReference);
        }
        current_state = projected_ref_state(references, &name, &State::Missing, changes, current);
        proof {
            viewed_push(seen@, name);
        }
        seen.push(name);
        if some > 0 {
            some = some - 1;
        } else if more > 0 {
            more = more - 1;
        } else {
            assert(resolved(
                viewed(references@),
                current_state@,
                viewed(changes@),
                current,
                viewed(seen@),
                0,
            ) == match current_state@ {
                State::Missing => Ok::<Option<ObjectId>, UndoError>(None),
                State::Object(id) => Ok(Some(id)),
                State::Symbolic(_) => Err(UndoError::CyclicReference),
            });
            return match current_state {
                State::Missing => Ok(None),
                State::Object(id) => Ok(Some(id)),
                State::Symbolic(_) => Err(UndoError::CyclicReference),
            };
        }
    }
}

/// The commit that the HEAD of a worktree will lead to.
pub open spec fn destination(
    references: Seq<Reference<Seq<u8>>>,
    head: State<Seq<u8>>,
    changes: Seq<RefChange<Seq<u8>>>,
    current: bool,
) -> Result<Option<ObjectId>, UndoError> {
    let next = projected(references, HEAD.spec_bytes(), head, changes, current);
    if next is Missing {
        Err(UndoError::DeletesHead)
    } else {
        resolved(
            references,
            next,
            changes,
            current,
            Seq::empty(),
            references.len() + changes.len() + 1,
        )
    }
}

/// The commit that the HEAD of a worktree will lead to once `changes` are made, none if its branch
/// will not exist. `head_name` is the name of HEAD.
pub fn head_destination(
    references: &Vec<Reference<FullName>>,
    head_name: &FullName,
    head: &State<FullName>,
    changes: &Vec<RefChange<FullName>>,
    current: bool,
) -> (r: Result<Option<ObjectId>, UndoError>)
    requires
        head_name@ == HEAD.spec_bytes(),
    ensures
        r == destination(viewed(references@), head@, viewed(changes@), current),
{
    let next = projected_ref_state(references, head_name, head, changes, current);
    match next {
        State::Missing => Err(UndoError::DeletesHead),
        _ => resolve_state(references, &next, changes, current),
    }
}

/// The files of a worktree: none, a directory that is not there, or one that is.
#[derive(Clone, Copy, PartialEq, Eq, Structural, Debug)]
pub enum Files {
    Bare,
    Inaccessible,
    Present,
}

/// Whether the files of a worktree must change from one tree to another.
pub fn transition(files: Files, old_tree: ObjectId, new_tree: ObjectId) -> (r: Result<
    bool,
    UndoError,
>)
    ensures
        r == if old_tree == new_tree || files == Files::Bare {
            Ok::<bool, UndoError>(false)
        } else if files == Files::Inaccessible {
            Err(UndoError::InaccessibleWorktree)
        } else {
            Ok(true)
        },
        r is Err <==> files == Files::Inaccessible && old_tree != new_tree,
        r == Ok::<bool, UndoError>(true) ==> old_tree != new_tree && files != Files::Bare,
{
    if old_tree == new_tree || files == Files::Bare {
        return Ok(false);
    }
    if files == Files::Inaccessible {
        return Err(UndoError::InaccessibleWorktree);
    }
    Ok(true)
}

/// What is to be done next to move references together with the worktrees that follow them.
#[derive(Clone, Copy, PartialEq, Eq, Structural, Debug)]
pub enum Action {
    /// See whether the files of a worktree can change.
    Preflight(usize),
    /// Change the files of a worktree.
    Apply(usize),
    /// Move the references.
    EditReferences,
    /// Change the files of a worktree back.
    Rollback(usize),
    /// Nothing: it is done.
    Done,
    /// Nothing: it failed.
    Failed,
}

/// The first action for the given number of worktrees.
pub open spec fn first_of(worktrees: int) -> Action {
    if worktrees > 0 {
        Action::Preflight(0)
    } else {
        Action::EditReferences
    }
}

/// The action that follows one which succeeded or did not.
pub open spec fn action_after(action: Action, worktrees: int, success: bool) -> Action {
    match action {
        Action::Preflight(at) => if !success {
            Action::Failed
        } else if at + 1 < worktrees {
            Action::Preflight((at + 1) as usize)
        } else {
            Action::Apply(0)
        },
        Action::Apply(at) => if !success {
            Action::Rollback(at)
        } else if at + 1 < worktrees {
            Action::Apply((at + 1) as usize)
        } else {
            Action::EditReferences
        },
        Action::EditReferences => if success {
            Action::Done
        } else if worktrees > 0 {
            Action::Rollback((worktrees - 1) as usize)
        } else {
            Action::Failed
        },
        Action::Rollback(at) => if at > 0 {
            Action::Rollback((at - 1) as usize)
        } else {
            Action::Failed
        },
        Action::Done => Action::Done,
        Action::Failed => Action::Failed,
    }
}

/// The first action for the given number of worktrees.
pub fn first_action(worktrees: usize) -> (r: Action)
    ensures
        r == first_of(worktrees as int),
{
    if worktrees > 0 {
        Action::Preflight(0)
    } else {
        Action::EditReferences
    }
}

/// The action that follows one which succeeded or did not. That the files of one worktree cannot
/// be changed back keeps none of the others from being changed back.
pub fn next_action(action: Action, worktrees: usize, success: bool) -> (r: Action)
    ensures
        r == action_after(action, worktrees as int, success),
{
    match action {
        Action::Preflight(at) => if !success {
            Action::Failed
        } else if at < worktrees && worktrees - at > 1 {
            Action::Preflight(at + 1)
        } else {
            Action::Apply(0)
        },
        Action::Apply(at) => if !success {
            Action::Rollback(at)
        } else if at < worktrees && worktrees - at > 1 {
            Action::Apply(at + 1)
        } else {
            Action::EditReferences
        },
        Action::EditReferences => if success {
            Action::Done
        } else if worktrees > 0 {
            Action::Rollback(worktrees - 1)
        } else {
            Action::Failed
        },
        Action::Rollback(at) => if at > 0 {
            Action::Rollback(at - 1)
        } else {
            Action::Failed
        },
        Action::Done => Action::Done,
        Action::Failed => Action::Failed,
    }
}

/// Which worktrees have been touched and not been changed back when an action is next.
pub open spec fn touched(action: Action, worktrees: int) -> int {
    match action {
        Action::Preflight(_) => 0,
        Action::Apply(at) => at as int,
        Action::EditReferences => worktrees,
        Action::Rollback(at) => at + 1,
        Action::Done => worktrees,
        Action::Failed => 0,
    }
}

/// Whether an action is one that can be next.
pub open spec fn possible(action: Action, worktrees: int) -> bool {
    match action {
        Action::Preflight(at) => at < worktrees,
        Action::Apply(at) => at < worktrees,
        Action::Rollback(at) => at < worktrees,
        _ => true,
    }
}

/// Worktrees change in order and change back in the opposite order: each action is about the first
/// worktree that was not touched, or about the last that was. So when it failed all of them were
/// changed back, and when it is done all of them and the references were changed.
pub proof fn worktrees_change_back(action: Action, worktrees: int, success: bool)
    requires
        0 <= worktrees <= usize::MAX,
        possible(action, worktrees),
    ensures
        possible(first_of(worktrees), worktrees),
        touched(first_of(worktrees), worktrees) == 0,
        possible(action_after(action, worktrees, success), worktrees),
        touched(action_after(action, worktrees, success), worktrees) == match action {
            Action::Apply(at) => at + 1,
            Action::Rollback(at) => at as int,
            _ => touched(action, worktrees),
        },
        action matches Action::Apply(at) ==> at == touched(action, worktrees),
        action matches Action::Rollback(at) ==> at == touched(action, worktrees) - 1,
        action_after(action, worktrees, success) is Done && !(action is Done) ==> action
            is EditReferences && success,
{
}

/// How far an action is from the last one.
pub open spec fn remaining(action: Action, worktrees: int) -> int {
    match action {
        Action::Preflight(at) => 3 * worktrees + 3 - at,
        Action::Apply(at) => 2 * worktrees + 2 - at,
        Action::EditReferences => worktrees + 1,
        Action::Rollback(at) => at + 1,
        Action::Done => 0,
        Action::Failed => 0,
    }
}

/// Each action but the last brings the last one closer.
pub proof fn actions_end(action: Action, worktrees: int, success: bool)
    requires
        0 <= worktrees <= usize::MAX,
        possible(action, worktrees),
    ensures
        0 <= remaining(action, worktrees),
        remaining(action, worktrees) == 0 ==> action is Done || action is Failed,
        remaining(action, worktrees) > 0 ==> remaining(
            action_after(action, worktrees, success),
            worktrees,
        ) < remaining(action, worktrees),
{
}

} // verus!
