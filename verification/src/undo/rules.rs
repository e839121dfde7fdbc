//! What holds of the queue of undo: what it keeps, when it is there, and what a step does to worktrees.
use vstd::prelude::*;
use vstd::string::StringSliceAdditionalSpecFns;
use crate::bytes::{CR, LF};
use crate::ids::{hex_of, ObjectId};
use crate::refs::{state_of, Reference, State};
use crate::undo::changes::{change_of, normalized, RefChange, RefEdit};
use crate::undo::config::{change_section, encoded_state};
use crate::undo::laws::{leads, link, queues_are_chains};
use crate::undo::queue::{
    chain_of, loaded, object_of, parsed_commit, queue_at, retained, retained_from,
    title_error, EntryView, ObjectView, ParsedCommit, Stored, START_TITLE,
};
use crate::undo::record::{
    cleared, in_queue, leads_to_queue, on_chain, published, recording, Recording,
};
use crate::undo::steps::{nowhere, position_in, step_in};
use crate::undo::worktrees::{
    action_after, changed_to, destination, resolved, Action, HEAD,
};
use crate::undo::{queue_ref, UndoError, CURSOR_REF, TIP_REF};

verus! {

/// Whether an object is known to be a commit.
pub open spec fn is_commit(objects: Seq<ObjectView>, id: ObjectId) -> bool {
    object_of(objects, id) matches Some(Stored::Commit { .. })
}

/// Whether a change is from a commit or to it.
pub open spec fn about(change: RefChange<Seq<u8>>, id: ObjectId) -> bool {
    change.before == State::<Seq<u8>>::Object(id) || change.after == State::<Seq<u8>>::Object(id)
}

proof fn commits_are_retained_from(
    objects: Seq<ObjectView>,
    changes: Seq<RefChange<Seq<u8>>>,
    at: int,
    parents: Seq<ObjectId>,
    id: ObjectId,
)
    requires
        0 <= at <= changes.len(),
        retained_from(objects, changes, at, parents) is Ok,
    ensures
        retained_from(objects, changes, at, parents)->Ok_0.contains(id) <==> parents.contains(id) || (
        is_commit(objects, id) && exists|i: int|
            at <= i < changes.len() && about(#[trigger] changes[i], id)),
    decreases changes.len() - at,
{
    if at < changes.len() {
        let first = crate::undo::queue::retaining(objects, parents, changes[at].before)->Ok_0;
        let second = crate::undo::queue::retaining(objects, first, changes[at].after)->Ok_0;
        commits_are_retained_from(objects, changes, at + 1, second, id);
        retaining_adds(objects, parents, changes[at].before, id);
        retaining_adds(objects, first, changes[at].after, id);
        if second.contains(id) && !parents.contains(id) {
            assert(about(changes[at], id));
        }
    }
}

proof fn retaining_adds(
    objects: Seq<ObjectView>,
    parents: Seq<ObjectId>,
    state: State<Seq<u8>>,
    id: ObjectId,
)
    requires
        crate::undo::queue::retaining(objects, parents, state) is Ok,
    ensures
        crate::undo::queue::retaining(objects, parents, state)->Ok_0.contains(id)
            <==> parents.contains(id) || (state == State::<Seq<u8>>::Object(id) && is_commit(
            objects,
            id,
        )),
{
    let all = crate::undo::queue::retaining(objects, parents, state)->Ok_0;
    if all.len() > parents.len() {
        assert(all[parents.len() as int] == state->Object_0);
        if parents.contains(id) {
            let i = parents.index_of(id);
            assert(all[i] == id);
        }
    }
}

/// An entry of the queue keeps every commit that its changes are from or to, and only those and the entry
/// before it: so nothing that a step may need is ever lost.
pub proof fn entries_keep_their_commits(
    objects: Seq<ObjectView>,
    predecessor: ObjectId,
    changes: Seq<RefChange<Seq<u8>>>,
    id: ObjectId,
)
    requires
        retained(objects, predecessor, changes) is Ok,
    ensures
        retained(objects, predecessor, changes)->Ok_0.contains(id) <==> id == predecessor || (
        is_commit(objects, id) && exists|i: int|
            0 <= i < changes.len() && about(#[trigger] changes[i], id)),
{
    commits_are_retained_from(objects, changes, 0, seq![predecessor], id);
    assert(seq![predecessor][0] == predecessor);
}

/// A title is one line that says something.
pub proof fn titles_are_one_line(title: Seq<u8>)
    ensures
        title_error(title) is None <==> title.len() > 0 && forall|i: int|
            0 <= i < title.len() ==> (#[trigger] title[i]) != LF && title[i] != CR,
        title_error(title) == Some(UndoError::EmptyTitle) <==> title.len() == 0,
{
}

/// A commit is an entry of the queue, or its start, if and only if its tree is empty, its message can be read,
/// and it is what it says: the start has no parent, its title and no changes; an entry has changes, and as
/// parents the entry before it and what its changes need.
pub proof fn entries_are_what_they_say(objects: Seq<ObjectView>, id: ObjectId)
    ensures
        match object_of(objects, id) {
            Some(Stored::Commit { empty_tree, message, parents }) => {
                let read = crate::undo::queue::message_says(message);
                &&& parsed_commit(objects, id) matches Ok(parsed) ==> {
                    &&& empty_tree
                    &&& read == Ok::<_, UndoError>((parsed.title, parsed.changes))
                    &&& parsed.parent is None <==> parents.len() == 0
                    &&& parsed.parent matches Some(parent) ==> parent == parents[0]
                        && parsed.changes.len() > 0 && retained(objects, parent, parsed.changes)
                        == Ok::<_, UndoError>(parents)
                    &&& parsed.parent is None ==> parsed.title == START_TITLE.spec_bytes()
                        && parsed.changes.len() == 0
                }
                &&& empty_tree && parents.len() == 0 && read == Ok::<_, UndoError>(
                    (START_TITLE.spec_bytes(), Seq::<RefChange<Seq<u8>>>::empty()),
                ) ==> parsed_commit(objects, id) is Ok
                &&& empty_tree && parents.len() > 0 && (read matches Ok((title, changes))
                    && changes.len() > 0 && retained(objects, parents[0], changes) == Ok::<
                    _,
                    UndoError,
                >(parents)) ==> parsed_commit(objects, id) is Ok
            },
            _ => parsed_commit(objects, id) is Err,
        },
{
}

/// There is no queue if neither of its references is there. Both must be there otherwise, and lead to commits
/// by themselves, and the cursor must be on the chain below the tip.
pub proof fn queues_have_two_references(
    objects: Seq<ObjectView>,
    tip: State<Seq<u8>>,
    cursor: State<Seq<u8>>,
)
    ensures
        ({
            let found = loaded(objects, tip, cursor);
            &&& (found is Ok && found->Ok_0 is None) <==> tip is Missing && cursor is Missing
            &&& tip is Symbolic || cursor is Symbolic ==> found is Err
            &&& (tip is Missing && cursor is Object) || (tip is Object && cursor is Missing)
                ==> found is Err
            &&& tip matches State::Object(tip) ==> (cursor matches State::Object(cursor) ==> (
            queue_at(objects, tip, cursor) matches Ok(queue) ==> found == Ok::<_, UndoError>(
                Some(queue),
            )) && (queue_at(objects, tip, cursor) is Err ==> found is Err))
        }),
{
}

/// A cursor is at the start of a chain, where nothing can be undone, or at one of its entries, behind which
/// everything can be redone. A cursor that is not on the chain is refused.
pub proof fn cursors_are_on_the_chain(objects: Seq<ObjectView>, tip: ObjectId, cursor: ObjectId)
    ensures
        chain_of(objects, tip) is Err ==> queue_at(objects, tip, cursor) is Err,
        chain_of(objects, tip) matches Ok((sentinel, newest_first)) ==> {
            let entries = newest_first.reverse();
            &&& queue_at(objects, tip, cursor) is Ok <==> cursor == sentinel || exists|i: int|
                0 <= i < entries.len() && (#[trigger] entries[i]).id == cursor
            &&& queue_at(objects, tip, cursor) matches Ok(queue) ==> {
                &&& queue.tip == tip && queue.cursor == cursor && queue.sentinel == sentinel
                &&& queue.entries == entries
                &&& cursor == sentinel ==> queue.cursor_index == 0
                &&& cursor != sentinel ==> 0 < queue.cursor_index <= entries.len()
                    && entries[queue.cursor_index - 1].id == cursor
            }
        },
{
    if let Ok((sentinel, newest_first)) = chain_of(objects, tip) {
        slots_are_first(newest_first.reverse(), cursor, 0);
    }
}

proof fn slots_are_first(entries: Seq<EntryView>, id: ObjectId, from: int)
    requires
        0 <= from,
    ensures
        crate::undo::queue::entry_slot(entries, id, from) is Some <==> exists|i: int|
            from <= i < entries.len() && (#[trigger] entries[i]).id == id,
        crate::undo::queue::entry_slot(entries, id, from) matches Some(i) ==> from <= i
            < entries.len() && entries[i].id == id,
    decreases entries.len() - from,
{
    if from < entries.len() && entries[from].id != id {
        slots_are_first(entries, id, from + 1);
    }
}

/// Clearing the queue deletes each of its references that is there, as it is, and no other.
pub proof fn cleared_queues_are_gone(tip: State<Seq<u8>>, cursor: State<Seq<u8>>)
    ensures
        cleared(tip, cursor) matches Ok(edits) ==> forall|edit: RefEdit<Seq<u8>>| #[trigger]
            edits.contains(edit) ==> change_of(edit) == Ok::<_, UndoError>(
                Some(
                    RefChange {
                        name: TIP_REF.spec_bytes(),
                        before: tip,
                        after: State::Missing,
                    },
                ),
            ) || change_of(edit) == Ok::<_, UndoError>(
                Some(
                    RefChange {
                        name: CURSOR_REF.spec_bytes(),
                        before: cursor,
                        after: State::Missing,
                    },
                ),
            ),
        cleared(tip, cursor) matches Ok(edits) ==> edits.len() == (if tip is Missing {
            0int
        } else {
            1int
        }) + (if cursor is Missing {
            0int
        } else {
            1int
        }),
        tip is Missing && cursor is Missing ==> cleared(tip, cursor) == Ok::<_, UndoError>(
            Seq::<RefEdit<Seq<u8>>>::empty(),
        ),
        cleared(tip, cursor) matches Ok(edits) ==> (!(tip is Missing) ==> change_of(edits[0])
            == Ok::<_, UndoError>(
            Some(RefChange { name: TIP_REF.spec_bytes(), before: tip, after: State::Missing }),
        )),
        cleared(tip, cursor) matches Ok(edits) ==> (!(cursor is Missing) ==> change_of(edits.last())
            == Ok::<_, UndoError>(
            Some(
                RefChange { name: CURSOR_REF.spec_bytes(), before: cursor, after: State::Missing },
            ),
        )),
{
}

/// What is recorded: nothing within a review, which discards the queue; nothing if nothing changed; and else
/// all that changed, behind what the queue holds. A title that is none is refused first.
pub proof fn operations_are_recorded(
    title: Seq<u8>,
    changes: Seq<RefChange<Seq<u8>>>,
    review: bool,
    objects: Seq<ObjectView>,
    tip: State<Seq<u8>>,
    cursor: State<Seq<u8>>,
)
    ensures
        ({
            let found = recording(title, changes, review, objects, tip, cursor);
            &&& title_error(title) is Some ==> found is Err
            &&& found matches Ok(Recording::Discard(edits)) ==> review && cleared(tip, cursor)
                == Ok::<_, UndoError>(edits)
            &&& title_error(title) is None && review ==> (found is Ok <==> cleared(tip, cursor)
                is Ok)
            &&& found matches Ok(Recording::Unchanged) ==> !review && normalized(changes) == Ok::<
                _,
                UndoError,
            >(Seq::<RefChange<Seq<u8>>>::empty())
            &&& found matches Ok(Recording::Entry { queue, changes: all }) ==> {
                &&& !review
                &&& normalized(changes) == Ok::<_, UndoError>(all)
                &&& all.len() > 0
                &&& queue is None <==> tip is Missing && cursor is Missing
                &&& queue matches Some((a, b)) ==> tip == State::<Seq<u8>>::Object(a) && cursor
                    == State::<Seq<u8>>::Object(b)
            }
            &&& title_error(title) is None && !review && (normalized(changes) matches Ok(all)
                && all.len() == 0) ==> found is Ok
        }),
{
    if let Ok(Recording::Unchanged) = recording(title, changes, review, objects, tip, cursor) {
        let all = normalized(changes)->Ok_0;
        assert(all == Seq::<RefChange<Seq<u8>>>::empty());
    }
    queues_have_two_references(objects, tip, cursor);
    if let Ok(Some(queue)) = loaded(objects, tip, cursor) {
        if let State::Object(a) = tip {
            if let State::Object(b) = cursor {
                cursors_are_on_the_chain(objects, a, b);
            }
        }
    }
}

/// A new entry is both the tip and the cursor of the queue, each of which moves from where it was.
pub proof fn entries_are_published(queue: Option<(ObjectId, ObjectId)>, entry: ObjectId)
    ensures
        published(queue, entry) matches Ok(edits) ==> {
            &&& edits.len() == 2
            &&& change_of(edits[0]) == Ok::<_, UndoError>(
                Some(
                    RefChange {
                        name: TIP_REF.spec_bytes(),
                        before: match queue {
                            Some((tip, _)) => State::Object(tip),
                            None => State::Missing,
                        },
                        after: State::Object(entry),
                    },
                ),
            )
            &&& change_of(edits[1]) == Ok::<_, UndoError>(
                Some(
                    RefChange {
                        name: CURSOR_REF.spec_bytes(),
                        before: match queue {
                            Some((_, cursor)) => State::Object(cursor),
                            None => State::Missing,
                        },
                        after: State::Object(entry),
                    },
                ),
            )
        },
{
}

/// Nothing is undone or redone within a review, nor without a queue, and the position then is that before the
/// first operation.
pub proof fn reviews_have_no_undo(
    objects: Seq<ObjectView>,
    tip: State<Seq<u8>>,
    cursor: State<Seq<u8>>,
    forward: bool,
)
    ensures
        step_in(true, objects, tip, cursor, forward) is Ok,
        step_in(true, objects, tip, cursor, forward)->Ok_0 is None,
        position_in(true, objects, tip, cursor) == Ok::<_, UndoError>(nowhere()),
        nowhere().undo == 0 && nowhere().redo == 0,
        tip is Missing && cursor is Missing ==> {
            let step = step_in(false, objects, tip, cursor, forward);
            step is Ok && step->Ok_0 is None
        },
        tip is Missing && cursor is Missing ==> position_in(false, objects, tip, cursor) == Ok::<
            _,
            UndoError,
        >(nowhere()),
        loaded(objects, tip, cursor) matches Ok(Some(queue)) ==> {
            &&& queue.cursor_index == 0 ==> {
                let step = step_in(false, objects, tip, cursor, false);
                step is Ok && step->Ok_0 is None
            }
            &&& queue.cursor_index >= queue.entries.len() ==> {
                let step = step_in(false, objects, tip, cursor, true);
                step is Ok && step->Ok_0 is None
            }
            &&& step_in(false, objects, tip, cursor, false) matches Ok(Some(plan)) ==> {
                let entry = queue.entries[queue.cursor_index - 1];
                &&& queue.cursor_index > 0
                &&& plan.title == entry.title
                &&& plan.changes.len() == entry.changes.len()
                &&& forall|i: int|
                    0 <= i < plan.changes.len() ==> (#[trigger] plan.changes[i]).name
                        == entry.changes[i].name && plan.changes[i].before == entry.changes[i].after
                        && plan.changes[i].after == entry.changes[i].before
            }
            &&& step_in(false, objects, tip, cursor, true) matches Ok(Some(plan)) ==> {
                let entry = queue.entries[queue.cursor_index];
                &&& queue.cursor_index < queue.entries.len()
                &&& plan.title == entry.title
                &&& plan.changes == entry.changes
            }
        },
{
    if let Ok(Some(queue)) = loaded(objects, tip, cursor) {
        if let State::Object(a) = tip {
            if let State::Object(b) = cursor {
                cursors_are_on_the_chain(objects, a, b);
            }
        }
    }
}

proof fn tails_lead_on(
    objects: Seq<ObjectView>,
    id: ObjectId,
    entries: Seq<EntryView>,
    sentinel: ObjectId,
)
    requires
        leads(objects, id, entries, sentinel),
        entries.len() > 0,
    ensures
        leads(objects, link(entries, sentinel, 1), entries.skip(1), sentinel),
        id == entries[0].id,
        parsed_commit(objects, id) == Ok::<_, UndoError>(
            ParsedCommit {
                parent: Some(link(entries, sentinel, 1)),
                title: entries[0].title,
                changes: entries[0].changes,
            },
        ),
        id != sentinel,
{
    let rest = entries.skip(1);
    assert forall|i: int|
        #![trigger rest[i]]
        0 <= i < rest.len() implies parsed_commit(objects, rest[i].id) == Ok::<_, UndoError>(
        ParsedCommit {
            parent: Some(link(rest, sentinel, i + 1)),
            title: rest[i].title,
            changes: rest[i].changes,
        },
    ) by {
        assert(rest[i] == entries[i + 1]);
        assert(link(rest, sentinel, i + 1) == link(entries, sentinel, i + 2));
    }
    assert forall|i: int, j: int| 0 <= i < j < rest.len() implies (#[trigger] rest[i]).id != (
    #[trigger] rest[j]).id by {
        assert(entries[i + 1].id != entries[j + 1].id);
    }
    assert(entries[0].id == id);
}

proof fn tails_are_not_seen(
    objects: Seq<ObjectView>,
    id: ObjectId,
    seen: Seq<ObjectId>,
    entries: Seq<EntryView>,
    sentinel: ObjectId,
)
    requires
        leads(objects, id, entries, sentinel),
        entries.len() > 0,
        forall|i: int| 0 <= i < entries.len() ==> !seen.contains((#[trigger] entries[i]).id),
        !seen.contains(sentinel),
        id != sentinel,
    ensures
        forall|i: int|
            0 <= i < entries.skip(1).len() ==> !seen.push(id).contains(
                (#[trigger] entries.skip(1)[i]).id,
            ),
        !seen.push(id).contains(sentinel),
{
    let rest = entries.skip(1);
    let more = seen.push(id);
    assert(entries[0].id == id);
    assert forall|i: int| 0 <= i < rest.len() implies !more.contains((#[trigger] rest[i]).id) by {
        assert(rest[i] == entries[i + 1]);
        assert(entries[0].id != entries[i + 1].id);
        if more.contains(rest[i].id) {
            let k = more.index_of(rest[i].id);
            assert(k < seen.len() ==> seen[k] == rest[i].id);
        }
    }
    if more.contains(sentinel) {
        let k = more.index_of(sentinel);
        assert(k < seen.len() ==> seen[k] == sentinel);
    }
}

/// Whether a commit is one of some entries.
pub open spec fn is_entry(entries: Seq<EntryView>, id: ObjectId) -> bool {
    exists|i: int| 0 <= i < entries.len() && (#[trigger] entries[i]).id == id
}

proof fn entries_are_first_or_later(entries: Seq<EntryView>, id: ObjectId)
    requires
        entries.len() > 0,
    ensures
        is_entry(entries, id) <==> entries[0].id == id || is_entry(entries.skip(1), id),
{
    let rest = entries.skip(1);
    if is_entry(rest, id) {
        let i = choose|i: int| 0 <= i < rest.len() && (#[trigger] rest[i]).id == id;
        assert(entries[i + 1].id == id);
    }
    if is_entry(entries, id) && entries[0].id != id {
        let i = choose|i: int| 0 <= i < entries.len() && (#[trigger] entries[i]).id == id;
        assert(rest[i - 1].id == id);
    }
}

proof fn chains_hold_from(
    objects: Seq<ObjectView>,
    id: ObjectId,
    needle: ObjectId,
    seen: Seq<ObjectId>,
    steps: nat,
    entries: Seq<EntryView>,
    sentinel: ObjectId,
)
    requires
        leads(objects, id, entries, sentinel),
        steps > entries.len(),
        forall|i: int| 0 <= i < entries.len() ==> !seen.contains((#[trigger] entries[i]).id),
        !seen.contains(sentinel),
    ensures
        on_chain(objects, id, needle, seen, steps) == Ok::<_, UndoError>(
            needle == sentinel || is_entry(entries, needle),
        ),
    decreases entries.len(),
{
    if entries.len() > 0 {
        tails_lead_on(objects, id, entries, sentinel);
        tails_are_not_seen(objects, id, seen, entries, sentinel);
        entries_are_first_or_later(entries, needle);
        if id != needle {
            chains_hold_from(
                objects,
                link(entries, sentinel, 1),
                needle,
                seen.push(id),
                (steps - 1) as nat,
                entries.skip(1),
                sentinel,
            );
        }
    }
}

/// A commit belongs to the queue if and only if it is its start or one of its entries, wherever the cursor is.
pub proof fn queues_hold_their_entries(
    objects: Seq<ObjectView>,
    tip: ObjectId,
    cursor: State<Seq<u8>>,
    needle: ObjectId,
    sentinel: ObjectId,
    entries: Seq<EntryView>,
)
    requires
        chain_of(objects, tip) == Ok::<_, UndoError>((sentinel, entries)),
        !(cursor is Symbolic),
        entries.len() <= objects.len(),
    ensures
        in_queue(objects, State::Object(tip), cursor, needle) == Ok::<_, UndoError>(
            needle == sentinel || is_entry(entries, needle),
        ),
{
    queues_are_chains(objects, tip, sentinel, entries);
    chains_hold_from(
        objects,
        tip,
        needle,
        Seq::empty(),
        (objects.len() + 1) as nat,
        entries,
        sentinel,
    );
}

/// A queue that lost its tip holds what leads from its cursor to its start. One without both holds nothing, and
/// references of a queue that are not direct are refused.
pub proof fn queues_without_a_tip_hold_their_entries(
    objects: Seq<ObjectView>,
    cursor: ObjectId,
    needle: ObjectId,
    sentinel: ObjectId,
    entries: Seq<EntryView>,
    name: Seq<u8>,
    other: State<Seq<u8>>,
)
    requires
        chain_of(objects, cursor) == Ok::<_, UndoError>((sentinel, entries)),
        entries.len() <= objects.len(),
    ensures
        in_queue(objects, State::Missing, State::Object(cursor), needle) == Ok::<_, UndoError>(
            needle == sentinel || is_entry(entries, needle),
        ),
        in_queue(objects, State::Missing, State::Missing, needle) == Ok::<_, UndoError>(false),
        in_queue(objects, State::Symbolic(name), other, needle) is Err,
        in_queue(objects, other, State::Symbolic(name), needle) is Err,
{
    queues_hold_their_entries(objects, cursor, State::Missing, needle, sentinel, entries);
}

/// A reference leads to the queue if it is one of its references, or points at one by name; one that holds a
/// commit or is missing does not.
pub proof fn references_lead_to_the_queue(
    references: Seq<Reference<Seq<u8>>>,
    name: Seq<u8>,
    seen: Seq<Seq<u8>>,
    steps: nat,
)
    requires
        steps > 1,
        !seen.contains(name),
    ensures
        queue_ref(name) ==> leads_to_queue(references, name, seen, steps) == Ok::<_, UndoError>(
            true,
        ),
        !queue_ref(name) && !(state_of(references, name) is Symbolic) ==> leads_to_queue(
            references,
            name,
            seen,
            steps,
        ) == Ok::<_, UndoError>(false),
        state_of(references, name) matches State::Symbolic(next) ==> (queue_ref(next)
            ==> leads_to_queue(references, name, seen, steps) == Ok::<_, UndoError>(true)),
        state_of(references, name) == State::Symbolic(name) && !queue_ref(name) ==> leads_to_queue(
            references,
            name,
            seen,
            steps,
        ) is Err,
{
    assert(seen.push(name)[seen.len() as int] == name);
    reveal_with_fuel(leads_to_queue, 3);
}

proof fn changes_are_found(changes: Seq<RefChange<Seq<u8>>>, name: Seq<u8>, from: int)
    requires
        0 <= from,
    ensures
        forall|i: int|
            from <= i < changes.len() && (#[trigger] changes[i]).name == name && (forall|j: int|
                from <= j < i ==> (#[trigger] changes[j]).name != name) ==> changed_to(
                changes,
                name,
                from,
            ) == Some(changes[i].after),
        (forall|i: int| from <= i < changes.len() ==> (#[trigger] changes[i]).name != name)
            ==> changed_to(changes, name, from) is None,
    decreases changes.len() - from,
{
    if from < changes.len() && changes[from].name != name {
        changes_are_found(changes, name, from + 1);
    }
}

/// Where a worktree ends after changes of references. HEAD itself changes only in the worktree that the changes
/// are made in; a branch that HEAD is on takes every worktree along that is on it. Deleting HEAD is refused.
pub proof fn worktrees_follow_their_branches(
    references: Seq<Reference<Seq<u8>>>,
    head: State<Seq<u8>>,
    changes: Seq<RefChange<Seq<u8>>>,
    current: bool,
    at: int,
)
    requires
        0 <= at < changes.len(),
        forall|i: int, j: int|
            0 <= i < j < changes.len() ==> (#[trigger] changes[i]).name != (
            #[trigger] changes[j]).name,
    ensures
        ({
            let change = changes[at];
            let found = destination(references, head, changes, current);
            &&& change.name == HEAD.spec_bytes() && current ==> {
                &&& change.after is Missing ==> found == Err::<Option<ObjectId>, _>(
                    UndoError::DeletesHead,
                )
                &&& change.after matches State::Object(id) ==> found == Ok::<_, UndoError>(Some(id))
            }
            &&& change.name == HEAD.spec_bytes() && !current ==> (head matches State::Object(id)
                ==> found == Ok::<_, UndoError>(Some(id)))
            &&& head == State::Symbolic(change.name) && change.name != HEAD.spec_bytes() && (
            current ==> forall|i: int|
                0 <= i < changes.len() ==> (#[trigger] changes[i]).name != HEAD.spec_bytes()) ==> {
                &&& change.after matches State::Object(id) ==> found == Ok::<_, UndoError>(Some(id))
                &&& change.after is Missing ==> found == Ok::<_, UndoError>(None::<ObjectId>)
            }
        }),
{
    assert forall|j: int| 0 <= j < at implies (#[trigger] changes[j]).name != changes[at].name by {}
    changes_are_found(changes, changes[at].name, 0);
    changes_are_found(changes, HEAD.spec_bytes(), 0);
    reveal_with_fuel(resolved, 3);
}

/// A worktree that no change is about stays where it is: at its commit, or at that of its branch.
pub proof fn other_worktrees_stay(
    references: Seq<Reference<Seq<u8>>>,
    head: State<Seq<u8>>,
    changes: Seq<RefChange<Seq<u8>>>,
    current: bool,
)
    requires
        forall|i: int| 0 <= i < changes.len() ==> (#[trigger] changes[i]).name != HEAD.spec_bytes(),
    ensures
        head matches State::Object(id) ==> destination(references, head, changes, current) == Ok::<
            _,
            UndoError,
        >(Some(id)),
        head matches State::Symbolic(branch) ==> (branch != HEAD.spec_bytes() && (forall|i: int|
            0 <= i < changes.len() ==> (#[trigger] changes[i]).name != branch) ==> (state_of(
            references,
            branch,
        ) matches State::Object(id) ==> destination(references, head, changes, current) == Ok::<
            _,
            UndoError,
        >(Some(id)))),
{
    changes_are_found(changes, HEAD.spec_bytes(), 0);
    if let State::Symbolic(branch) = head {
        changes_are_found(changes, branch, 0);
    }
    reveal_with_fuel(resolved, 3);
}

/// Worktrees are changed only once it is known of every one that it can be, one after the other, and references
/// behind them. What fails before anything changed fails at once; what fails later takes back all that was
/// done, and nothing fails silently.
pub proof fn worktrees_are_tried_first(worktrees: int, at: usize, success: bool)
    requires
        0 <= at < worktrees <= usize::MAX,
    ensures
        action_after(Action::Preflight(at), worktrees, success) == (if !success {
            Action::Failed
        } else if at == worktrees - 1 {
            Action::Apply(0)
        } else {
            Action::Preflight((at + 1) as usize)
        }),
        action_after(Action::Apply(at), worktrees, success) is Rollback <==> !success,
        action_after(Action::Apply(at), worktrees, success) is EditReferences <==> success && at
            == worktrees - 1,
        action_after(Action::EditReferences, worktrees, success) is Done <==> success,
        action_after(Action::EditReferences, worktrees, false) is Rollback,
        action_after(Action::EditReferences, 0, false) is Failed,
        action_after(Action::Rollback(at), worktrees, success) is Failed <==> at == 0,
{
}

/// A reference of the queue holds a commit or is missing; one that points elsewhere by name is refused.
pub proof fn queue_references_are_direct(state: State<Seq<u8>>)
    ensures
        crate::undo::queue::direct(state) is Err <==> state is Symbolic,
        state matches State::Object(id) ==> crate::undo::queue::direct(state) == Ok::<_, UndoError>(
            Some(id),
        ),
        state is Missing ==> crate::undo::queue::direct(state) == Ok::<_, UndoError>(
            None::<ObjectId>,
        ),
{
}

/// A review blocks undo as long as one is going on, whichever it is.
pub proof fn any_review_blocks(names: Seq<Seq<u8>>, i: int)
    ensures
        0 <= i < names.len() && crate::review::identity::number_of(names[i]) is Some
            ==> crate::undo::record::review_blocks(names),
        (forall|k: int|
            0 <= k < names.len() ==> crate::review::identity::number_of(#[trigger] names[k]) is None)
            ==> !crate::undo::record::review_blocks(names),
{
}

/// References of the queue move only from where they are known to be.
pub proof fn queue_edits_are_exact(name: Seq<u8>, old_id: Option<ObjectId>, new_id: ObjectId)
    ensures
        crate::undo::steps::queue_edit(name, old_id, new_id) matches Ok(edit) ==> change_of(edit)
            == Ok::<_, UndoError>(
            Some(
                RefChange {
                    name,
                    before: match old_id {
                        Some(id) => State::Object(id),
                        None => State::Missing,
                    },
                    after: State::Object(new_id),
                },
            ),
        ),
        crate::undo::steps::queue_edit(name, old_id, new_id) is Ok <==> crate::names::valid_name(
            name,
        ),
{
}

/// What a reference holds after changes: what it was changed to, or what it held. HEAD is of a worktree, and is
/// changed only in the one that the changes are made in.
pub proof fn changed_references_hold_the_change(
    references: Seq<Reference<Seq<u8>>>,
    name: Seq<u8>,
    fallback: State<Seq<u8>>,
    changes: Seq<RefChange<Seq<u8>>>,
    current: bool,
)
    ensures
        ({
            let found = crate::undo::worktrees::projected(
                references,
                name,
                fallback,
                changes,
                current,
            );
            let head = name == HEAD.spec_bytes();
            &&& changed_to(changes, name, 0) matches Some(state) ==> (current || !head ==> found
                == state)
            &&& head && !current ==> found == fallback
            &&& changed_to(changes, name, 0) is None && head ==> found == fallback
            &&& changed_to(changes, name, 0) is None && !head ==> found == state_of(references, name)
        }),
{
}

/// Taking changes back goes from where they led to where they came from.
pub proof fn rollbacks_reverse(changes: Seq<RefChange<Seq<u8>>>, i: int)
    ensures
        ({
            let back = crate::undo::changes::reversed_all(changes);
            &&& back.len() == changes.len()
            &&& 0 <= i < changes.len() ==> back[i].name == changes[i].name && back[i].before
                == changes[i].after && back[i].after == changes[i].before
            &&& crate::undo::changes::reversed_all(back) == changes
            &&& normalized(changes) is Err ==> crate::undo::changes::rollback(changes) is Err
        }),
{
    let back = crate::undo::changes::reversed_all(changes);
    assert(crate::undo::changes::reversed_all(back) =~= changes);
}

/// How an entry writes what a reference held: nothing, an object, or another reference.
pub proof fn states_are_written_out(id: ObjectId, name: Seq<u8>, change: RefChange<Seq<u8>>)
    ensures
        encoded_state(State::Missing) == "missing".spec_bytes(),
        encoded_state(State::Object(id)) == "object:".spec_bytes() + hex_of(id),
        encoded_state(State::Symbolic(name)) == "symbolic:".spec_bytes() + name,
        ({
            let section = change_section(change);
            &&& section.name == "ref".spec_bytes()
            &&& section.subsection == Some(change.name)
            &&& section.entries.len() == 2
            &&& section.entries[0].key == "before".spec_bytes()
            &&& section.entries[0].value == Some(encoded_state(change.before))
            &&& section.entries[1].key == "after".spec_bytes()
            &&& section.entries[1].value == Some(encoded_state(change.after))
        }),
{
}

} // verus!
