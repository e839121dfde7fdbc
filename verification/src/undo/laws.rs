//! What holds of the undo queue across operations.
use vstd::prelude::*;
use vstd::string::StringSliceAdditionalSpecFns;
use crate::bytes::before;
use crate::ids::ObjectId;
use crate::names::valid_name;
use crate::refs::State;
use crate::undo::changes::{
    applied, changes_made, checked_edits_make_changes, edit_of, edits_of, has_change,
    moves_are_taken_back, normalized, reverse, reversed_all, RefChange, RefEdit, Store,
};
use crate::undo::config::{
    config_changes, decoded_state, has_keys, parsed_config, section_change,
    section_changes, storable, version_section, SectionView,
};
use crate::undo::queue::{
    chain_from, chain_of, entry_slot, loaded, message_says, object_from, object_of, parsed_commit,
    queue_at, retained, retained_from, retaining, title_error, EntryView, ObjectView, ParsedCommit, QueueView,
    Stored, StoredEntry, StoredObject, START_TITLE,
};
use crate::undo::record::{recording, Recording, RecordingView};
use crate::undo::steps::{queue_edit, redo_of, undo_of};
use crate::undo::{UndoError, CURSOR_REF};

verus! {

/// The commit at the given place of a chain: an entry or, behind them, the start.
pub open spec fn link(entries: Seq<EntryView>, sentinel: ObjectId, at: int) -> ObjectId {
    if at < entries.len() {
        entries[at].id
    } else {
        sentinel
    }
}

/// Whether `entries`, the newest first, lead from `tip` to the start of the queue: each is what its
/// commit says and the next is its first parent, and no commit is there twice.
pub open spec fn leads(
    objects: Seq<ObjectView>,
    tip: ObjectId,
    entries: Seq<EntryView>,
    sentinel: ObjectId,
) -> bool {
    &&& link(entries, sentinel, 0) == tip
    &&& forall|i: int|
        #![trigger entries[i]]
        0 <= i < entries.len() ==> parsed_commit(objects, entries[i].id) == Ok::<_, UndoError>(
            ParsedCommit {
                parent: Some(link(entries, sentinel, i + 1)),
                title: entries[i].title,
                changes: entries[i].changes,
            },
        )
    &&& parsed_commit(objects, sentinel) matches Ok(start) && start.parent is None
    &&& forall|i: int, j: int|
        0 <= i < j < entries.len() ==> (#[trigger] entries[i]).id != (#[trigger] entries[j]).id
}

proof fn slot_none(entries: Seq<EntryView>, id: ObjectId, from: int)
    requires
        0 <= from,
        forall|i: int| from <= i < entries.len() ==> (#[trigger] entries[i]).id != id,
    ensures
        entry_slot(entries, id, from) is None,
    decreases entries.len() - from,
{
    if from < entries.len() {
        slot_none(entries, id, from + 1);
    }
}

proof fn slot_absent(entries: Seq<EntryView>, id: ObjectId, from: int, at: int)
    requires
        0 <= from <= at < entries.len(),
        entry_slot(entries, id, from) is None,
    ensures
        entries[at].id != id,
    decreases at - from,
{
    if from < at {
        slot_absent(entries, id, from + 1, at);
    }
}

proof fn slot_found(entries: Seq<EntryView>, id: ObjectId, from: int, at: int)
    requires
        0 <= from <= at < entries.len(),
        entries[at].id == id,
        forall|i: int| from <= i < at ==> (#[trigger] entries[i]).id != id,
    ensures
        entry_slot(entries, id, from) == Some(at),
    decreases at - from,
{
    if from < at {
        slot_found(entries, id, from + 1, at);
    }
}

proof fn slot_where(entries: Seq<EntryView>, id: ObjectId, from: int)
    requires
        0 <= from,
    ensures
        entry_slot(entries, id, from) matches Some(at) ==> from <= at < entries.len()
            && entries[at].id == id,
    decreases entries.len() - from,
{
    if from < entries.len() && entries[from].id != id {
        slot_where(entries, id, from + 1);
    }
}

proof fn leads_with(
    objects: Seq<ObjectView>,
    entry: EntryView,
    parent: ObjectId,
    tail: Seq<EntryView>,
    sentinel: ObjectId,
)
    requires
        leads(objects, parent, tail, sentinel),
        parsed_commit(objects, entry.id) == Ok::<_, UndoError>(
            ParsedCommit { parent: Some(parent), title: entry.title, changes: entry.changes },
        ),
        forall|j: int| 0 <= j < tail.len() ==> (#[trigger] tail[j]).id != entry.id,
    ensures
        leads(objects, entry.id, seq![entry] + tail, sentinel),
{
    let rest = seq![entry] + tail;
    assert forall|i: int| 0 <= i < rest.len() implies parsed_commit(
        objects,
        (#[trigger] rest[i]).id,
    ) == Ok::<_, UndoError>(
        ParsedCommit {
            parent: Some(link(rest, sentinel, i + 1)),
            title: rest[i].title,
            changes: rest[i].changes,
        },
    ) by {
        if i == 0 {
            assert(rest[0] == entry);
            assert(link(rest, sentinel, 1) == link(tail, sentinel, 0));
        } else {
            assert(rest[i] == tail[i - 1]);
            assert(link(rest, sentinel, i + 1) == link(tail, sentinel, i));
        }
    }
    assert forall|i: int, j: int| 0 <= i < j < rest.len() implies (#[trigger] rest[i]).id != (
    #[trigger] rest[j]).id by {
        assert(rest[j] == tail[j - 1]);
        if i > 0 {
            assert(rest[i] == tail[i - 1]);
        }
    }
}

#[verifier::spinoff_prover]
#[verifier::rlimit(40)]
proof fn chain_leads_from(
    objects: Seq<ObjectView>,
    id: ObjectId,
    done: Seq<EntryView>,
    steps: nat,
    sentinel: ObjectId,
    all: Seq<EntryView>,
)
    requires
        chain_from(objects, id, done, steps) == Ok::<_, UndoError>((sentinel, all)),
    ensures
        all.len() >= done.len(),
        all.take(done.len() as int) == done,
        leads(objects, id, all.skip(done.len() as int), sentinel),
        forall|i: int, j: int|
            0 <= i < done.len() <= j < all.len() ==> (#[trigger] all[i]).id != (#[trigger] all[j]).id,
    decreases steps,
{
    let parsed = parsed_commit(objects, id)->Ok_0;
    match parsed.parent {
        None => {
            assert(all == done);
            assert(all.take(done.len() as int) == done);
        },
        Some(parent) => {
            let entry = StoredEntry { id, title: parsed.title, changes: parsed.changes };
            let next = done.push(entry);
            chain_leads_from(objects, parent, next, (steps - 1) as nat, sentinel, all);
            assert(all.take(done.len() as int) == done) by {
                assert(all.take(next.len() as int).take(done.len() as int) == done);
            }
            assert(all[done.len() as int] == entry) by {
                assert(all.take(next.len() as int)[done.len() as int] == entry);
            }
            let tail = all.skip(next.len() as int);
            assert(all.skip(done.len() as int) == seq![entry] + tail);
            assert forall|j: int| 0 <= j < tail.len() implies (#[trigger] tail[j]).id != id by {
                assert(all[done.len() as int].id != all[next.len() + j].id);
            }
            leads_with(objects, entry, parent, tail, sentinel);
            assert forall|i: int, j: int| 0 <= i < done.len() <= j < all.len() implies (
            #[trigger] all[i]).id != (#[trigger] all[j]).id by {
                if j == done.len() {
                    assert(all[i] == all.take(done.len() as int)[i]);
                    slot_absent(done, id, 0, i);
                }
            }
        },
    }
}

proof fn known_ids(objects: Seq<ObjectView>, id: ObjectId, from: int)
    requires
        0 <= from,
        object_from(objects, id, from) is Some,
    ensures
        exists|i: int| from <= i < objects.len() && (#[trigger] objects[i]).id == id,
    decreases objects.len() - from,
{
    if objects[from].id != id {
        known_ids(objects, id, from + 1);
    }
}

proof fn chains_are_bounded(
    objects: Seq<ObjectView>,
    tip: ObjectId,
    entries: Seq<EntryView>,
    sentinel: ObjectId,
)
    requires
        leads(objects, tip, entries, sentinel),
    ensures
        entries.len() <= objects.len(),
{
    broadcast use vstd::seq_lib::seq_to_set_is_finite;

    let ids = Seq::new(entries.len(), |i: int| entries[i].id);
    let known = Seq::new(objects.len(), |i: int| objects[i].id);
    assert(ids.no_duplicates()) by {
        assert forall|i: int, j: int| 0 <= i < ids.len() && 0 <= j < ids.len() && i
            != j implies ids[i] != ids[j] by {
            if i < j {
                assert(entries[i].id != entries[j].id);
            } else {
                assert(entries[j].id != entries[i].id);
            }
        }
    }
    ids.unique_seq_to_set();
    known.lemma_cardinality_of_set();
    assert forall|id: ObjectId| ids.to_set().contains(id) implies known.to_set().contains(id) by {
        let i = choose|i: int| 0 <= i < ids.len() && ids[i] == id;
        assert(entries[i].id == id);
        known_ids(objects, id, 0);
        let k = choose|k: int| 0 <= k < objects.len() && (#[trigger] objects[k]).id == id;
        assert(known[k] == id);
    }
    vstd::set_lib::lemma_len_subset(ids.to_set(), known.to_set());
}

proof fn leading_is_the_chain(
    objects: Seq<ObjectView>,
    id: ObjectId,
    done: Seq<EntryView>,
    rest: Seq<EntryView>,
    sentinel: ObjectId,
    steps: nat,
)
    requires
        leads(objects, id, rest, sentinel),
        forall|i: int, j: int|
            0 <= i < done.len() && 0 <= j < rest.len() ==> (#[trigger] done[i]).id != (
            #[trigger] rest[j]).id,
        forall|i: int| 0 <= i < done.len() ==> (#[trigger] done[i]).id != sentinel,
        steps > rest.len(),
    ensures
        chain_from(objects, id, done, steps) == Ok::<_, UndoError>((sentinel, done + rest)),
    decreases rest.len(),
{
    slot_none(done, id, 0);
    if rest.len() == 0 {
        assert(done + rest == done);
    } else {
        let entry = rest[0];
        assert(entry.id == id);
        let next = done.push(entry);
        let tail = rest.skip(1);
        assert forall|i: int| 0 <= i < tail.len() implies parsed_commit(
            objects,
            (#[trigger] tail[i]).id,
        ) == Ok::<_, UndoError>(
            ParsedCommit {
                parent: Some(link(tail, sentinel, i + 1)),
                title: tail[i].title,
                changes: tail[i].changes,
            },
        ) by {
            assert(tail[i] == rest[i + 1]);
            assert(link(tail, sentinel, i + 1) == link(rest, sentinel, i + 2));
        }
        assert forall|i: int, j: int| 0 <= i < j < tail.len() implies (#[trigger] tail[i]).id != (
        #[trigger] tail[j]).id by {
            assert(rest[i + 1].id != rest[j + 1].id);
        }
        assert(link(tail, sentinel, 0) == link(rest, sentinel, 1));
        assert(entry.id != sentinel) by {
            assert(parsed_commit(objects, rest[0].id)->Ok_0.parent is Some);
        }
        assert forall|i: int, j: int| 0 <= i < next.len() && 0 <= j < tail.len() implies (
        #[trigger] next[i]).id != (#[trigger] tail[j]).id by {
            assert(tail[j] == rest[j + 1]);
            if i < done.len() {
                assert(next[i] == done[i]);
            } else {
                assert(rest[0].id != rest[j + 1].id);
            }
        }
        leading_is_the_chain(
            objects,
            link(rest, sentinel, 1),
            next,
            tail,
            sentinel,
            (steps - 1) as nat,
        );
        assert(next + tail == done + rest);
        assert(parsed_commit(objects, rest[0].id) is Ok);
    }
}

/// The queue is read exactly if commits lead from its tip to its start.
pub proof fn queues_are_chains(
    objects: Seq<ObjectView>,
    tip: ObjectId,
    sentinel: ObjectId,
    entries: Seq<EntryView>,
)
    ensures
        (chain_of(objects, tip) == Ok::<_, UndoError>((sentinel, entries))) == leads(
            objects,
            tip,
            entries,
            sentinel,
        ),
{
    let none = Seq::<EntryView>::empty();
    if chain_of(objects, tip) == Ok::<_, UndoError>((sentinel, entries)) {
        chain_leads_from(objects, tip, none, (objects.len() + 1) as nat, sentinel, entries);
        assert(entries.skip(0) == entries);
    }
    if leads(objects, tip, entries, sentinel) {
        chains_are_bounded(objects, tip, entries, sentinel);
        leading_is_the_chain(objects, tip, none, entries, sentinel, (objects.len() + 1) as nat);
        assert(none + entries == entries);
    }
}

/// Whether everything that is known of one set of objects is known of another.
pub open spec fn extends(objects: Seq<ObjectView>, more: Seq<ObjectView>) -> bool {
    forall|id: ObjectId|
        object_of(objects, id) is Some ==> #[trigger] object_of(more, id) == object_of(objects, id)
}

proof fn retained_in_more(
    objects: Seq<ObjectView>,
    more: Seq<ObjectView>,
    changes: Seq<RefChange<Seq<u8>>>,
    at: int,
    parents: Seq<ObjectId>,
)
    requires
        extends(objects, more),
        retained_from(objects, changes, at, parents) is Ok,
    ensures
        retained_from(more, changes, at, parents) == retained_from(objects, changes, at, parents),
    decreases changes.len() - at,
{
    if 0 <= at < changes.len() {
        let first = retaining(objects, parents, changes[at].before);
        assert(retaining(more, parents, changes[at].before) == first);
        let second = retaining(objects, first->Ok_0, changes[at].after);
        assert(retaining(more, first->Ok_0, changes[at].after) == second);
        retained_in_more(objects, more, changes, at + 1, second->Ok_0);
    }
}

proof fn parsed_in_more(objects: Seq<ObjectView>, more: Seq<ObjectView>, id: ObjectId)
    requires
        extends(objects, more),
        parsed_commit(objects, id) is Ok,
    ensures
        parsed_commit(more, id) == parsed_commit(objects, id),
{
    assert(object_of(more, id) == object_of(objects, id));
    if let Some(Stored::Commit { empty_tree, message, parents }) = object_of(objects, id) {
        if parents.len() > 0 {
            let (title, changes) = message_says(message)->Ok_0;
            retained_in_more(objects, more, changes, 0, seq![parents[0]]);
        }
    }
}

proof fn object_in_more(objects: Seq<ObjectView>, object: ObjectView, id: ObjectId, from: int)
    requires
        0 <= from <= objects.len(),
    ensures
        object_from(objects.push(object), id, from) == match object_from(objects, id, from) {
            Some(found) => Some(found),
            None => if object.id == id {
                Some(object.object)
            } else {
                None
            },
        },
    decreases objects.len() - from,
{
    let more = objects.push(object);
    if from < objects.len() {
        object_in_more(objects, object, id, from + 1);
    } else {
        assert(object_from(more, id, from + 1) is None);
    }
}

proof fn retained_starts(
    objects: Seq<ObjectView>,
    changes: Seq<RefChange<Seq<u8>>>,
    at: int,
    parents: Seq<ObjectId>,
)
    requires
        parents.len() > 0,
        retained_from(objects, changes, at, parents) is Ok,
    ensures
        retained_from(objects, changes, at, parents)->Ok_0.len() > 0,
        retained_from(objects, changes, at, parents)->Ok_0[0] == parents[0],
    decreases changes.len() - at,
{
    if 0 <= at < changes.len() {
        let first = retaining(objects, parents, changes[at].before)->Ok_0;
        let second = retaining(objects, first, changes[at].after)->Ok_0;
        retained_starts(objects, changes, at + 1, second);
    }
}

/// The object of a commit of the queue.
pub open spec fn queue_commit(id: ObjectId, message: Seq<u8>, parents: Seq<ObjectId>) -> ObjectView {
    StoredObject { id, object: Stored::Commit { empty_tree: true, message, parents } }
}

/// A commit without parents that says no more than that the queue starts is a queue without
/// entries.
pub proof fn start_is_an_empty_queue(
    objects: Seq<ObjectView>,
    start: ObjectId,
    message: Seq<u8>,
)
    requires
        object_of(objects, start) == Some(
            queue_commit(start, message, Seq::empty()).object,
        ),
        message_says(message) == Ok::<_, UndoError>(
            (START_TITLE.spec_bytes(), Seq::<RefChange<Seq<u8>>>::empty()),
        ),
    ensures
        queue_at(objects, start, start) == Ok::<_, UndoError>(
            QueueView {
                tip: start,
                cursor: start,
                sentinel: start,
                entries: Seq::empty(),
                cursor_index: 0,
            },
        ),
{
    let none = Seq::<EntryView>::empty();
    assert(leads(objects, start, none, start));
    queues_are_chains(objects, start, start, none);
    assert(none.reverse() == none);
}

proof fn queue_leads(objects: Seq<ObjectView>, tip: ObjectId, cursor: ObjectId, queue: QueueView)
    requires
        queue_at(objects, tip, cursor) == Ok::<_, UndoError>(queue),
    ensures
        leads(objects, tip, queue.entries.reverse(), queue.sentinel),
        queue.tip == tip,
        queue.cursor == cursor,
        0 <= queue.cursor_index <= queue.entries.len(),
        queue.commit_at(queue.cursor_index) == cursor,
{
    let (sentinel, newest_first) = chain_of(objects, tip)->Ok_0;
    queues_are_chains(objects, tip, sentinel, newest_first);
    assert(newest_first.reverse().reverse() == newest_first);
    slot_where(queue.entries, cursor, 0);
}

proof fn queue_from_leads(
    objects: Seq<ObjectView>,
    tip: ObjectId,
    entries: Seq<EntryView>,
    sentinel: ObjectId,
    cursor_index: int,
)
    requires
        leads(objects, tip, entries.reverse(), sentinel),
        0 <= cursor_index <= entries.len(),
    ensures
        ({
            let cursor = if cursor_index == 0 {
                sentinel
            } else {
                entries[cursor_index - 1].id
            };
            queue_at(objects, tip, cursor) == Ok::<_, UndoError>(
                QueueView { tip, cursor, sentinel, entries, cursor_index },
            )
        }),
{
    let newest_first = entries.reverse();
    queues_are_chains(objects, tip, sentinel, newest_first);
    assert(newest_first.reverse() == entries);
    if cursor_index > 0 {
        let at = cursor_index - 1;
        let cursor = entries[at].id;
        assert(entries[at] == newest_first[entries.len() - 1 - at]);
        assert(cursor != sentinel);
        assert forall|i: int| 0 <= i < at implies (#[trigger] entries[i]).id != cursor by {
            let n = entries.len() as int;
            assert(entries[i] == newest_first[n - 1 - i]);
            assert(newest_first[n - 1 - at].id != newest_first[n - 1 - i].id);
        }
        slot_found(entries, cursor, 0, at);
    }
}

/// Moving the cursor within the queue changes nothing but where the cursor is: the entries stay,
/// and so does the sum of the operations that can be undone and redone.
pub proof fn cursor_moves(
    objects: Seq<ObjectView>,
    tip: ObjectId,
    cursor: ObjectId,
    queue: QueueView,
    cursor_index: int,
)
    requires
        queue_at(objects, tip, cursor) == Ok::<_, UndoError>(queue),
        0 <= cursor_index <= queue.entries.len(),
    ensures
        queue_at(objects, tip, queue.commit_at(cursor_index)) == Ok::<_, UndoError>(
            QueueView { cursor: queue.commit_at(cursor_index), cursor_index, ..queue },
        ),
        queue.position(cursor_index).undo + queue.position(cursor_index).redo
            == queue.entries.len(),
{
    queue_leads(objects, tip, cursor, queue);
    queue_from_leads(objects, tip, queue.entries, queue.sentinel, cursor_index);
}

/// Whether the objects are known that a reference leads to before and after a change.
pub open spec fn known_change(objects: Seq<ObjectView>, change: RefChange<Seq<u8>>) -> bool {
    &&& change.before matches State::Object(id) ==> object_of(objects, id) is Some
    &&& change.after matches State::Object(id) ==> object_of(objects, id) is Some
}

/// Whether the parents of an entry are its predecessor and, each once, commits that are known.
pub open spec fn proper_parents(
    objects: Seq<ObjectView>,
    predecessor: ObjectId,
    parents: Seq<ObjectId>,
) -> bool {
    &&& parents.len() > 0
    &&& parents[0] == predecessor
    &&& parents.no_duplicates()
    &&& forall|k: int|
        1 <= k < parents.len() ==> (object_of(objects, #[trigger] parents[k]) matches Some(
            Stored::Commit { .. },
        ))
}

proof fn retaining_is_proper(
    objects: Seq<ObjectView>,
    predecessor: ObjectId,
    parents: Seq<ObjectId>,
    state: State<Seq<u8>>,
)
    requires
        state matches State::Object(id) ==> object_of(objects, id) is Some,
        proper_parents(objects, predecessor, parents),
    ensures
        retaining(objects, parents, state) matches Ok(all) && proper_parents(
            objects,
            predecessor,
            all,
        ),
{
}

proof fn known_changes_are_retained_from(
    objects: Seq<ObjectView>,
    changes: Seq<RefChange<Seq<u8>>>,
    at: int,
    predecessor: ObjectId,
    parents: Seq<ObjectId>,
)
    requires
        forall|i: int| 0 <= i < changes.len() ==> known_change(objects, #[trigger] changes[i]),
        proper_parents(objects, predecessor, parents),
    ensures
        retained_from(objects, changes, at, parents) matches Ok(all) && proper_parents(
            objects,
            predecessor,
            all,
        ),
    decreases changes.len() - at,
{
    if 0 <= at < changes.len() {
        assert(known_change(objects, changes[at]));
        retaining_is_proper(objects, predecessor, parents, changes[at].before);
        let first = retaining(objects, parents, changes[at].before)->Ok_0;
        retaining_is_proper(objects, predecessor, first, changes[at].after);
        let second = retaining(objects, first, changes[at].after)->Ok_0;
        known_changes_are_retained_from(objects, changes, at + 1, predecessor, second);
    }
}

/// An operation on known objects whose changes do not cancel out is recorded, if its title is valid and
/// the queue can be read: an entry is made of its changes, one for each reference, on top of where the
/// queue is, and the commits that the changes are about are its other parents, each once.
pub proof fn valid_operations_are_recorded(
    title: Seq<u8>,
    changes: Seq<RefChange<Seq<u8>>>,
    objects: Seq<ObjectView>,
    tip: State<Seq<u8>>,
    cursor: State<Seq<u8>>,
    predecessor: ObjectId,
)
    requires
        title_error(title) is None,
        normalized(changes) is Ok,
        normalized(changes)->Ok_0.len() > 0,
        loaded(objects, tip, cursor) is Ok,
        forall|i: int|
            0 <= i < normalized(changes)->Ok_0.len() ==> known_change(
                objects,
                #[trigger] normalized(changes)->Ok_0[i],
            ),
    ensures
        recording(title, changes, false, objects, tip, cursor) == Ok::<RecordingView, UndoError>(
            Recording::Entry {
                queue: match loaded(objects, tip, cursor)->Ok_0 {
                    Some(queue) => Some((queue.tip, queue.cursor)),
                    None => None,
                },
                changes: normalized(changes)->Ok_0,
            },
        ),
        retained(objects, predecessor, normalized(changes)->Ok_0) matches Ok(parents)
            && proper_parents(objects, predecessor, parents),
{
    known_changes_are_retained_from(
        objects,
        normalized(changes)->Ok_0,
        0,
        predecessor,
        seq![predecessor],
    );
}

/// Once an operation is recorded it is the one that can be undone next, what was undone before is
/// gone, and there is nothing to redo.
pub proof fn recorded_operations_are_the_newest(
    objects: Seq<ObjectView>,
    tip: ObjectId,
    cursor: ObjectId,
    queue: QueueView,
    title: Seq<u8>,
    changes: Seq<RefChange<Seq<u8>>>,
    message: Seq<u8>,
    parents: Seq<ObjectId>,
    entry: ObjectId,
)
    requires
        queue_at(objects, tip, cursor) == Ok::<_, UndoError>(queue),
        message_says(message) == Ok::<_, UndoError>((title, changes)),
        changes.len() > 0,
        retained(objects, cursor, changes) == Ok::<_, UndoError>(parents),
        object_of(objects, entry) is None,
    ensures
        queue_at(objects.push(queue_commit(entry, message, parents)), entry, entry) == Ok::<
            _,
            UndoError,
        >(
            QueueView {
                tip: entry,
                cursor: entry,
                sentinel: queue.sentinel,
                entries: queue.entries.take(queue.cursor_index).push(
                    StoredEntry { id: entry, title, changes },
                ),
                cursor_index: queue.cursor_index + 1,
            },
        ),
{
    let object = queue_commit(entry, message, parents);
    let more = objects.push(object);
    assert forall|id: ObjectId| object_of(objects, id) is Some implies #[trigger] object_of(
        more,
        id,
    ) == object_of(objects, id) by {
        object_in_more(objects, object, id, 0);
    }
    object_in_more(objects, object, entry, 0);
    queue_leads(objects, tip, cursor, queue);
    let kept = queue.entries.take(queue.cursor_index);
    let entries = kept.push(StoredEntry { id: entry, title, changes });
    let old_chain = queue.entries.reverse();
    let chain = entries.reverse();
    let sentinel = queue.sentinel;
    let skipped = queue.entries.len() - queue.cursor_index;
    assert forall|i: int| 0 < i <= entries.len() implies #[trigger] link(chain, sentinel, i)
        == link(old_chain, sentinel, i - 1 + skipped) by {
        if i < entries.len() {
            assert(chain[i] == entries[entries.len() - 1 - i]);
            assert(old_chain[i - 1 + skipped] == queue.entries[queue.entries.len() - 1 - (i - 1
                + skipped)]);
        }
    }
    assert(chain[0] == entries.last());
    assert(link(chain, sentinel, 1) == cursor);
    retained_in_more(objects, more, changes, 0, seq![cursor]);
    retained_starts(objects, changes, 0, seq![cursor]);
    parsed_in_more(objects, more, sentinel);
    assert forall|i: int| 0 <= i < chain.len() implies parsed_commit(
        more,
        (#[trigger] chain[i]).id,
    ) == Ok::<_, UndoError>(
        ParsedCommit {
            parent: Some(link(chain, sentinel, i + 1)),
            title: chain[i].title,
            changes: chain[i].changes,
        },
    ) by {
        if i > 0 {
            assert(chain[i] == old_chain[i - 1 + skipped]);
            assert(link(chain, sentinel, i + 1) == link(old_chain, sentinel, i + skipped));
            parsed_in_more(objects, more, chain[i].id);
        }
    }
    assert forall|i: int, j: int| 0 <= i < j < chain.len() implies (#[trigger] chain[i]).id != (
    #[trigger] chain[j]).id by {
        assert(chain[j] == old_chain[j - 1 + skipped]);
        assert(parsed_commit(objects, old_chain[j - 1 + skipped].id) is Ok);
        if i > 0 {
            assert(chain[i] == old_chain[i - 1 + skipped]);
        }
    }
    queue_from_leads(more, entry, entries, sentinel, entries.len() as int);
}

/// The edit that moves the cursor from one commit of the queue to another.
pub open spec fn cursor_edit(from: ObjectId, to: ObjectId) -> RefEdit<Seq<u8>> {
    queue_edit(CURSOR_REF.spec_bytes(), Some(from), to)->Ok_0
}

/// What references hold once checked edits were made, unless one of them found something else than it
/// expects.
pub open spec fn edited(store: Store, edits: Seq<RefEdit<Seq<u8>>>) -> Option<Store> {
    match changes_made(edits, 0, Seq::empty()) {
        Ok(changes) => applied(store, changes),
        Err(_) => None,
    }
}

proof fn steps_restore(
    changes: Seq<RefChange<Seq<u8>>>,
    cursor: ObjectId,
    undone: ObjectId,
    store: Store,
)
    requires
        storable(changes),
        edits_of(reversed_all(changes), 0, Seq::empty()) is Ok,
        edits_of(changes, 0, Seq::empty()) is Ok,
        valid_name(CURSOR_REF.spec_bytes()),
    ensures
        ({
            let back = edits_of(reversed_all(changes), 0, Seq::empty())->Ok_0.push(
                cursor_edit(cursor, undone),
            );
            let forth = edits_of(changes, 0, Seq::empty())->Ok_0.push(cursor_edit(undone, cursor));
            edited(store, back) matches Some(after) ==> (edited(after, forth) matches Some(end)
                && forall|name: Seq<u8>| #[trigger] end(name) == store(name))
        }),
{
    let taken = reversed_all(changes);
    assert(reversed_all(taken) == changes);
    let back = edits_of(taken, 0, Seq::empty())->Ok_0;
    let forth = edits_of(changes, 0, Seq::empty())->Ok_0;
    let name = CURSOR_REF.spec_bytes();
    let there = RefChange { name, before: State::Object(cursor), after: State::Object(undone) };
    checked_edits_make_changes(taken, back, cursor_edit(cursor, undone), there);
    checked_edits_make_changes(changes, forth, cursor_edit(undone, cursor), reverse(there));
    assert forall|i: int, j: int| 0 <= i < j < taken.len() implies before(
        (#[trigger] taken[i]).name,
        (#[trigger] taken[j]).name,
    ) by {
        assert(before(changes[i].name, changes[j].name));
    }
    if has_change(taken, name) {
        let i = choose|i: int| 0 <= i < taken.len() && (#[trigger] taken[i]).name == name;
        assert(changes[i].name == name);
        assert(crate::undo::queue_ref(changes[i].name));
    }
    if let Some(after) = edited(store, back.push(cursor_edit(cursor, undone))) {
        moves_are_taken_back(taken, there, store, after);
    }
}

/// Undoing an operation and making it again crosses the same operation with opposite changes, and
/// leads back to where the queue was: the edits of the step forward are the checked ones of its changes
/// with the one of the cursor behind them, and they bring every reference back to what it held before.
pub proof fn redo_takes_back_undo(
    objects: Seq<ObjectView>,
    tip: ObjectId,
    cursor: ObjectId,
    queue: QueueView,
    store: Store,
)
    requires
        queue_at(objects, tip, cursor) == Ok::<_, UndoError>(queue),
        undo_of(queue) matches Ok(Some(_)),
    ensures
        ({
            let undo = undo_of(queue)->Ok_0->0;
            let undone = queue.commit_at(queue.cursor_index - 1);
            let back = queue_at(objects, tip, undone);
            &&& back matches Ok(before_it)
            &&& undo.position == before_it.position(before_it.cursor_index)
            &&& redo_of(before_it) matches Ok(Some(redo))
            &&& redo.title == undo.title
            &&& undo.changes == reversed_all(redo.changes)
            &&& redo.changes == reversed_all(undo.changes)
            &&& redo.position == queue.position(queue.cursor_index)
            &&& before_it.commit_at(before_it.cursor_index + 1) == cursor
            &&& edits_of(redo.changes, 0, Seq::empty()) matches Ok(edits) && redo.edits
                == edits.push(cursor_edit(undone, cursor))
            &&& edited(store, undo.edits) matches Some(after) ==> (edited(
                after,
                redo.edits,
            ) matches Some(end) && forall|name: Seq<u8>| #[trigger] end(name) == store(name))
        }),
{
    queue_leads(objects, tip, cursor, queue);
    cursor_moves(objects, tip, cursor, queue, queue.cursor_index - 1);
    let undone = queue.commit_at(queue.cursor_index - 1);
    let before_it = queue_at(objects, tip, undone)->Ok_0;
    steps_can_be_planned(objects, tip, undone, before_it);
    let entry = queue.entries[queue.cursor_index - 1];
    let changes = entry.changes;
    assert(reversed_all(reversed_all(changes)) == changes);
    entry_changes_are_storable(objects, tip, cursor, queue, queue.cursor_index - 1);
    steps_restore(changes, cursor, undone, store);
}

proof fn section_changes_are_storable(
    sections: Seq<SectionView>,
    at: int,
    done: Seq<RefChange<Seq<u8>>>,
)
    requires
        storable(done),
        section_changes(sections, at, done) is Ok,
    ensures
        storable(section_changes(sections, at, done)->Ok_0),
    decreases sections.len() - at,
{
    if 0 <= at < sections.len() {
        let previous = if done.len() > 0 {
            Some(done.last().name)
        } else {
            None
        };
        let change = section_change(sections[at], previous)->Ok_0;
        let next = done.push(change);
        assert forall|i: int, j: int| 0 <= i < j < next.len() implies before(
            (#[trigger] next[i]).name,
            (#[trigger] next[j]).name,
        ) by {
            if j == done.len() {
                assert(before(done.last().name, change.name));
                if i < done.len() - 1 {
                    assert(before(done[i].name, done[done.len() - 1].name));
                    crate::bytes::before_transitive(done[i].name, done.last().name, change.name);
                }
            } else {
                assert(before(done[i].name, done[j].name));
            }
        }
        section_changes_are_storable(sections, at + 1, next);
    }
}

/// What is read of an entry is as entries hold it: in the order of the references, never about the
/// queue itself, and without changes that change nothing.
pub proof fn read_changes_are_storable(config: Seq<u8>)
    requires
        config_changes(config) is Ok,
    ensures
        storable(config_changes(config)->Ok_0),
{
    let sections = parsed_config(config)->0;
    section_changes_are_storable(sections, 1, Seq::empty());
}

/// Whether a section gives a change, with exactly the two keys that it takes.
pub open spec fn gives(section: SectionView, change: RefChange<Seq<u8>>) -> bool {
    &&& section.name == "ref".spec_bytes()
    &&& section.subsection == Some(change.name)
    &&& valid_name(change.name)
    &&& has_keys(section, seq!["before".spec_bytes(), "after".spec_bytes()])
    &&& section.entries[0].value matches Some(value) && decoded_state(value) == Ok::<_, UndoError>(
        change.before,
    )
    &&& section.entries[1].value matches Some(value) && decoded_state(value) == Ok::<_, UndoError>(
        change.after,
    )
}

proof fn section_changes_are_given(
    sections: Seq<SectionView>,
    at: int,
    done: Seq<RefChange<Seq<u8>>>,
    all: Seq<RefChange<Seq<u8>>>,
)
    requires
        1 <= at <= sections.len(),
        done.len() == at - 1,
        section_changes(sections, at, done) == Ok::<_, UndoError>(all),
        forall|i: int| 1 <= i < at ==> gives(#[trigger] sections[i], done[i - 1]),
    ensures
        all.len() == sections.len() - 1,
        forall|i: int| 1 <= i < sections.len() ==> gives(#[trigger] sections[i], all[i - 1]),
    decreases sections.len() - at,
{
    if at < sections.len() {
        let previous = if done.len() > 0 {
            Some(done.last().name)
        } else {
            None
        };
        let change = section_change(sections[at], previous)->Ok_0;
        assert(gives(sections[at], change));
        let next = done.push(change);
        assert forall|i: int| 1 <= i < at + 1 implies gives(#[trigger] sections[i], next[i - 1]) by {
            if i < at {
                assert(gives(sections[i], done[i - 1]));
            }
        }
        section_changes_are_given(sections, at + 1, next, all);
    }
}

/// Metadata is read strictly: what is accepted holds the version and nothing else in its first section,
/// and behind it one section for each change with nothing but what the reference held before and holds
/// after. Other keys and sections, changes that change nothing, and changes of the queue itself are
/// refused.
pub proof fn metadata_is_read_strictly(config: Seq<u8>)
    requires
        config_changes(config) is Ok,
    ensures
        ({
            let changes = config_changes(config)->Ok_0;
            &&& parsed_config(config) matches Some(sections)
            &&& sections.len() == changes.len() + 1
            &&& sections[0] == version_section()
            &&& forall|i: int| 1 <= i < sections.len() ==> gives(#[trigger] sections[i], changes[i - 1])
            &&& storable(changes)
        }),
{
    let sections = parsed_config(config)->0;
    let changes = config_changes(config)->Ok_0;
    assert(has_keys(sections[0], seq!["version".spec_bytes()]));
    assert(sections[0].entries[0].key == "version".spec_bytes());
    assert(sections[0].entries == version_section().entries);
    section_changes_are_given(sections, 1, Seq::empty(), changes);
    read_changes_are_storable(config);
}

proof fn entry_changes_are_storable(
    objects: Seq<ObjectView>,
    tip: ObjectId,
    cursor: ObjectId,
    queue: QueueView,
    at: int,
)
    requires
        queue_at(objects, tip, cursor) == Ok::<_, UndoError>(queue),
        0 <= at < queue.entries.len(),
    ensures
        storable(queue.entries[at].changes),
{
    queue_leads(objects, tip, cursor, queue);
    let chain = queue.entries.reverse();
    let i = queue.entries.len() - 1 - at;
    assert(chain[i] == queue.entries[at]);
    assert(parsed_commit(objects, chain[i].id) is Ok);
    if let Some(Stored::Commit { empty_tree, message, parents }) = object_of(
        objects,
        chain[i].id,
    ) {
        let (title, body) = crate::text::title_and_body(message);
        read_changes_are_storable(body->0);
    }
}

proof fn edits_exist(changes: Seq<RefChange<Seq<u8>>>, at: int, done: Seq<RefEdit<Seq<u8>>>)
    requires
        forall|i: int| 0 <= i < changes.len() ==> (#[trigger] changes[i]).before != changes[i].after,
    ensures
        edits_of(changes, at, done) is Ok,
    decreases changes.len() - at,
{
    if 0 <= at < changes.len() {
        assert(changes[at].before != changes[at].after);
        edits_exist(changes, at + 1, done.push(edit_of(changes[at])->Ok_0));
    }
}

/// Every operation before the cursor can be undone, and every one behind it can be made again.
pub proof fn steps_can_be_planned(
    objects: Seq<ObjectView>,
    tip: ObjectId,
    cursor: ObjectId,
    queue: QueueView,
)
    requires
        queue_at(objects, tip, cursor) == Ok::<_, UndoError>(queue),
        valid_name(CURSOR_REF.spec_bytes()),
    ensures
        undo_of(queue) is Ok,
        redo_of(queue) is Ok,
        undo_of(queue)->Ok_0 is Some == (queue.cursor_index > 0),
        redo_of(queue)->Ok_0 is Some == (queue.cursor_index < queue.entries.len()),
{
    queue_leads(objects, tip, cursor, queue);
    assert forall|k: int| 0 <= k < queue.entries.len() implies storable(
        (#[trigger] queue.entries[k]).changes,
    ) by {
        entry_changes_are_storable(objects, tip, cursor, queue, k);
    }
    if queue.cursor_index > 0 {
        let changes = queue.entries[queue.cursor_index - 1].changes;
        let back = reversed_all(changes);
        assert forall|i: int| 0 <= i < back.len() implies (#[trigger] back[i]).before
            != back[i].after by {
            assert(changes[i].before != changes[i].after);
        }
        edits_exist(back, 0, Seq::empty());
    }
    if queue.cursor_index < queue.entries.len() {
        let changes = queue.entries[queue.cursor_index].changes;
        assert(storable(changes));
        edits_exist(changes, 0, Seq::empty());
    }
}

} // verus!
