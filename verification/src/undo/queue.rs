//! The undo queue: a chain of commits, each with the changes of one operation, and a cursor on it.
use vstd::prelude::*;
use vstd::string::StringSliceAdditionalSpecFns;
use vstd::utf8::valid_utf8;
use crate::bytes;
use crate::bytes::{CR, LF};
use crate::ids::{contains_id, ObjectId};
use crate::names::FullName;
use crate::plan::{viewed, viewed_option, viewed_push};
use crate::refs::State;
use crate::text::{is_utf8, message_parts, title_and_body};
use crate::undo::changes::RefChange;
use crate::undo::config::{config_changes, parse_config};
use crate::undo::UndoError;

verus! {

/// The title of the commit that the queue starts with.
pub const START_TITLE: &'static str = "start of undo history";

/// What is known of an object.
#[derive(PartialEq, Eq, Debug)]
pub enum Stored<T, P> {
    Commit { empty_tree: bool, message: T, parents: P },
    Other,
}

impl<T: View, P: View> View for Stored<T, P> {
    type V = Stored<T::V, P::V>;

    open spec fn view(&self) -> Stored<T::V, P::V> {
        match self {
            Stored::Commit { empty_tree, message, parents } => Stored::Commit {
                empty_tree: *empty_tree,
                message: message@,
                parents: parents@,
            },
            Stored::Other => Stored::Other,
        }
    }
}

/// An object and its id.
#[derive(PartialEq, Eq, Debug)]
pub struct StoredObject<T, P> {
    pub id: ObjectId,
    pub object: Stored<T, P>,
}

impl<T: View, P: View> View for StoredObject<T, P> {
    type V = StoredObject<T::V, P::V>;

    open spec fn view(&self) -> StoredObject<T::V, P::V> {
        StoredObject { id: self.id, object: self.object@ }
    }
}

/// The objects that are known.
pub type Objects = Vec<StoredObject<Vec<u8>, Vec<ObjectId>>>;

/// An object in specifications.
pub type ObjectView = StoredObject<Seq<u8>, Seq<ObjectId>>;

/// The first object with the given id, at or after `from`.
pub open spec fn object_from(objects: Seq<ObjectView>, id: ObjectId, from: int) -> Option<
    Stored<Seq<u8>, Seq<ObjectId>>,
>
    decreases objects.len() - from,
{
    if from < 0 || from >= objects.len() {
        None
    } else if objects[from].id == id {
        Some(objects[from].object)
    } else {
        object_from(objects, id, from + 1)
    }
}

/// The object with the given id, if it is known.
pub open spec fn object_of(objects: Seq<ObjectView>, id: ObjectId) -> Option<
    Stored<Seq<u8>, Seq<ObjectId>>,
> {
    object_from(objects, id, 0)
}

fn find_object(objects: &Objects, id: ObjectId) -> (r: Option<&Stored<Vec<u8>, Vec<ObjectId>>>)
    ensures
        match r {
            Some(object) => object_of(viewed(objects@), id) == Some(object@),
            None => object_of(viewed(objects@), id) is None,
        },
{
    let mut i: usize = 0;
    while i < objects.len()
        invariant
            i <= objects@.len(),
            object_of(viewed(objects@), id) == object_from(viewed(objects@), id, i as int),
        decreases objects.len() - i,
    {
        if objects[i].id == id {
            return Some(&objects[i].object);
        }
        i = i + 1;
    }
    None
}

/// Whether a byte ends a line.
pub open spec fn ends_line(byte: u8) -> bool {
    byte == LF || byte == CR
}

/// Why a text cannot be the title of an operation.
pub open spec fn title_error(title: Seq<u8>) -> Option<UndoError> {
    if title.len() == 0 {
        Some(UndoError::EmptyTitle)
    } else if exists|i: int| 0 <= i < title.len() && ends_line(#[trigger] title[i]) {
        Some(UndoError::TitleNotOneLine)
    } else {
        None
    }
}

fn check_title(title: &[u8]) -> (r: Result<(), UndoError>)
    ensures
        match r {
            Ok(()) => title_error(title@) is None,
            Err(err) => title_error(title@) == Some(err),
        },
{
    if title.len() == 0 {
        return Err(UndoError::EmptyTitle);
    }
    let mut i: usize = 0;
    while i < title.len()
        invariant
            i <= title@.len(),
            forall|j: int| 0 <= j < i ==> !ends_line(#[trigger] title@[j]),
        decreases title.len() - i,
    {
        if title[i] == LF || title[i] == CR {
            assert(ends_line(title@[i as int]));
            return Err(UndoError::TitleNotOneLine);
        }
        i = i + 1;
    }
    Ok(())
}

/// Checks that the title of an operation is one line that is not empty.
pub fn validate_title(title: &str) -> (r: Result<(), UndoError>)
    ensures
        match r {
            Ok(()) => title_error(title.spec_bytes()) is None,
            Err(err) => title_error(title.spec_bytes()) == Some(err),
        },
{
    check_title(title.as_bytes())
}

/// `parents` with what a reference holds, if that is another commit.
pub open spec fn retaining(
    objects: Seq<ObjectView>,
    parents: Seq<ObjectId>,
    state: State<Seq<u8>>,
) -> Result<Seq<ObjectId>, UndoError> {
    match state {
        State::Object(id) => if parents.contains(id) {
            Ok(parents)
        } else {
            match object_of(objects, id) {
                None => Err(UndoError::UnknownObject),
                Some(Stored::Commit { .. }) => Ok(parents.push(id)),
                Some(Stored::Other) => Ok(parents),
            }
        },
        State::Missing => Ok(parents),
        State::Symbolic(_) => Ok(parents),
    }
}

/// `parents` with the commits that the changes from `at` on are about.
pub open spec fn retained_from(
    objects: Seq<ObjectView>,
    changes: Seq<RefChange<Seq<u8>>>,
    at: int,
    parents: Seq<ObjectId>,
) -> Result<Seq<ObjectId>, UndoError>
    decreases changes.len() - at,
{
    if at < 0 || at >= changes.len() {
        Ok(parents)
    } else {
        match retaining(objects, parents, changes[at].before) {
            Err(err) => Err(err),
            Ok(parents) => match retaining(objects, parents, changes[at].after) {
                Err(err) => Err(err),
                Ok(parents) => retained_from(objects, changes, at + 1, parents),
            },
        }
    }
}

/// The parents of an entry: the entry before it, and each commit that one of its changes is
/// about, which it keeps alive.
pub open spec fn retained(
    objects: Seq<ObjectView>,
    predecessor: ObjectId,
    changes: Seq<RefChange<Seq<u8>>>,
) -> Result<Seq<ObjectId>, UndoError> {
    retained_from(objects, changes, 0, seq![predecessor])
}

fn retain(objects: &Objects, parents: &mut Vec<ObjectId>, state: &State<FullName>) -> (r: Result<
    (),
    UndoError,
>)
    ensures
        match r {
            Ok(()) => retaining(viewed(objects@), old(parents)@, state@) == Ok::<_, UndoError>(
                final(parents)@,
            ),
            Err(err) => retaining(viewed(objects@), old(parents)@, state@) == Err::<
                Seq<ObjectId>,
                _,
            >(err),
        },
{
    if let State::Object(id) = state {
        if !contains_id(parents.as_slice(), *id) {
            match find_object(objects, *id) {
                None => return Err(UndoError::UnknownObject),
                Some(Stored::Commit { .. }) => parents.push(*id),
                Some(Stored::Other) => {},
            }
        }
    }
    Ok(())
}

/// The parents of an entry: the entry before it, and each commit that one of its changes is
/// about, which it keeps alive.
pub fn retention_parents(
    objects: &Objects,
    predecessor: ObjectId,
    changes: &Vec<RefChange<FullName>>,
) -> (r: Result<Vec<ObjectId>, UndoError>)
    ensures
        match r {
            Ok(parents) => retained(viewed(objects@), predecessor, viewed(changes@)) == Ok::<
                _,
                UndoError,
            >(parents@),
            Err(err) => retained(viewed(objects@), predecessor, viewed(changes@)) == Err::<
                Seq<ObjectId>,
                _,
            >(err),
        },
{
    let mut parents: Vec<ObjectId> = Vec::new();
    parents.push(predecessor);
    let mut at: usize = 0;
    assert(parents@ == seq![predecessor]);
    while at < changes.len()
        invariant
            at <= changes@.len(),
            retained(viewed(objects@), predecessor, viewed(changes@)) == retained_from(
                viewed(objects@),
                viewed(changes@),
                at as int,
                parents@,
            ),
        decreases changes.len() - at,
    {
        if let Err(err) = retain(objects, &mut parents, &changes[at].before) {
            return Err(err);
        }
        if let Err(err) = retain(objects, &mut parents, &changes[at].after) {
            return Err(err);
        }
        at = at + 1;
    }
    Ok(parents)
}

/// What a commit of the queue says.
#[derive(PartialEq, Eq, Debug)]
pub struct ParsedCommit<T, C> {
    pub parent: Option<ObjectId>,
    pub title: T,
    pub changes: C,
}

/// What a commit of the queue says, in specifications.
pub type ParsedView = ParsedCommit<Seq<u8>, Seq<RefChange<Seq<u8>>>>;

impl View for ParsedCommit<Vec<u8>, Vec<RefChange<FullName>>> {
    type V = ParsedView;

    open spec fn view(&self) -> ParsedView {
        ParsedCommit {
            parent: self.parent,
            title: self.title@,
            changes: viewed(self.changes@),
        }
    }
}

/// What the commit says that has the given message.
pub open spec fn message_says(message: Seq<u8>) -> Result<
    (Seq<u8>, Seq<RefChange<Seq<u8>>>),
    UndoError,
> {
    let (title, body) = title_and_body(message);
    if !valid_utf8(title) {
        Err(UndoError::TitleNotUtf8)
    } else {
        match title_error(title) {
            Some(err) => Err(err),
            None => match body {
                None => Err(UndoError::NoMetadata),
                Some(body) => match config_changes(body) {
                    Err(err) => Err(err),
                    Ok(changes) => Ok((title, changes)),
                },
            },
        }
    }
}

/// What a commit of the queue says: the start of the queue has no parents and no changes, and
/// each entry has changes, and the parents that it needs.
pub open spec fn parsed_commit(objects: Seq<ObjectView>, id: ObjectId) -> Result<
    ParsedView,
    UndoError,
> {
    match object_of(objects, id) {
        Some(Stored::Commit { empty_tree, message, parents }) => if !empty_tree {
            Err(UndoError::NotEmptyTree)
        } else {
            match message_says(message) {
                Err(err) => Err(err),
                Ok((title, changes)) => if parents.len() == 0 {
                    if title != START_TITLE.spec_bytes() {
                        Err(UndoError::WrongStartTitle)
                    } else if changes.len() > 0 {
                        Err(UndoError::StartHasChanges)
                    } else {
                        Ok(ParsedCommit { parent: None, title, changes })
                    }
                } else if changes.len() == 0 {
                    Err(UndoError::NoChanges)
                } else {
                    match retained(objects, parents[0], changes) {
                        Err(err) => Err(err),
                        Ok(expected) => if parents != expected {
                            Err(UndoError::InvalidRetention)
                        } else {
                            Ok(ParsedCommit { parent: Some(parents[0]), title, changes })
                        },
                    }
                },
            }
        },
        _ => Err(UndoError::CommitNotFound),
    }
}

fn parse_message(message: &[u8]) -> (r: Result<(Vec<u8>, Vec<RefChange<FullName>>), UndoError>)
    ensures
        match r {
            Ok((title, changes)) => message_says(message@) == Ok::<_, UndoError>(
                (title@, viewed(changes@)),
            ),
            Err(err) => message_says(message@) == Err::<
                (Seq<u8>, Seq<RefChange<Seq<u8>>>),
                _,
            >(err),
        },
{
    let (title, body) = message_parts(message);
    if !is_utf8(title.as_slice()) {
        return Err(UndoError::TitleNotUtf8);
    }
    if let Err(err) = check_title(title.as_slice()) {
        return Err(err);
    }
    match body {
        None => Err(UndoError::NoMetadata),
        Some(body) => match parse_config(body.as_slice()) {
            Err(err) => Err(err),
            Ok(changes) => Ok((title, changes)),
        },
    }
}

fn same_ids(a: &[ObjectId], b: &[ObjectId]) -> (r: bool)
    ensures
        r == (a@ == b@),
{
    if a.len() != b.len() {
        return false;
    }
    let mut i: usize = 0;
    while i < a.len()
        invariant
            i <= a@.len(),
            a@.len() == b@.len(),
            forall|j: int| 0 <= j < i ==> a@[j] == b@[j],
        decreases a.len() - i,
    {
        if a[i] != b[i] {
            return false;
        }
        i = i + 1;
    }
    assert(a@ == b@);
    true
}

/// Reads a commit of the queue.
pub fn parse_commit(objects: &Objects, id: ObjectId) -> (r: Result<
    ParsedCommit<Vec<u8>, Vec<RefChange<FullName>>>,
    UndoError,
>)
    ensures
        match r {
            Ok(parsed) => parsed_commit(viewed(objects@), id) == Ok::<_, UndoError>(parsed@),
            Err(err) => parsed_commit(viewed(objects@), id) == Err::<ParsedView, _>(err),
        },
{
    let (empty_tree, message, parents) = match find_object(objects, id) {
        Some(Stored::Commit { empty_tree, message, parents }) => (*empty_tree, message, parents),
        _ => return Err(UndoError::CommitNotFound),
    };
    if !empty_tree {
        return Err(UndoError::NotEmptyTree);
    }
    let (title, changes) = match parse_message(message.as_slice()) {
        Err(err) => return Err(err),
        Ok(parts) => parts,
    };
    if parents.len() == 0 {
        if !bytes::equal(title.as_slice(), START_TITLE.as_bytes()) {
            return Err(UndoError::WrongStartTitle);
        }
        if changes.len() > 0 {
            return Err(UndoError::StartHasChanges);
        }
        return Ok(ParsedCommit { parent: None, title, changes });
    }
    if changes.len() == 0 {
        return Err(UndoError::NoChanges);
    }
    let parent = parents[0];
    let expected = match retention_parents(objects, parent, &changes) {
        Err(err) => return Err(err),
        Ok(expected) => expected,
    };
    if !same_ids(parents.as_slice(), expected.as_slice()) {
        return Err(UndoError::InvalidRetention);
    }
    Ok(ParsedCommit { parent: Some(parent), title, changes })
}

/// An entry of the queue: one operation that can be undone.
#[derive(PartialEq, Eq, Debug)]
pub struct StoredEntry<T, C> {
    pub id: ObjectId,
    pub title: T,
    pub changes: C,
}

/// An entry of the queue, in specifications.
pub type EntryView = StoredEntry<Seq<u8>, Seq<RefChange<Seq<u8>>>>;

/// An entry of the queue as it is read.
pub type QueueEntry = StoredEntry<Vec<u8>, Vec<RefChange<FullName>>>;

impl View for StoredEntry<Vec<u8>, Vec<RefChange<FullName>>> {
    type V = EntryView;

    open spec fn view(&self) -> EntryView {
        StoredEntry { id: self.id, title: self.title@, changes: viewed(self.changes@) }
    }
}

/// The undo queue: its newest entry, the entry that was applied last, the commit that it starts
/// with, its entries from the oldest on, and how many of them are applied.
#[derive(PartialEq, Eq, Debug)]
pub struct Queue {
    pub tip: ObjectId,
    pub cursor: ObjectId,
    pub sentinel: ObjectId,
    pub entries: Vec<QueueEntry>,
    pub cursor_index: usize,
}

/// The undo queue in specifications.
pub struct QueueView {
    pub tip: ObjectId,
    pub cursor: ObjectId,
    pub sentinel: ObjectId,
    pub entries: Seq<EntryView>,
    pub cursor_index: int,
}

impl View for Queue {
    type V = QueueView;

    open spec fn view(&self) -> QueueView {
        QueueView {
            tip: self.tip,
            cursor: self.cursor,
            sentinel: self.sentinel,
            entries: viewed(self.entries@),
            cursor_index: self.cursor_index as int,
        }
    }
}

/// Where the entry with the given id is, at or after `from`.
pub open spec fn entry_slot(entries: Seq<EntryView>, id: ObjectId, from: int) -> Option<int>
    decreases entries.len() - from,
{
    if from < 0 || from >= entries.len() {
        None
    } else if entries[from].id == id {
        Some(from)
    } else {
        entry_slot(entries, id, from + 1)
    }
}

/// The start of the queue and the entries up to it, the newest first, where `done` are those
/// before the commit `id` and at most `steps` commits follow.
pub open spec fn chain_from(
    objects: Seq<ObjectView>,
    id: ObjectId,
    done: Seq<EntryView>,
    steps: nat,
) -> Result<(ObjectId, Seq<EntryView>), UndoError>
    decreases steps,
{
    if steps == 0 || entry_slot(done, id, 0) is Some {
        Err(UndoError::CyclicChain)
    } else {
        match parsed_commit(objects, id) {
            Err(err) => Err(err),
            Ok(parsed) => match parsed.parent {
                None => Ok((id, done)),
                Some(parent) => chain_from(
                    objects,
                    parent,
                    done.push(
                        StoredEntry { id, title: parsed.title, changes: parsed.changes },
                    ),
                    (steps - 1) as nat,
                ),
            },
        }
    }
}

/// The start of the queue and its entries, the newest first.
pub open spec fn chain_of(objects: Seq<ObjectView>, tip: ObjectId) -> Result<
    (ObjectId, Seq<EntryView>),
    UndoError,
> {
    chain_from(objects, tip, Seq::empty(), (objects.len() + 1) as nat)
}

/// The commit that a reference of the queue holds.
pub open spec fn direct(state: State<Seq<u8>>) -> Result<Option<ObjectId>, UndoError> {
    match state {
        State::Missing => Ok(None),
        State::Object(id) => Ok(Some(id)),
        State::Symbolic(_) => Err(UndoError::NotDirect),
    }
}

/// The queue with the given newest entry and cursor.
pub open spec fn queue_at(objects: Seq<ObjectView>, tip: ObjectId, cursor: ObjectId) -> Result<
    QueueView,
    UndoError,
> {
    match chain_of(objects, tip) {
        Err(err) => Err(err),
        Ok((sentinel, newest_first)) => {
            let entries = newest_first.reverse();
            if cursor == sentinel {
                Ok(QueueView { tip, cursor, sentinel, entries, cursor_index: 0 })
            } else {
                match entry_slot(entries, cursor, 0) {
                    None => Err(UndoError::CursorOffChain),
                    Some(index) => Ok(
                        QueueView { tip, cursor, sentinel, entries, cursor_index: index + 1 },
                    ),
                }
            }
        },
    }
}

/// The queue by what its two references hold, none if neither exists.
pub open spec fn loaded(
    objects: Seq<ObjectView>,
    tip: State<Seq<u8>>,
    cursor: State<Seq<u8>>,
) -> Result<Option<QueueView>, UndoError> {
    match direct(tip) {
        Err(err) => Err(err),
        Ok(tip) => match direct(cursor) {
            Err(err) => Err(err),
            Ok(cursor) => match (tip, cursor) {
                (None, None) => Ok(None),
                (Some(tip), Some(cursor)) => match queue_at(objects, tip, cursor) {
                    Err(err) => Err(err),
                    Ok(queue) => Ok(Some(queue)),
                },
                _ => Err(UndoError::OnlyOneReference),
            },
        },
    }
}

/// The commit that a reference of the queue holds. Such a reference is not symbolic.
pub fn read_queue_ref(state: &State<FullName>) -> (r: Result<Option<ObjectId>, UndoError>)
    ensures
        r == direct(state@),
{
    match state {
        State::Missing => Ok(None),
        State::Object(id) => Ok(Some(*id)),
        State::Symbolic(_) => Err(UndoError::NotDirect),
    }
}

proof fn entry_slot_bounds(entries: Seq<EntryView>, id: ObjectId, from: int)
    requires
        0 <= from,
    ensures
        entry_slot(entries, id, from) matches Some(index) ==> from <= index < entries.len()
            && entries[index].id == id,
        entry_slot(entries, id, from) is None ==> forall|i: int|
            from <= i < entries.len() ==> (#[trigger] entries[i]).id != id,
    decreases entries.len() - from,
{
    if from < entries.len() && entries[from].id != id {
        entry_slot_bounds(entries, id, from + 1);
    }
}

fn find_entry(entries: &Vec<QueueEntry>, id: ObjectId) -> (r: Option<usize>)
    ensures
        bytes::index_of(r) == entry_slot(viewed(entries@), id, 0),
        r matches Some(index) ==> index < entries@.len(),
{
    let mut i: usize = 0;
    while i < entries.len()
        invariant
            i <= entries@.len(),
            entry_slot(viewed(entries@), id, 0) == entry_slot(viewed(entries@), id, i as int),
        decreases entries.len() - i,
    {
        if entries[i].id == id {
            return Some(i);
        }
        i = i + 1;
    }
    None
}

fn oldest_first(newest_first: Vec<QueueEntry>) -> (r: Vec<QueueEntry>)
    ensures
        viewed(r@) == viewed(newest_first@).reverse(),
{
    let mut left = newest_first;
    let mut out: Vec<QueueEntry> = Vec::new();
    while left.len() > 0
        invariant
            left@ + out@.reverse() == newest_first@,
        decreases left.len(),
    {
        let ghost rest = left@.drop_last();
        let ghost reversed = out@;
        match left.pop() {
            Some(entry) => {
                out.push(entry);
                assert(left@ + out@.reverse() == newest_first@) by {
                    assert(out@.reverse() == seq![entry] + reversed.reverse());
                    assert(left@ + (seq![entry] + reversed.reverse()) == rest.push(entry)
                        + reversed.reverse());
                }
            },
            None => {},
        }
    }
    assert(viewed(out@) == viewed(newest_first@).reverse()) by {
        assert(newest_first@ == out@.reverse());
    }
    out
}

fn walk(objects: &Objects, tip: ObjectId) -> (r: Result<(ObjectId, Vec<QueueEntry>), UndoError>)
    ensures
        match r {
            Ok((sentinel, entries)) => chain_of(viewed(objects@), tip) == Ok::<_, UndoError>(
                (sentinel, viewed(entries@)),
            ),
            Err(err) => chain_of(viewed(objects@), tip) == Err::<(ObjectId, Seq<EntryView>), _>(
                err,
            ),
        },
{
    let mut id = tip;
    let mut done: Vec<QueueEntry> = Vec::new();
    let mut left: usize = objects.len();
    assert(viewed(done@) == Seq::<EntryView>::empty());
    loop
        invariant
            chain_of(viewed(objects@), tip) == chain_from(
                viewed(objects@),
                id,
                viewed(done@),
                (left + 1) as nat,
            ),
        decreases left,
    {
        if find_entry(&done, id).is_some() {
            return Err(UndoError::CyclicChain);
        }
        let parsed = match parse_commit(objects, id) {
            Err(err) => return Err(err),
            Ok(parsed) => parsed,
        };
        match parsed.parent {
            None => return Ok((id, done)),
            Some(parent) => {
                let entry = StoredEntry { id, title: parsed.title, changes: parsed.changes };
                proof {
                    viewed_push(done@, entry);
                }
                done.push(entry);
                id = parent;
            },
        }
        if left == 0 {
            assert(chain_from(viewed(objects@), id, viewed(done@), 0) is Err);
            return Err(UndoError::CyclicChain);
        }
        left = left - 1;
    }
}

fn queue_from(objects: &Objects, tip: ObjectId, cursor: ObjectId) -> (r: Result<Queue, UndoError>)
    ensures
        match r {
            Ok(queue) => queue_at(viewed(objects@), tip, cursor) == Ok::<_, UndoError>(queue@)
                && queue.cursor_index <= queue.entries@.len(),
            Err(err) => queue_at(viewed(objects@), tip, cursor) == Err::<QueueView, _>(err),
        },
{
    let (sentinel, newest_first) = match walk(objects, tip) {
        Err(err) => return Err(err),
        Ok(chain) => chain,
    };
    let entries = oldest_first(newest_first);
    let _total: usize = entries.len();
    if cursor == sentinel {
        return Ok(Queue { tip, cursor, sentinel, entries, cursor_index: 0 });
    }
    match find_entry(&entries, cursor) {
        None => Err(UndoError::CursorOffChain),
        Some(index) => Ok(Queue { tip, cursor, sentinel, entries, cursor_index: index + 1 }),
    }
}

/// Reads the queue by what its two references hold.
pub fn load(objects: &Objects, tip: &State<FullName>, cursor: &State<FullName>) -> (r: Result<
    Option<Queue>,
    UndoError,
>)
    ensures
        match r {
            Ok(queue) => loaded(viewed(objects@), tip@, cursor@) == Ok::<_, UndoError>(
                viewed_option(queue),
            ),
            Err(err) => loaded(viewed(objects@), tip@, cursor@) == Err::<Option<QueueView>, _>(err),
        },
        r matches Ok(Some(queue)) ==> queue.cursor_index <= queue.entries@.len(),
{
    let tip = match read_queue_ref(tip) {
        Err(err) => return Err(err),
        Ok(tip) => tip,
    };
    let cursor = match read_queue_ref(cursor) {
        Err(err) => return Err(err),
        Ok(cursor) => cursor,
    };
    match (tip, cursor) {
        (None, None) => Ok(None),
        (Some(tip), Some(cursor)) => match queue_from(objects, tip, cursor) {
            Err(err) => Err(err),
            Ok(queue) => Ok(Some(queue)),
        },
        _ => Err(UndoError::OnlyOneReference),
    }
}

} // verus!
