//! Recording operations in the undo queue.
use vstd::prelude::*;
use vstd::string::StringSliceAdditionalSpecFns;
use crate::bytes;
use crate::bytes::LF;
use crate::ids::ObjectId;
use crate::names::{valid_name, FullName};
use crate::plan::{viewed, viewed_push};
use crate::refs::{find_state, state_of, Reference, State};
use crate::review::identity::{number_of, review_number};
use crate::text::parts_come_back;
use crate::undo::changes::{
    checked_edit, copy_changes, edit_of, normalize_changes, normalized, RefChange, RefEdit,
};
use crate::undo::config::{
    config_changes, fits, parsed_config, sections_of, serialize_config, start_is_writable, storable, writable,
};
use crate::undo::queue::{
    direct, load, loaded, message_says, parse_commit, parsed_commit, read_queue_ref, retained,
    retention_parents, title_error, validate_title, ObjectView, Objects, START_TITLE,
};
use crate::undo::steps::{queue_edit, queue_names_are_plain, queue_update};
use crate::undo::{is_queue_ref, queue_ref, UndoError, CURSOR_REF, TIP_REF};

verus! {

/// The edit that deletes a reference which holds `state`, behind `done`.
pub open spec fn deleting(
    done: Seq<RefEdit<Seq<u8>>>,
    name: Seq<u8>,
    state: State<Seq<u8>>,
) -> Result<Seq<RefEdit<Seq<u8>>>, UndoError> {
    if state is Missing {
        Ok(done)
    } else if !valid_name(name) {
        Err(UndoError::InvalidName)
    } else {
        match edit_of(RefChange { name, before: state, after: State::Missing }) {
            Ok(edit) => Ok(done.push(edit)),
            Err(err) => Err(err),
        }
    }
}

/// The edits that discard the queue.
pub open spec fn cleared(tip: State<Seq<u8>>, cursor: State<Seq<u8>>) -> Result<
    Seq<RefEdit<Seq<u8>>>,
    UndoError,
> {
    match deleting(Seq::empty(), TIP_REF.spec_bytes(), tip) {
        Err(err) => Err(err),
        Ok(edits) => deleting(edits, CURSOR_REF.spec_bytes(), cursor),
    }
}

fn delete(edits: &mut Vec<RefEdit<FullName>>, name: &str, state: &State<FullName>) -> (r: Result<
    (),
    UndoError,
>)
    ensures
        match r {
            Ok(()) => deleting(viewed(old(edits)@), name.spec_bytes(), state@) == Ok::<
                _,
                UndoError,
            >(viewed(final(edits)@)),
            Err(err) => deleting(viewed(old(edits)@), name.spec_bytes(), state@) == Err::<
                Seq<RefEdit<Seq<u8>>>,
                _,
            >(err),
        },
{
    if let State::Missing = state {
        return Ok(());
    }
    let name = match FullName::new(name.as_bytes()) {
        None => return Err(UndoError::InvalidName),
        Some(name) => name,
    };
    match checked_edit(&RefChange { name, before: state.copy(), after: State::Missing }) {
        Err(err) => Err(err),
        Ok(edit) => {
            proof {
                viewed_push(edits@, edit);
            }
            edits.push(edit);
            Ok(())
        },
    }
}

/// The edits that discard the queue; none if there is no queue.
pub fn clear(tip: &State<FullName>, cursor: &State<FullName>) -> (r: Result<
    Vec<RefEdit<FullName>>,
    UndoError,
>)
    ensures
        match r {
            Ok(edits) => cleared(tip@, cursor@) == Ok::<_, UndoError>(viewed(edits@)),
            Err(err) => cleared(tip@, cursor@) == Err::<Seq<RefEdit<Seq<u8>>>, _>(err),
        },
{
    let mut edits: Vec<RefEdit<FullName>> = Vec::new();
    assert(viewed(edits@) == Seq::<RefEdit<Seq<u8>>>::empty());
    if let Err(err) = delete(&mut edits, TIP_REF, tip) {
        return Err(err);
    }
    match delete(&mut edits, CURSOR_REF, cursor) {
        Err(err) => Err(err),
        Ok(()) => Ok(edits),
    }
}

/// What is to be done to record an operation.
#[derive(PartialEq, Eq, Debug)]
pub enum Recording<E, C> {
    /// A review is active: the queue is discarded with these edits.
    Discard(E),
    /// The changes cancel each other out.
    Unchanged,
    /// An entry with these changes goes on top of the commit that the cursor is on, or on top of
    /// a new start. It replaces the tip and the cursor.
    Entry { queue: Option<(ObjectId, ObjectId)>, changes: C },
}

/// What is to be done to record an operation, in specifications.
pub type RecordingView = Recording<Seq<RefEdit<Seq<u8>>>, Seq<RefChange<Seq<u8>>>>;

impl View for Recording<Vec<RefEdit<FullName>>, Vec<RefChange<FullName>>> {
    type V = RecordingView;

    open spec fn view(&self) -> RecordingView {
        match self {
            Recording::Discard(edits) => Recording::Discard(viewed(edits@)),
            Recording::Unchanged => Recording::Unchanged,
            Recording::Entry { queue, changes } => Recording::Entry {
                queue: *queue,
                changes: viewed(changes@),
            },
        }
    }
}

/// What is to be done to record an operation.
pub open spec fn recording(
    title: Seq<u8>,
    changes: Seq<RefChange<Seq<u8>>>,
    review: bool,
    objects: Seq<ObjectView>,
    tip: State<Seq<u8>>,
    cursor: State<Seq<u8>>,
) -> Result<RecordingView, UndoError> {
    match title_error(title) {
        Some(err) => Err(err),
        None => if review {
            match cleared(tip, cursor) {
                Err(err) => Err(err),
                Ok(edits) => Ok(Recording::Discard(edits)),
            }
        } else {
            match normalized(changes) {
                Err(err) => Err(err),
                Ok(changes) => if changes.len() == 0 {
                    Ok(Recording::Unchanged)
                } else {
                    match loaded(objects, tip, cursor) {
                        Err(err) => Err(err),
                        Ok(None) => Ok(Recording::Entry { queue: None, changes }),
                        Ok(Some(queue)) => Ok(
                            Recording::Entry { queue: Some((queue.tip, queue.cursor)), changes },
                        ),
                    }
                },
            }
        },
    }
}

/// Whether one of the references belongs to a review that is active.
pub open spec fn review_blocks(names: Seq<Seq<u8>>) -> bool {
    exists|i: int| 0 <= i < names.len() && number_of(#[trigger] names[i]) is Some
}

/// Whether a review is active. The queue is not available then.
pub fn review_blocks_undo(references: &Vec<FullName>) -> (r: bool)
    ensures
        r == review_blocks(viewed(references@)),
{
    let ghost names = viewed(references@);
    let mut at: usize = 0;
    while at < references.len()
        invariant
            at <= references@.len(),
            names == viewed(references@),
            forall|i: int| 0 <= i < at ==> number_of(#[trigger] names[i]) is None,
        decreases references@.len() - at,
    {
        assert(names[at as int] == references@[at as int]@);
        if review_number(references[at].as_bytes()).is_some() {
            return true;
        }
        at = at + 1;
    }
    false
}

/// Decides what is to be done to record an operation that was successful.
pub fn record(
    title: &str,
    changes: &Vec<RefChange<FullName>>,
    references: &Vec<FullName>,
    objects: &Objects,
    tip: &State<FullName>,
    cursor: &State<FullName>,
) -> (r: Result<Recording<Vec<RefEdit<FullName>>, Vec<RefChange<FullName>>>, UndoError>)
    ensures
        ({
            let expected = recording(
                title.spec_bytes(),
                viewed(changes@),
                review_blocks(viewed(references@)),
                viewed(objects@),
                tip@,
                cursor@,
            );
            match r {
                Ok(recording) => expected == Ok::<_, UndoError>(recording@),
                Err(err) => expected == Err::<RecordingView, _>(err),
            }
        }),
{
    if let Err(err) = validate_title(title) {
        return Err(err);
    }
    if review_blocks_undo(references) {
        return match clear(tip, cursor) {
            Err(err) => Err(err),
            Ok(edits) => Ok(Recording::Discard(edits)),
        };
    }
    let changes = match normalize_changes(copy_changes(changes)) {
        Err(err) => return Err(err),
        Ok(changes) => changes,
    };
    if changes.len() == 0 {
        return Ok(Recording::Unchanged);
    }
    match load(objects, tip, cursor) {
        Err(err) => Err(err),
        Ok(None) => Ok(Recording::Entry { queue: None, changes }),
        Ok(Some(queue)) => Ok(
            Recording::Entry { queue: Some((queue.tip, queue.cursor)), changes },
        ),
    }
}

/// The message of a commit of the queue.
pub open spec fn message_of(title: Seq<u8>, config: Seq<u8>) -> Seq<u8> {
    title + seq![LF, LF] + config
}

/// A title and the metadata of changes read back from the message that they make.
pub proof fn message_reads_back(
    title: &str,
    config: Seq<u8>,
    changes: Seq<RefChange<Seq<u8>>>,
)
    requires
        title_error(title.spec_bytes()) is None,
        config.len() > 0,
        config_changes(config) == Ok::<_, UndoError>(changes),
    ensures
        message_says(message_of(title.spec_bytes(), config)) == Ok::<_, UndoError>(
            (title.spec_bytes(), changes),
        ),
{
    broadcast use vstd::utf8::encode_utf8_valid_utf8;

    let text = title.spec_bytes();
    assert forall|i: int| 0 <= i < text.len() implies text[i] != LF && text[i]
        != crate::bytes::CR by {
        assert(!crate::undo::queue::ends_line(text[i]));
    }
    parts_come_back(text, config);
}

/// The message of a commit of the queue, from its title and the metadata as it was written. It says
/// what the title and the metadata say.
pub fn commit_message(title: &str, config: &[u8]) -> (r: Vec<u8>)
    ensures
        r@ == message_of(title.spec_bytes(), config@),
        title_error(title.spec_bytes()) is None && config@.len() > 0 ==> (config_changes(
            config@,
        ) matches Ok(changes) ==> message_says(r@) == Ok::<_, UndoError>(
            (title.spec_bytes(), changes),
        )),
{
    let mut message = bytes::copied(title.as_bytes());
    message.push(LF);
    message.push(LF);
    bytes::append(&mut message, config);
    proof {
        assert(message@ == message_of(title.spec_bytes(), config@));
        if title_error(title.spec_bytes()) is None && config@.len() > 0 {
            if let Ok(changes) = config_changes(config@) {
                message_reads_back(title, config@, changes);
            }
        }
    }
    message
}

/// Whether metadata that was written is not empty and gives changes, unless it is too long to be read.
pub open spec fn says(config: Seq<u8>, changes: Seq<RefChange<Seq<u8>>>) -> bool {
    &&& config.len() > 0
    &&& fits(config) ==> parsed_config(config) == Some(sections_of(changes))
    &&& fits(config) && storable(changes) ==> config_changes(config) == Ok::<_, UndoError>(changes)
}

fn write_message(title: &str, changes: &Vec<RefChange<FullName>>) -> (r: Result<
    Vec<u8>,
    UndoError,
>)
    requires
        title_error(title.spec_bytes()) is None,
    ensures
        writable(sections_of(viewed(changes@))) ==> r is Ok,
        r matches Err(err) ==> err == UndoError::NotSerializable,
        r matches Ok(message) ==> exists|config: Seq<u8>|
            message@ == #[trigger] message_of(title.spec_bytes(), config) && says(
                config,
                viewed(changes@),
            ),
        r matches Ok(message) ==> (storable(viewed(changes@)) && (fits(message@) || writable(
            sections_of(viewed(changes@)),
        )) ==> message_says(message@) == Ok::<_, UndoError>((title.spec_bytes(), viewed(changes@)))),
{
    let config = match serialize_config(changes) {
        Err(err) => return Err(err),
        Ok(config) => config,
    };
    let message = commit_message(title, config.as_slice());
    proof {
        assert(says(config@, viewed(changes@)));
        if storable(viewed(changes@)) && fits(config@) {
            message_reads_back(title, config@, viewed(changes@));
        }
    }
    Ok(message)
}

/// A commit of the queue that is to be written, with the empty tree.
#[derive(PartialEq, Eq, Debug)]
pub struct NewCommit {
    pub message: Vec<u8>,
    pub parents: Vec<ObjectId>,
}

/// The commit that a queue starts with. It can always be written, and reads back as that.
pub fn start_commit() -> (r: Result<NewCommit, UndoError>)
    ensures
        r is Ok,
        r matches Ok(commit) ==> commit.parents@.len() == 0 && message_says(commit.message@)
            == Ok::<_, UndoError>((START_TITLE.spec_bytes(), Seq::<RefChange<Seq<u8>>>::empty())),
{
    let changes: Vec<RefChange<FullName>> = Vec::new();
    proof {
        start_title_is_valid();
        start_is_writable();
        assert(viewed(changes@) == Seq::<RefChange<Seq<u8>>>::empty());
    }
    match write_message(START_TITLE, &changes) {
        Err(err) => Err(err),
        Ok(message) => {
            assert(viewed(changes@) == Seq::<RefChange<Seq<u8>>>::empty());
            Ok(NewCommit { message, parents: Vec::new() })
        },
    }
}

proof fn start_title_is_valid()
    ensures
        title_error(START_TITLE.spec_bytes()) is None,
{
    broadcast use vstd::string::is_ascii_spec_bytes;

    reveal_strlit("start of undo history");
    assert(vstd::string::is_ascii(START_TITLE));
    assert(START_TITLE.spec_bytes() =~= seq![
        115u8, 116, 97, 114, 116, 32, 111, 102, 32, 117, 110, 100, 111, 32, 104, 105, 115, 116,
        111, 114, 121,
    ]);
}

/// The commit of an entry on top of another commit of the queue. It can be written if its title is valid,
/// the objects are known that its changes are about, and the changes fit into a file. Its parents are what
/// it needs, and its title and its changes read back from its message, unless that is too long to be read.
pub fn entry_commit(
    objects: &Objects,
    title: &str,
    changes: &Vec<RefChange<FullName>>,
    predecessor: ObjectId,
) -> (r: Result<NewCommit, UndoError>)
    ensures
        r matches Ok(commit) ==> {
            &&& title_error(title.spec_bytes()) is None
            &&& retained(viewed(objects@), predecessor, viewed(changes@)) == Ok::<_, UndoError>(
                commit.parents@,
            )
            &&& exists|config: Seq<u8>|
                commit.message@ == #[trigger] message_of(title.spec_bytes(), config) && says(
                    config,
                    viewed(changes@),
                )
            &&& storable(viewed(changes@)) && (fits(commit.message@) || writable(
                sections_of(viewed(changes@)),
            )) ==> message_says(commit.message@) == Ok::<_, UndoError>(
                (title.spec_bytes(), viewed(changes@)),
            )
        },
        title_error(title.spec_bytes()) matches Some(err) ==> r == Err::<NewCommit, _>(err),
        title_error(title.spec_bytes()) is None && writable(sections_of(viewed(changes@))) ==> match retained(
            viewed(objects@),
            predecessor,
            viewed(changes@),
        ) {
            Ok(_) => r is Ok,
            Err(err) => r == Err::<NewCommit, _>(err),
        },
        title_error(title.spec_bytes()) is None ==> (r matches Err(err) ==> err
            == UndoError::NotSerializable || retained(viewed(objects@), predecessor, viewed(changes@))
            == Err::<Seq<ObjectId>, _>(err)),
{
    if let Err(err) = validate_title(title) {
        return Err(err);
    }
    let message = match write_message(title, changes) {
        Err(err) => return Err(err),
        Ok(message) => message,
    };
    match retention_parents(objects, predecessor, changes) {
        Err(err) => Err(err),
        Ok(parents) => Ok(NewCommit { message, parents }),
    }
}

/// The edits that put an entry on top of the queue.
pub open spec fn published(queue: Option<(ObjectId, ObjectId)>, entry: ObjectId) -> Result<
    Seq<RefEdit<Seq<u8>>>,
    UndoError,
> {
    let (tip, cursor) = match queue {
        None => (None, None),
        Some((tip, cursor)) => (Some(tip), Some(cursor)),
    };
    match queue_edit(TIP_REF.spec_bytes(), tip, entry) {
        Err(err) => Err(err),
        Ok(first) => match queue_edit(CURSOR_REF.spec_bytes(), cursor, entry) {
            Err(err) => Err(err),
            Ok(second) => Ok(seq![first, second]),
        },
    }
}

/// The edits that put an entry on top of the queue, where `queue` are the tip and the cursor that
/// it replaces.
pub fn publish(queue: Option<(ObjectId, ObjectId)>, entry: ObjectId) -> (r: Result<
    Vec<RefEdit<FullName>>,
    UndoError,
>)
    ensures
        match r {
            Ok(edits) => published(queue, entry) == Ok::<_, UndoError>(viewed(edits@)),
            Err(err) => published(queue, entry) == Err::<Seq<RefEdit<Seq<u8>>>, _>(err),
        },
        r is Ok,
{
    proof {
        queue_names_are_plain();
    }
    let (tip, cursor) = match queue {
        None => (None, None),
        Some((tip, cursor)) => (Some(tip), Some(cursor)),
    };
    let first = match queue_update(TIP_REF, tip, entry) {
        Err(err) => return Err(err),
        Ok(edit) => edit,
    };
    let second = match queue_update(CURSOR_REF, cursor, entry) {
        Err(err) => return Err(err),
        Ok(edit) => edit,
    };
    let mut edits: Vec<RefEdit<FullName>> = Vec::new();
    edits.push(first);
    edits.push(second);
    assert(viewed(edits@) == seq![first@, second@]);
    Ok(edits)
}

/// Whether a commit is on the chain of the queue from `id` on, where `seen` are the commits before
/// and at most `steps` commits follow. The chain ends at what is no commit of the queue.
pub open spec fn on_chain(
    objects: Seq<ObjectView>,
    id: ObjectId,
    needle: ObjectId,
    seen: Seq<ObjectId>,
    steps: nat,
) -> Result<bool, UndoError>
    decreases steps,
{
    if steps == 0 || seen.contains(id) {
        Err(UndoError::CyclicChain)
    } else {
        match parsed_commit(objects, id) {
            Err(_) => Ok(false),
            Ok(parsed) => if id == needle {
                Ok(true)
            } else {
                match parsed.parent {
                    None => Ok(false),
                    Some(parent) => on_chain(
                        objects,
                        parent,
                        needle,
                        seen.push(id),
                        (steps - 1) as nat,
                    ),
                }
            },
        }
    }
}

/// Whether a commit belongs to the queue.
pub open spec fn in_queue(
    objects: Seq<ObjectView>,
    tip: State<Seq<u8>>,
    cursor: State<Seq<u8>>,
    needle: ObjectId,
) -> Result<bool, UndoError> {
    match direct(tip) {
        Err(err) => Err(err),
        Ok(tip) => match direct(cursor) {
            Err(err) => Err(err),
            Ok(cursor) => {
                let steps = (objects.len() + 1) as nat;
                match (tip, cursor) {
                    (Some(id), _) => on_chain(objects, id, needle, Seq::empty(), steps),
                    (None, Some(id)) => on_chain(objects, id, needle, Seq::empty(), steps),
                    (None, None) => Ok(false),
                }
            },
        },
    }
}

fn find_on_chain(objects: &Objects, start: ObjectId, needle: ObjectId) -> (r: Result<
    bool,
    UndoError,
>)
    ensures
        r == on_chain(
            viewed(objects@),
            start,
            needle,
            Seq::empty(),
            (objects@.len() + 1) as nat,
        ),
{
    let mut id = start;
    let mut seen: Vec<ObjectId> = Vec::new();
    let mut left: usize = objects.len();
    loop
        invariant
            on_chain(viewed(objects@), start, needle, Seq::empty(), (objects@.len() + 1) as nat)
                == on_chain(viewed(objects@), id, needle, seen@, (left + 1) as nat),
        decreases left,
    {
        if crate::ids::contains_id(seen.as_slice(), id) {
            return Err(UndoError::CyclicChain);
        }
        let parsed = match parse_commit(objects, id) {
            Err(_) => return Ok(false),
            Ok(parsed) => parsed,
        };
        if id == needle {
            return Ok(true);
        }
        match parsed.parent {
            None => return Ok(false),
            Some(parent) => {
                seen.push(id);
                id = parent;
            },
        }
        if left == 0 {
            assert(on_chain(viewed(objects@), id, needle, seen@, 0) is Err);
            return Err(UndoError::CyclicChain);
        }
        left = left - 1;
    }
}

/// Whether a commit belongs to the queue. Of a queue with only one of its references, what that
/// one leads to belongs to it.
pub fn is_queue_commit(
    objects: &Objects,
    tip: &State<FullName>,
    cursor: &State<FullName>,
    needle: ObjectId,
) -> (r: Result<bool, UndoError>)
    ensures
        r == in_queue(viewed(objects@), tip@, cursor@, needle),
{
    let tip = match read_queue_ref(tip) {
        Err(err) => return Err(err),
        Ok(tip) => tip,
    };
    let cursor = match read_queue_ref(cursor) {
        Err(err) => return Err(err),
        Ok(cursor) => cursor,
    };
    match (tip, cursor) {
        (Some(id), _) => find_on_chain(objects, id, needle),
        (None, Some(id)) => find_on_chain(objects, id, needle),
        (None, None) => Ok(false),
    }
}

/// Whether a reference leads to the queue through symbolic references, where `seen` led to it and
/// at most `steps` references follow.
pub open spec fn leads_to_queue(
    references: Seq<Reference<Seq<u8>>>,
    name: Seq<u8>,
    seen: Seq<Seq<u8>>,
    steps: nat,
) -> Result<bool, UndoError>
    decreases steps,
{
    if queue_ref(name) {
        Ok(true)
    } else if steps == 0 || seen.contains(name) {
        Err(UndoError::CyclicReference)
    } else {
        match state_of(references, name) {
            State::Symbolic(next) => leads_to_queue(
                references,
                next,
                seen.push(name),
                (steps - 1) as nat,
            ),
            _ => Ok(false),
        }
    }
}

/// Whether a reference leads to the queue through symbolic references.
pub fn ref_chain_reaches_queue(references: &Vec<Reference<FullName>>, name: &FullName) -> (r:
    Result<bool, UndoError>)
    ensures
        r == leads_to_queue(
            viewed(references@),
            name@,
            Seq::empty(),
            (references@.len() + 1) as nat,
        ),
{
    let mut current = name.clone();
    let mut seen: Vec<FullName> = Vec::new();
    let mut left: usize = references.len();
    assert(viewed(seen@) == Seq::<Seq<u8>>::empty());
    loop
        invariant
            leads_to_queue(
                viewed(references@),
                name@,
                Seq::empty(),
                (references@.len() + 1) as nat,
            ) == leads_to_queue(viewed(references@), current@, viewed(seen@), (left + 1) as nat),
        decreases left,
    {
        if is_queue_ref(current.as_bytes()) {
            return Ok(true);
        }
        if crate::refs::contains_name(&seen, &current) {
            return Err(UndoError::CyclicReference);
        }
        match find_state(references, &current) {
            State::Symbolic(next) => {
                proof {
                    viewed_push(seen@, current);
                }
                seen.push(current);
                current = next;
            },
            _ => return Ok(false),
        }
        if left == 0 {
            let at_queue = is_queue_ref(current.as_bytes());
            assert(leads_to_queue(viewed(references@), current@, viewed(seen@), 0) == if at_queue {
                Ok::<bool, UndoError>(true)
            } else {
                Err(UndoError::CyclicReference)
            });
            return if at_queue {
                Ok(true)
            } else {
                Err(UndoError::CyclicReference)
            };
        }
        left = left - 1;
    }
}

} // verus!
