//! Changes of references, and the checked edits that make them.
use vstd::prelude::*;
use crate::bytes::{before, before_irreflexive, before_total, before_transitive, is_before};
use crate::ids::ObjectId;
use crate::names::FullName;
use crate::plan::{viewed, viewed_option, viewed_push};
use crate::refs::State;
use crate::undo::{is_queue_ref, queue_ref, UndoError};

verus! {

/// A change of a reference: what it held and what it holds then.
#[derive(PartialEq, Eq, Debug)]
pub struct RefChange<N> {
    pub name: N,
    pub before: State<N>,
    pub after: State<N>,
}

impl<N: View> View for RefChange<N> {
    type V = RefChange<N::V>;

    open spec fn view(&self) -> RefChange<N::V> {
        RefChange { name: self.name@, before: self.before@, after: self.after@ }
    }
}

/// What a reference points at.
#[derive(PartialEq, Eq, Debug)]
pub enum Target<N> {
    Object(ObjectId),
    Symbolic(N),
}

impl<N: View> View for Target<N> {
    type V = Target<N::V>;

    open spec fn view(&self) -> Target<N::V> {
        match self {
            Target::Object(id) => Target::Object(*id),
            Target::Symbolic(name) => Target::Symbolic(name@),
        }
    }
}

/// What an edit expects a reference to hold before.
#[derive(PartialEq, Eq, Debug)]
pub enum PreviousValue<N> {
    Any,
    MustExist,
    MustNotExist,
    MustExistAndMatch(Target<N>),
    ExistingMustMatch(Target<N>),
}

impl<N: View> View for PreviousValue<N> {
    type V = PreviousValue<N::V>;

    open spec fn view(&self) -> PreviousValue<N::V> {
        match self {
            PreviousValue::Any => PreviousValue::Any,
            PreviousValue::MustExist => PreviousValue::MustExist,
            PreviousValue::MustNotExist => PreviousValue::MustNotExist,
            PreviousValue::MustExistAndMatch(target) => PreviousValue::MustExistAndMatch(target@),
            PreviousValue::ExistingMustMatch(target) => PreviousValue::ExistingMustMatch(target@),
        }
    }
}

/// Whether an edit is about a reference and its log, or about the log alone.
#[derive(Clone, Copy, PartialEq, Eq, Structural, Debug)]
pub enum RefLog {
    AndReference,
    Only,
}

/// What an edit does to a reference.
#[derive(PartialEq, Eq, Debug)]
pub enum Change<N> {
    Update { expected: PreviousValue<N>, new: Target<N>, log: RefLog },
    Delete { expected: PreviousValue<N>, log: RefLog },
}

impl<N: View> View for Change<N> {
    type V = Change<N::V>;

    open spec fn view(&self) -> Change<N::V> {
        match self {
            Change::Update { expected, new, log } => Change::Update {
                expected: expected@,
                new: new@,
                log: *log,
            },
            Change::Delete { expected, log } => Change::Delete { expected: expected@, log: *log },
        }
    }
}

/// An edit of a reference.
#[derive(PartialEq, Eq, Debug)]
pub struct RefEdit<N> {
    pub name: N,
    pub change: Change<N>,
}

impl<N: View> View for RefEdit<N> {
    type V = RefEdit<N::V>;

    open spec fn view(&self) -> RefEdit<N::V> {
        RefEdit { name: self.name@, change: self.change@ }
    }
}

/// What a reference holds that points at a target.
pub open spec fn state_of_target(target: Target<Seq<u8>>) -> State<Seq<u8>> {
    match target {
        Target::Object(id) => State::Object(id),
        Target::Symbolic(name) => State::Symbolic(name),
    }
}

/// What an edit knows that a reference held, if it knows it exactly.
pub open spec fn expected_state(expected: PreviousValue<Seq<u8>>) -> Option<State<Seq<u8>>> {
    match expected {
        PreviousValue::MustNotExist => Some(State::Missing),
        PreviousValue::MustExistAndMatch(target) => Some(state_of_target(target)),
        _ => None,
    }
}

/// The change that an edit makes; none if it is about the log alone. An edit that does not know
/// exactly what the reference held cannot be undone.
pub open spec fn change_of(edit: RefEdit<Seq<u8>>) -> Result<
    Option<RefChange<Seq<u8>>>,
    UndoError,
> {
    let (expected, after, log) = match edit.change {
        Change::Update { expected, new, log } => (expected, state_of_target(new), log),
        Change::Delete { expected, log } => (expected, State::Missing, log),
    };
    if log == RefLog::Only {
        Ok(None)
    } else {
        match expected_state(expected) {
            Some(before) => Ok(Some(RefChange { name: edit.name, before, after })),
            None => Err(UndoError::InexactPreviousValue),
        }
    }
}

/// The change back.
pub open spec fn reverse(change: RefChange<Seq<u8>>) -> RefChange<Seq<u8>> {
    RefChange { name: change.name, before: change.after, after: change.before }
}

/// What an edit must expect for a reference to hold a state.
pub open spec fn exactly(state: State<Seq<u8>>) -> PreviousValue<Seq<u8>> {
    match state {
        State::Missing => PreviousValue::MustNotExist,
        State::Object(id) => PreviousValue::MustExistAndMatch(Target::Object(id)),
        State::Symbolic(name) => PreviousValue::MustExistAndMatch(Target::Symbolic(name)),
    }
}

/// The edit that makes a change, if the reference holds exactly what it is to hold before.
pub open spec fn edit_of(change: RefChange<Seq<u8>>) -> Result<RefEdit<Seq<u8>>, UndoError> {
    let expected = exactly(change.before);
    match change.after {
        State::Missing => if change.before is Missing {
            Err(UndoError::DeletesMissing)
        } else {
            Ok(
                RefEdit {
                    name: change.name,
                    change: Change::Delete { expected, log: RefLog::AndReference },
                },
            )
        },
        State::Object(id) => Ok(
            RefEdit {
                name: change.name,
                change: Change::Update {
                    expected,
                    new: Target::Object(id),
                    log: RefLog::AndReference,
                },
            },
        ),
        State::Symbolic(name) => Ok(
            RefEdit {
                name: change.name,
                change: Change::Update {
                    expected,
                    new: Target::Symbolic(name),
                    log: RefLog::AndReference,
                },
            },
        ),
    }
}

fn state_from_target(target: &Target<FullName>) -> (r: State<FullName>)
    ensures
        r@ == state_of_target(target@),
{
    match target {
        Target::Object(id) => State::Object(*id),
        Target::Symbolic(name) => State::Symbolic(name.clone()),
    }
}

fn state_from_expected(expected: &PreviousValue<FullName>) -> (r: Result<
    State<FullName>,
    UndoError,
>)
    ensures
        match r {
            Ok(state) => expected_state(expected@) == Some(state@),
            Err(err) => expected_state(expected@) is None && err
                == UndoError::InexactPreviousValue,
        },
{
    match expected {
        PreviousValue::MustNotExist => Ok(State::Missing),
        PreviousValue::MustExistAndMatch(target) => Ok(state_from_target(target)),
        PreviousValue::Any | PreviousValue::MustExist | PreviousValue::ExistingMustMatch(_) => Err(
            UndoError::InexactPreviousValue,
        ),
    }
}

impl RefChange<FullName> {
    /// The change that an edit makes.
    pub fn from_edit(edit: &RefEdit<FullName>) -> (r: Result<
        Option<RefChange<FullName>>,
        UndoError,
    >)
        ensures
            match r {
                Ok(change) => change_of(edit@) == Ok::<_, UndoError>(viewed_option(change)),
                Err(err) => change_of(edit@) == Err::<Option<RefChange<Seq<u8>>>, _>(err),
            },
    {
        let (expected, after, log) = match &edit.change {
            Change::Update { expected, new, log } => (expected, state_from_target(new), *log),
            Change::Delete { expected, log } => (expected, State::Missing, *log),
        };
        if log == RefLog::Only {
            return Ok(None);
        }
        match state_from_expected(expected) {
            Ok(before) => Ok(Some(RefChange { name: edit.name.clone(), before, after })),
            Err(err) => Err(err),
        }
    }

    /// The change back.
    pub fn reversed(&self) -> (r: RefChange<FullName>)
        ensures
            r@ == reverse(self@),
    {
        RefChange {
            name: self.name.clone(),
            before: self.after.copy(),
            after: self.before.copy(),
        }
    }

    /// A copy of the change.
    pub fn copy(&self) -> (r: RefChange<FullName>)
        ensures
            r@ == self@,
    {
        RefChange {
            name: self.name.clone(),
            before: self.before.copy(),
            after: self.after.copy(),
        }
    }
}

/// The edit that makes a change.
pub fn checked_edit(change: &RefChange<FullName>) -> (r: Result<RefEdit<FullName>, UndoError>)
    ensures
        match r {
            Ok(edit) => edit_of(change@) == Ok::<_, UndoError>(edit@),
            Err(err) => edit_of(change@) == Err::<RefEdit<Seq<u8>>, _>(err),
        },
{
    let (expected, missing) = match &change.before {
        State::Missing => (PreviousValue::MustNotExist, true),
        State::Object(id) => (PreviousValue::MustExistAndMatch(Target::Object(*id)), false),
        State::Symbolic(name) => (
            PreviousValue::MustExistAndMatch(Target::Symbolic(name.clone())),
            false,
        ),
    };
    assert(expected@ == exactly(change@.before));
    let change_made = match &change.after {
        State::Missing => {
            if missing {
                return Err(UndoError::DeletesMissing);
            }
            Change::Delete { expected, log: RefLog::AndReference }
        },
        State::Object(id) => Change::Update {
            expected,
            new: Target::Object(*id),
            log: RefLog::AndReference,
        },
        State::Symbolic(name) => Change::Update {
            expected,
            new: Target::Symbolic(name.clone()),
            log: RefLog::AndReference,
        },
    };
    Ok(RefEdit { name: change.name.clone(), change: change_made })
}

/// The edits of the changes from `at` on, behind `done`.
pub open spec fn edits_of(
    changes: Seq<RefChange<Seq<u8>>>,
    at: int,
    done: Seq<RefEdit<Seq<u8>>>,
) -> Result<Seq<RefEdit<Seq<u8>>>, UndoError>
    decreases changes.len() - at,
{
    if at < 0 || at >= changes.len() {
        Ok(done)
    } else {
        match edit_of(changes[at]) {
            Ok(edit) => edits_of(changes, at + 1, done.push(edit)),
            Err(err) => Err(err),
        }
    }
}

/// The edits that make several changes.
pub fn checked_edits(changes: &Vec<RefChange<FullName>>) -> (r: Result<
    Vec<RefEdit<FullName>>,
    UndoError,
>)
    ensures
        match r {
            Ok(edits) => edits_of(viewed(changes@), 0, Seq::empty()) == Ok::<_, UndoError>(
                viewed(edits@),
            ),
            Err(err) => edits_of(viewed(changes@), 0, Seq::empty()) == Err::<
                Seq<RefEdit<Seq<u8>>>,
                _,
            >(err),
        },
{
    let mut out: Vec<RefEdit<FullName>> = Vec::new();
    let mut at: usize = 0;
    assert(viewed(out@) == Seq::<RefEdit<Seq<u8>>>::empty());
    while at < changes.len()
        invariant
            at <= changes@.len(),
            edits_of(viewed(changes@), 0, Seq::empty()) == edits_of(
                viewed(changes@),
                at as int,
                viewed(out@),
            ),
        decreases changes.len() - at,
    {
        match checked_edit(&changes[at]) {
            Ok(edit) => {
                proof {
                    viewed_push(out@, edit);
                }
                out.push(edit);
            },
            Err(err) => return Err(err),
        }
        at = at + 1;
    }
    Ok(out)
}

/// The changes back, in the same order.
pub open spec fn reversed_all(changes: Seq<RefChange<Seq<u8>>>) -> Seq<RefChange<Seq<u8>>> {
    Seq::new(changes.len(), |i: int| reverse(changes[i]))
}

/// Reverses several changes.
pub fn reverse_all(changes: &Vec<RefChange<FullName>>) -> (r: Vec<RefChange<FullName>>)
    ensures
        viewed(r@) == reversed_all(viewed(changes@)),
{
    let mut out: Vec<RefChange<FullName>> = Vec::new();
    let mut i: usize = 0;
    while i < changes.len()
        invariant
            i <= changes@.len(),
            out@.len() == i,
            forall|j: int| 0 <= j < i ==> (#[trigger] out@[j])@ == reverse(changes@[j]@),
        decreases changes.len() - i,
    {
        out.push(changes[i].reversed());
        i = i + 1;
    }
    assert(viewed(out@) == reversed_all(viewed(changes@)));
    out
}

/// A copy of several changes.
pub fn copy_changes(changes: &Vec<RefChange<FullName>>) -> (r: Vec<RefChange<FullName>>)
    ensures
        viewed(r@) == viewed(changes@),
{
    let mut out: Vec<RefChange<FullName>> = Vec::new();
    let mut i: usize = 0;
    while i < changes.len()
        invariant
            i <= changes@.len(),
            out@.len() == i,
            forall|j: int| 0 <= j < i ==> (#[trigger] out@[j])@ == changes@[j]@,
        decreases changes.len() - i,
    {
        out.push(changes[i].copy());
        i = i + 1;
    }
    assert(viewed(out@) == viewed(changes@));
    out
}

/// The first place at or after `from` whose change is not of a reference before `name`.
pub open spec fn slot(changes: Seq<RefChange<Seq<u8>>>, name: Seq<u8>, from: int) -> int
    decreases changes.len() - from,
{
    if from < 0 || from >= changes.len() {
        changes.len() as int
    } else if before(changes[from].name, name) {
        slot(changes, name, from + 1)
    } else {
        from
    }
}

/// Changes with one more: a second change of a reference must continue the first, and extends
/// it. The changes stay in the order of their references.
pub open spec fn with_change(
    changes: Seq<RefChange<Seq<u8>>>,
    change: RefChange<Seq<u8>>,
) -> Result<Seq<RefChange<Seq<u8>>>, UndoError> {
    let at = slot(changes, change.name, 0);
    if queue_ref(change.name) {
        Err(UndoError::RecordsItself)
    } else if at < changes.len() && changes[at].name == change.name {
        if changes[at].after != change.before {
            Err(UndoError::NotContinuous)
        } else {
            Ok(changes.update(at, RefChange { after: change.after, ..changes[at] }))
        }
    } else {
        Ok(changes.insert(at, change))
    }
}

/// The changes from `at` on, combined with those in `done`.
pub open spec fn combined(
    changes: Seq<RefChange<Seq<u8>>>,
    at: int,
    done: Seq<RefChange<Seq<u8>>>,
) -> Result<Seq<RefChange<Seq<u8>>>, UndoError>
    decreases changes.len() - at,
{
    if at < 0 || at >= changes.len() {
        Ok(done)
    } else {
        match with_change(done, changes[at]) {
            Ok(done) => combined(changes, at + 1, done),
            Err(err) => Err(err),
        }
    }
}

/// Those of the first `end` changes that change something.
pub open spec fn effective(changes: Seq<RefChange<Seq<u8>>>, end: int) -> Seq<RefChange<Seq<u8>>>
    decreases end,
{
    if end <= 0 || end > changes.len() {
        Seq::empty()
    } else if changes[end - 1].before == changes[end - 1].after {
        effective(changes, end - 1)
    } else {
        effective(changes, end - 1).push(changes[end - 1])
    }
}

/// One change for each reference that changes, in the order of the references.
pub open spec fn normalized(changes: Seq<RefChange<Seq<u8>>>) -> Result<
    Seq<RefChange<Seq<u8>>>,
    UndoError,
> {
    match combined(changes, 0, Seq::empty()) {
        Ok(all) => Ok(effective(all, all.len() as int)),
        Err(err) => Err(err),
    }
}

fn add_change(changes: &mut Vec<RefChange<FullName>>, change: RefChange<FullName>) -> (r: Result<
    (),
    UndoError,
>)
    ensures
        match r {
            Ok(_) => with_change(viewed(old(changes)@), change@) == Ok::<_, UndoError>(
                viewed(final(changes)@),
            ),
            Err(err) => with_change(viewed(old(changes)@), change@) == Err::<
                Seq<RefChange<Seq<u8>>>,
                _,
            >(err),
        },
{
    if is_queue_ref(change.name.as_bytes()) {
        return Err(UndoError::RecordsItself);
    }
    let ghost all = viewed(changes@);
    let mut at: usize = 0;
    while at < changes.len() && is_before(changes[at].name.as_bytes(), change.name.as_bytes())
        invariant
            all == viewed(changes@),
            changes@ == old(changes)@,
            at <= changes@.len(),
            slot(all, change@.name, 0) == slot(all, change@.name, at as int),
        decreases changes.len() - at,
    {
        at = at + 1;
    }
    assert(slot(all, change@.name, 0) == at);
    if at < changes.len() && changes[at].name.same(&change.name) {
        if !changes[at].after.same(&change.before) {
            return Err(UndoError::NotContinuous);
        }
        let ghost added = change@;
        changes[at].after = change.after;
        assert(viewed(changes@) == all.update(
            at as int,
            RefChange { after: added.after, ..all[at as int] },
        ));
    } else {
        let ghost added = change@;
        changes.insert(at, change);
        assert(viewed(changes@) == all.insert(at as int, added));
    }
    Ok(())
}

/// Combines changes into one for each reference that changes, in the order of the references.
/// Successive changes of a reference must be continuous; what cancels out is left out.
pub fn normalize_changes(changes: Vec<RefChange<FullName>>) -> (r: Result<
    Vec<RefChange<FullName>>,
    UndoError,
>)
    ensures
        match r {
            Ok(found) => normalized(viewed(changes@)) == Ok::<_, UndoError>(viewed(found@)),
            Err(err) => normalized(viewed(changes@)) == Err::<Seq<RefChange<Seq<u8>>>, _>(err),
        },
{
    let mut all: Vec<RefChange<FullName>> = Vec::new();
    let mut at: usize = 0;
    assert(viewed(all@) == Seq::<RefChange<Seq<u8>>>::empty());
    while at < changes.len()
        invariant
            at <= changes@.len(),
            combined(viewed(changes@), 0, Seq::empty()) == combined(
                viewed(changes@),
                at as int,
                viewed(all@),
            ),
        decreases changes.len() - at,
    {
        match add_change(&mut all, changes[at].copy()) {
            Ok(_) => {},
            Err(err) => return Err(err),
        }
        at = at + 1;
    }
    let mut out: Vec<RefChange<FullName>> = Vec::new();
    let mut i: usize = 0;
    assert(viewed(out@) == effective(viewed(all@), 0));
    while i < all.len()
        invariant
            i <= all@.len(),
            viewed(out@) == effective(viewed(all@), i as int),
        decreases all.len() - i,
    {
        if !all[i].before.same(&all[i].after) {
            let change = all[i].copy();
            proof {
                viewed_push(out@, change);
            }
            out.push(change);
        }
        i = i + 1;
    }
    Ok(out)
}

/// The changes that the edits from `at` on make, behind `done`.
pub open spec fn changes_made(
    edits: Seq<RefEdit<Seq<u8>>>,
    at: int,
    done: Seq<RefChange<Seq<u8>>>,
) -> Result<Seq<RefChange<Seq<u8>>>, UndoError>
    decreases edits.len() - at,
{
    if at < 0 || at >= edits.len() {
        Ok(done)
    } else {
        match change_of(edits[at]) {
            Ok(Some(change)) => changes_made(edits, at + 1, done.push(change)),
            Ok(None) => changes_made(edits, at + 1, done),
            Err(err) => Err(err),
        }
    }
}

/// The changes that checked edits make, one for each reference.
pub fn changes_from_edits(edits: &Vec<RefEdit<FullName>>) -> (r: Result<
    Vec<RefChange<FullName>>,
    UndoError,
>)
    ensures
        ({
            let expected = match changes_made(viewed(edits@), 0, Seq::empty()) {
                Ok(changes) => normalized(changes),
                Err(err) => Err(err),
            };
            match r {
                Ok(found) => expected == Ok::<_, UndoError>(viewed(found@)),
                Err(err) => expected == Err::<Seq<RefChange<Seq<u8>>>, _>(err),
            }
        }),
{
    let mut changes: Vec<RefChange<FullName>> = Vec::new();
    let mut at: usize = 0;
    assert(viewed(changes@) == Seq::<RefChange<Seq<u8>>>::empty());
    while at < edits.len()
        invariant
            at <= edits@.len(),
            changes_made(viewed(edits@), 0, Seq::empty()) == changes_made(
                viewed(edits@),
                at as int,
                viewed(changes@),
            ),
        decreases edits.len() - at,
    {
        match RefChange::from_edit(&edits[at]) {
            Ok(Some(change)) => {
                proof {
                    viewed_push(changes@, change);
                }
                changes.push(change);
            },
            Ok(None) => {},
            Err(err) => return Err(err),
        }
        at = at + 1;
    }
    normalize_changes(changes)
}

/// The edits that roll changes back.
pub open spec fn rollback(changes: Seq<RefChange<Seq<u8>>>) -> Result<
    Seq<RefEdit<Seq<u8>>>,
    UndoError,
> {
    match normalized(changes) {
        Ok(changes) => edits_of(reversed_all(changes), 0, Seq::empty()),
        Err(err) => Err(err),
    }
}

/// The edits that roll changes back; none if the changes cancel each other out.
pub fn rollback_edits(changes: &Vec<RefChange<FullName>>) -> (r: Result<
    Vec<RefEdit<FullName>>,
    UndoError,
>)
    ensures
        match r {
            Ok(edits) => rollback(viewed(changes@)) == Ok::<_, UndoError>(viewed(edits@)),
            Err(err) => rollback(viewed(changes@)) == Err::<Seq<RefEdit<Seq<u8>>>, _>(err),
        },
{
    match normalize_changes(copy_changes(changes)) {
        Ok(changes) => checked_edits(&reverse_all(&changes)),
        Err(err) => Err(err),
    }
}

/// What all references hold.
pub type Store = spec_fn(Seq<u8>) -> State<Seq<u8>>;

/// What all references hold once one is changed.
pub open spec fn updated(store: Store, name: Seq<u8>, state: State<Seq<u8>>) -> Store {
    |other: Seq<u8>|
        if other == name {
            state
        } else {
            store(other)
        }
}

/// What all references hold after changes, each of which must find what it expects.
pub open spec fn applied(store: Store, changes: Seq<RefChange<Seq<u8>>>) -> Option<Store>
    decreases changes.len(),
{
    if changes.len() == 0 {
        Some(store)
    } else {
        let change = changes[0];
        if store(change.name) != change.before {
            None
        } else {
            applied(updated(store, change.name, change.after), changes.skip(1))
        }
    }
}

/// Whether changes are in the order of their references, one for each.
pub open spec fn in_order(changes: Seq<RefChange<Seq<u8>>>) -> bool {
    forall|i: int, j: int|
        0 <= i < j < changes.len() ==> before((#[trigger] changes[i]).name, (#[trigger] changes[j]).name)
}

/// The change of a reference, if there is one.
pub open spec fn has_change(changes: Seq<RefChange<Seq<u8>>>, name: Seq<u8>) -> bool {
    exists|i: int| 0 <= i < changes.len() && (#[trigger] changes[i]).name == name
}

/// Whether `changes` say how each reference got from what it holds in `from` to what it holds
/// in `to`.
pub open spec fn describes(
    changes: Seq<RefChange<Seq<u8>>>,
    from: Store,
    to: Store,
) -> bool {
    &&& forall|i: int|
        0 <= i < changes.len() ==> from((#[trigger] changes[i]).name) == changes[i].before && to(
            changes[i].name,
        ) == changes[i].after
    &&& forall|name: Seq<u8>| !has_change(changes, name) ==> #[trigger] from(name) == to(name)
}

proof fn slot_bounds(changes: Seq<RefChange<Seq<u8>>>, name: Seq<u8>, from: int)
    requires
        0 <= from <= changes.len(),
    ensures
        from <= slot(changes, name, from) <= changes.len(),
        forall|i: int| from <= i < slot(changes, name, from) ==> before((#[trigger] changes[i]).name, name),
        slot(changes, name, from) < changes.len() ==> !before(
            changes[slot(changes, name, from)].name,
            name,
        ),
    decreases changes.len() - from,
{
    if from < changes.len() && before(changes[from].name, name) {
        slot_bounds(changes, name, from + 1);
    }
}

proof fn with_change_keeps_order(
    changes: Seq<RefChange<Seq<u8>>>,
    change: RefChange<Seq<u8>>,
)
    requires
        in_order(changes),
    ensures
        with_change(changes, change) matches Ok(next) ==> in_order(next),
{
    let at = slot(changes, change.name, 0);
    slot_bounds(changes, change.name, 0);
    if let Ok(next) = with_change(changes, change) {
        if at < changes.len() && changes[at].name == change.name {
            assert forall|i: int, j: int| 0 <= i < j < next.len() implies before(
                (#[trigger] next[i]).name,
                (#[trigger] next[j]).name,
            ) by {
                assert(before(changes[i].name, changes[j].name));
            }
        } else {
            assert forall|i: int, j: int| 0 <= i < j < next.len() implies before(
                (#[trigger] next[i]).name,
                (#[trigger] next[j]).name,
            ) by {
                if j < at {
                    assert(before(changes[i].name, changes[j].name));
                } else if j == at {
                    assert(before(changes[i].name, change.name));
                } else {
                    before_total(changes[at].name, change.name);
                    assert(before(change.name, changes[at].name));
                    if j - 1 > at {
                        assert(before(changes[at].name, changes[j - 1].name));
                        before_transitive(change.name, changes[at].name, changes[j - 1].name);
                    }
                    if i < at {
                        assert(before(changes[i].name, changes[j - 1].name));
                    } else if i > at {
                        assert(before(changes[i - 1].name, changes[j - 1].name));
                    }
                }
            }
        }
    }
}

proof fn combined_keeps_order(
    changes: Seq<RefChange<Seq<u8>>>,
    at: int,
    done: Seq<RefChange<Seq<u8>>>,
)
    requires
        in_order(done),
    ensures
        combined(changes, at, done) matches Ok(all) ==> in_order(all),
    decreases changes.len() - at,
{
    if 0 <= at < changes.len() {
        with_change_keeps_order(done, changes[at]);
        if let Ok(next) = with_change(done, changes[at]) {
            combined_keeps_order(changes, at + 1, next);
        }
    }
}

proof fn effective_is_part(changes: Seq<RefChange<Seq<u8>>>, end: int)
    requires
        0 <= end <= changes.len(),
        in_order(changes),
    ensures
        in_order(effective(changes, end)),
        forall|i: int|
            0 <= i < effective(changes, end).len() ==> {
                let change = #[trigger] effective(changes, end)[i];
                change.before != change.after && exists|j: int| 0 <= j < end && changes[j] == change
            },
        forall|j: int|
            0 <= j < end && (#[trigger] changes[j]).before != changes[j].after ==> effective(
                changes,
                end,
            ).contains(changes[j]),
    decreases end,
{
    if end > 0 {
        effective_is_part(changes, end - 1);
        let before_last = effective(changes, end - 1);
        let all = effective(changes, end);
        let last = changes[end - 1];
        if last.before != last.after {
            assert(all == before_last.push(last));
            assert forall|i: int, j: int| 0 <= i < j < all.len() implies before(
                (#[trigger] all[i]).name,
                (#[trigger] all[j]).name,
            ) by {
                let a = before_last[i];
                assert(all[i] == a);
                if j < before_last.len() {
                    assert(all[j] == before_last[j]);
                } else {
                    let k = choose|k: int| 0 <= k < end - 1 && changes[k] == a;
                    assert(before(changes[k].name, changes[end - 1].name));
                }
            }
            assert forall|j: int|
                0 <= j < end && (#[trigger] changes[j]).before != changes[j].after implies all.contains(
                changes[j],
            ) by {
                if j == end - 1 {
                    assert(all[before_last.len() as int] == changes[j]);
                } else {
                    let k = choose|k: int| 0 <= k < before_last.len() && before_last[k] == changes[j];
                    assert(all[k] == changes[j]);
                }
            }
            assert forall|i: int| 0 <= i < all.len() implies ({
                let change = #[trigger] all[i];
                change.before != change.after && exists|j: int| 0 <= j < end && changes[j] == change
            }) by {
                if i < before_last.len() {
                    let change = before_last[i];
                    assert(all[i] == change);
                    let j = choose|j: int| 0 <= j < end - 1 && changes[j] == change;
                    assert(changes[j] == all[i]);
                } else {
                    assert(changes[end - 1] == all[i]);
                }
            }
        }
    }
}

/// Normalized changes are in the order of their references, one for each, and each changes
/// something.
pub proof fn normalized_changes_are_in_order(changes: Seq<RefChange<Seq<u8>>>)
    ensures
        normalized(changes) matches Ok(found) ==> in_order(found) && forall|i: int|
            0 <= i < found.len() ==> (#[trigger] found[i]).before != found[i].after,
{
    combined_keeps_order(changes, 0, Seq::empty());
    if let Ok(all) = combined(changes, 0, Seq::empty()) {
        effective_is_part(all, all.len() as int);
    }
}

proof fn with_change_describes(
    changes: Seq<RefChange<Seq<u8>>>,
    change: RefChange<Seq<u8>>,
    from: Store,
    to: Store,
)
    requires
        in_order(changes),
        describes(changes, from, to),
        to(change.name) == change.before,
        !queue_ref(change.name),
    ensures
        with_change(changes, change) matches Ok(next) && describes(
            next,
            from,
            updated(to, change.name, change.after),
        ),
{
    let at = slot(changes, change.name, 0);
    slot_bounds(changes, change.name, 0);
    let now = updated(to, change.name, change.after);
    if at < changes.len() && changes[at].name == change.name {
        let next = changes.update(at, RefChange { after: change.after, ..changes[at] });
        assert forall|i: int| 0 <= i < next.len() implies from((#[trigger] next[i]).name)
            == next[i].before && now(next[i].name) == next[i].after by {
            assert(from(changes[i].name) == changes[i].before);
            if i != at {
                if i < at {
                    assert(before(changes[i].name, changes[at].name));
                } else {
                    assert(before(changes[at].name, changes[i].name));
                }
                before_irreflexive(change.name);
            }
        }
        assert forall|name: Seq<u8>| !has_change(next, name) implies #[trigger] from(name) == now(
            name,
        ) by {
            assert(next[at].name == change.name);
            if has_change(changes, name) {
                let i = choose|i: int| 0 <= i < changes.len() && (#[trigger] changes[i]).name == name;
                assert(next[i].name == name);
            }
        }
    } else {
        let next = changes.insert(at, change);
        assert(!has_change(changes, change.name)) by {
            if has_change(changes, change.name) {
                let i = choose|i: int|
                    0 <= i < changes.len() && (#[trigger] changes[i]).name == change.name;
                before_irreflexive(change.name);
                if i > at {
                    assert(before(changes[at].name, changes[i].name));
                }
            }
        }
        assert forall|i: int| 0 <= i < next.len() implies from((#[trigger] next[i]).name)
            == next[i].before && now(next[i].name) == next[i].after by {
            if i != at {
                let k = if i < at { i } else { i - 1 };
                assert(next[i] == changes[k]);
                assert(changes[k].name != change.name) by {
                    if changes[k].name == change.name {
                        assert(has_change(changes, change.name));
                    }
                }
            } else {
                assert(from(change.name) == to(change.name));
            }
        }
        assert forall|name: Seq<u8>| !has_change(next, name) implies #[trigger] from(name) == now(
            name,
        ) by {
            assert(next[at].name == change.name);
            if has_change(changes, name) {
                let i = choose|i: int| 0 <= i < changes.len() && (#[trigger] changes[i]).name == name;
                let k = if i < at { i } else { i + 1 };
                assert(next[k].name == name);
            }
        }
    }
}

proof fn combined_describes(
    changes: Seq<RefChange<Seq<u8>>>,
    at: int,
    done: Seq<RefChange<Seq<u8>>>,
    from: Store,
    to: Store,
    end: Store,
)
    requires
        0 <= at <= changes.len(),
        in_order(done),
        describes(done, from, to),
        applied(to, changes.skip(at)) == Some(end),
        forall|i: int| 0 <= i < changes.len() ==> !queue_ref((#[trigger] changes[i]).name),
    ensures
        combined(changes, at, done) matches Ok(all) && describes(all, from, end),
    decreases changes.len() - at,
{
    let rest = changes.skip(at);
    if at < changes.len() {
        let change = changes[at];
        assert(rest[0] == change);
        assert(rest.skip(1) == changes.skip(at + 1));
        with_change_describes(done, change, from, to);
        with_change_keeps_order(done, change);
        let next = with_change(done, change)->Ok_0;
        combined_describes(
            changes,
            at + 1,
            next,
            from,
            updated(to, change.name, change.after),
            end,
        );
    }
}

proof fn described_applies(changes: Seq<RefChange<Seq<u8>>>, from: Store, to: Store)
    requires
        in_order(changes),
        describes(changes, from, to),
    ensures
        applied(from, changes) matches Some(end) && forall|name: Seq<u8>| #[trigger]
            end(name) == to(name),
    decreases changes.len(),
{
    if changes.len() == 0 {
        assert forall|name: Seq<u8>| #[trigger] from(name) == to(name) by {
            assert(!has_change(changes, name));
        }
    } else {
        let change = changes[0];
        let rest = changes.skip(1);
        let next = updated(from, change.name, change.after);
        assert(from(change.name) == change.before);
        assert forall|i: int| 0 <= i < rest.len() implies next((#[trigger] rest[i]).name)
            == rest[i].before && to(rest[i].name) == rest[i].after by {
            assert(rest[i] == changes[i + 1]);
            assert(before(changes[0].name, changes[i + 1].name));
            before_irreflexive(change.name);
        }
        assert forall|name: Seq<u8>| !has_change(rest, name) implies #[trigger] next(name) == to(
            name,
        ) by {
            if name == change.name {
                assert(to(changes[0].name) == changes[0].after);
            } else {
                if has_change(changes, name) {
                    let i = choose|i: int|
                        0 <= i < changes.len() && (#[trigger] changes[i]).name == name;
                    assert(rest[i - 1].name == name);
                }
                assert(from(name) == to(name));
            }
        }
        assert forall|i: int, j: int| 0 <= i < j < rest.len() implies before(
            (#[trigger] rest[i]).name,
            (#[trigger] rest[j]).name,
        ) by {
            assert(rest[i] == changes[i + 1] && rest[j] == changes[j + 1]);
        }
        described_applies(rest, next, to);
    }
}

proof fn effective_describes(changes: Seq<RefChange<Seq<u8>>>, from: Store, to: Store)
    requires
        in_order(changes),
        describes(changes, from, to),
    ensures
        describes(effective(changes, changes.len() as int), from, to),
{
    let found = effective(changes, changes.len() as int);
    effective_is_part(changes, changes.len() as int);
    assert forall|i: int| 0 <= i < found.len() implies from((#[trigger] found[i]).name)
        == found[i].before && to(found[i].name) == found[i].after by {
        let change = found[i];
        let j = choose|j: int| 0 <= j < changes.len() && changes[j] == change;
        assert(from(changes[j].name) == changes[j].before);
    }
    assert forall|name: Seq<u8>| !has_change(found, name) implies #[trigger] from(name) == to(
        name,
    ) by {
        if has_change(changes, name) {
            let i = choose|i: int| 0 <= i < changes.len() && (#[trigger] changes[i]).name == name;
            assert(from(changes[i].name) == changes[i].before);
            if changes[i].before != changes[i].after {
                assert(found.contains(changes[i]));
                let k = choose|k: int| 0 <= k < found.len() && found[k] == changes[i];
                assert(found[k].name == name);
            }
        }
    }
}

/// Changes that can be made one after the other can be normalized, unless they are of the queue
/// itself, and the normalized changes have the same effect.
pub proof fn normalized_changes_have_the_same_effect(
    changes: Seq<RefChange<Seq<u8>>>,
    from: Store,
    to: Store,
)
    requires
        applied(from, changes) == Some(to),
        forall|i: int| 0 <= i < changes.len() ==> !queue_ref((#[trigger] changes[i]).name),
    ensures
        normalized(changes) matches Ok(found) && (applied(from, found) matches Some(end)
            && forall|name: Seq<u8>| #[trigger] end(name) == to(name)),
{
    let none = Seq::<RefChange<Seq<u8>>>::empty();
    assert(changes.skip(0) == changes);
    combined_describes(changes, 0, none, from, from, to);
    combined_keeps_order(changes, 0, none);
    let all = combined(changes, 0, none)->Ok_0;
    effective_describes(all, from, to);
    effective_is_part(all, all.len() as int);
    described_applies(effective(all, all.len() as int), from, to);
}

proof fn applied_describes(changes: Seq<RefChange<Seq<u8>>>, from: Store, to: Store)
    requires
        in_order(changes),
        applied(from, changes) == Some(to),
    ensures
        describes(changes, from, to),
    decreases changes.len(),
{
    if changes.len() > 0 {
        let change = changes[0];
        let rest = changes.skip(1);
        let next = updated(from, change.name, change.after);
        assert forall|i: int, j: int| 0 <= i < j < rest.len() implies before(
            (#[trigger] rest[i]).name,
            (#[trigger] rest[j]).name,
        ) by {
            assert(rest[i] == changes[i + 1] && rest[j] == changes[j + 1]);
        }
        applied_describes(rest, next, to);
        assert(!has_change(rest, change.name)) by {
            if has_change(rest, change.name) {
                let i = choose|i: int|
                    0 <= i < rest.len() && (#[trigger] rest[i]).name == change.name;
                assert(rest[i] == changes[i + 1]);
                assert(before(changes[0].name, changes[i + 1].name));
                before_irreflexive(change.name);
            }
        }
        assert(next(change.name) == to(change.name));
        assert forall|i: int| 0 <= i < changes.len() implies from((#[trigger] changes[i]).name)
            == changes[i].before && to(changes[i].name) == changes[i].after by {
            if i > 0 {
                assert(rest[i - 1] == changes[i]);
                assert(before(changes[0].name, changes[i].name));
                before_irreflexive(change.name);
            }
        }
        assert forall|name: Seq<u8>| !has_change(changes, name) implies #[trigger] from(name) == to(
            name,
        ) by {
            assert(changes[0].name == change.name);
            if has_change(rest, name) {
                let i = choose|i: int| 0 <= i < rest.len() && (#[trigger] rest[i]).name == name;
                assert(changes[i + 1].name == name);
            }
            assert(next(name) == to(name));
        }
    }
}

/// Making normalized changes and then the changes back leaves every reference as it was.
pub proof fn reversed_changes_restore(changes: Seq<RefChange<Seq<u8>>>, from: Store, to: Store)
    requires
        in_order(changes),
        applied(from, changes) == Some(to),
    ensures
        applied(to, reversed_all(changes)) matches Some(end) && forall|name: Seq<u8>| #[trigger]
            end(name) == from(name),
{
    applied_describes(changes, from, to);
    let back = reversed_all(changes);
    assert forall|i: int, j: int| 0 <= i < j < back.len() implies before(
        (#[trigger] back[i]).name,
        (#[trigger] back[j]).name,
    ) by {
        assert(before(changes[i].name, changes[j].name));
    }
    assert forall|i: int| 0 <= i < back.len() implies to((#[trigger] back[i]).name)
        == back[i].before && from(back[i].name) == back[i].after by {
        assert(from(changes[i].name) == changes[i].before);
    }
    assert forall|name: Seq<u8>| !has_change(back, name) implies #[trigger] to(name) == from(
        name,
    ) by {
        if has_change(changes, name) {
            let i = choose|i: int| 0 <= i < changes.len() && (#[trigger] changes[i]).name == name;
            assert(back[i].name == name);
        }
        assert(from(name) == to(name));
    }
    described_applies(back, to, from);
}

proof fn applied_behind(store: Store, changes: Seq<RefChange<Seq<u8>>>, last: RefChange<Seq<u8>>)
    ensures
        applied(store, changes.push(last)) == (match applied(store, changes) {
            None => None,
            Some(end) => if end(last.name) != last.before {
                None
            } else {
                Some(updated(end, last.name, last.after))
            },
        }),
    decreases changes.len(),
{
    let all = changes.push(last);
    if changes.len() == 0 {
        assert(all.skip(1).len() == 0);
    } else {
        assert(all[0] == changes[0]);
        assert(all.skip(1) == changes.skip(1).push(last));
        if store(changes[0].name) == changes[0].before {
            applied_behind(
                updated(store, changes[0].name, changes[0].after),
                changes.skip(1),
                last,
            );
        }
    }
}

/// Changes with the move of another reference behind them are taken back by the reversed changes with
/// the reversed move behind those.
pub proof fn moves_are_taken_back(
    changes: Seq<RefChange<Seq<u8>>>,
    mover: RefChange<Seq<u8>>,
    from: Store,
    to: Store,
)
    requires
        in_order(changes),
        !has_change(changes, mover.name),
        applied(from, changes.push(mover)) == Some(to),
    ensures
        applied(to, reversed_all(changes).push(reverse(mover))) matches Some(end)
            && forall|name: Seq<u8>| #[trigger] end(name) == from(name),
{
    applied_behind(from, changes, mover);
    let there = applied(from, changes)->0;
    applied_describes(changes, from, there);
    let back = reversed_all(changes);
    let start = updated(from, mover.name, mover.after);
    assert(from(mover.name) == there(mover.name));
    assert forall|i: int, j: int| 0 <= i < j < back.len() implies before(
        (#[trigger] back[i]).name,
        (#[trigger] back[j]).name,
    ) by {
        assert(before(changes[i].name, changes[j].name));
    }
    assert forall|i: int| 0 <= i < back.len() implies to((#[trigger] back[i]).name)
        == back[i].before && start(back[i].name) == back[i].after by {
        assert(changes[i].name != mover.name);
    }
    assert forall|name: Seq<u8>| !has_change(back, name) implies #[trigger] to(name) == start(
        name,
    ) by {
        if has_change(changes, name) {
            let i = choose|i: int| 0 <= i < changes.len() && (#[trigger] changes[i]).name == name;
            assert(back[i].name == name);
        }
        assert(from(name) == there(name));
    }
    described_applies(back, to, start);
    applied_behind(to, back, reverse(mover));
}

proof fn edits_make_all(
    changes: Seq<RefChange<Seq<u8>>>,
    at: int,
    done: Seq<RefEdit<Seq<u8>>>,
    all: Seq<RefEdit<Seq<u8>>>,
)
    requires
        0 <= at <= changes.len(),
        done.len() == at,
        forall|i: int|
            0 <= i < at ==> change_of(#[trigger] done[i]) == Ok::<_, UndoError>(Some(changes[i])),
        edits_of(changes, at, done) == Ok::<_, UndoError>(all),
    ensures
        all.len() == changes.len(),
        forall|i: int|
            0 <= i < changes.len() ==> change_of(#[trigger] all[i]) == Ok::<_, UndoError>(
                Some(changes[i]),
            ),
    decreases changes.len() - at,
{
    if at < changes.len() {
        edits_make_their_changes(changes[at]);
        edits_make_all(changes, at + 1, done.push(edit_of(changes[at])->Ok_0), all);
    }
}

proof fn made_from(edits: Seq<RefEdit<Seq<u8>>>, changes: Seq<RefChange<Seq<u8>>>, at: int)
    requires
        0 <= at <= edits.len(),
        edits.len() == changes.len(),
        forall|i: int|
            0 <= i < edits.len() ==> change_of(#[trigger] edits[i]) == Ok::<_, UndoError>(
                Some(changes[i]),
            ),
    ensures
        changes_made(edits, at, changes.take(at)) == Ok::<_, UndoError>(changes),
    decreases edits.len() - at,
{
    if at < edits.len() {
        assert(change_of(edits[at]) == Ok::<_, UndoError>(Some(changes[at])));
        assert(changes.take(at).push(changes[at]) == changes.take(at + 1));
        made_from(edits, changes, at + 1);
    } else {
        assert(changes.take(at) == changes);
    }
}

/// The checked edits of changes, with another edit behind them, make those changes and then what that
/// edit makes.
pub proof fn checked_edits_make_changes(
    changes: Seq<RefChange<Seq<u8>>>,
    edits: Seq<RefEdit<Seq<u8>>>,
    last: RefEdit<Seq<u8>>,
    mover: RefChange<Seq<u8>>,
)
    requires
        edits_of(changes, 0, Seq::empty()) == Ok::<_, UndoError>(edits),
        change_of(last) == Ok::<_, UndoError>(Some(mover)),
    ensures
        changes_made(edits.push(last), 0, Seq::empty()) == Ok::<_, UndoError>(changes.push(mover)),
{
    edits_make_all(changes, 0, Seq::empty(), edits);
    let all = changes.push(mover);
    assert(all.take(0) == Seq::<RefChange<Seq<u8>>>::empty());
    made_from(edits.push(last), all, 0);
}

/// Reversing a change twice gives it back.
pub proof fn reversing_twice(change: RefChange<Seq<u8>>)
    ensures
        reverse(reverse(change)) == change,
{
}

/// The edit of a change makes that change. There is one unless the change is from nothing to
/// nothing.
pub proof fn edits_make_their_changes(change: RefChange<Seq<u8>>)
    ensures
        edit_of(change) is Err == (change.before is Missing && change.after is Missing),
        edit_of(change) matches Ok(edit) ==> change_of(edit) == Ok::<_, UndoError>(Some(change)),
{
}

} // verus!
