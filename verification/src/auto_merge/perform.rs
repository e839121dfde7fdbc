//! Changes of automatic merges: the inputs that they have then, and what is said of it.
use vstd::prelude::*;
use vstd::string::StringSliceAdditionalSpecFns;
use crate::auto_merge::choices::{sources_of, sources, Candidate, Change, ChoiceView};
use crate::auto_merge::definition::{
    allowed, allowed_ref, definition_of, find_input, follows, input_slot, label_of, Definition,
    Input, InputSource,
};
use crate::auto_merge::prepare::{containing, contains, MergeBase};
use crate::auto_merge::resolve::{
    commit_of, find_commit, resolve, resolved_reference, Rewrite, Snapshot, SnapshotView,
};
use crate::auto_merge::MergeError;
use crate::bytes;
use crate::ids::{ChangeId, ObjectId};
use crate::names::FullName;
use crate::plan::{viewed, viewed_push};
use crate::text::{lossy, to_str_lossy};

verus! {

/// Where a change of an automatic merge is made: whether there is a worktree, whether its index
/// holds unresolved conflicts, the commit of HEAD, and the selected commit.
#[derive(Clone, Copy, PartialEq, Eq, Structural, Debug)]
pub struct Site {
    pub has_worktree: bool,
    pub index_in_conflict: bool,
    pub head_commit_id: ObjectId,
    pub selected_commit_id: ObjectId,
}

/// The inputs that an automatic merge has once it is changed.
#[derive(PartialEq, Eq, Debug)]
pub enum Outcome<D, T> {
    /// The merge has these inputs. It is new if `created`.
    Changed { definition: D, created: bool, notice: T },
    /// Nothing is to be done.
    Unchanged(T),
}

/// The inputs that an automatic merge has once it is changed, in specifications.
pub type OutcomeView = Outcome<Seq<Input<Seq<u8>>>, Seq<u8>>;

impl View for Outcome<Definition, Vec<u8>> {
    type V = OutcomeView;

    open spec fn view(&self) -> OutcomeView {
        match self {
            Outcome::Changed { definition, created, notice } => Outcome::Changed {
                definition: definition@,
                created: *created,
                notice: notice@,
            },
            Outcome::Unchanged(notice) => Outcome::Unchanged(notice@),
        }
    }
}

/// What is said once inputs were added or the merge was made again.
pub const UPDATED: &'static str = "AutoMerge updated";

/// What is said once an input was removed.
pub const REMOVED: &'static str = "input removed from AutoMerge";

/// Why a change cannot be made where it is to be made.
pub open spec fn site_error(site: Site, change: Change<Seq<u8>>) -> Option<MergeError> {
    if !site.has_worktree {
        Some(MergeError::NoWorktree)
    } else if site.index_in_conflict {
        Some(MergeError::UnresolvedIndex)
    } else if !(change is Remove) && site.head_commit_id != site.selected_commit_id {
        Some(MergeError::NotHead)
    } else {
        None
    }
}

/// What the commit of HEAD is an input as: its only source, or else its change.
pub open spec fn own_source(found: Seq<ChoiceView>, change: ChangeId) -> InputSource<Seq<u8>> {
    if found.len() == 1 {
        InputSource::Reference(found[0].reference)
    } else {
        InputSource::Change(change)
    }
}

/// The inputs of the selected merge, and whether it is new: if the selected commit is none, an input
/// can be added to it, and it is the first itself.
pub open spec fn current_inputs(
    snapshot: SnapshotView,
    candidates: Seq<Candidate<Seq<u8>>>,
    site: Site,
    change: Change<Seq<u8>>,
) -> Result<(Seq<Input<Seq<u8>>>, bool), MergeError> {
    match commit_of(snapshot.commits, site.selected_commit_id) {
        None => Err(MergeError::UnknownCommit),
        Some(commit) => match definition_of(commit.headers) {
            Err(err) => Err(err),
            Ok(Some(inputs)) => Ok((inputs, false)),
            Ok(None) => if !(change is Add) && !(change is AddCommit) {
                Err(MergeError::NotAMerge)
            } else {
                match sources_of(snapshot.references, candidates, site.head_commit_id) {
                    Err(err) => Err(err),
                    Ok(found) => match commit_of(snapshot.commits, site.head_commit_id) {
                        None => Err(MergeError::UnknownCommit),
                        Some(head) => Ok(
                            (
                                seq![
                                    Input {
                                        source: own_source(found, head.change),
                                        commit_id: site.head_commit_id,
                                        muted: false,
                                    },
                                ],
                                true,
                            ),
                        ),
                    },
                }
            },
        },
    }
}

/// What is added, and the commit that it stands for.
pub open spec fn added_input(snapshot: SnapshotView, change: Change<Seq<u8>>) -> Result<
    (InputSource<Seq<u8>>, ObjectId),
    MergeError,
> {
    match change {
        Change::Add(name) => if !allowed(name) {
            Err(MergeError::UnsupportedReference)
        } else {
            match resolved_reference(snapshot, name, Seq::empty(), None) {
                Err(err) => Err(err),
                Ok(None) => Err(MergeError::InputDisappeared),
                Ok(Some(id)) => Ok((InputSource::Reference(name), id)),
            }
        },
        Change::AddCommit(id) => match commit_of(snapshot.commits, id) {
            None => Err(MergeError::UnknownCommit),
            Some(commit) => Ok((InputSource::Change(commit.change), id)),
        },
        _ => Err(MergeError::NotAMerge),
    }
}

/// Inputs with one more; if one follows the same already, it stands for the new commit.
pub open spec fn with_input(
    inputs: Seq<Input<Seq<u8>>>,
    source: InputSource<Seq<u8>>,
    commit_id: ObjectId,
) -> Seq<Input<Seq<u8>>> {
    match input_slot(inputs, source, 0) {
        Some(i) => inputs.update(i, Input { commit_id, ..inputs[i] }),
        None => inputs.push(Input { source, commit_id, muted: false }),
    }
}

/// The inputs that do not follow a source.
pub open spec fn without_input(inputs: Seq<Input<Seq<u8>>>, source: InputSource<Seq<u8>>) -> Seq<
    Input<Seq<u8>>,
>
    decreases inputs.len(),
{
    if inputs.len() == 0 {
        Seq::empty()
    } else {
        let before = without_input(inputs.drop_last(), source);
        if inputs.last().source == source {
            before
        } else {
            before.push(inputs.last())
        }
    }
}

/// What is said of an input that is an ancestor of HEAD already.
pub open spec fn ancestor_notice(source: InputSource<Seq<u8>>) -> Seq<u8> {
    lossy(label_of(source)) + " is already an ancestor of HEAD; no input added".spec_bytes()
}

/// The inputs once one is added, which must not be an ancestor of HEAD, nor build on the merge.
pub open spec fn adding(
    snapshot: SnapshotView,
    bases: Seq<MergeBase>,
    site: Site,
    change: Change<Seq<u8>>,
    inputs: Seq<Input<Seq<u8>>>,
    created: bool,
) -> Result<OutcomeView, MergeError> {
    match added_input(snapshot, change) {
        Err(err) => Err(err),
        Ok((source, id)) => match containing(bases, id, site.head_commit_id) {
            Err(err) => Err(err),
            Ok(true) => Ok(Outcome::Unchanged(ancestor_notice(source))),
            Ok(false) => match if created {
                Ok(false)
            } else {
                containing(bases, site.selected_commit_id, id)
            } {
                Err(err) => Err(err),
                Ok(true) => Err(MergeError::TracksItself),
                Ok(false) => Ok(
                    Outcome::Changed {
                        definition: with_input(inputs, source, id),
                        created,
                        notice: UPDATED.spec_bytes(),
                    },
                ),
            },
        },
    }
}

/// The inputs that an automatic merge has once it is changed.
pub open spec fn changed(
    snapshot: SnapshotView,
    candidates: Seq<Candidate<Seq<u8>>>,
    bases: Seq<MergeBase>,
    site: Site,
    change: Change<Seq<u8>>,
) -> Result<OutcomeView, MergeError> {
    match site_error(site, change) {
        Some(err) => Err(err),
        None => match current_inputs(snapshot, candidates, site, change) {
            Err(err) => Err(err),
            Ok((inputs, created)) => match change {
                Change::Remove(source) => {
                    let left = without_input(inputs, source);
                    if left.len() == inputs.len() {
                        Err(MergeError::NoLongerInput)
                    } else {
                        Ok(
                            Outcome::Changed {
                                definition: left,
                                created,
                                notice: REMOVED.spec_bytes(),
                            },
                        )
                    }
                },
                Change::Remerge => Ok(
                    Outcome::Changed {
                        definition: inputs,
                        created,
                        notice: UPDATED.spec_bytes(),
                    },
                ),
                _ => adding(snapshot, bases, site, change, inputs, created),
            },
        },
    }
}

fn check_site(site: Site, change: &Change<FullName>) -> (r: Result<(), MergeError>)
    ensures
        match r {
            Ok(()) => site_error(site, change@) is None,
            Err(err) => site_error(site, change@) == Some(err),
        },
{
    if !site.has_worktree {
        return Err(MergeError::NoWorktree);
    }
    if site.index_in_conflict {
        return Err(MergeError::UnresolvedIndex);
    }
    let removes = match change {
        Change::Remove(_) => true,
        _ => false,
    };
    if !removes && site.head_commit_id != site.selected_commit_id {
        return Err(MergeError::NotHead);
    }
    Ok(())
}

fn find_current(
    snapshot: &Snapshot,
    candidates: &Vec<Candidate<FullName>>,
    site: Site,
    change: &Change<FullName>,
) -> (r: Result<(Definition, bool), MergeError>)
    ensures
        ({
            let expected = current_inputs(snapshot@, viewed(candidates@), site, change@);
            match r {
                Ok((definition, created)) => expected == Ok::<_, MergeError>(
                    (definition@, created),
                ),
                Err(err) => expected == Err::<(Seq<Input<Seq<u8>>>, bool), _>(err),
            }
        }),
{
    let commit = match find_commit(&snapshot.commits, site.selected_commit_id) {
        None => return Err(MergeError::UnknownCommit),
        Some(commit) => commit,
    };
    match Definition::from_headers(&commit.headers) {
        Err(err) => return Err(err),
        Ok(Some(definition)) => return Ok((definition, false)),
        Ok(None) => {},
    }
    match change {
        Change::Add(_) => {},
        Change::AddCommit(_) => {},
        _ => return Err(MergeError::NotAMerge),
    }
    let found = match sources(&snapshot.references, candidates, site.head_commit_id) {
        Err(err) => return Err(err),
        Ok(found) => found,
    };
    let head = match find_commit(&snapshot.commits, site.head_commit_id) {
        None => return Err(MergeError::UnknownCommit),
        Some(head) => head,
    };
    let source = if found.len() == 1 {
        InputSource::Reference(found[0].reference.clone())
    } else {
        InputSource::Change(head.change)
    };
    let mut inputs: Vec<Input<FullName>> = Vec::new();
    inputs.push(Input { source, commit_id: site.head_commit_id, muted: false });
    assert(viewed(inputs@) == seq![inputs@[0]@]);
    Ok((Definition { inputs }, true))
}

fn find_added(snapshot: &Snapshot, change: &Change<FullName>) -> (r: Result<
    (InputSource<FullName>, ObjectId),
    MergeError,
>)
    ensures
        match r {
            Ok((source, id)) => added_input(snapshot@, change@) == Ok::<_, MergeError>(
                (source@, id),
            ),
            Err(err) => added_input(snapshot@, change@) == Err::<
                (InputSource<Seq<u8>>, ObjectId),
                _,
            >(err),
        },
{
    match change {
        Change::Add(name) => {
            if !allowed_ref(name.as_bytes()) {
                return Err(MergeError::UnsupportedReference);
            }
            let nothing: Vec<Rewrite> = Vec::new();
            assert(nothing@ == Seq::<Rewrite>::empty());
            match resolve(snapshot, name, nothing.as_slice(), None) {
                Err(err) => Err(err),
                Ok(None) => Err(MergeError::InputDisappeared),
                Ok(Some(id)) => Ok((InputSource::Reference(name.clone()), id)),
            }
        },
        Change::AddCommit(id) => match find_commit(&snapshot.commits, *id) {
            None => Err(MergeError::UnknownCommit),
            Some(commit) => Ok((InputSource::Change(commit.change), *id)),
        },
        _ => Err(MergeError::NotAMerge),
    }
}

fn add_input(inputs: &mut Vec<Input<FullName>>, source: InputSource<FullName>, commit_id: ObjectId)
    ensures
        viewed(final(inputs)@) == with_input(viewed(old(inputs)@), source@, commit_id),
{
    let ghost before = viewed(inputs@);
    match find_input(inputs, &source) {
        Some(i) => {
            let input = Input {
                source: inputs[i].source.copy(),
                commit_id,
                muted: inputs[i].muted,
            };
            inputs.set(i, input);
            assert(viewed(inputs@) == before.update(
                i as int,
                Input { commit_id, ..before[i as int] },
            ));
        },
        None => {
            let input = Input { source, commit_id, muted: false };
            proof {
                viewed_push(inputs@, input);
            }
            inputs.push(input);
        },
    }
}

fn remove_input(inputs: &Vec<Input<FullName>>, source: &InputSource<FullName>) -> (r: Vec<
    Input<FullName>,
>)
    ensures
        viewed(r@) == without_input(viewed(inputs@), source@),
{
    let mut out: Vec<Input<FullName>> = Vec::new();
    let mut i: usize = 0;
    assert(viewed(inputs@).take(0) == Seq::<Input<Seq<u8>>>::empty());
    assert(viewed(out@) == Seq::<Input<Seq<u8>>>::empty());
    while i < inputs.len()
        invariant
            i <= inputs@.len(),
            viewed(out@) == without_input(viewed(inputs@).take(i as int), source@),
        decreases inputs.len() - i,
    {
        assert(viewed(inputs@).take(i + 1).drop_last() == viewed(inputs@).take(i as int));
        if !inputs[i].source.same(source) {
            let input = inputs[i].copy();
            proof {
                viewed_push(out@, input);
            }
            out.push(input);
        }
        i = i + 1;
    }
    assert(viewed(inputs@).take(i as int) == viewed(inputs@));
    out
}

fn add_to_merge(
    snapshot: &Snapshot,
    bases: &[MergeBase],
    site: Site,
    change: &Change<FullName>,
    definition: Definition,
    created: bool,
) -> (r: Result<Outcome<Definition, Vec<u8>>, MergeError>)
    ensures
        ({
            let expected = adding(snapshot@, bases@, site, change@, definition@, created);
            match r {
                Ok(outcome) => expected == Ok::<_, MergeError>(outcome@),
                Err(err) => expected == Err::<OutcomeView, _>(err),
            }
        }),
{
    let (source, id) = match find_added(snapshot, change) {
        Err(err) => return Err(err),
        Ok(added) => added,
    };
    match contains(bases, id, site.head_commit_id) {
        Err(err) => return Err(err),
        Ok(true) => {
            let label = source.label();
            let mut notice = to_str_lossy(label.as_slice());
            bytes::append(
                &mut notice,
                " is already an ancestor of HEAD; no input added".as_bytes(),
            );
            return Ok(Outcome::Unchanged(notice));
        },
        Ok(false) => {},
    }
    if !created {
        match contains(bases, site.selected_commit_id, id) {
            Err(err) => return Err(err),
            Ok(true) => return Err(MergeError::TracksItself),
            Ok(false) => {},
        }
    }
    let mut inputs = definition.inputs;
    add_input(&mut inputs, source, id);
    Ok(
        Outcome::Changed {
            definition: Definition { inputs },
            created,
            notice: bytes::copied(UPDATED.as_bytes()),
        },
    )
}

/// Works out the inputs that an automatic merge has once it is changed.
pub fn change_merge(
    snapshot: &Snapshot,
    candidates: &Vec<Candidate<FullName>>,
    bases: &[MergeBase],
    site: Site,
    change: &Change<FullName>,
) -> (r: Result<Outcome<Definition, Vec<u8>>, MergeError>)
    ensures
        ({
            let expected = changed(snapshot@, viewed(candidates@), bases@, site, change@);
            match r {
                Ok(outcome) => expected == Ok::<_, MergeError>(outcome@),
                Err(err) => expected == Err::<OutcomeView, _>(err),
            }
        }),
{
    if let Err(err) = check_site(site, change) {
        return Err(err);
    }
    let (definition, created) = match find_current(snapshot, candidates, site, change) {
        Err(err) => return Err(err),
        Ok(current) => current,
    };
    match change {
        Change::Remove(source) => {
            let before: usize = definition.inputs.len();
            let inputs = remove_input(&definition.inputs, source);
            if inputs.len() == before {
                return Err(MergeError::NoLongerInput);
            }
            Ok(
                Outcome::Changed {
                    definition: Definition { inputs },
                    created,
                    notice: bytes::copied(REMOVED.as_bytes()),
                },
            )
        },
        Change::Remerge => Ok(
            Outcome::Changed { definition, created, notice: bytes::copied(UPDATED.as_bytes()) },
        ),
        _ => add_to_merge(snapshot, bases, site, change, definition, created),
    }
}

/// Whether a changed merge is rebuilt completely at once: it is new, or it is checked out.
pub fn is_eager(created: bool, site: Site) -> (r: bool)
    ensures
        r == (created || site.head_commit_id == site.selected_commit_id),
        created ==> r,
        !created ==> (r <==> site.head_commit_id == site.selected_commit_id),
{
    created || site.head_commit_id == site.selected_commit_id
}

/// How a rebuild ended: it is complete, where references moved or did not, with what is said of
/// the checkout; or it stopped.
#[derive(PartialEq, Eq, Debug)]
pub enum Rebuild<T> {
    Complete { moved_references: bool, notice: Option<T> },
    Stopped,
}

impl View for Rebuild<Vec<u8>> {
    type V = Rebuild<Seq<u8>>;

    open spec fn view(&self) -> Rebuild<Seq<u8>> {
        match self {
            Rebuild::Complete { moved_references, notice } => Rebuild::Complete {
                moved_references: *moved_references,
                notice: crate::plan::viewed_option(*notice),
            },
            Rebuild::Stopped => Rebuild::Stopped,
        }
    }
}

/// What is said of a change in the end, given whether an input of the merge is left.
pub open spec fn final_notice(
    notice: Seq<u8>,
    created: bool,
    any_live: bool,
    result: Rebuild<Seq<u8>>,
) -> Seq<u8> {
    match result {
        Rebuild::Stopped => notice,
        Rebuild::Complete { moved_references, notice: checkout } => {
            let said = if created || moved_references {
                notice
            } else if any_live {
                "AutoMerge is already up to date".spec_bytes()
            } else {
                "no inputs remain; AutoMerge unchanged".spec_bytes()
            };
            match checkout {
                None => said,
                Some(checkout) => said + "; ".spec_bytes() + checkout,
            }
        },
    }
}

/// What is said of a change in the end.
pub fn operation_notice(
    notice: &[u8],
    created: bool,
    any_live: bool,
    result: &Rebuild<Vec<u8>>,
) -> (r: Vec<u8>)
    ensures
        r@ == final_notice(notice@, created, any_live, result@),
{
    match result {
        Rebuild::Stopped => bytes::copied(notice),
        Rebuild::Complete { moved_references, notice: checkout } => {
            let mut said = if created || *moved_references {
                bytes::copied(notice)
            } else if any_live {
                bytes::copied("AutoMerge is already up to date".as_bytes())
            } else {
                bytes::copied("no inputs remain; AutoMerge unchanged".as_bytes())
            };
            if let Some(checkout) = checkout {
                bytes::append(&mut said, "; ".as_bytes());
                bytes::append(&mut said, checkout.as_slice());
            }
            said
        },
    }
}

proof fn slot_holds(inputs: Seq<Input<Seq<u8>>>, source: InputSource<Seq<u8>>, from: int)
    requires
        0 <= from,
    ensures
        input_slot(inputs, source, from) matches Some(i) ==> from <= i < inputs.len()
            && inputs[i].source == source,
        input_slot(inputs, source, from) is None ==> forall|i: int|
            from <= i < inputs.len() ==> (#[trigger] inputs[i]).source != source,
    decreases inputs.len() - from,
{
    if from < inputs.len() && inputs[from].source != source {
        slot_holds(inputs, source, from + 1);
    }
}

proof fn without_input_lemma(inputs: Seq<Input<Seq<u8>>>, source: InputSource<Seq<u8>>)
    ensures
        !follows(without_input(inputs, source), source),
        forall|other: InputSource<Seq<u8>>|
            other != source ==> #[trigger] follows(without_input(inputs, source), other)
                == follows(inputs, other),
        without_input(inputs, source).len() <= inputs.len(),
        without_input(inputs, source).len() == inputs.len() ==> !follows(inputs, source),
    decreases inputs.len(),
{
    if inputs.len() > 0 {
        let rest = inputs.drop_last();
        let before = without_input(rest, source);
        let after = without_input(inputs, source);
        without_input_lemma(rest, source);
        assert forall|other: InputSource<Seq<u8>>|
            follows(inputs, other) == (follows(rest, other) || inputs.last().source
                == other) by {
            if follows(rest, other) {
                let i = choose|i: int| 0 <= i < rest.len() && (#[trigger] rest[i]).source == other;
                assert(inputs[i].source == other);
            }
            if inputs.last().source == other {
                assert(inputs[inputs.len() - 1].source == other);
            }
            if follows(inputs, other) {
                let i = choose|i: int|
                    0 <= i < inputs.len() && (#[trigger] inputs[i]).source == other;
                if i < rest.len() {
                    assert(rest[i].source == other);
                }
            }
        }
        if inputs.last().source != source {
            assert forall|other: InputSource<Seq<u8>>|
                follows(after, other) == (follows(before, other) || inputs.last().source
                    == other) by {
                if follows(before, other) {
                    let i = choose|i: int|
                        0 <= i < before.len() && (#[trigger] before[i]).source == other;
                    assert(after[i].source == other);
                }
                if inputs.last().source == other {
                    assert(after[before.len() as int].source == other);
                }
                if follows(after, other) {
                    let i = choose|i: int|
                        0 <= i < after.len() && (#[trigger] after[i]).source == other;
                    if i < before.len() {
                        assert(before[i].source == other);
                    }
                }
            }
        }
    }
}

/// Adding an input makes the merge follow it, and none twice; removing it makes the merge not
/// follow it any more. The other inputs stay, and removing what is not followed changes nothing.
pub proof fn inputs_come_and_go(
    inputs: Seq<Input<Seq<u8>>>,
    source: InputSource<Seq<u8>>,
    commit_id: ObjectId,
)
    ensures
        follows(with_input(inputs, source, commit_id), source),
        !follows(without_input(inputs, source), source),
        forall|other: InputSource<Seq<u8>>|
            other != source ==> #[trigger] follows(with_input(inputs, source, commit_id), other)
                == follows(inputs, other),
        forall|other: InputSource<Seq<u8>>|
            other != source ==> #[trigger] follows(without_input(inputs, source), other)
                == follows(inputs, other),
        (without_input(inputs, source).len() == inputs.len()) == !follows(inputs, source),
        with_input(inputs, source, commit_id).len() == inputs.len() + if follows(inputs, source) {
            0int
        } else {
            1int
        },
{
    let added = with_input(inputs, source, commit_id);
    slot_holds(inputs, source, 0);
    without_input_lemma(inputs, source);
    match input_slot(inputs, source, 0) {
        Some(k) => {
            assert(added[k].source == source);
            assert(inputs[k].source == source);
            assert forall|other: InputSource<Seq<u8>>| other != source implies #[trigger] follows(
                added,
                other,
            ) == follows(inputs, other) by {
                if follows(added, other) {
                    let i = choose|i: int|
                        0 <= i < added.len() && (#[trigger] added[i]).source == other;
                    assert(inputs[i].source == other);
                }
                if follows(inputs, other) {
                    let i = choose|i: int|
                        0 <= i < inputs.len() && (#[trigger] inputs[i]).source == other;
                    assert(added[i].source == other);
                }
            }
        },
        None => {
            assert(added[inputs.len() as int].source == source);
            assert forall|other: InputSource<Seq<u8>>| other != source implies #[trigger] follows(
                added,
                other,
            ) == follows(inputs, other) by {
                if follows(added, other) {
                    let i = choose|i: int|
                        0 <= i < added.len() && (#[trigger] added[i]).source == other;
                    assert(inputs[i].source == other);
                }
                if follows(inputs, other) {
                    let i = choose|i: int|
                        0 <= i < inputs.len() && (#[trigger] inputs[i]).source == other;
                    assert(added[i].source == other);
                }
            }
            nothing_to_remove(inputs, source);
        },
    }
    if follows(inputs, source) {
        something_to_remove(inputs, source);
    } else {
        nothing_to_remove(inputs, source);
    }
}

proof fn nothing_to_remove(inputs: Seq<Input<Seq<u8>>>, source: InputSource<Seq<u8>>)
    requires
        forall|i: int| 0 <= i < inputs.len() ==> (#[trigger] inputs[i]).source != source,
    ensures
        without_input(inputs, source).len() == inputs.len(),
    decreases inputs.len(),
{
    if inputs.len() > 0 {
        nothing_to_remove(inputs.drop_last(), source);
    }
}

proof fn something_to_remove(inputs: Seq<Input<Seq<u8>>>, source: InputSource<Seq<u8>>)
    requires
        follows(inputs, source),
    ensures
        without_input(inputs, source).len() < inputs.len(),
    decreases inputs.len(),
{
    without_input_lemma(inputs, source);
}

} // verus!
