//! The commits that the inputs of an automatic merge stand for.
use vstd::prelude::*;
use vstd::string::StringSliceAdditionalSpecFns;
use crate::auto_merge::definition::{fixed, Header, Input, InputSource};
use crate::auto_merge::MergeError;
use crate::bytes;
use crate::ids::{contains_id, reverse_hex_of, ChangeId, ObjectId};
use crate::names::{Category, FullName};
use crate::plan::{viewed, viewed_push, PlanRef, RefDestination};
use crate::refs::{contains_name, find_state, insert_text, inserted, state_of, Reference, State};

verus! {

/// What is known of a commit: its parents, the change that it is a version of, whether its
/// conflicts are still to be resolved, and its headers.
#[derive(PartialEq, Eq, Debug)]
pub struct CommitInfo<P, H> {
    pub id: ObjectId,
    pub parents: P,
    pub change: ChangeId,
    pub pending: bool,
    pub headers: H,
}

/// A commit as it is read.
pub type Commit = CommitInfo<Vec<ObjectId>, Vec<Header<Vec<u8>>>>;

/// A commit in specifications.
pub type CommitView = CommitInfo<Seq<ObjectId>, Seq<Header<Seq<u8>>>>;

impl View for CommitInfo<Vec<ObjectId>, Vec<Header<Vec<u8>>>> {
    type V = CommitView;

    open spec fn view(&self) -> CommitView {
        CommitInfo {
            id: self.id,
            parents: self.parents@,
            change: self.change,
            pending: self.pending,
            headers: viewed(self.headers@),
        }
    }
}

/// The first commit with the given id, at or after `from`.
pub open spec fn commit_from(commits: Seq<CommitView>, id: ObjectId, from: int) -> Option<
    CommitView,
>
    decreases commits.len() - from,
{
    if from < 0 || from >= commits.len() {
        None
    } else if commits[from].id == id {
        Some(commits[from])
    } else {
        commit_from(commits, id, from + 1)
    }
}

/// The commit with the given id, if it is known.
pub open spec fn commit_of(commits: Seq<CommitView>, id: ObjectId) -> Option<CommitView> {
    commit_from(commits, id, 0)
}

/// Finds a commit.
pub fn find_commit(commits: &Vec<Commit>, id: ObjectId) -> (r: Option<&Commit>)
    ensures
        match r {
            Some(commit) => commit_of(viewed(commits@), id) == Some(commit@),
            None => commit_of(viewed(commits@), id) is None,
        },
{
    let mut i: usize = 0;
    while i < commits.len()
        invariant
            i <= commits@.len(),
            commit_of(viewed(commits@), id) == commit_from(viewed(commits@), id, i as int),
        decreases commits.len() - i,
    {
        if commits[i].id == id {
            return Some(&commits[i]);
        }
        i = i + 1;
    }
    None
}

/// A commit that another took the place of, or that was dropped.
#[derive(Clone, Copy, PartialEq, Eq, Structural, Debug)]
pub struct Rewrite {
    pub old_id: ObjectId,
    pub new_id: Option<ObjectId>,
}

/// What became of a commit by the first rewrite of it, at or after `from`.
pub open spec fn rewrite_from(rewritten: Seq<Rewrite>, id: ObjectId, from: int) -> Option<
    Option<ObjectId>,
>
    decreases rewritten.len() - from,
{
    if from < 0 || from >= rewritten.len() {
        None
    } else if rewritten[from].old_id == id {
        Some(rewritten[from].new_id)
    } else {
        rewrite_from(rewritten, id, from + 1)
    }
}

fn find_rewrite(rewritten: &[Rewrite], id: ObjectId) -> (r: Option<Option<ObjectId>>)
    ensures
        r == rewrite_from(rewritten@, id, 0),
{
    let mut i: usize = 0;
    while i < rewritten.len()
        invariant
            i <= rewritten@.len(),
            rewrite_from(rewritten@, id, 0) == rewrite_from(rewritten@, id, i as int),
        decreases rewritten.len() - i,
    {
        if rewritten[i].old_id == id {
            return Some(rewritten[i].new_id);
        }
        i = i + 1;
    }
    None
}

/// What took the place of a commit in the end, where `seen` were before it and at most `steps`
/// rewrites follow.
pub open spec fn mapped_from(
    rewritten: Seq<Rewrite>,
    id: ObjectId,
    seen: Seq<ObjectId>,
    steps: nat,
) -> Option<ObjectId>
    decreases steps,
{
    match rewrite_from(rewritten, id, 0) {
        None => Some(id),
        Some(None) => None,
        Some(Some(next)) => if steps == 0 || next == id || seen.contains(id) {
            Some(id)
        } else {
            mapped_from(rewritten, next, seen.push(id), (steps - 1) as nat)
        },
    }
}

/// What took the place of a commit in the end; none if it was dropped.
pub open spec fn mapping(rewritten: Seq<Rewrite>, id: ObjectId) -> Option<ObjectId> {
    mapped_from(rewritten, id, Seq::empty(), rewritten.len())
}

/// What took the place of a commit in the end; none if it was dropped.
pub fn mapped(id: ObjectId, rewritten: &[Rewrite]) -> (r: Option<ObjectId>)
    ensures
        r == mapping(rewritten@, id),
{
    let mut current = id;
    let mut seen: Vec<ObjectId> = Vec::new();
    let mut left: usize = rewritten.len();
    loop
        invariant
            mapping(rewritten@, id) == mapped_from(rewritten@, current, seen@, left as nat),
        decreases left,
    {
        match find_rewrite(rewritten, current) {
            None => return Some(current),
            Some(None) => return None,
            Some(Some(next)) => {
                if left == 0 || next == current || contains_id(seen.as_slice(), current) {
                    return Some(current);
                }
                seen.push(current);
                current = next;
                left = left - 1;
            },
        }
    }
}

/// A commit that a version of is placed by a plan, or that stays what it is.
#[derive(Clone, Copy, PartialEq, Eq, Structural, Debug)]
pub struct Placement {
    pub commit_id: ObjectId,
    pub destination: RefDestination,
}

/// Where a commit is placed, by the first placement of it at or after `from`.
pub open spec fn placement_from(placements: Seq<Placement>, id: ObjectId, from: int) -> Option<
    RefDestination,
>
    decreases placements.len() - from,
{
    if from < 0 || from >= placements.len() {
        None
    } else if placements[from].commit_id == id {
        Some(placements[from].destination)
    } else {
        placement_from(placements, id, from + 1)
    }
}

/// Where a commit is placed.
pub open spec fn placement_of(placements: Seq<Placement>, id: ObjectId) -> Option<RefDestination> {
    placement_from(placements, id, 0)
}

/// Placements with one more, in front of those that it takes the place of.
pub open spec fn with_placement(
    placements: Seq<Placement>,
    commit_id: ObjectId,
    destination: RefDestination,
) -> Seq<Placement> {
    seq![Placement { commit_id, destination }] + placements
}

/// An input whose change has several versions.
#[derive(Clone, Copy, PartialEq, Eq, Structural, Debug)]
pub struct Ambiguity {
    pub commit_id: ObjectId,
    pub change: ChangeId,
}

/// The ambiguities of other inputs.
pub open spec fn without_ambiguity(ambiguous: Seq<Ambiguity>, id: ObjectId) -> Seq<Ambiguity>
    decreases ambiguous.len(),
{
    if ambiguous.len() == 0 {
        Seq::empty()
    } else {
        let before = without_ambiguity(ambiguous.drop_last(), id);
        if ambiguous.last().commit_id == id {
            before
        } else {
            before.push(ambiguous.last())
        }
    }
}

/// The ambiguities with that of an input, in place of the one that it had.
pub open spec fn with_ambiguity(
    ambiguous: Seq<Ambiguity>,
    commit_id: ObjectId,
    change: ChangeId,
) -> Seq<Ambiguity> {
    without_ambiguity(ambiguous, commit_id).push(Ambiguity { commit_id, change })
}

/// What the references and the commits are that inputs stand for: the references, the commits, and
/// the commit that each object which a reference points at leads to.
#[derive(PartialEq, Eq, Debug)]
pub struct Snapshot {
    pub references: Vec<Reference<FullName>>,
    pub commits: Vec<Commit>,
    pub peeled: Vec<(ObjectId, ObjectId)>,
}

/// A snapshot in specifications.
pub struct SnapshotView {
    pub references: Seq<Reference<Seq<u8>>>,
    pub commits: Seq<CommitView>,
    pub peeled: Seq<(ObjectId, ObjectId)>,
}

impl View for Snapshot {
    type V = SnapshotView;

    open spec fn view(&self) -> SnapshotView {
        SnapshotView {
            references: viewed(self.references@),
            commits: viewed(self.commits@),
            peeled: self.peeled@,
        }
    }
}

/// The commit that an object leads to.
pub open spec fn peeled_from(peeled: Seq<(ObjectId, ObjectId)>, id: ObjectId, from: int) -> Option<
    ObjectId,
>
    decreases peeled.len() - from,
{
    if from < 0 || from >= peeled.len() {
        None
    } else if peeled[from].0 == id {
        Some(peeled[from].1)
    } else {
        peeled_from(peeled, id, from + 1)
    }
}

fn find_peeled(peeled: &Vec<(ObjectId, ObjectId)>, id: ObjectId) -> (r: Option<ObjectId>)
    ensures
        r == peeled_from(peeled@, id, 0),
{
    let mut i: usize = 0;
    while i < peeled.len()
        invariant
            i <= peeled@.len(),
            peeled_from(peeled@, id, 0) == peeled_from(peeled@, id, i as int),
        decreases peeled.len() - i,
    {
        let pair = peeled[i];
        if pair.0 == id {
            return Some(pair.1);
        }
        i = i + 1;
    }
    None
}

/// A plan's references, and the commits that its steps produced so far.
pub struct Planned<'a> {
    pub references: &'a Vec<PlanRef<FullName>>,
    pub produced: &'a Vec<ObjectId>,
}

/// A plan's references and products in specifications.
pub struct PlannedView {
    pub references: Seq<PlanRef<Seq<u8>>>,
    pub produced: Seq<ObjectId>,
}

impl<'a> View for Planned<'a> {
    type V = PlannedView;

    open spec fn view(&self) -> PlannedView {
        PlannedView { references: viewed(self.references@), produced: self.produced@ }
    }
}

/// A plan's references and products in specifications.
pub open spec fn planned_view(planned: Option<&Planned<'_>>) -> Option<PlannedView> {
    match planned {
        Some(planned) => Some(planned@),
        None => None,
    }
}

/// What the steps of a plan produced so far, if there is a plan.
pub open spec fn produced_of(planned: Option<PlannedView>) -> Seq<ObjectId> {
    match planned {
        Some(planned) => planned.produced,
        None => Seq::empty(),
    }
}

/// The commit at a destination, once the steps before it produced theirs; none if the reference
/// is deleted.
pub open spec fn resolved_destination(destination: RefDestination, produced: Seq<ObjectId>) -> Result<
    Option<ObjectId>,
    MergeError,
> {
    match destination {
        RefDestination::Follow { tip } => Err(MergeError::UnplacedReference),
        RefDestination::Step(index) => if index < produced.len() {
            Ok(Some(produced[index as int]))
        } else {
            Err(MergeError::UnproducedStep)
        },
        RefDestination::Existing(id) => Ok(Some(id)),
        RefDestination::Delete => Ok(None),
    }
}

/// The commit at a destination, once the steps before it produced theirs.
pub fn resolve_destination(destination: RefDestination, produced: &[ObjectId]) -> (r: Result<
    Option<ObjectId>,
    MergeError,
>)
    ensures
        r == resolved_destination(destination, produced@),
{
    match destination {
        RefDestination::Follow { tip: _ } => Err(MergeError::UnplacedReference),
        RefDestination::Step(index) => if index < produced.len() {
            Ok(Some(produced[index]))
        } else {
            Err(MergeError::UnproducedStep)
        },
        RefDestination::Existing(id) => Ok(Some(id)),
        RefDestination::Delete => Ok(None),
    }
}

/// The destination of the first of a plan's references with the given name, at or after `from`.
pub open spec fn destination_from(
    references: Seq<PlanRef<Seq<u8>>>,
    name: Seq<u8>,
    from: int,
) -> Option<RefDestination>
    decreases references.len() - from,
{
    if from < 0 || from >= references.len() {
        None
    } else if references[from].name == name {
        Some(references[from].destination)
    } else {
        destination_from(references, name, from + 1)
    }
}

/// Finds the destination of one of a plan's references.
pub fn find_destination(references: &Vec<PlanRef<FullName>>, name: &FullName) -> (r: Option<
    RefDestination,
>)
    ensures
        r == destination_from(viewed(references@), name@, 0),
{
    let mut i: usize = 0;
    while i < references.len()
        invariant
            i <= references@.len(),
            destination_from(viewed(references@), name@, 0) == destination_from(
                viewed(references@),
                name@,
                i as int,
            ),
        decreases references.len() - i,
    {
        if references[i].name.same(name) {
            return Some(references[i].destination);
        }
        i = i + 1;
    }
    None
}

/// The commit that a reference stands for, where `seen` led to it and at most `steps` symbolic
/// references follow: where a plan places it, and else what it holds, by what took its place. Tags
/// and remote-tracking branches do not follow rewrites.
pub open spec fn reference_from(
    snapshot: SnapshotView,
    name: Seq<u8>,
    rewritten: Seq<Rewrite>,
    planned: Option<PlannedView>,
    seen: Seq<Seq<u8>>,
    steps: nat,
) -> Result<Option<ObjectId>, MergeError>
    decreases steps,
{
    if seen.contains(name) {
        Err(MergeError::CyclicReference)
    } else {
        match planned {
            Some(plan) if destination_from(plan.references, name, 0) is Some => {
                resolved_destination(destination_from(plan.references, name, 0)->0, plan.produced)
            },
            _ => match state_of(snapshot.references, name) {
                State::Missing => Ok(None),
                State::Symbolic(target) => if steps == 0 {
                    Err(MergeError::CyclicReference)
                } else {
                    reference_from(
                        snapshot,
                        target,
                        rewritten,
                        planned,
                        seen.push(name),
                        (steps - 1) as nat,
                    )
                },
                State::Object(id) => {
                    let current = if fixed(name) {
                        Some(id)
                    } else {
                        mapping(rewritten, id)
                    };
                    match current {
                        None => Ok(None),
                        Some(id) => match peeled_from(snapshot.peeled, id, 0) {
                            Some(commit_id) => Ok(Some(commit_id)),
                            None => Err(MergeError::NotACommit),
                        },
                    }
                },
            },
        }
    }
}

/// The commit that a reference stands for; none if it is gone.
pub open spec fn resolved_reference(
    snapshot: SnapshotView,
    name: Seq<u8>,
    rewritten: Seq<Rewrite>,
    planned: Option<PlannedView>,
) -> Result<Option<ObjectId>, MergeError> {
    reference_from(
        snapshot,
        name,
        rewritten,
        planned,
        Seq::empty(),
        (snapshot.references.len() + 1) as nat,
    )
}

/// The commit that a reference stands for; none if it is gone.
pub fn resolve(
    snapshot: &Snapshot,
    name: &FullName,
    rewritten: &[Rewrite],
    planned: Option<&Planned<'_>>,
) -> (r: Result<Option<ObjectId>, MergeError>)
    ensures
        r == resolved_reference(snapshot@, name@, rewritten@, planned_view(planned)),
{
    let mut current = name.clone();
    let mut seen: Vec<FullName> = Vec::new();
    let mut left: usize = snapshot.references.len();
    assert(viewed(seen@) == Seq::<Seq<u8>>::empty());
    loop
        invariant
            resolved_reference(snapshot@, name@, rewritten@, planned_view(planned))
                == reference_from(
                snapshot@,
                current@,
                rewritten@,
                planned_view(planned),
                viewed(seen@),
                (left + 1) as nat,
            ),
        decreases left,
    {
        if contains_name(&seen, &current) {
            return Err(MergeError::CyclicReference);
        }
        if let Some(plan) = planned {
            if let Some(destination) = find_destination(plan.references, &current) {
                return resolve_destination(destination, plan.produced.as_slice());
            }
        }
        match find_state(&snapshot.references, &current) {
            State::Missing => return Ok(None),
            State::Symbolic(target) => {
                proof {
                    viewed_push(seen@, current);
                }
                seen.push(current);
                current = target;
                if left == 0 {
                    return resolve_last(
                        snapshot,
                        &current,
                        rewritten,
                        planned,
                        &seen,
                    );
                }
                left = left - 1;
            },
            State::Object(id) => return resolve_object(snapshot, &current, id, rewritten),
        }
    }
}

fn resolve_object(
    snapshot: &Snapshot,
    name: &FullName,
    id: ObjectId,
    rewritten: &[Rewrite],
) -> (r: Result<Option<ObjectId>, MergeError>)
    ensures
        r == match if fixed(name@) {
            Some(id)
        } else {
            mapping(rewritten@, id)
        } {
            None => Ok::<_, MergeError>(None),
            Some(id) => match peeled_from(snapshot.peeled@, id, 0) {
                Some(commit_id) => Ok(Some(commit_id)),
                None => Err(MergeError::NotACommit),
            },
        },
{
    let category = name.category();
    let current = if category == Category::Tag || category == Category::RemoteBranch {
        Some(id)
    } else {
        mapped(id, rewritten)
    };
    match current {
        None => Ok(None),
        Some(id) => match find_peeled(&snapshot.peeled, id) {
            Some(commit_id) => Ok(Some(commit_id)),
            None => Err(MergeError::NotACommit),
        },
    }
}

fn resolve_last(
    snapshot: &Snapshot,
    name: &FullName,
    rewritten: &[Rewrite],
    planned: Option<&Planned<'_>>,
    seen: &Vec<FullName>,
) -> (r: Result<Option<ObjectId>, MergeError>)
    ensures
        r == reference_from(
            snapshot@,
            name@,
            rewritten@,
            planned_view(planned),
            viewed(seen@),
            0,
        ),
{
    if contains_name(seen, name) {
        return Err(MergeError::CyclicReference);
    }
    if let Some(plan) = planned {
        if let Some(destination) = find_destination(plan.references, name) {
            return resolve_destination(destination, plan.produced.as_slice());
        }
    }
    match find_state(&snapshot.references, name) {
        State::Missing => Ok(None),
        State::Symbolic(_) => Err(MergeError::CyclicReference),
        State::Object(id) => resolve_object(snapshot, name, id, rewritten),
    }
}

/// What inputs are resolved with across an operation: the commits that are searched for versions
/// of a change, where commits are placed, and which inputs turned out to be ambiguous.
#[derive(PartialEq, Eq, Debug)]
pub struct References {
    pub candidates: Option<Vec<ObjectId>>,
    pub placements: Vec<Placement>,
    pub ambiguous: Vec<Ambiguity>,
}

/// What inputs are resolved with, in specifications.
pub struct ReferencesView {
    pub candidates: Option<Seq<ObjectId>>,
    pub placements: Seq<Placement>,
    pub ambiguous: Seq<Ambiguity>,
}

impl View for References {
    type V = ReferencesView;

    open spec fn view(&self) -> ReferencesView {
        ReferencesView {
            candidates: match self.candidates {
                Some(candidates) => Some(candidates@),
                None => None,
            },
            placements: self.placements@,
            ambiguous: self.ambiguous@,
        }
    }
}

/// The candidates from `at` on that are versions of a change, each once, behind `done`.
pub open spec fn versions_from(
    commits: Seq<CommitView>,
    candidates: Seq<ObjectId>,
    change: ChangeId,
    at: int,
    done: Seq<ObjectId>,
) -> Result<Seq<ObjectId>, MergeError>
    decreases candidates.len() - at,
{
    if at < 0 || at >= candidates.len() {
        Ok(done)
    } else {
        match commit_of(commits, candidates[at]) {
            None => Err(MergeError::UnknownCommit),
            Some(commit) => versions_from(
                commits,
                candidates,
                change,
                at + 1,
                if commit.change == change && !done.contains(candidates[at]) {
                    done.push(candidates[at])
                } else {
                    done
                },
            ),
        }
    }
}

fn find_versions(commits: &Vec<Commit>, candidates: &Vec<ObjectId>, change: ChangeId) -> (r: Result<
    Vec<ObjectId>,
    MergeError,
>)
    ensures
        match r {
            Ok(found) => versions_from(viewed(commits@), candidates@, change, 0, Seq::empty())
                == Ok::<_, MergeError>(found@),
            Err(err) => versions_from(viewed(commits@), candidates@, change, 0, Seq::empty())
                == Err::<Seq<ObjectId>, _>(err),
        },
{
    let mut found: Vec<ObjectId> = Vec::new();
    let mut at: usize = 0;
    while at < candidates.len()
        invariant
            at <= candidates@.len(),
            versions_from(viewed(commits@), candidates@, change, 0, Seq::empty())
                == versions_from(viewed(commits@), candidates@, change, at as int, found@),
        decreases candidates.len() - at,
    {
        let id = candidates[at];
        match find_commit(commits, id) {
            None => return Err(MergeError::UnknownCommit),
            Some(commit) => {
                if commit.change == change && !contains_id(found.as_slice(), id) {
                    found.push(id);
                }
            },
        }
        at = at + 1;
    }
    Ok(found)
}

/// The commit that a change is at by its placements, from `id` on, where `seen` were before it and
/// at most `steps` placements follow; none if a placement drops it or turns it into another
/// change.
pub open spec fn change_from(
    commits: Seq<CommitView>,
    placements: Seq<Placement>,
    change: ChangeId,
    produced: Seq<ObjectId>,
    id: ObjectId,
    seen: Seq<ObjectId>,
    steps: nat,
) -> Result<Option<ObjectId>, MergeError>
    decreases steps,
{
    match placement_of(placements, id) {
        None => Ok(Some(id)),
        Some(destination) => if seen.contains(id) {
            Err(MergeError::CyclicRewrites)
        } else {
            match resolved_destination(destination, produced) {
                Err(err) => Err(err),
                Ok(None) => Ok(None),
                Ok(Some(next)) => match commit_of(commits, next) {
                    None => Err(MergeError::UnknownCommit),
                    Some(commit) => if commit.change != change {
                        Ok(None)
                    } else if next == id || destination is Step {
                        Ok(Some(next))
                    } else if steps == 0 {
                        Err(MergeError::CyclicRewrites)
                    } else {
                        change_from(
                            commits,
                            placements,
                            change,
                            produced,
                            next,
                            seen.push(id),
                            (steps - 1) as nat,
                        )
                    },
                },
            }
        },
    }
}

/// Where the search for a change begins: at the commit of its input, unless that is not placed and
/// there is exactly one version of the change. Several versions are an ambiguity.
pub open spec fn change_start(
    refs: ReferencesView,
    snapshot: SnapshotView,
    commit_id: ObjectId,
    change: ChangeId,
) -> Result<(ObjectId, Seq<Ambiguity>), MergeError> {
    if placement_of(refs.placements, commit_id) is Some {
        Ok((commit_id, refs.ambiguous))
    } else {
        match refs.candidates {
            None => Ok((commit_id, refs.ambiguous)),
            Some(candidates) => match versions_from(
                snapshot.commits,
                candidates,
                change,
                0,
                Seq::empty(),
            ) {
                Err(err) => Err(err),
                Ok(found) => if found.len() == 0 {
                    Ok((commit_id, refs.ambiguous))
                } else if found.len() == 1 {
                    Ok((found[0], refs.ambiguous))
                } else {
                    Ok((commit_id, with_ambiguity(refs.ambiguous, commit_id, change)))
                },
            },
        }
    }
}

/// The commit that an input stands for, and the ambiguities that are known then.
pub open spec fn resolved_input(
    refs: ReferencesView,
    snapshot: SnapshotView,
    input: Input<Seq<u8>>,
    rewritten: Seq<Rewrite>,
    planned: Option<PlannedView>,
) -> (Result<Option<ObjectId>, MergeError>, Seq<Ambiguity>) {
    match input.source {
        InputSource::Reference(name) => (
            resolved_reference(snapshot, name, rewritten, planned),
            refs.ambiguous,
        ),
        InputSource::Change(change) => match change_start(
            refs,
            snapshot,
            input.commit_id,
            change,
        ) {
            Err(err) => (Err(err), refs.ambiguous),
            Ok((start, ambiguous)) => (
                change_from(
                    snapshot.commits,
                    refs.placements,
                    change,
                    produced_of(planned),
                    start,
                    Seq::empty(),
                    refs.placements.len(),
                ),
                if placement_of(refs.placements, start) is Some {
                    without_ambiguity(ambiguous, input.commit_id)
                } else {
                    ambiguous
                },
            ),
        },
    }
}

fn remove_ambiguity(ambiguous: &mut Vec<Ambiguity>, id: ObjectId)
    ensures
        final(ambiguous)@ == without_ambiguity(old(ambiguous)@, id),
{
    let mut out: Vec<Ambiguity> = Vec::new();
    let mut i: usize = 0;
    assert(ambiguous@.take(0) == Seq::<Ambiguity>::empty());
    while i < ambiguous.len()
        invariant
            i <= ambiguous@.len(),
            out@ == without_ambiguity(ambiguous@.take(i as int), id),
        decreases ambiguous.len() - i,
    {
        let ambiguity = ambiguous[i];
        assert(ambiguous@.take(i + 1).drop_last() == ambiguous@.take(i as int));
        if ambiguity.commit_id != id {
            out.push(ambiguity);
        }
        i = i + 1;
    }
    assert(ambiguous@.take(i as int) == ambiguous@);
    *ambiguous = out;
}

fn find_placement(placements: &Vec<Placement>, id: ObjectId) -> (r: Option<RefDestination>)
    ensures
        r == placement_of(placements@, id),
{
    let mut i: usize = 0;
    while i < placements.len()
        invariant
            i <= placements@.len(),
            placement_of(placements@, id) == placement_from(placements@, id, i as int),
        decreases placements.len() - i,
    {
        if placements[i].commit_id == id {
            return Some(placements[i].destination);
        }
        i = i + 1;
    }
    None
}

fn follow_change(
    commits: &Vec<Commit>,
    placements: &Vec<Placement>,
    change: ChangeId,
    produced: &[ObjectId],
    start: ObjectId,
) -> (r: Result<Option<ObjectId>, MergeError>)
    ensures
        r == change_from(
            viewed(commits@),
            placements@,
            change,
            produced@,
            start,
            Seq::empty(),
            placements@.len(),
        ),
{
    let mut id = start;
    let mut seen: Vec<ObjectId> = Vec::new();
    let mut left: usize = placements.len();
    loop
        invariant
            change_from(
                viewed(commits@),
                placements@,
                change,
                produced@,
                start,
                Seq::empty(),
                placements@.len(),
            ) == change_from(
                viewed(commits@),
                placements@,
                change,
                produced@,
                id,
                seen@,
                left as nat,
            ),
        decreases left,
    {
        let destination = match find_placement(placements, id) {
            None => return Ok(Some(id)),
            Some(destination) => destination,
        };
        if contains_id(seen.as_slice(), id) {
            return Err(MergeError::CyclicRewrites);
        }
        let next = match resolve_destination(destination, produced) {
            Err(err) => return Err(err),
            Ok(None) => return Ok(None),
            Ok(Some(next)) => next,
        };
        match find_commit(commits, next) {
            None => return Err(MergeError::UnknownCommit),
            Some(commit) => {
                if commit.change != change {
                    return Ok(None);
                }
            },
        }
        let produced_by_step = match destination {
            RefDestination::Step(_) => true,
            _ => false,
        };
        if next == id || produced_by_step {
            return Ok(Some(next));
        }
        if left == 0 {
            return Err(MergeError::CyclicRewrites);
        }
        seen.push(id);
        id = next;
        left = left - 1;
    }
}

impl References {
    /// Nothing is placed, and the given commits are searched for versions of a change.
    pub fn new(candidates: Option<Vec<ObjectId>>) -> (r: References)
        ensures
            r@.candidates == match candidates {
                Some(candidates) => Some(candidates@),
                None => None,
            },
            r@.placements == Seq::<Placement>::empty(),
            r@.ambiguous == Seq::<Ambiguity>::empty(),
    {
        References { candidates, placements: Vec::new(), ambiguous: Vec::new() }
    }

    /// Notes that a commit was rewritten or dropped, and did not only have a reference moved away
    /// from it.
    pub fn rewritten(&mut self, old_id: ObjectId, new_id: Option<ObjectId>)
        ensures
            final(self)@ == (ReferencesView {
                placements: with_placement(
                    old(self)@.placements,
                    old_id,
                    match new_id {
                        Some(id) => RefDestination::Existing(id),
                        None => RefDestination::Delete,
                    },
                ),
                ..old(self)@
            }),
    {
        let destination = match new_id {
            Some(id) => RefDestination::Existing(id),
            None => RefDestination::Delete,
        };
        self.place(old_id, destination);
    }

    /// Notes where a commit is placed.
    pub fn place(&mut self, commit_id: ObjectId, destination: RefDestination)
        ensures
            final(self)@ == (ReferencesView {
                placements: with_placement(old(self)@.placements, commit_id, destination),
                ..old(self)@
            }),
    {
        let ghost before = self.placements@;
        self.placements.insert(0, Placement { commit_id, destination });
        assert(self.placements@ == with_placement(before, commit_id, destination));
    }

    fn start_of(&mut self, snapshot: &Snapshot, commit_id: ObjectId, change: ChangeId) -> (r:
        Result<ObjectId, MergeError>)
        ensures
            match r {
                Ok(start) => change_start(old(self)@, snapshot@, commit_id, change) == Ok::<
                    _,
                    MergeError,
                >((start, final(self)@.ambiguous)),
                Err(err) => change_start(old(self)@, snapshot@, commit_id, change) == Err::<
                    (ObjectId, Seq<Ambiguity>),
                    _,
                >(err) && final(self)@.ambiguous == old(self)@.ambiguous,
            },
            final(self)@.candidates == old(self)@.candidates,
            final(self)@.placements == old(self)@.placements,
    {
        if find_placement(&self.placements, commit_id).is_some() {
            return Ok(commit_id);
        }
        let candidates = match &self.candidates {
            None => return Ok(commit_id),
            Some(candidates) => candidates,
        };
        let found = match find_versions(&snapshot.commits, candidates, change) {
            Err(err) => return Err(err),
            Ok(found) => found,
        };
        if found.len() == 0 {
            return Ok(commit_id);
        }
        if found.len() == 1 {
            return Ok(found[0]);
        }
        remove_ambiguity(&mut self.ambiguous, commit_id);
        self.ambiguous.push(Ambiguity { commit_id, change });
        Ok(commit_id)
    }

    /// The commit that an input stands for; none if it is gone.
    pub fn resolve_input(
        &mut self,
        snapshot: &Snapshot,
        input: &Input<FullName>,
        rewritten: &[Rewrite],
        planned: Option<&Planned<'_>>,
    ) -> (r: Result<Option<ObjectId>, MergeError>)
        ensures
            (r, final(self)@.ambiguous) == resolved_input(
                old(self)@,
                snapshot@,
                input@,
                rewritten@,
                planned_view(planned),
            ),
            final(self)@.candidates == old(self)@.candidates,
            final(self)@.placements == old(self)@.placements,
    {
        let change = match &input.source {
            InputSource::Reference(name) => return resolve(snapshot, name, rewritten, planned),
            InputSource::Change(change) => *change,
        };
        let start = match self.start_of(snapshot, input.commit_id, change) {
            Err(err) => return Err(err),
            Ok(start) => start,
        };
        if find_placement(&self.placements, start).is_some() {
            remove_ambiguity(&mut self.ambiguous, input.commit_id);
        }
        match planned {
            Some(plan) => follow_change(
                &snapshot.commits,
                &self.placements,
                change,
                plan.produced.as_slice(),
                start,
            ),
            None => {
                let nothing: Vec<ObjectId> = Vec::new();
                assert(nothing@ == Seq::<ObjectId>::empty());
                follow_change(
                    &snapshot.commits,
                    &self.placements,
                    change,
                    nothing.as_slice(),
                    start,
                )
            },
        }
    }

    /// What is said of ambiguities, if there are any.
    pub fn notice(&self) -> (r: Option<Vec<u8>>)
        ensures
            match r {
                Some(text) => self@.ambiguous.len() > 0 && text@ == ambiguity_notice(
                    self@.ambiguous,
                ),
                None => self@.ambiguous.len() == 0,
            },
    {
        if self.ambiguous.len() == 0 {
            return None;
        }
        let mut names: Vec<Vec<u8>> = Vec::new();
        let mut i: usize = 0;
        assert(viewed(names@) == Seq::<Seq<u8>>::empty());
        assert(self.ambiguous@.take(0) == Seq::<Ambiguity>::empty());
        while i < self.ambiguous.len()
            invariant
                i <= self.ambiguous@.len(),
                viewed(names@) == changes_sorted(self.ambiguous@.take(i as int)),
            decreases self.ambiguous.len() - i,
        {
            let name = self.ambiguous[i].change.to_reverse_hex();
            assert(self.ambiguous@.take(i + 1).drop_last() == self.ambiguous@.take(i as int));
            if !contains_text(&names, name.as_slice()) {
                insert_text(&mut names, name);
            }
            i = i + 1;
        }
        assert(self.ambiguous@.take(i as int) == self.ambiguous@);
        let mut out = bytes::copied("ambiguous AutoMerge change IDs ".as_bytes());
        let list = join(&names, ", ".as_bytes());
        bytes::append(&mut out, list.as_slice());
        bytes::append(&mut out, "; kept their current inputs".as_bytes());
        Some(out)
    }
}

fn contains_text(texts: &Vec<Vec<u8>>, text: &[u8]) -> (r: bool)
    ensures
        r == viewed(texts@).contains(text@),
{
    let mut i: usize = 0;
    while i < texts.len()
        invariant
            i <= texts@.len(),
            forall|j: int| 0 <= j < i ==> viewed(texts@)[j] != text@,
        decreases texts.len() - i,
    {
        if bytes::equal(texts[i].as_slice(), text) {
            assert(viewed(texts@)[i as int] == text@);
            return true;
        }
        i = i + 1;
    }
    false
}

/// Several texts with a separator between them.
pub open spec fn joined(texts: Seq<Seq<u8>>, separator: Seq<u8>) -> Seq<u8>
    decreases texts.len(),
{
    if texts.len() == 0 {
        Seq::empty()
    } else if texts.len() == 1 {
        texts[0]
    } else {
        joined(texts.drop_last(), separator) + separator + texts.last()
    }
}

/// Joins several texts with a separator between them.
pub fn join(texts: &Vec<Vec<u8>>, separator: &[u8]) -> (r: Vec<u8>)
    ensures
        r@ == joined(viewed(texts@), separator@),
{
    let mut out: Vec<u8> = Vec::new();
    let mut i: usize = 0;
    assert(viewed(texts@).take(0) == Seq::<Seq<u8>>::empty());
    while i < texts.len()
        invariant
            i <= texts@.len(),
            out@ == joined(viewed(texts@).take(i as int), separator@),
        decreases texts.len() - i,
    {
        assert(viewed(texts@).take(i + 1).drop_last() == viewed(texts@).take(i as int));
        if i > 0 {
            bytes::append(&mut out, separator);
        }
        bytes::append(&mut out, texts[i].as_slice());
        assert(out@ == joined(viewed(texts@).take(i + 1), separator@));
        i = i + 1;
    }
    assert(viewed(texts@).take(i as int) == viewed(texts@));
    out
}

/// The changes that ambiguities are about, each once and in order.
pub open spec fn changes_sorted(ambiguous: Seq<Ambiguity>) -> Seq<Seq<u8>>
    decreases ambiguous.len(),
{
    if ambiguous.len() == 0 {
        Seq::empty()
    } else {
        let before = changes_sorted(ambiguous.drop_last());
        let name = reverse_hex_of(ambiguous.last().change);
        if before.contains(name) {
            before
        } else {
            inserted(before, name)
        }
    }
}

/// What is said of ambiguities.
pub open spec fn ambiguity_notice(ambiguous: Seq<Ambiguity>) -> Seq<u8> {
    "ambiguous AutoMerge change IDs ".spec_bytes() + joined(
        changes_sorted(ambiguous),
        ", ".spec_bytes(),
    ) + "; kept their current inputs".spec_bytes()
}

/// An input follows what its commit was rewritten to once that is noted, or is gone if the commit was
/// dropped, whatever the snapshot, the candidates and other rewrites say: `new_id` holds the change of the
/// input, and was not rewritten itself unless it stays what it is.
pub proof fn noted_rewrites_are_followed(
    refs: ReferencesView,
    snapshot: SnapshotView,
    change: ChangeId,
    old_id: ObjectId,
    new_id: Option<ObjectId>,
    muted: bool,
    rewritten: Seq<Rewrite>,
    planned: Option<PlannedView>,
)
    requires
        new_id matches Some(id) ==> {
            &&& commit_of(snapshot.commits, id) matches Some(commit) && commit.change == change
            &&& id == old_id || placement_of(refs.placements, id) is None
        },
    ensures
        ({
            let noted = ReferencesView {
                placements: with_placement(
                    refs.placements,
                    old_id,
                    match new_id {
                        Some(id) => RefDestination::Existing(id),
                        None => RefDestination::Delete,
                    },
                ),
                ..refs
            };
            let input = Input { source: InputSource::Change(change), commit_id: old_id, muted };
            resolved_input(noted, snapshot, input, rewritten, planned).0 == Ok::<_, MergeError>(
                new_id,
            )
        }),
{
    let placements = with_placement(
        refs.placements,
        old_id,
        match new_id {
            Some(id) => RefDestination::Existing(id),
            None => RefDestination::Delete,
        },
    );
    assert(placements[0].commit_id == old_id);
    if let Some(id) = new_id {
        if id != old_id {
            placements_shift(placements, refs.placements, id, 0);
        }
    }
    reveal_with_fuel(change_from, 2);
}

proof fn placements_shift(
    more: Seq<Placement>,
    placements: Seq<Placement>,
    id: ObjectId,
    from: int,
)
    requires
        more.len() == placements.len() + 1,
        forall|i: int| 0 <= i < placements.len() ==> more[i + 1] == #[trigger] placements[i],
        more[0].commit_id != id,
        0 <= from,
    ensures
        placement_from(more, id, from + 1) == placement_from(placements, id, from),
        from == 0 ==> placement_from(more, id, 0) == placement_from(placements, id, 0),
    decreases placements.len() - from,
{
    if from < placements.len() {
        assert(more[from + 1] == placements[from]);
        placements_shift(more, placements, id, from + 1);
    }
}

/// Whether nothing that is rewritten or planned moves a reference away from a commit.
pub open spec fn stays_there(
    name: Seq<u8>,
    id: ObjectId,
    rewritten: Seq<Rewrite>,
    planned: Option<PlannedView>,
) -> bool {
    &&& fixed(name) || mapping(rewritten, id) == Some(id)
    &&& planned matches Some(plan) ==> destination_from(plan.references, name, 0) is None
}

/// A reference stands for the commit that a snapshot says it is at, however often it is asked for. Once the
/// reference has moved, the next snapshot says so and the last one does not.
pub proof fn snapshots_say_where_references_are(
    before: SnapshotView,
    after: SnapshotView,
    name: Seq<u8>,
    old_id: ObjectId,
    new_id: ObjectId,
    rewritten: Seq<Rewrite>,
    planned: Option<PlannedView>,
)
    requires
        state_of(before.references, name) == State::<Seq<u8>>::Object(old_id),
        state_of(after.references, name) == State::<Seq<u8>>::Object(new_id),
        peeled_from(before.peeled, old_id, 0) is Some,
        peeled_from(after.peeled, new_id, 0) is Some,
        stays_there(name, old_id, rewritten, planned),
        stays_there(name, new_id, rewritten, planned),
    ensures
        resolved_reference(before, name, rewritten, planned) == Ok::<_, MergeError>(
            peeled_from(before.peeled, old_id, 0),
        ),
        resolved_reference(after, name, rewritten, planned) == Ok::<_, MergeError>(
            peeled_from(after.peeled, new_id, 0),
        ),
{
}

/// Without rewrites and plans, nothing moves a reference away from a commit.
pub proof fn references_stay_without_rewrites(name: Seq<u8>, id: ObjectId)
    ensures
        stays_there(name, id, Seq::empty(), None),
{
    assert(mapping(Seq::<Rewrite>::empty(), id) == Some(id));
}

} // verus!
