//! Which commits an edit affects through automatic merges, and in which order they are rebuilt.
use vstd::prelude::*;
use crate::auto_merge::closure::{changeable, followers_are_affected};
use crate::auto_merge::coverage::{among, edits_affect_what_they_name, in_place};
use crate::auto_merge::definition::{
    automatic, definition_of, fixed, is_auto_merge, Definition, Input, InputSource,
};
use crate::auto_merge::resolve::{
    commit_of, find_commit, resolved_input, with_placement, Ambiguity, Commit, CommitView,
    References, ReferencesView, Rewrite, Snapshot, SnapshotView,
};
use crate::auto_merge::topology::{order, order_of};
use crate::auto_merge::MergeError;
use crate::ids::{contains_id, ObjectId};
use crate::names::FullName;
use crate::plan::{copy_ids, viewed, viewed_push, RefDestination};

verus! {

/// An automatic merge: its inputs, and the commits that build on it, itself first and parents
/// before children.
#[derive(PartialEq, Eq, Debug)]
pub struct Merge {
    pub id: ObjectId,
    pub definition: Definition,
    pub descendants: Vec<ObjectId>,
}

/// An automatic merge in specifications.
pub struct MergeView {
    pub id: ObjectId,
    pub inputs: Seq<Input<Seq<u8>>>,
    pub descendants: Seq<ObjectId>,
}

impl View for Merge {
    type V = MergeView;

    open spec fn view(&self) -> MergeView {
        MergeView { id: self.id, inputs: self.definition@, descendants: self.descendants@ }
    }
}

/// The best common ancestor of two commits, if they have one.
#[derive(Clone, Copy, PartialEq, Eq, Structural, Debug)]
pub struct MergeBase {
    pub one: ObjectId,
    pub other: ObjectId,
    pub base: Option<ObjectId>,
}

/// What is known of the history: the commits that can be edited, the automatic merges, the best
/// common ancestors of commits, and the commits that are searched for versions of a change.
#[derive(PartialEq, Eq, Debug)]
pub struct Graph {
    pub scope: Vec<ObjectId>,
    pub merges: Vec<Merge>,
    pub bases: Vec<MergeBase>,
    pub bounded_history: Option<Vec<ObjectId>>,
}

/// What is known of the history, in specifications.
pub struct GraphView {
    pub scope: Seq<ObjectId>,
    pub merges: Seq<MergeView>,
    pub bases: Seq<MergeBase>,
    pub bounded_history: Option<Seq<ObjectId>>,
}

impl View for Graph {
    type V = GraphView;

    open spec fn view(&self) -> GraphView {
        GraphView {
            scope: self.scope@,
            merges: viewed(self.merges@),
            bases: self.bases@,
            bounded_history: match self.bounded_history {
                Some(ids) => Some(ids@),
                None => None,
            },
        }
    }
}

/// The best common ancestor of two commits by the first entry for them, at or after `from`.
pub open spec fn base_from(
    bases: Seq<MergeBase>,
    one: ObjectId,
    other: ObjectId,
    from: int,
) -> Option<Option<ObjectId>>
    decreases bases.len() - from,
{
    if from < 0 || from >= bases.len() {
        None
    } else if bases[from].one == one && bases[from].other == other {
        Some(bases[from].base)
    } else {
        base_from(bases, one, other, from + 1)
    }
}

/// Whether a commit is another or an ancestor of it: their best common ancestor is the first.
pub open spec fn containing(
    bases: Seq<MergeBase>,
    ancestor: ObjectId,
    descendant: ObjectId,
) -> Result<bool, MergeError> {
    if ancestor == descendant {
        Ok(true)
    } else {
        match base_from(bases, ancestor, descendant, 0) {
            None => Err(MergeError::UnknownAncestry),
            Some(base) => Ok(base == Some(ancestor)),
        }
    }
}

/// Whether a commit is another or an ancestor of it.
pub fn contains(bases: &[MergeBase], ancestor: ObjectId, descendant: ObjectId) -> (r: Result<
    bool,
    MergeError,
>)
    ensures
        r == containing(bases@, ancestor, descendant),
{
    if ancestor == descendant {
        return Ok(true);
    }
    let mut i: usize = 0;
    while i < bases.len()
        invariant
            ancestor != descendant,
            i <= bases@.len(),
            base_from(bases@, ancestor, descendant, 0) == base_from(
                bases@,
                ancestor,
                descendant,
                i as int,
            ),
        decreases bases.len() - i,
    {
        let entry = bases[i];
        if entry.one == ancestor && entry.other == descendant {
            return match entry.base {
                Some(base) => Ok(base == ancestor),
                None => Ok(false),
            };
        }
        i = i + 1;
    }
    Err(MergeError::UnknownAncestry)
}

/// The commits from the checkout on along first parents that can be edited, up to the first
/// automatic merge, behind `path` and at most `left` more.
pub open spec fn path_from(
    commits: Seq<CommitView>,
    scope: Seq<ObjectId>,
    cursor: Option<ObjectId>,
    path: Seq<ObjectId>,
    left: nat,
) -> Result<Seq<ObjectId>, MergeError>
    decreases left,
{
    match cursor {
        None => Ok(path),
        Some(id) => if left == 0 || !scope.contains(id) || path.contains(id) {
            Ok(path)
        } else {
            match commit_of(commits, id) {
                None => Err(MergeError::UnknownCommit),
                Some(commit) => if automatic(commit.headers) {
                    Ok(path.push(id))
                } else {
                    path_from(
                        commits,
                        scope,
                        first_of(commit.parents),
                        path.push(id),
                        (left - 1) as nat,
                    )
                },
            }
        },
    }
}

/// The first of several ids.
pub open spec fn first_of(ids: Seq<ObjectId>) -> Option<ObjectId> {
    if ids.len() > 0 {
        Some(ids[0])
    } else {
        None
    }
}

fn first(ids: &Vec<ObjectId>) -> (r: Option<ObjectId>)
    ensures
        r == first_of(ids@),
{
    if ids.len() > 0 {
        Some(ids[0])
    } else {
        None
    }
}

/// The commits whose conflicts must be in the worktree: those that the checkout leads to along
/// first parents and that can be edited, up to the first automatic merge. Beneath that, inputs can
/// stay as they are and be left out.
pub fn checkout_path(commits: &Vec<Commit>, scope: &Vec<ObjectId>, checkout: Option<ObjectId>) -> (r:
    Result<Vec<ObjectId>, MergeError>)
    ensures
        match r {
            Ok(path) => path_from(
                viewed(commits@),
                scope@,
                checkout,
                Seq::empty(),
                scope@.len(),
            ) == Ok::<_, MergeError>(path@),
            Err(err) => path_from(
                viewed(commits@),
                scope@,
                checkout,
                Seq::empty(),
                scope@.len(),
            ) == Err::<Seq<ObjectId>, _>(err),
        },
{
    let mut path: Vec<ObjectId> = Vec::new();
    let mut cursor = checkout;
    let mut left: usize = scope.len();
    loop
        invariant
            path_from(viewed(commits@), scope@, checkout, Seq::empty(), scope@.len())
                == path_from(viewed(commits@), scope@, cursor, path@, left as nat),
        decreases left,
    {
        let id = match cursor {
            None => return Ok(path),
            Some(id) => id,
        };
        if left == 0 || !contains_id(scope.as_slice(), id) || contains_id(path.as_slice(), id) {
            return Ok(path);
        }
        let commit = match find_commit(commits, id) {
            None => return Err(MergeError::UnknownCommit),
            Some(commit) => commit,
        };
        path.push(id);
        if is_auto_merge(&commit.headers) {
            return Ok(path);
        }
        cursor = first(&commit.parents);
        left = left - 1;
    }
}

/// What is worked out on the way: the commits that are affected, what inputs are resolved with,
/// the merges that are still to be looked at, those that must be rebuilt completely, and the
/// commits that may stay in conflict.
#[derive(PartialEq, Eq, Debug)]
pub struct Preparation {
    pub affected: Vec<ObjectId>,
    pub refs: References,
    pub queue: Vec<ObjectId>,
    pub eager: Vec<ObjectId>,
    pub optional: Vec<ObjectId>,
}

/// What is worked out on the way, in specifications.
pub struct PreparationView {
    pub affected: Seq<ObjectId>,
    pub refs: ReferencesView,
    pub queue: Seq<ObjectId>,
    pub eager: Seq<ObjectId>,
    pub optional: Seq<ObjectId>,
}

impl View for Preparation {
    type V = PreparationView;

    open spec fn view(&self) -> PreparationView {
        PreparationView {
            affected: self.affected@,
            refs: self.refs@,
            queue: self.queue@,
            eager: self.eager@,
            optional: self.optional@,
        }
    }
}

/// What inputs are resolved with once a commit stands for itself.
pub open spec fn standing(refs: ReferencesView, id: ObjectId) -> ReferencesView {
    ReferencesView {
        placements: with_placement(refs.placements, id, RefDestination::Existing(id)),
        ..refs
    }
}

impl PreparationView {
    /// With one more commit affected, unless it is already.
    pub open spec fn including(self, id: ObjectId) -> PreparationView {
        if self.affected.contains(id) {
            self
        } else {
            PreparationView {
                affected: self.affected.push(id),
                refs: standing(self.refs, id),
                ..self
            }
        }
    }

    /// With the commits from `at` on affected.
    pub open spec fn including_from(self, ids: Seq<ObjectId>, at: int) -> PreparationView
        decreases ids.len() - at,
    {
        if at < 0 || at >= ids.len() {
            self
        } else {
            self.including(ids[at]).including_from(ids, at + 1)
        }
    }

    /// With other ambiguities.
    pub open spec fn knowing(self, ambiguous: Seq<Ambiguity>) -> PreparationView {
        PreparationView { refs: ReferencesView { ambiguous, ..self.refs }, ..self }
    }
}

impl Preparation {
    fn include_commit(&mut self, id: ObjectId)
        ensures
            final(self)@ == old(self)@.including(id),
    {
        if !contains_id(self.affected.as_slice(), id) {
            self.refs.rewritten(id, Some(id));
            self.affected.push(id);
        }
    }

    fn include_commits(&mut self, ids: &Vec<ObjectId>)
        ensures
            final(self)@ == old(self)@.including_from(ids@, 0),
    {
        let ghost before = self@;
        let mut at: usize = 0;
        while at < ids.len()
            invariant
                before == old(self)@,
                at <= ids@.len(),
                before.including_from(ids@, 0) == self@.including_from(ids@, at as int),
            decreases ids.len() - at,
        {
            self.include_commit(ids[at]);
            at = at + 1;
        }
    }
}

/// Whether one of the inputs from `at` on that can be rewritten stands for an affected commit, and
/// the ambiguities that are known then.
pub open spec fn touched_from(
    snapshot: SnapshotView,
    state: PreparationView,
    inputs: Seq<Input<Seq<u8>>>,
    at: int,
    found: bool,
) -> Result<(bool, PreparationView), MergeError>
    decreases inputs.len() - at,
{
    if at < 0 || at >= inputs.len() {
        Ok((found, state))
    } else if inputs[at].source matches InputSource::Reference(name) && fixed(name) {
        touched_from(snapshot, state, inputs, at + 1, found)
    } else {
        let (result, ambiguous) = resolved_input(
            state.refs,
            snapshot,
            inputs[at],
            Seq::empty(),
            None,
        );
        match result {
            Err(err) => Err(err),
            Ok(id) => touched_from(
                snapshot,
                state.knowing(ambiguous),
                inputs,
                at + 1,
                found || (id matches Some(id) && state.affected.contains(id)),
            ),
        }
    }
}

fn find_touched(snapshot: &Snapshot, state: &mut Preparation, inputs: &Vec<Input<FullName>>) -> (r:
    Result<bool, MergeError>)
    ensures
        match r {
            Ok(found) => touched_from(snapshot@, old(state)@, viewed(inputs@), 0, false) == Ok::<
                _,
                MergeError,
            >((found, final(state)@)),
            Err(err) => touched_from(snapshot@, old(state)@, viewed(inputs@), 0, false) == Err::<
                (bool, PreparationView),
                _,
            >(err),
        },
{
    let nothing: Vec<Rewrite> = Vec::new();
    let mut found = false;
    let mut at: usize = 0;
    while at < inputs.len()
        invariant
            nothing@ == Seq::<Rewrite>::empty(),
            at <= inputs@.len(),
            touched_from(snapshot@, old(state)@, viewed(inputs@), 0, false) == touched_from(
                snapshot@,
                state@,
                viewed(inputs@),
                at as int,
                found,
            ),
        decreases inputs.len() - at,
    {
        let input = &inputs[at];
        assert(viewed(inputs@)[at as int] == input@);
        if !input.source.is_static() {
            let ghost before = state@;
            match state.refs.resolve_input(snapshot, input, nothing.as_slice(), None) {
                Err(err) => return Err(err),
                Ok(Some(id)) => {
                    if contains_id(state.affected.as_slice(), id) {
                        found = true;
                    }
                },
                Ok(None) => {},
            }
            assert(state@ == before.knowing(state@.refs.ambiguous));
        }
        at = at + 1;
    }
    Ok(found)
}

/// What the edit is about besides the commits that it names: the commits whose conflicts must be
/// in the worktree, and a merge that is to be made again.
pub struct Goal {
    pub required: Seq<ObjectId>,
    pub force: Option<ObjectId>,
}

/// Whether an automatic merge has to be made again.
pub open spec fn affects(
    snapshot: SnapshotView,
    state: PreparationView,
    goal: Goal,
    id: ObjectId,
    input_touched: bool,
) -> Result<bool, MergeError> {
    if state.affected.contains(id) || input_touched || goal.force == Some(id) {
        Ok(true)
    } else if goal.required.contains(id) {
        match commit_of(snapshot.commits, id) {
            None => Err(MergeError::UnknownCommit),
            Some(commit) => Ok(commit.pending),
        }
    } else {
        Ok(false)
    }
}

/// What an automatic merge adds: what builds on it is affected if it has to be made again.
pub open spec fn merge_adds(
    snapshot: SnapshotView,
    scope: Seq<ObjectId>,
    goal: Goal,
    merge: MergeView,
    state: PreparationView,
) -> Result<PreparationView, MergeError> {
    if !scope.contains(merge.id) {
        Ok(state)
    } else {
        match touched_from(snapshot, state, merge.inputs, 0, false) {
            Err(err) => Err(err),
            Ok((input_touched, state)) => match affects(
                snapshot,
                state,
                goal,
                merge.id,
                input_touched,
            ) {
                Err(err) => Err(err),
                Ok(false) => Ok(state),
                Ok(true) => {
                    let state = state.including_from(merge.descendants, 0);
                    Ok(
                        if goal.required.contains(merge.id) || goal.force == Some(merge.id) {
                            PreparationView { queue: state.queue.push(merge.id), ..state }
                        } else {
                            state
                        },
                    )
                },
            },
        }
    }
}

/// What the automatic merges from `at` on add.
pub open spec fn merges_add_from(
    snapshot: SnapshotView,
    graph: GraphView,
    goal: Goal,
    at: int,
    state: PreparationView,
) -> Result<PreparationView, MergeError>
    decreases graph.merges.len() - at,
{
    if at < 0 || at >= graph.merges.len() {
        Ok(state)
    } else {
        match merge_adds(snapshot, graph.scope, goal, graph.merges[at], state) {
            Err(err) => Err(err),
            Ok(state) => merges_add_from(snapshot, graph, goal, at + 1, state),
        }
    }
}

/// What the automatic merges add, gone through until nothing more is affected. Each time one of
/// them must have added what builds on it, so they are gone through at most `left` times again.
pub open spec fn spread(
    snapshot: SnapshotView,
    graph: GraphView,
    goal: Goal,
    state: PreparationView,
    left: nat,
) -> Result<PreparationView, MergeError>
    decreases left,
{
    match merges_add_from(snapshot, graph, goal, 0, state) {
        Err(err) => Err(err),
        Ok(next) => if next.affected.len() == state.affected.len() || left == 0 {
            Ok(next)
        } else {
            spread(snapshot, graph, goal, next, (left - 1) as nat)
        },
    }
}

fn add_merge(
    snapshot: &Snapshot,
    scope: &Vec<ObjectId>,
    required: &Vec<ObjectId>,
    force: Option<ObjectId>,
    merge: &Merge,
    state: &mut Preparation,
) -> (r: Result<(), MergeError>)
    ensures
        ({
            let expected = merge_adds(
                snapshot@,
                scope@,
                Goal { required: required@, force },
                merge@,
                old(state)@,
            );
            match r {
                Ok(()) => expected == Ok::<_, MergeError>(final(state)@),
                Err(err) => expected == Err::<PreparationView, _>(err),
            }
        }),
{
    if !contains_id(scope.as_slice(), merge.id) {
        return Ok(());
    }
    let input_touched = match find_touched(snapshot, state, &merge.definition.inputs) {
        Err(err) => return Err(err),
        Ok(found) => found,
    };
    let forced = match force {
        Some(id) => id == merge.id,
        None => false,
    };
    let needed = contains_id(required.as_slice(), merge.id);
    let affected = if contains_id(state.affected.as_slice(), merge.id) || input_touched || forced {
        true
    } else if needed {
        match find_commit(&snapshot.commits, merge.id) {
            None => return Err(MergeError::UnknownCommit),
            Some(commit) => commit.pending,
        }
    } else {
        false
    };
    if affected {
        state.include_commits(&merge.descendants);
        if needed || forced {
            state.queue.push(merge.id);
        }
    }
    Ok(())
}

fn add_merges(
    snapshot: &Snapshot,
    graph: &Graph,
    required: &Vec<ObjectId>,
    force: Option<ObjectId>,
    state: &mut Preparation,
) -> (r: Result<(), MergeError>)
    ensures
        ({
            let expected = merges_add_from(
                snapshot@,
                graph@,
                Goal { required: required@, force },
                0,
                old(state)@,
            );
            match r {
                Ok(()) => expected == Ok::<_, MergeError>(final(state)@),
                Err(err) => expected == Err::<PreparationView, _>(err),
            }
        }),
{
    let ghost goal = Goal { required: required@, force };
    let mut at: usize = 0;
    while at < graph.merges.len()
        invariant
            goal == (Goal { required: required@, force }),
            at <= graph.merges@.len(),
            merges_add_from(snapshot@, graph@, goal, 0, old(state)@) == merges_add_from(
                snapshot@,
                graph@,
                goal,
                at as int,
                state@,
            ),
        decreases graph.merges.len() - at,
    {
        assert(graph@.merges[at as int] == graph.merges@[at as int]@);
        if let Err(err) = add_merge(
            snapshot,
            &graph.scope,
            required,
            force,
            &graph.merges[at],
            state,
        ) {
            return Err(err);
        }
        at = at + 1;
    }
    Ok(())
}

fn spread_merges(
    snapshot: &Snapshot,
    graph: &Graph,
    required: &Vec<ObjectId>,
    force: Option<ObjectId>,
    state: &mut Preparation,
) -> (r: Result<(), MergeError>)
    ensures
        ({
            let expected = spread(
                snapshot@,
                graph@,
                Goal { required: required@, force },
                old(state)@,
                graph.merges@.len(),
            );
            match r {
                Ok(()) => expected == Ok::<_, MergeError>(final(state)@),
                Err(err) => expected == Err::<PreparationView, _>(err),
            }
        }),
{
    let ghost goal = Goal { required: required@, force };
    let mut left: usize = graph.merges.len();
    loop
        invariant
            goal == (Goal { required: required@, force }),
            spread(snapshot@, graph@, goal, old(state)@, graph.merges@.len()) == spread(
                snapshot@,
                graph@,
                goal,
                state@,
                left as nat,
            ),
        decreases left,
    {
        let before: usize = state.affected.len();
        if let Err(err) = add_merges(snapshot, graph, required, force, state) {
            return Err(err);
        }
        if state.affected.len() == before || left == 0 {
            return Ok(());
        }
        left = left - 1;
    }
}

/// What the ancestors of an input add, from `cursor` on along first parents, where `seen` were
/// before and at most `left` follow: as far as they are affected or in conflict they may stay in
/// conflict and are affected, up to an automatic merge, which is to be looked at.
pub open spec fn ancestors_add(
    commits: Seq<CommitView>,
    state: PreparationView,
    cursor: Option<ObjectId>,
    seen: Seq<ObjectId>,
    left: nat,
) -> Result<PreparationView, MergeError>
    decreases left,
{
    match cursor {
        None => Ok(state),
        Some(id) => if left == 0 || seen.contains(id) {
            Err(MergeError::CyclicAncestry)
        } else {
            match commit_of(commits, id) {
                None => Err(MergeError::UnknownCommit),
                Some(commit) => if automatic(commit.headers) {
                    Ok(PreparationView { queue: state.queue.push(id), ..state })
                } else if !state.affected.contains(id) && !commit.pending {
                    Ok(state)
                } else {
                    ancestors_add(
                        commits,
                        optional_too(state, id).including(id),
                        first_of(commit.parents),
                        seen.push(id),
                        (left - 1) as nat,
                    )
                },
            }
        },
    }
}

/// With one more commit that may stay in conflict.
pub open spec fn optional_too(state: PreparationView, id: ObjectId) -> PreparationView {
    if state.optional.contains(id) {
        state
    } else {
        PreparationView { optional: state.optional.push(id), ..state }
    }
}

fn add_ancestors(commits: &Vec<Commit>, state: &mut Preparation, start: Option<ObjectId>) -> (r:
    Result<(), MergeError>)
    ensures
        ({
            let expected = ancestors_add(
                viewed(commits@),
                old(state)@,
                start,
                Seq::empty(),
                (commits@.len() + 1) as nat,
            );
            match r {
                Ok(()) => expected == Ok::<_, MergeError>(final(state)@),
                Err(err) => expected == Err::<PreparationView, _>(err),
            }
        }),
{
    let mut cursor = start;
    let mut seen: Vec<ObjectId> = Vec::new();
    let mut left: usize = commits.len();
    loop
        invariant
            ancestors_add(
                viewed(commits@),
                old(state)@,
                start,
                Seq::empty(),
                (commits@.len() + 1) as nat,
            ) == ancestors_add(viewed(commits@), state@, cursor, seen@, (left + 1) as nat),
        decreases left,
    {
        let id = match cursor {
            None => return Ok(()),
            Some(id) => id,
        };
        if contains_id(seen.as_slice(), id) {
            return Err(MergeError::CyclicAncestry);
        }
        let commit = match find_commit(commits, id) {
            None => return Err(MergeError::UnknownCommit),
            Some(commit) => commit,
        };
        if is_auto_merge(&commit.headers) {
            state.queue.push(id);
            return Ok(());
        }
        if !contains_id(state.affected.as_slice(), id) && !commit.pending {
            return Ok(());
        }
        if !contains_id(state.optional.as_slice(), id) {
            state.optional.push(id);
        }
        state.include_commit(id);
        cursor = first(&commit.parents);
        seen.push(id);
        if left == 0 {
            assert(ancestors_add(viewed(commits@), state@, cursor, seen@, 0) == if cursor is None {
                Ok::<PreparationView, MergeError>(state@)
            } else {
                Err(MergeError::CyclicAncestry)
            });
            return if cursor.is_none() {
                Ok(())
            } else {
                Err(MergeError::CyclicAncestry)
            };
        }
        left = left - 1;
    }
}

/// What the inputs from `at` on of a merge that must be rebuilt completely add.
pub open spec fn inputs_extend(
    snapshot: SnapshotView,
    state: PreparationView,
    inputs: Seq<Input<Seq<u8>>>,
    at: int,
) -> Result<PreparationView, MergeError>
    decreases inputs.len() - at,
{
    if at < 0 || at >= inputs.len() {
        Ok(state)
    } else {
        let (result, ambiguous) = resolved_input(
            state.refs,
            snapshot,
            inputs[at],
            Seq::empty(),
            None,
        );
        let state = state.knowing(ambiguous);
        match result {
            Err(err) => Err(err),
            Ok(cursor) => if inputs[at].source matches InputSource::Reference(name) && fixed(name) {
                inputs_extend(snapshot, state, inputs, at + 1)
            } else {
                match ancestors_add(
                    snapshot.commits,
                    state,
                    cursor,
                    Seq::empty(),
                    (snapshot.commits.len() + 1) as nat,
                ) {
                    Err(err) => Err(err),
                    Ok(state) => inputs_extend(snapshot, state, inputs, at + 1),
                }
            },
        }
    }
}

fn extend_inputs(snapshot: &Snapshot, state: &mut Preparation, inputs: &Vec<Input<FullName>>) -> (r:
    Result<(), MergeError>)
    ensures
        ({
            let expected = inputs_extend(snapshot@, old(state)@, viewed(inputs@), 0);
            match r {
                Ok(()) => expected == Ok::<_, MergeError>(final(state)@),
                Err(err) => expected == Err::<PreparationView, _>(err),
            }
        }),
{
    let nothing: Vec<Rewrite> = Vec::new();
    let mut at: usize = 0;
    while at < inputs.len()
        invariant
            nothing@ == Seq::<Rewrite>::empty(),
            at <= inputs@.len(),
            inputs_extend(snapshot@, old(state)@, viewed(inputs@), 0) == inputs_extend(
                snapshot@,
                state@,
                viewed(inputs@),
                at as int,
            ),
        decreases inputs.len() - at,
    {
        let input = &inputs[at];
        assert(viewed(inputs@)[at as int] == input@);
        let ghost before = state@;
        let cursor = match state.refs.resolve_input(snapshot, input, nothing.as_slice(), None) {
            Err(err) => return Err(err),
            Ok(cursor) => cursor,
        };
        assert(state@ == before.knowing(state@.refs.ambiguous));
        if !input.source.is_static() {
            if let Err(err) = add_ancestors(&snapshot.commits, state, cursor) {
                return Err(err);
            }
        }
        at = at + 1;
    }
    Ok(())
}

/// The inputs of the first automatic merge with the given id, at or after `from`.
pub open spec fn known_inputs_from(merges: Seq<MergeView>, id: ObjectId, from: int) -> Option<
    Seq<Input<Seq<u8>>>,
>
    decreases merges.len() - from,
{
    if from < 0 || from >= merges.len() {
        None
    } else if merges[from].id == id {
        Some(merges[from].inputs)
    } else {
        known_inputs_from(merges, id, from + 1)
    }
}

fn find_known<'a>(merges: &'a Vec<Merge>, id: ObjectId) -> (r: Option<&'a Definition>)
    ensures
        match r {
            Some(definition) => known_inputs_from(viewed(merges@), id, 0) == Some(definition@),
            None => known_inputs_from(viewed(merges@), id, 0) is None,
        },
{
    let mut i: usize = 0;
    while i < merges.len()
        invariant
            i <= merges@.len(),
            known_inputs_from(viewed(merges@), id, 0) == known_inputs_from(
                viewed(merges@),
                id,
                i as int,
            ),
        decreases merges.len() - i,
    {
        if merges[i].id == id {
            return Some(&merges[i].definition);
        }
        i = i + 1;
    }
    None
}

/// The inputs of a merge that is known, or else is a commit which lists them.
pub open spec fn merge_inputs(snapshot: SnapshotView, graph: GraphView, id: ObjectId) -> Result<
    Seq<Input<Seq<u8>>>,
    MergeError,
> {
    match known_inputs_from(graph.merges, id, 0) {
        Some(inputs) => Ok(inputs),
        None => match commit_of(snapshot.commits, id) {
            None => Err(MergeError::UnknownCommit),
            Some(commit) => match definition_of(commit.headers) {
                Err(err) => Err(err),
                Ok(None) => Err(MergeError::LostRecipe),
                Ok(Some(inputs)) => Ok(inputs),
            },
        },
    }
}

fn extend_merge(snapshot: &Snapshot, graph: &Graph, state: &mut Preparation, id: ObjectId) -> (r:
    Result<(), MergeError>)
    ensures
        match r {
            Ok(()) => merge_inputs(snapshot@, graph@, id) is Ok && inputs_extend(
                snapshot@,
                old(state)@,
                merge_inputs(snapshot@, graph@, id)->Ok_0,
                0,
            ) == Ok::<_, MergeError>(final(state)@),
            Err(err) => merge_inputs(snapshot@, graph@, id) == Err::<
                Seq<Input<Seq<u8>>>,
                MergeError,
            >(err) || (merge_inputs(snapshot@, graph@, id) is Ok && inputs_extend(
                snapshot@,
                old(state)@,
                merge_inputs(snapshot@, graph@, id)->Ok_0,
                0,
            ) == Err::<PreparationView, _>(err)),
        },
{
    if let Some(definition) = find_known(&graph.merges, id) {
        return extend_inputs(snapshot, state, &definition.inputs);
    }
    match find_commit(&snapshot.commits, id) {
        None => Err(MergeError::UnknownCommit),
        Some(commit) => match Definition::from_headers(&commit.headers) {
            Err(err) => Err(err),
            Ok(None) => Err(MergeError::LostRecipe),
            Ok(Some(definition)) => extend_inputs(snapshot, state, &definition.inputs),
        },
    }
}

/// What the merges that are still to be looked at add, the last of them first, each once and at
/// most `left` of them.
pub open spec fn extend_all(
    snapshot: SnapshotView,
    graph: GraphView,
    state: PreparationView,
    left: nat,
) -> Result<PreparationView, MergeError>
    decreases left, state.queue.len(),
{
    if state.queue.len() == 0 {
        Ok(state)
    } else {
        let id = state.queue.last();
        let popped = PreparationView { queue: state.queue.drop_last(), ..state };
        if state.eager.contains(id) {
            extend_all(snapshot, graph, popped, left)
        } else if left == 0 {
            Err(MergeError::CyclicAncestry)
        } else {
            let state = PreparationView {
                eager: popped.eager.push(id),
                ..popped
            }.including(id);
            match merge_inputs(snapshot, graph, id) {
                Err(err) => Err(err),
                Ok(inputs) => match inputs_extend(snapshot, state, inputs, 0) {
                    Err(err) => Err(err),
                    Ok(state) => extend_all(snapshot, graph, state, (left - 1) as nat),
                },
            }
        }
    }
}

fn extend(snapshot: &Snapshot, graph: &Graph, state: &mut Preparation) -> (r: Result<
    (),
    MergeError,
>)
    ensures
        ({
            let expected = extend_all(
                snapshot@,
                graph@,
                old(state)@,
                graph.merges@.len() + snapshot.commits@.len(),
            );
            match r {
                Ok(()) => expected == Ok::<_, MergeError>(final(state)@),
                Err(err) => expected == Err::<PreparationView, _>(err),
            }
        }),
{
    let mut some: usize = graph.merges.len();
    let mut more: usize = snapshot.commits.len();
    while state.queue.len() > 0
        invariant
            extend_all(
                snapshot@,
                graph@,
                old(state)@,
                graph.merges@.len() + snapshot.commits@.len(),
            ) == extend_all(snapshot@, graph@, state@, (some + more) as nat),
        decreases some + more, state.queue.len(),
    {
        let ghost before = state@;
        let last: usize = state.queue.len() - 1;
        let id = state.queue[last];
        state.queue.truncate(last);
        assert(state@.queue == before.queue.drop_last());
        if !contains_id(state.eager.as_slice(), id) {
            if some > 0 {
                some = some - 1;
            } else if more > 0 {
                more = more - 1;
            } else {
                return Err(MergeError::CyclicAncestry);
            }
            state.eager.push(id);
            state.include_commit(id);
            if let Err(err) = extend_merge(snapshot, graph, state, id) {
                return Err(err);
            }
        }
    }
    Ok(())
}

/// The commits that the inputs from `at` on stand for, behind `done`, none of which the merge may
/// be part of.
pub open spec fn tracked_from(
    snapshot: SnapshotView,
    bases: Seq<MergeBase>,
    merge: ObjectId,
    inputs: Seq<Input<Seq<u8>>>,
    at: int,
    done: Seq<ObjectId>,
    refs: ReferencesView,
) -> Result<(Seq<ObjectId>, ReferencesView), MergeError>
    decreases inputs.len() - at,
{
    if at < 0 || at >= inputs.len() {
        Ok((done, refs))
    } else {
        let (result, ambiguous) = resolved_input(refs, snapshot, inputs[at], Seq::empty(), None);
        let refs = ReferencesView { ambiguous, ..refs };
        match result {
            Err(err) => Err(err),
            Ok(None) => tracked_from(snapshot, bases, merge, inputs, at + 1, done, refs),
            Ok(Some(id)) => match containing(bases, merge, id) {
                Err(err) => Err(err),
                Ok(true) => Err(MergeError::TracksItself),
                Ok(false) => tracked_from(
                    snapshot,
                    bases,
                    merge,
                    inputs,
                    at + 1,
                    done.push(id),
                    refs,
                ),
            },
        }
    }
}

/// What a commit depends on: the commits that its inputs stand for if it is an automatic merge, or
/// else its parents.
pub open spec fn parts_of(
    snapshot: SnapshotView,
    graph: GraphView,
    id: ObjectId,
    refs: ReferencesView,
) -> Result<(Seq<ObjectId>, ReferencesView), MergeError> {
    match commit_of(snapshot.commits, id) {
        None => Err(MergeError::UnknownCommit),
        Some(commit) => match definition_of(commit.headers) {
            Err(err) => Err(err),
            Ok(listed) => {
                let inputs = match known_inputs_from(graph.merges, id, 0) {
                    Some(inputs) => Some(inputs),
                    None => listed,
                };
                match inputs {
                    Some(inputs) => tracked_from(
                        snapshot,
                        graph.bases,
                        id,
                        inputs,
                        0,
                        Seq::empty(),
                        refs,
                    ),
                    None => Ok((commit.parents, refs)),
                }
            },
        },
    }
}

fn find_tracked_inputs(
    snapshot: &Snapshot,
    bases: &Vec<MergeBase>,
    merge: ObjectId,
    inputs: &Vec<Input<FullName>>,
    refs: &mut References,
) -> (r: Result<Vec<ObjectId>, MergeError>)
    ensures
        ({
            let expected = tracked_from(
                snapshot@,
                bases@,
                merge,
                viewed(inputs@),
                0,
                Seq::empty(),
                old(refs)@,
            );
            match r {
                Ok(found) => expected == Ok::<_, MergeError>((found@, final(refs)@)),
                Err(err) => expected == Err::<(Seq<ObjectId>, ReferencesView), _>(err),
            }
        }),
{
    let nothing: Vec<Rewrite> = Vec::new();
    let mut found: Vec<ObjectId> = Vec::new();
    let mut at: usize = 0;
    while at < inputs.len()
        invariant
            nothing@ == Seq::<Rewrite>::empty(),
            at <= inputs@.len(),
            tracked_from(
                snapshot@,
                bases@,
                merge,
                viewed(inputs@),
                0,
                Seq::empty(),
                old(refs)@,
            ) == tracked_from(
                snapshot@,
                bases@,
                merge,
                viewed(inputs@),
                at as int,
                found@,
                refs@,
            ),
        decreases inputs.len() - at,
    {
        assert(viewed(inputs@)[at as int] == inputs@[at as int]@);
        let ghost before = refs@;
        let resolved = refs.resolve_input(snapshot, &inputs[at], nothing.as_slice(), None);
        assert(refs@ == (ReferencesView { ambiguous: refs@.ambiguous, ..before }));
        match resolved {
            Err(err) => return Err(err),
            Ok(None) => {},
            Ok(Some(id)) => match contains(bases.as_slice(), merge, id) {
                Err(err) => return Err(err),
                Ok(true) => return Err(MergeError::TracksItself),
                Ok(false) => found.push(id),
            },
        }
        at = at + 1;
    }
    Ok(found)
}

fn find_tracked(snapshot: &Snapshot, graph: &Graph, id: ObjectId, refs: &mut References) -> (r:
    Result<Vec<ObjectId>, MergeError>)
    ensures
        ({
            let expected = parts_of(snapshot@, graph@, id, old(refs)@);
            match r {
                Ok(found) => expected == Ok::<_, MergeError>((found@, final(refs)@)),
                Err(err) => expected == Err::<(Seq<ObjectId>, ReferencesView), _>(err),
            }
        }),
{
    let commit = match find_commit(&snapshot.commits, id) {
        None => return Err(MergeError::UnknownCommit),
        Some(commit) => commit,
    };
    let listed = match Definition::from_headers(&commit.headers) {
        Err(err) => return Err(err),
        Ok(listed) => listed,
    };
    if let Some(definition) = find_known(&graph.merges, id) {
        return find_tracked_inputs(snapshot, &graph.bases, id, &definition.inputs, refs);
    }
    match listed {
        Some(definition) => find_tracked_inputs(
            snapshot,
            &graph.bases,
            id,
            &definition.inputs,
            refs,
        ),
        None => Ok(copy_ids(commit.parents.as_slice())),
    }
}

/// Where an id is first among several, at or behind `from`; behind their end if it is not there.
pub open spec fn id_slot(ids: Seq<ObjectId>, id: ObjectId, from: int) -> int
    decreases ids.len() - from,
{
    if from < 0 || from >= ids.len() || ids[from] == id {
        from
    } else {
        id_slot(ids, id, from + 1)
    }
}

fn find_slot(ids: &[ObjectId], id: ObjectId) -> (r: usize)
    ensures
        r == id_slot(ids@, id, 0),
        r <= ids@.len(),
{
    let mut i: usize = 0;
    while i < ids.len() && ids[i] != id
        invariant
            i <= ids@.len(),
            id_slot(ids@, id, 0) == id_slot(ids@, id, i as int),
        decreases ids.len() - i,
    {
        i = i + 1;
    }
    i
}

/// The first places, among `ids`, of those of `found` that are among them.
pub open spec fn slots_of(ids: Seq<ObjectId>, found: Seq<ObjectId>) -> Seq<usize>
    decreases found.len(),
{
    if found.len() == 0 {
        Seq::empty()
    } else {
        let before = slots_of(ids, found.drop_last());
        if ids.contains(found.last()) {
            before.push(id_slot(ids, found.last(), 0) as usize)
        } else {
            before
        }
    }
}

fn find_slots(ids: &[ObjectId], found: &Vec<ObjectId>) -> (r: Vec<usize>)
    ensures
        r@ == slots_of(ids@, found@),
{
    let mut out: Vec<usize> = Vec::new();
    let mut i: usize = 0;
    assert(found@.take(0) == Seq::<ObjectId>::empty());
    while i < found.len()
        invariant
            i <= found@.len(),
            out@ == slots_of(ids@, found@.take(i as int)),
        decreases found.len() - i,
    {
        assert(found@.take(i + 1).drop_last() == found@.take(i as int));
        if contains_id(ids, found[i]) {
            out.push(find_slot(ids, found[i]));
        }
        i = i + 1;
    }
    assert(found@.take(i as int) == found@);
    out
}

/// What the commits from `at` on depend on among `ids`, by their first places there, behind
/// `done`.
pub open spec fn dependencies_from(
    snapshot: SnapshotView,
    graph: GraphView,
    ids: Seq<ObjectId>,
    at: int,
    done: Seq<Seq<usize>>,
    refs: ReferencesView,
) -> Result<(Seq<Seq<usize>>, ReferencesView), MergeError>
    decreases ids.len() - at,
{
    if at < 0 || at >= ids.len() {
        Ok((done, refs))
    } else {
        match parts_of(snapshot, graph, ids[at], refs) {
            Err(err) => Err(err),
            Ok((found, refs)) => dependencies_from(
                snapshot,
                graph,
                ids,
                at + 1,
                done.push(slots_of(ids, found)),
                refs,
            ),
        }
    }
}

/// The first place of each of several ids.
pub open spec fn first_slots(ids: Seq<ObjectId>) -> Seq<usize> {
    Seq::new(ids.len(), |i: int| id_slot(ids, ids[i], 0) as usize)
}

/// How many of the first `end` ids are there for the first time.
pub open spec fn distinct_count(ids: Seq<ObjectId>, end: int) -> int
    decreases end,
{
    if end <= 0 || end > ids.len() {
        0
    } else {
        distinct_count(ids, end - 1) + if id_slot(ids, ids[end - 1], 0) == end - 1 {
            1int
        } else {
            0int
        }
    }
}

/// Ids in the given order of their places.
pub open spec fn ids_at(ids: Seq<ObjectId>, order: Seq<usize>) -> Seq<ObjectId> {
    Seq::new(order.len(), |k: int| ids[order[k] as int])
}

/// Commits in an order in which each comes once, behind those that it depends on.
pub open spec fn ordered_ids(
    snapshot: SnapshotView,
    graph: GraphView,
    ids: Seq<ObjectId>,
    refs: ReferencesView,
) -> Result<(Seq<ObjectId>, ReferencesView), MergeError> {
    match dependencies_from(snapshot, graph, ids, 0, Seq::empty(), refs) {
        Err(err) => Err(err),
        Ok((dependencies, refs)) => match order_of(
            first_slots(ids),
            dependencies,
            distinct_count(ids, ids.len() as int),
        ) {
            None => Err(MergeError::CyclicMerges),
            Some(order) => Ok((ids_at(ids, order), refs)),
        },
    }
}

fn find_dependencies(
    snapshot: &Snapshot,
    graph: &Graph,
    ids: &[ObjectId],
    refs: &mut References,
) -> (r: Result<Vec<Vec<usize>>, MergeError>)
    ensures
        ({
            let expected = dependencies_from(
                snapshot@,
                graph@,
                ids@,
                0,
                Seq::empty(),
                old(refs)@,
            );
            match r {
                Ok(found) => expected == Ok::<_, MergeError>((viewed(found@), final(refs)@))
                    && found@.len() == ids@.len(),
                Err(err) => expected == Err::<(Seq<Seq<usize>>, ReferencesView), _>(err),
            }
        }),
{
    let mut out: Vec<Vec<usize>> = Vec::new();
    let mut at: usize = 0;
    assert(viewed(out@) == Seq::<Seq<usize>>::empty());
    while at < ids.len()
        invariant
            at <= ids@.len(),
            out@.len() == at,
            dependencies_from(snapshot@, graph@, ids@, 0, Seq::empty(), old(refs)@)
                == dependencies_from(
                snapshot@,
                graph@,
                ids@,
                at as int,
                viewed(out@),
                refs@,
            ),
        decreases ids.len() - at,
    {
        let found = match find_tracked(snapshot, graph, ids[at], refs) {
            Err(err) => return Err(err),
            Ok(found) => found,
        };
        let slots = find_slots(ids, &found);
        proof {
            viewed_push(out@, slots);
        }
        out.push(slots);
        at = at + 1;
    }
    Ok(out)
}

fn find_first_slots(ids: &[ObjectId]) -> (r: (Vec<usize>, usize))
    ensures
        r.0@ == first_slots(ids@),
        r.1 == distinct_count(ids@, ids@.len() as int),
{
    let mut out: Vec<usize> = Vec::new();
    let mut count: usize = 0;
    let mut i: usize = 0;
    let total: usize = ids.len();
    while i < total
        invariant
            total == ids@.len(),
            i <= total,
            count <= i,
            out@.len() == i,
            count == distinct_count(ids@, i as int),
            forall|j: int| 0 <= j < i ==> #[trigger] out@[j] == id_slot(ids@, ids@[j], 0),
        decreases total - i,
    {
        let slot = find_slot(ids, ids[i]);
        if slot == i {
            count = count + 1;
        }
        out.push(slot);
        i = i + 1;
    }
    assert(out@ == first_slots(ids@));
    (out, count)
}

/// Brings commits into an order in which each comes once, behind those that it depends on.
pub fn ordered(snapshot: &Snapshot, graph: &Graph, ids: &[ObjectId], refs: &mut References) -> (r:
    Result<Vec<ObjectId>, MergeError>)
    ensures
        ({
            let expected = ordered_ids(snapshot@, graph@, ids@, old(refs)@);
            match r {
                Ok(found) => expected == Ok::<_, MergeError>((found@, final(refs)@)),
                Err(err) => expected == Err::<(Seq<ObjectId>, ReferencesView), _>(err),
            }
        }),
{
    let dependencies = match find_dependencies(snapshot, graph, ids, refs) {
        Err(err) => return Err(err),
        Ok(dependencies) => dependencies,
    };
    let (items, total) = find_first_slots(ids);
    let order = match order(&items, &dependencies, total) {
        None => return Err(MergeError::CyclicMerges),
        Some(order) => order,
    };
    proof {
        order_is_within(ids@, viewed(dependencies@), order@);
    }
    let mut out: Vec<ObjectId> = Vec::new();
    let mut k: usize = 0;
    while k < order.len()
        invariant
            k <= order@.len(),
            out@.len() == k,
            forall|j: int| 0 <= j < order@.len() ==> (#[trigger] order@[j]) < ids@.len(),
            forall|j: int| 0 <= j < k ==> #[trigger] out@[j] == ids@[order@[j] as int],
        decreases order.len() - k,
    {
        assert(order@[k as int] < ids@.len());
        out.push(ids[order[k]]);
        k = k + 1;
    }
    assert(out@ == ids_at(ids@, order@));
    Ok(out)
}

proof fn slot_bounds(ids: Seq<ObjectId>, id: ObjectId, from: int, at: int)
    requires
        0 <= from <= at < ids.len(),
        ids[at] == id,
    ensures
        from <= id_slot(ids, id, from) <= at,
        ids[id_slot(ids, id, from)] == id,
    decreases at - from,
{
    if from < at && ids[from] != id {
        slot_bounds(ids, id, from + 1, at);
    }
}

/// What is brought into order are places among the ids.
pub proof fn order_is_within(ids: Seq<ObjectId>, dependencies: Seq<Seq<usize>>, order: Seq<usize>)
    requires
        ids.len() <= usize::MAX,
        order_of(first_slots(ids), dependencies, distinct_count(ids, ids.len() as int)) == Some(
            order,
        ),
    ensures
        forall|k: int| 0 <= k < order.len() ==> (#[trigger] order[k]) < ids.len(),
{
    let items = first_slots(ids);
    crate::auto_merge::topology::orders_are_sound(
        items,
        dependencies,
        distinct_count(ids, ids.len() as int),
    );
    assert forall|k: int| 0 <= k < order.len() implies (#[trigger] order[k]) < ids.len() by {
        assert(crate::auto_merge::topology::stands(items, dependencies, order, k));
        let i = choose|i: int|
            0 <= i < items.len() && items[i] == order[k] && crate::auto_merge::topology::ready(
                #[trigger] dependencies[i],
                order.take(k),
            );
        slot_bounds(ids, ids[i], 0, i);
    }
}

/// What is known before anything is worked out: the commits that the edit names stand for
/// themselves.
pub open spec fn starting(history: Option<Seq<ObjectId>>, affected: Seq<ObjectId>) -> PreparationView {
    PreparationView {
        affected,
        refs: standing_from(
            ReferencesView {
                candidates: history,
                placements: Seq::empty(),
                ambiguous: Seq::empty(),
            },
            affected,
            0,
        ),
        queue: Seq::empty(),
        eager: Seq::empty(),
        optional: Seq::empty(),
    }
}

/// What inputs are resolved with once the commits from `at` on stand for themselves.
pub open spec fn standing_from(refs: ReferencesView, ids: Seq<ObjectId>, at: int) -> ReferencesView
    decreases ids.len() - at,
{
    if at < 0 || at >= ids.len() {
        refs
    } else {
        standing_from(standing(refs, ids[at]), ids, at + 1)
    }
}

/// What an edit of commits affects through automatic merges, not yet in order.
pub open spec fn reached(
    snapshot: SnapshotView,
    graph: GraphView,
    affected: Seq<ObjectId>,
    checkout: Option<ObjectId>,
    force: Option<ObjectId>,
) -> Result<PreparationView, MergeError> {
    match path_from(
        snapshot.commits,
        graph.scope,
        checkout,
        Seq::empty(),
        graph.scope.len(),
    ) {
        Err(err) => Err(err),
        Ok(required) => match spread(
            snapshot,
            graph,
            Goal { required, force },
            starting(graph.bounded_history, affected),
            graph.merges.len(),
        ) {
            Err(err) => Err(err),
            Ok(state) => extend_all(
                snapshot,
                graph,
                state,
                graph.merges.len() + snapshot.commits.len(),
            ),
        },
    }
}

/// What an edit of commits affects through automatic merges.
pub open spec fn prepared(
    snapshot: SnapshotView,
    graph: GraphView,
    affected: Seq<ObjectId>,
    checkout: Option<ObjectId>,
    force: Option<ObjectId>,
) -> Result<PreparationView, MergeError> {
    match reached(snapshot, graph, affected, checkout, force) {
        Err(err) => Err(err),
        Ok(state) => match ordered_ids(snapshot, graph, state.affected, state.refs) {
            Err(err) => Err(err),
            Ok((affected, refs)) => Ok(
                PreparationView {
                    affected,
                    refs: ReferencesView { ambiguous: Seq::empty(), ..refs },
                    ..state
                },
            ),
        },
    }
}

/// Works out what an edit of commits affects through automatic merges: the commits in the order
/// in which they are rebuilt, the merges among them that must be rebuilt completely, and the
/// commits that may stay in conflict. All that the edit names is among them, no commit is there twice, and
/// each comes behind what it depends on.
pub fn prepare(
    snapshot: &Snapshot,
    graph: &Graph,
    affected: Vec<ObjectId>,
    checkout: Option<ObjectId>,
    force: Option<ObjectId>,
) -> (r: Result<Preparation, MergeError>)
    ensures
        ({
            let expected = prepared(snapshot@, graph@, affected@, checkout, force);
            match r {
                Ok(preparation) => expected == Ok::<_, MergeError>(preparation@),
                Err(err) => expected == Err::<PreparationView, _>(err),
            }
        }),
        r matches Ok(preparation) ==> {
            let known = reached(snapshot@, graph@, affected@, checkout, force)->Ok_0;
            &&& preparation@.affected.no_duplicates()
            &&& among(affected@, preparation@.affected)
            &&& among(preparation@.eager, preparation@.affected)
            &&& among(preparation@.optional, preparation@.affected)
            &&& preparation@.queue.len() == 0
            &&& forall|k: int|
                0 <= k < preparation@.affected.len() ==> #[trigger] in_place(
                    snapshot@,
                    graph@,
                    known.affected,
                    known.refs,
                    preparation@.affected,
                    k,
                )
            &&& forall|m: int, k: int, id: ObjectId|
                #![trigger graph@.merges[m].inputs[k], preparation@.affected.contains(id)]
                {
                    &&& 0 <= m < graph@.merges.len()
                    &&& graph@.scope.contains(graph@.merges[m].id)
                    &&& 0 <= k < graph@.merges[m].inputs.len()
                    &&& changeable(graph@.merges[m].inputs[k])
                    &&& resolved_input(
                        preparation@.refs,
                        snapshot@,
                        graph@.merges[m].inputs[k],
                        Seq::empty(),
                        None,
                    ).0 == Ok::<_, MergeError>(Some(id))
                    &&& preparation@.affected.contains(id)
                    &&& !preparation@.eager.contains(id)
                    &&& !preparation@.optional.contains(id)
                } ==> among(graph@.merges[m].descendants, preparation@.affected)
        },
{
    let ghost named = affected@;
    let required = match checkout_path(&snapshot.commits, &graph.scope, checkout) {
        Err(err) => return Err(err),
        Ok(required) => required,
    };
    let candidates = match &graph.bounded_history {
        Some(ids) => Some(copy_ids(ids.as_slice())),
        None => None,
    };
    let mut refs = References::new(candidates);
    let ghost fresh = refs@;
    let mut at: usize = 0;
    while at < affected.len()
        invariant
            at <= affected@.len(),
            standing_from(fresh, affected@, 0) == standing_from(refs@, affected@, at as int),
        decreases affected.len() - at,
    {
        refs.rewritten(affected[at], Some(affected[at]));
        at = at + 1;
    }
    let mut state = Preparation {
        affected,
        refs,
        queue: Vec::new(),
        eager: Vec::new(),
        optional: Vec::new(),
    };
    assert(state@ == starting(graph@.bounded_history, affected@));
    if let Err(err) = spread_merges(snapshot, graph, &required, force, &mut state) {
        return Err(err);
    }
    if let Err(err) = extend(snapshot, graph, &mut state) {
        return Err(err);
    }
    let ghost before = state@;
    let ids = copy_ids(state.affected.as_slice());
    match ordered(snapshot, graph, ids.as_slice(), &mut state.refs) {
        Err(err) => Err(err),
        Ok(affected) => {
            state.affected = affected;
            state.refs.ambiguous = Vec::new();
            proof {
                assert(ids.len() == before.affected.len());
                edits_affect_what_they_name(
                    snapshot@,
                    graph@,
                    named,
                    checkout,
                    force,
                    state@,
                );
                followers_are_affected(snapshot@, graph@, named, checkout, force, state@);
            }
            Ok(state)
        },
    }
}

} // verus!
