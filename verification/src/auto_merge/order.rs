//! The order of a plan's steps, where automatic merges come behind their inputs.
use vstd::prelude::*;
use crate::auto_merge::definition::{
    automatic, definition_of, fixed, is_auto_merge, Definition, Input, InputSource,
};
use crate::auto_merge::resolve::{
    commit_of, destination_from, find_commit, find_destination, resolve, resolved_input,
    resolved_reference, with_placement, Ambiguity, Commit, CommitView, Placement, References,
    ReferencesView, Rewrite, Snapshot, SnapshotView,
};
use crate::auto_merge::topology::{contains_index, order, order_of, orders_are_sound, sound, stands};
use crate::auto_merge::MergeError;
use crate::ids::{contains_id, ChangeId, ObjectId};
use crate::names::{Category, FullName};
use crate::plan::{
    copy_step, find_position, kept, position, viewed, viewed_push, Plan, PlanCheckout, PlanCommit,
    PlanParent, PlanRef, PlanStep, PlanView, RefDestination, Step, StepView,
};
use crate::refs::{contains_name, find_state, state_of, State};

verus! {

/// Whether a place is a commit that exists or one of so many steps.
pub open spec fn within(place: PlanParent, steps: nat) -> bool {
    place matches PlanParent::Step(index) ==> index < steps
}

/// Whether a plan only speaks of steps that it has.
pub open spec fn complete(plan: PlanView<PlanRef<Seq<u8>>>) -> bool {
    &&& forall|i: int|
        0 <= i < plan.steps.len() ==> within((#[trigger] plan.steps[i]).parent, plan.steps.len())
    &&& plan.checkout matches Some(checkout) ==> within(checkout.target, plan.steps.len())
    &&& forall|i: int|
        #![trigger plan.expected_refs[i]]
        0 <= i < plan.expected_refs.len() ==> (plan.expected_refs[i].destination.placed() matches
            Some(place) ==> within(place, plan.steps.len()))
}

fn is_within(place: PlanParent, steps: usize) -> (r: bool)
    ensures
        r == within(place, steps as nat),
{
    match place {
        PlanParent::Existing(_) => true,
        PlanParent::Step(index) => index < steps,
    }
}

fn is_complete(plan: &Plan<PlanRef<FullName>>) -> (r: bool)
    ensures
        r == complete(plan@),
{
    let total: usize = plan.steps.len();
    let mut i: usize = 0;
    while i < total
        invariant
            total == plan.steps@.len(),
            i <= total,
            forall|j: int| 0 <= j < i ==> within((#[trigger] plan@.steps[j]).parent, total as nat),
        decreases total - i,
    {
        if !is_within(plan.steps[i].parent, total) {
            assert(!within(plan@.steps[i as int].parent, total as nat));
            return false;
        }
        i = i + 1;
    }
    if let Some(checkout) = &plan.checkout {
        if !is_within(checkout.target, total) {
            return false;
        }
    }
    i = 0;
    while i < plan.expected_refs.len()
        invariant
            total == plan.steps@.len(),
            i <= plan.expected_refs@.len(),
            forall|j: int|
                #![trigger plan@.expected_refs[j]]
                0 <= j < i ==> (plan@.expected_refs[j].destination.placed() matches Some(place)
                    ==> within(place, total as nat)),
        decreases plan.expected_refs.len() - i,
    {
        if let Some(place) = plan.expected_refs[i].destination.placement() {
            if !is_within(place, total) {
                assert(plan@.expected_refs[i as int].destination.placed() == Some(place));
                return false;
            }
        }
        assert(plan@.expected_refs[i as int] == plan.expected_refs@[i as int]@);
        i = i + 1;
    }
    true
}

/// Which of the steps from `at` on produce automatic merges, behind `done`.
pub open spec fn generated_from(
    commits: Seq<CommitView>,
    steps: Seq<StepView>,
    at: int,
    done: Seq<bool>,
) -> Result<Seq<bool>, MergeError>
    decreases steps.len() - at,
{
    if at < 0 || at >= steps.len() {
        Ok(done)
    } else {
        match steps[at].commit {
            PlanCommit::Pick(id) => match commit_of(commits, id) {
                None => Err(MergeError::UnknownCommit),
                Some(commit) => generated_from(
                    commits,
                    steps,
                    at + 1,
                    done.push(automatic(commit.headers)),
                ),
            },
            _ => generated_from(commits, steps, at + 1, done.push(false)),
        }
    }
}

fn find_generated(commits: &Vec<Commit>, steps: &Vec<Step>) -> (r: Result<Vec<bool>, MergeError>)
    ensures
        match r {
            Ok(generated) => generated_from(viewed(commits@), viewed(steps@), 0, Seq::empty())
                == Ok::<_, MergeError>(generated@) && generated@.len() == steps@.len(),
            Err(err) => generated_from(viewed(commits@), viewed(steps@), 0, Seq::empty()) == Err::<
                Seq<bool>,
                _,
            >(err),
        },
{
    let mut out: Vec<bool> = Vec::new();
    let mut at: usize = 0;
    while at < steps.len()
        invariant
            at <= steps@.len(),
            out@.len() == at,
            generated_from(viewed(commits@), viewed(steps@), 0, Seq::empty()) == generated_from(
                viewed(commits@),
                viewed(steps@),
                at as int,
                out@,
            ),
        decreases steps.len() - at,
    {
        let generated = match &steps[at].commit {
            PlanCommit::Pick(id) => match find_commit(commits, *id) {
                None => return Err(MergeError::UnknownCommit),
                Some(commit) => is_auto_merge(&commit.headers),
            },
            _ => false,
        };
        out.push(generated);
        at = at + 1;
    }
    Ok(out)
}

/// Where a commit ends up, where `seen` led to it and at most `left` parents follow: in a step, or
/// where it is if the plan does not take its place, or where its first parent ends up.
pub open spec fn landing_from(
    commits: Seq<CommitView>,
    plan: PlanView<PlanRef<Seq<u8>>>,
    id: ObjectId,
    seen: Seq<ObjectId>,
    left: nat,
) -> Result<PlanParent, MergeError>
    decreases left,
{
    if seen.contains(id) {
        Err(MergeError::CyclicAncestry)
    } else {
        match position(plan.steps, id, plan.steps.len() as int) {
            Some(index) => Ok(PlanParent::Step(index)),
            None => if !plan.scope.contains(id) {
                Ok(PlanParent::Existing(id))
            } else {
                match commit_of(commits, id) {
                    None => Err(MergeError::UnknownCommit),
                    Some(commit) => if commit.parents.len() == 0 {
                        Ok(PlanParent::Existing(plan.base))
                    } else if left == 0 {
                        Err(MergeError::CyclicAncestry)
                    } else {
                        landing_from(
                            commits,
                            plan,
                            commit.parents[0],
                            seen.push(id),
                            (left - 1) as nat,
                        )
                    },
                }
            },
        }
    }
}

fn find_landing(commits: &Vec<Commit>, plan: &Plan<PlanRef<FullName>>, source: ObjectId) -> (r:
    Result<PlanParent, MergeError>)
    ensures
        r == landing_from(viewed(commits@), plan@, source, Seq::empty(), plan.scope@.len()),
        r matches Ok(place) ==> within(place, plan.steps@.len()),
{
    let mut id = source;
    let mut seen: Vec<ObjectId> = Vec::new();
    let mut left: usize = plan.scope.len();
    loop
        invariant
            landing_from(viewed(commits@), plan@, source, Seq::empty(), plan.scope@.len())
                == landing_from(viewed(commits@), plan@, id, seen@, left as nat),
        decreases left,
    {
        if contains_id(seen.as_slice(), id) {
            return Err(MergeError::CyclicAncestry);
        }
        if let Some(index) = find_position(&plan.steps, id) {
            return Ok(PlanParent::Step(index));
        }
        if !contains_id(plan.scope.as_slice(), id) {
            return Ok(PlanParent::Existing(id));
        }
        let commit = match find_commit(commits, id) {
            None => return Err(MergeError::UnknownCommit),
            Some(commit) => commit,
        };
        if commit.parents.len() == 0 {
            return Ok(PlanParent::Existing(plan.base));
        }
        if left == 0 {
            return Err(MergeError::CyclicAncestry);
        }
        seen.push(id);
        id = commit.parents[0];
        left = left - 1;
    }
}

/// The first step at or after `from` that continues at a place and does not produce an automatic
/// merge.
pub open spec fn child_from(
    steps: Seq<StepView>,
    generated: Seq<bool>,
    place: PlanParent,
    from: int,
) -> Option<int>
    decreases steps.len() - from,
{
    if from < 0 || from >= steps.len() {
        None
    } else if steps[from].parent == place && !generated[from] {
        Some(from)
    } else {
        child_from(steps, generated, place, from + 1)
    }
}

fn find_child(steps: &Vec<Step>, generated: &Vec<bool>, place: PlanParent) -> (r: Option<usize>)
    requires
        generated@.len() == steps@.len(),
    ensures
        crate::bytes::index_of(r) == child_from(viewed(steps@), generated@, place, 0),
        r matches Some(index) ==> index < steps@.len(),
{
    let mut i: usize = 0;
    while i < steps.len()
        invariant
            generated@.len() == steps@.len(),
            i <= steps@.len(),
            child_from(viewed(steps@), generated@, place, 0) == child_from(
                viewed(steps@),
                generated@,
                place,
                i as int,
            ),
        decreases steps.len() - i,
    {
        if steps[i].parent == place && !generated[i] {
            return Some(i);
        }
        i = i + 1;
    }
    None
}

/// The tip of the stack that a place is in, where `followed` led to it and at most `left` steps
/// follow.
pub open spec fn tip_from(
    steps: Seq<StepView>,
    generated: Seq<bool>,
    place: PlanParent,
    followed: Seq<usize>,
    left: nat,
) -> Result<PlanParent, MergeError>
    decreases left,
{
    match child_from(steps, generated, place, 0) {
        None => Ok(place),
        Some(index) => if left == 0 || followed.contains(index as usize) {
            Err(MergeError::CyclicStack)
        } else {
            tip_from(
                steps,
                generated,
                PlanParent::Step(index as usize),
                followed.push(index as usize),
                (left - 1) as nat,
            )
        },
    }
}

fn find_tip(steps: &Vec<Step>, generated: &Vec<bool>, start: PlanParent) -> (r: Result<
    PlanParent,
    MergeError,
>)
    requires
        generated@.len() == steps@.len(),
        within(start, steps@.len()),
    ensures
        r == tip_from(viewed(steps@), generated@, start, Seq::empty(), steps@.len()),
        r matches Ok(place) ==> within(place, steps@.len()),
{
    let mut place = start;
    let mut followed: Vec<usize> = Vec::new();
    let mut left: usize = steps.len();
    loop
        invariant
            generated@.len() == steps@.len(),
            within(place, steps@.len()),
            tip_from(viewed(steps@), generated@, start, Seq::empty(), steps@.len()) == tip_from(
                viewed(steps@),
                generated@,
                place,
                followed@,
                left as nat,
            ),
        decreases left,
    {
        match find_child(steps, generated, place) {
            None => return Ok(place),
            Some(index) => {
                if left == 0 || contains_index(&followed, index) {
                    return Err(MergeError::CyclicStack);
                }
                followed.push(index);
                place = PlanParent::Step(index);
                left = left - 1;
            },
        }
    }
}

/// Where a reference ends up.
pub open spec fn settled(
    commits: Seq<CommitView>,
    plan: PlanView<PlanRef<Seq<u8>>>,
    generated: Seq<bool>,
    reference: PlanRef<Seq<u8>>,
) -> Result<PlanRef<Seq<u8>>, MergeError> {
    match reference.destination {
        RefDestination::Follow { tip } => match landing_from(
            commits,
            plan,
            reference.source,
            Seq::empty(),
            plan.scope.len(),
        ) {
            Err(err) => Err(err),
            Ok(place) => match if tip {
                tip_from(plan.steps, generated, place, Seq::empty(), plan.steps.len())
            } else {
                Ok(place)
            } {
                Err(err) => Err(err),
                Ok(place) => Ok(
                    PlanRef { destination: RefDestination::at(place), ..reference },
                ),
            },
        },
        _ => Ok(reference),
    }
}

/// Where the references from `at` on end up, behind `done`.
pub open spec fn settled_from(
    commits: Seq<CommitView>,
    plan: PlanView<PlanRef<Seq<u8>>>,
    generated: Seq<bool>,
    at: int,
    done: Seq<PlanRef<Seq<u8>>>,
) -> Result<Seq<PlanRef<Seq<u8>>>, MergeError>
    decreases plan.expected_refs.len() - at,
{
    if at < 0 || at >= plan.expected_refs.len() {
        Ok(done)
    } else {
        match settled(commits, plan, generated, plan.expected_refs[at]) {
            Err(err) => Err(err),
            Ok(reference) => settled_from(commits, plan, generated, at + 1, done.push(reference)),
        }
    }
}

/// Whether each reference of a plan is settled at a place that exists.
pub open spec fn all_within(references: Seq<PlanRef<Seq<u8>>>, steps: nat) -> bool {
    forall|i: int|
        #![trigger references[i]]
        0 <= i < references.len() ==> (references[i].destination.placed() matches Some(place)
            ==> within(place, steps))
}

fn settle(commits: &Vec<Commit>, plan: &Plan<PlanRef<FullName>>, generated: &Vec<bool>) -> (r:
    Result<Vec<PlanRef<FullName>>, MergeError>)
    requires
        generated@.len() == plan.steps@.len(),
        complete(plan@),
    ensures
        match r {
            Ok(references) => settled_from(
                viewed(commits@),
                plan@,
                generated@,
                0,
                Seq::empty(),
            ) == Ok::<_, MergeError>(viewed(references@)) && all_within(
                viewed(references@),
                plan.steps@.len(),
            ),
            Err(err) => settled_from(viewed(commits@), plan@, generated@, 0, Seq::empty()) == Err::<
                Seq<PlanRef<Seq<u8>>>,
                _,
            >(err),
        },
{
    let mut out: Vec<PlanRef<FullName>> = Vec::new();
    let mut at: usize = 0;
    assert(viewed(out@) == Seq::<PlanRef<Seq<u8>>>::empty());
    while at < plan.expected_refs.len()
        invariant
            generated@.len() == plan.steps@.len(),
            complete(plan@),
            at <= plan.expected_refs@.len(),
            all_within(viewed(out@), plan.steps@.len()),
            settled_from(viewed(commits@), plan@, generated@, 0, Seq::empty()) == settled_from(
                viewed(commits@),
                plan@,
                generated@,
                at as int,
                viewed(out@),
            ),
        decreases plan.expected_refs.len() - at,
    {
        let reference = &plan.expected_refs[at];
        assert(plan@.expected_refs[at as int] == reference@);
        let destination = match reference.destination {
            RefDestination::Follow { tip } => {
                let place = match find_landing(commits, plan, reference.source) {
                    Err(err) => return Err(err),
                    Ok(place) => place,
                };
                let place = if tip {
                    match find_tip(&plan.steps, generated, place) {
                        Err(err) => return Err(err),
                        Ok(place) => place,
                    }
                } else {
                    place
                };
                RefDestination::from_parent(place)
            },
            _ => reference.destination,
        };
        let next = PlanRef { name: reference.name.clone(), source: reference.source, destination };
        proof {
            viewed_push(out@, next);
        }
        out.push(next);
        at = at + 1;
    }
    Ok(out)
}

/// What is gathered on the way through the steps: what each depends on, where the commits that
/// inputs follow are placed, and which inputs are ambiguous.
pub struct Gathered {
    pub dependencies: Seq<Seq<usize>>,
    pub placed: Seq<Placement>,
    pub ambiguous: Seq<Ambiguity>,
}

/// What is known while the steps are gone through.
pub struct Setting {
    pub snapshot: SnapshotView,
    pub plan: PlanView<PlanRef<Seq<u8>>>,
    pub refs: ReferencesView,
}

impl Setting {
    /// What inputs are resolved with, given the ambiguities so far.
    pub open spec fn with(self, ambiguous: Seq<Ambiguity>) -> ReferencesView {
        ReferencesView { ambiguous, ..self.refs }
    }
}

/// The step whose result a version of a change ends up in, unless it is folded into another
/// change there.
pub open spec fn change_step(setting: Setting, id: ObjectId, change: ChangeId) -> Result<
    Option<usize>,
    MergeError,
> {
    match position(setting.plan.steps, id, setting.plan.steps.len() as int) {
        None => Ok(None),
        Some(index) => match kept(setting.plan.steps[index as int].commit) {
            None => Ok(None),
            Some(retained) => match commit_of(setting.snapshot.commits, retained) {
                None => Err(MergeError::UnknownCommit),
                Some(commit) => Ok(
                    if commit.change == change {
                        Some(index)
                    } else {
                        None
                    },
                ),
            },
        },
    }
}

/// What an input which follows a change adds: the step that it depends on and where it is placed,
/// if the plan takes its place.
pub open spec fn change_input(
    setting: Setting,
    input: Input<Seq<u8>>,
    change: ChangeId,
    parents: Seq<usize>,
    placed: Seq<Placement>,
    ambiguous: Seq<Ambiguity>,
) -> Result<(Seq<usize>, Seq<Placement>, Seq<Ambiguity>), MergeError> {
    let (found, ambiguous) = if setting.plan.scope.contains(input.commit_id) {
        (Ok(Some(input.commit_id)), ambiguous)
    } else {
        resolved_input(
            setting.with(ambiguous),
            setting.snapshot,
            input,
            Seq::empty(),
            None,
        )
    };
    match found {
        Err(err) => Err(err),
        Ok(None) => Err(MergeError::LostInput),
        Ok(Some(id)) => if !setting.plan.scope.contains(id) {
            Ok((parents, placed, ambiguous))
        } else {
            match change_step(setting, id, change) {
                Err(err) => Err(err),
                Ok(Some(index)) => Ok(
                    (
                        parents.push(index),
                        placed.push(
                            Placement {
                                commit_id: input.commit_id,
                                destination: RefDestination::Step(index),
                            },
                        ),
                        ambiguous,
                    ),
                ),
                Ok(None) => Ok(
                    (
                        parents,
                        placed.push(
                            Placement {
                                commit_id: input.commit_id,
                                destination: RefDestination::Delete,
                            },
                        ),
                        ambiguous,
                    ),
                ),
            }
        },
    }
}

/// The step that an input which follows a reference depends on, where `seen` led to the name and
/// at most `left` symbolic references follow.
pub open spec fn reference_step(
    setting: Setting,
    name: Seq<u8>,
    seen: Seq<Seq<u8>>,
    left: nat,
) -> Result<Option<usize>, MergeError>
    decreases left,
{
    if seen.contains(name) {
        Err(MergeError::CyclicReference)
    } else {
        match destination_from(setting.plan.expected_refs, name, 0) {
            Some(destination) => match destination {
                RefDestination::Step(index) => Ok(Some(index)),
                _ => Ok(None),
            },
            None => match state_of(setting.snapshot.references, name) {
                State::Symbolic(target) => if left == 0 {
                    Err(MergeError::CyclicReference)
                } else {
                    reference_step(setting, target, seen.push(name), (left - 1) as nat)
                },
                _ => match resolved_reference(setting.snapshot, name, Seq::empty(), None) {
                    Err(err) => Err(err),
                    Ok(None) => Ok(None),
                    Ok(Some(id)) => Ok(
                        if fixed(name) {
                            None
                        } else {
                            position(setting.plan.steps, id, setting.plan.steps.len() as int)
                        },
                    ),
                },
            },
        }
    }
}

/// What the inputs from `at` on add.
pub open spec fn inputs_add(
    setting: Setting,
    inputs: Seq<Input<Seq<u8>>>,
    at: int,
    parents: Seq<usize>,
    placed: Seq<Placement>,
    ambiguous: Seq<Ambiguity>,
) -> Result<(Seq<usize>, Seq<Placement>, Seq<Ambiguity>), MergeError>
    decreases inputs.len() - at,
{
    if at < 0 || at >= inputs.len() {
        Ok((parents, placed, ambiguous))
    } else {
        match inputs[at].source {
            InputSource::Change(change) => match change_input(
                setting,
                inputs[at],
                change,
                parents,
                placed,
                ambiguous,
            ) {
                Err(err) => Err(err),
                Ok((parents, placed, ambiguous)) => inputs_add(
                    setting,
                    inputs,
                    at + 1,
                    parents,
                    placed,
                    ambiguous,
                ),
            },
            InputSource::Reference(name) => match reference_step(
                setting,
                name,
                Seq::empty(),
                setting.snapshot.references.len(),
            ) {
                Err(err) => Err(err),
                Ok(step) => inputs_add(
                    setting,
                    inputs,
                    at + 1,
                    match step {
                        Some(index) => parents.push(index),
                        None => parents,
                    },
                    placed,
                    ambiguous,
                ),
            },
        }
    }
}

/// The inputs of the automatic merge that a step produces, if it does.
pub open spec fn step_inputs(commits: Seq<CommitView>, step: StepView) -> Result<
    Option<Seq<Input<Seq<u8>>>>,
    MergeError,
> {
    match step.commit {
        PlanCommit::Pick(id) => match commit_of(commits, id) {
            None => Err(MergeError::UnknownCommit),
            Some(commit) => definition_of(commit.headers),
        },
        _ => Ok(None),
    }
}

/// What a step adds: an automatic merge depends on the steps of its inputs, any other commit on
/// the step that it continues.
pub open spec fn step_adds(setting: Setting, step: StepView, gathered: Gathered) -> Result<
    Gathered,
    MergeError,
> {
    match step_inputs(setting.snapshot.commits, step) {
        Err(err) => Err(err),
        Ok(None) => Ok(
            Gathered {
                dependencies: gathered.dependencies.push(
                    match step.parent {
                        PlanParent::Step(index) => seq![index],
                        PlanParent::Existing(_) => Seq::empty(),
                    },
                ),
                ..gathered
            },
        ),
        Ok(Some(inputs)) => if step.squash.len() > 0 {
            Err(MergeError::SquashedInto)
        } else {
            match inputs_add(
                setting,
                inputs,
                0,
                Seq::empty(),
                gathered.placed,
                gathered.ambiguous,
            ) {
                Err(err) => Err(err),
                Ok((parents, placed, ambiguous)) => Ok(
                    Gathered {
                        dependencies: gathered.dependencies.push(parents),
                        placed,
                        ambiguous,
                    },
                ),
            }
        },
    }
}

/// What the steps from `at` on add.
pub open spec fn gathered_from(setting: Setting, at: int, gathered: Gathered) -> Result<
    Gathered,
    MergeError,
>
    decreases setting.plan.steps.len() - at,
{
    if at < 0 || at >= setting.plan.steps.len() {
        Ok(gathered)
    } else {
        match step_adds(setting, setting.plan.steps[at], gathered) {
            Err(err) => Err(err),
            Ok(gathered) => gathered_from(setting, at + 1, gathered),
        }
    }
}

/// What the steps of a plan add.
pub open spec fn gathered(setting: Setting) -> Result<Gathered, MergeError> {
    gathered_from(
        setting,
        0,
        Gathered {
            dependencies: Seq::empty(),
            placed: Seq::empty(),
            ambiguous: setting.refs.ambiguous,
        },
    )
}

/// Whether all indices are those of so many steps.
pub open spec fn bounded(indices: Seq<usize>, steps: nat) -> bool {
    forall|i: int| 0 <= i < indices.len() ==> (#[trigger] indices[i]) < steps
}

/// Whether placements speak only of so many steps.
pub open spec fn placements_bounded(placed: Seq<Placement>, steps: nat) -> bool {
    forall|i: int|
        #![trigger placed[i]]
        0 <= i < placed.len() ==> (placed[i].destination matches RefDestination::Step(index)
            ==> index < steps)
}

fn find_change_step(
    snapshot: &Snapshot,
    plan: &Plan<PlanRef<FullName>>,
    id: ObjectId,
    change: ChangeId,
    Ghost(refs): Ghost<ReferencesView>,
) -> (r: Result<Option<usize>, MergeError>)
    ensures
        r == change_step(
            Setting { snapshot: snapshot@, plan: plan@, refs },
            id,
            change,
        ),
        r matches Ok(Some(index)) ==> index < plan.steps@.len(),
{
    let index = match find_position(&plan.steps, id) {
        None => return Ok(None),
        Some(index) => index,
    };
    assert(plan@.steps[index as int] == plan.steps@[index as int]@);
    let retained = match &plan.steps[index].commit {
        PlanCommit::Pick(id) => *id,
        PlanCommit::Resolved(id) => *id,
        _ => return Ok(None),
    };
    match find_commit(&snapshot.commits, retained) {
        None => Err(MergeError::UnknownCommit),
        Some(commit) => if commit.change == change {
            Ok(Some(index))
        } else {
            Ok(None)
        },
    }
}

fn add_change_input(
    snapshot: &Snapshot,
    plan: &Plan<PlanRef<FullName>>,
    refs: &mut References,
    input: &Input<FullName>,
    change: ChangeId,
    parents: &mut Vec<usize>,
    placed: &mut Vec<Placement>,
    Ghost(setting): Ghost<Setting>,
) -> (r: Result<(), MergeError>)
    requires
        setting.snapshot == snapshot@,
        setting.plan == plan@,
        old(refs)@ == setting.with(old(refs)@.ambiguous),
        input@.source == InputSource::<Seq<u8>>::Change(change),
        bounded(old(parents)@, plan.steps@.len()),
        placements_bounded(old(placed)@, plan.steps@.len()),
    ensures
        ({
            let expected = change_input(
                setting,
                input@,
                change,
                old(parents)@,
                old(placed)@,
                old(refs)@.ambiguous,
            );
            match r {
                Ok(()) => expected == Ok::<_, MergeError>(
                    (final(parents)@, final(placed)@, final(refs)@.ambiguous),
                ),
                Err(err) => expected == Err::<(Seq<usize>, Seq<Placement>, Seq<Ambiguity>), _>(err),
            }
        }),
        final(refs)@ == setting.with(final(refs)@.ambiguous),
        r is Ok ==> bounded(final(parents)@, plan.steps@.len()),
        r is Ok ==> placements_bounded(final(placed)@, plan.steps@.len()),
{
    let id = if contains_id(plan.scope.as_slice(), input.commit_id) {
        input.commit_id
    } else {
        let nothing: Vec<Rewrite> = Vec::new();
        assert(nothing@ == Seq::<Rewrite>::empty());
        match refs.resolve_input(snapshot, input, nothing.as_slice(), None) {
            Err(err) => return Err(err),
            Ok(None) => return Err(MergeError::LostInput),
            Ok(Some(id)) => id,
        }
    };
    if !contains_id(plan.scope.as_slice(), id) {
        return Ok(());
    }
    match find_change_step(snapshot, plan, id, change, Ghost(setting.refs)) {
        Err(err) => Err(err),
        Ok(Some(index)) => {
            parents.push(index);
            placed.push(
                Placement {
                    commit_id: input.commit_id,
                    destination: RefDestination::Step(index),
                },
            );
            Ok(())
        },
        Ok(None) => {
            placed.push(
                Placement { commit_id: input.commit_id, destination: RefDestination::Delete },
            );
            Ok(())
        },
    }
}

fn find_reference_step(
    snapshot: &Snapshot,
    plan: &Plan<PlanRef<FullName>>,
    name: &FullName,
    Ghost(refs): Ghost<ReferencesView>,
) -> (r: Result<Option<usize>, MergeError>)
    requires
        all_within(viewed(plan.expected_refs@), plan.steps@.len()),
    ensures
        r == reference_step(
            Setting { snapshot: snapshot@, plan: plan@, refs },
            name@,
            Seq::empty(),
            snapshot.references@.len(),
        ),
        r matches Ok(Some(index)) ==> index < plan.steps@.len(),
{
    let ghost setting = Setting { snapshot: snapshot@, plan: plan@, refs };
    let mut current = name.clone();
    let mut seen: Vec<FullName> = Vec::new();
    let mut left: usize = snapshot.references.len();
    assert(viewed(seen@) == Seq::<Seq<u8>>::empty());
    loop
        invariant
            setting == (Setting { snapshot: snapshot@, plan: plan@, refs }),
            all_within(viewed(plan.expected_refs@), plan.steps@.len()),
            reference_step(setting, name@, Seq::empty(), snapshot.references@.len())
                == reference_step(setting, current@, viewed(seen@), left as nat),
        decreases left,
    {
        if contains_name(&seen, &current) {
            return Err(MergeError::CyclicReference);
        }
        if let Some(destination) = find_destination(&plan.expected_refs, &current) {
            proof {
                destinations_within(viewed(plan.expected_refs@), current@, 0, plan.steps@.len());
            }
            return match destination {
                RefDestination::Step(index) => Ok(Some(index)),
                _ => Ok(None),
            };
        }
        if let State::Symbolic(target) = find_state(&snapshot.references, &current) {
            if left == 0 {
                return Err(MergeError::CyclicReference);
            }
            proof {
                viewed_push(seen@, current);
            }
            seen.push(current);
            current = target;
            left = left - 1;
        } else {
            let nothing: Vec<Rewrite> = Vec::new();
            assert(nothing@ == Seq::<Rewrite>::empty());
            let id = match resolve(snapshot, &current, nothing.as_slice(), None) {
                Err(err) => return Err(err),
                Ok(None) => return Ok(None),
                Ok(Some(id)) => id,
            };
            let category = current.category();
            if category == Category::Tag || category == Category::RemoteBranch {
                return Ok(None);
            }
            return Ok(find_position(&plan.steps, id));
        }
    }
}

proof fn destinations_within(
    references: Seq<PlanRef<Seq<u8>>>,
    name: Seq<u8>,
    from: int,
    steps: nat,
)
    requires
        0 <= from,
        all_within(references, steps),
    ensures
        destination_from(references, name, from) matches Some(RefDestination::Step(index)) ==> index
            < steps,
    decreases references.len() - from,
{
    if from < references.len() {
        if references[from].name != name {
            destinations_within(references, name, from + 1, steps);
        } else {
            assert(references[from].destination.placed() matches Some(place) ==> within(
                place,
                steps,
            ));
        }
    }
}

fn add_inputs(
    snapshot: &Snapshot,
    plan: &Plan<PlanRef<FullName>>,
    refs: &mut References,
    inputs: &Vec<Input<FullName>>,
    placed: &mut Vec<Placement>,
    Ghost(setting): Ghost<Setting>,
) -> (r: Result<Vec<usize>, MergeError>)
    requires
        setting.snapshot == snapshot@,
        setting.plan == plan@,
        old(refs)@ == setting.with(old(refs)@.ambiguous),
        all_within(viewed(plan.expected_refs@), plan.steps@.len()),
        placements_bounded(old(placed)@, plan.steps@.len()),
    ensures
        ({
            let expected = inputs_add(
                setting,
                viewed(inputs@),
                0,
                Seq::empty(),
                old(placed)@,
                old(refs)@.ambiguous,
            );
            match r {
                Ok(parents) => expected == Ok::<_, MergeError>(
                    (parents@, final(placed)@, final(refs)@.ambiguous),
                ) && bounded(parents@, plan.steps@.len()),
                Err(err) => expected == Err::<(Seq<usize>, Seq<Placement>, Seq<Ambiguity>), _>(err),
            }
        }),
        final(refs)@ == setting.with(final(refs)@.ambiguous),
        r is Ok ==> placements_bounded(final(placed)@, plan.steps@.len()),
{
    let ghost expected = inputs_add(
        setting,
        viewed(inputs@),
        0,
        Seq::empty(),
        placed@,
        refs@.ambiguous,
    );
    let mut parents: Vec<usize> = Vec::new();
    let mut at: usize = 0;
    while at < inputs.len()
        invariant
            setting.snapshot == snapshot@,
            setting.plan == plan@,
            refs@ == setting.with(refs@.ambiguous),
            all_within(viewed(plan.expected_refs@), plan.steps@.len()),
            placements_bounded(placed@, plan.steps@.len()),
            bounded(parents@, plan.steps@.len()),
            at <= inputs@.len(),
            expected == inputs_add(
                setting,
                viewed(inputs@),
                at as int,
                parents@,
                placed@,
                refs@.ambiguous,
            ),
            expected == inputs_add(
                setting,
                viewed(inputs@),
                0,
                Seq::empty(),
                old(placed)@,
                old(refs)@.ambiguous,
            ),
        decreases inputs.len() - at,
    {
        let input = &inputs[at];
        assert(viewed(inputs@)[at as int] == input@);
        match &input.source {
            InputSource::Change(change) => {
                if let Err(err) = add_change_input(
                    snapshot,
                    plan,
                    refs,
                    input,
                    *change,
                    &mut parents,
                    placed,
                    Ghost(setting),
                ) {
                    return Err(err);
                }
            },
            InputSource::Reference(name) => {
                match find_reference_step(snapshot, plan, name, Ghost(setting.refs)) {
                    Err(err) => return Err(err),
                    Ok(Some(index)) => parents.push(index),
                    Ok(None) => {},
                }
            },
        }
        at = at + 1;
    }
    Ok(parents)
}

fn find_inputs(commits: &Vec<Commit>, step: &Step) -> (r: Result<Option<Definition>, MergeError>)
    ensures
        match r {
            Ok(definition) => step_inputs(viewed(commits@), step@) == Ok::<_, MergeError>(
                crate::auto_merge::definition::definition_view(definition),
            ),
            Err(err) => step_inputs(viewed(commits@), step@) == Err::<
                Option<Seq<Input<Seq<u8>>>>,
                _,
            >(err),
        },
{
    match &step.commit {
        PlanCommit::Pick(id) => match find_commit(commits, *id) {
            None => Err(MergeError::UnknownCommit),
            Some(commit) => Definition::from_headers(&commit.headers),
        },
        _ => Ok(None),
    }
}

/// Whether all dependencies are among so many steps.
pub open spec fn all_bounded(dependencies: Seq<Seq<usize>>, steps: nat) -> bool {
    forall|i: int| 0 <= i < dependencies.len() ==> bounded(#[trigger] dependencies[i], steps)
}

fn gather(snapshot: &Snapshot, plan: &Plan<PlanRef<FullName>>, refs: &mut References) -> (r: Result<
    (Vec<Vec<usize>>, Vec<Placement>),
    MergeError,
>)
    requires
        complete(plan@),
        all_within(viewed(plan.expected_refs@), plan.steps@.len()),
    ensures
        ({
            let setting = Setting { snapshot: snapshot@, plan: plan@, refs: old(refs)@ };
            match r {
                Ok((dependencies, placed)) => gathered(setting) == Ok::<_, MergeError>(
                    Gathered {
                        dependencies: viewed(dependencies@),
                        placed: placed@,
                        ambiguous: final(refs)@.ambiguous,
                    },
                ) && dependencies@.len() == plan.steps@.len() && all_bounded(
                    viewed(dependencies@),
                    plan.steps@.len(),
                ) && placements_bounded(placed@, plan.steps@.len()),
                Err(err) => gathered(setting) == Err::<Gathered, _>(err),
            }
        }),
        final(refs)@.candidates == old(refs)@.candidates,
        final(refs)@.placements == old(refs)@.placements,
{
    let ghost setting = Setting { snapshot: snapshot@, plan: plan@, refs: refs@ };
    let mut dependencies: Vec<Vec<usize>> = Vec::new();
    let mut placed: Vec<Placement> = Vec::new();
    let mut at: usize = 0;
    assert(viewed(dependencies@) == Seq::<Seq<usize>>::empty());
    while at < plan.steps.len()
        invariant
            setting == (Setting { snapshot: snapshot@, plan: plan@, refs: old(refs)@ }),
            refs@ == setting.with(refs@.ambiguous),
            complete(plan@),
            all_within(viewed(plan.expected_refs@), plan.steps@.len()),
            at <= plan.steps@.len(),
            dependencies@.len() == at,
            all_bounded(viewed(dependencies@), plan.steps@.len()),
            placements_bounded(placed@, plan.steps@.len()),
            gathered(setting) == gathered_from(
                setting,
                at as int,
                Gathered {
                    dependencies: viewed(dependencies@),
                    placed: placed@,
                    ambiguous: refs@.ambiguous,
                },
            ),
        decreases plan.steps.len() - at,
    {
        let step = &plan.steps[at];
        assert(plan@.steps[at as int] == step@);
        let definition = match find_inputs(&snapshot.commits, step) {
            Err(err) => return Err(err),
            Ok(definition) => definition,
        };
        let parents = match definition {
            None => {
                let mut parents: Vec<usize> = Vec::new();
                if let PlanParent::Step(index) = step.parent {
                    parents.push(index);
                    assert(parents@ == seq![index]);
                }
                assert(within(plan@.steps[at as int].parent, plan.steps@.len()));
                parents
            },
            Some(definition) => {
                if step.squash.len() > 0 {
                    return Err(MergeError::SquashedInto);
                }
                match add_inputs(
                    snapshot,
                    plan,
                    refs,
                    &definition.inputs,
                    &mut placed,
                    Ghost(setting),
                ) {
                    Err(err) => return Err(err),
                    Ok(parents) => parents,
                }
            },
        };
        proof {
            viewed_push(dependencies@, parents);
        }
        dependencies.push(parents);
        at = at + 1;
    }
    Ok((dependencies, placed))
}

/// Where an index is in an order, at or behind `from`; behind its end if it is not there.
pub open spec fn place_in(order: Seq<usize>, index: usize, from: int) -> int
    decreases order.len() - from,
{
    if from < 0 || from >= order.len() || order[from] == index {
        from
    } else {
        place_in(order, index, from + 1)
    }
}

proof fn place_in_bounds(order: Seq<usize>, index: usize, from: int)
    requires
        0 <= from <= order.len(),
    ensures
        from <= place_in(order, index, from) <= order.len(),
        place_in(order, index, from) < order.len() ==> order[place_in(order, index, from)] == index,
        forall|k: int| from <= k < place_in(order, index, from) ==> order[k] != index,
    decreases order.len() - from,
{
    if from < order.len() && order[from] != index {
        place_in_bounds(order, index, from + 1);
    }
}

fn find_place(order: &Vec<usize>, index: usize) -> (r: usize)
    ensures
        r == place_in(order@, index, 0),
        r <= order@.len(),
{
    let mut i: usize = 0;
    while i < order.len() && order[i] != index
        invariant
            i <= order@.len(),
            place_in(order@, index, 0) == place_in(order@, index, i as int),
        decreases order.len() - i,
    {
        i = i + 1;
    }
    i
}

/// A place in a plan once its steps are in a new order.
pub open spec fn moved(place: PlanParent, order: Seq<usize>) -> PlanParent {
    match place {
        PlanParent::Existing(id) => PlanParent::Existing(id),
        PlanParent::Step(index) => PlanParent::Step(place_in(order, index, 0) as usize),
    }
}

/// A destination in a plan once its steps are in a new order.
pub open spec fn moved_destination(destination: RefDestination, order: Seq<usize>) -> RefDestination {
    match destination.placed() {
        Some(place) => RefDestination::at(moved(place, order)),
        None => destination,
    }
}

/// A plan once its steps are in a new order.
pub open spec fn reordered(plan: PlanView<PlanRef<Seq<u8>>>, order: Seq<usize>) -> PlanView<
    PlanRef<Seq<u8>>,
> {
    PlanView {
        base: plan.base,
        scope: plan.scope,
        steps: Seq::new(
            order.len(),
            |k: int|
                PlanStep {
                    parent: moved(plan.steps[order[k] as int].parent, order),
                    ..plan.steps[order[k] as int]
                },
        ),
        checkout: match plan.checkout {
            Some(checkout) => Some(
                PlanCheckout { target: moved(checkout.target, order), ..checkout },
            ),
            None => None,
        },
        expected_refs: Seq::new(
            plan.expected_refs.len(),
            |i: int|
                PlanRef {
                    destination: moved_destination(plan.expected_refs[i].destination, order),
                    ..plan.expected_refs[i]
                },
        ),
    }
}

/// What the steps depend on once they are in a new order.
pub open spec fn reordered_dependencies(
    dependencies: Seq<Seq<usize>>,
    order: Seq<usize>,
) -> Seq<Seq<usize>> {
    Seq::new(
        order.len(),
        |k: int|
            Seq::new(
                dependencies[order[k] as int].len(),
                |j: int| place_in(order, dependencies[order[k] as int][j], 0) as usize,
            ),
    )
}

/// `placements` with what is placed from `at` on, once the steps are in a new order.
pub open spec fn placing_from(
    placements: Seq<Placement>,
    placed: Seq<Placement>,
    order: Seq<usize>,
    at: int,
) -> Seq<Placement>
    decreases placed.len() - at,
{
    if at < 0 || at >= placed.len() {
        placements
    } else {
        placing_from(
            with_placement(
                placements,
                placed[at].commit_id,
                moved_destination(placed[at].destination, order),
            ),
            placed,
            order,
            at + 1,
        )
    }
}

/// The indices of so many steps.
pub open spec fn indices(steps: nat) -> Seq<usize> {
    Seq::new(steps, |i: int| i as usize)
}

/// A plan in order, what inputs are resolved with then, and the steps that each step depends on.
#[derive(PartialEq, Eq, Debug)]
pub struct Ordered {
    pub plan: Plan<PlanRef<FullName>>,
    pub refs: References,
    pub dependencies: Vec<Vec<usize>>,
}

/// A plan in order, in specifications.
pub struct OrderedView {
    pub plan: PlanView<PlanRef<Seq<u8>>>,
    pub refs: ReferencesView,
    pub dependencies: Seq<Seq<usize>>,
}

impl View for Ordered {
    type V = OrderedView;

    open spec fn view(&self) -> OrderedView {
        OrderedView {
            plan: self.plan@,
            refs: self.refs@,
            dependencies: viewed(self.dependencies@),
        }
    }
}

/// A plan whose references are settled, with what is gathered from its steps.
pub open spec fn gathered_plan(
    snapshot: SnapshotView,
    plan: PlanView<PlanRef<Seq<u8>>>,
    refs: ReferencesView,
) -> Result<(PlanView<PlanRef<Seq<u8>>>, Gathered), MergeError> {
    if !complete(plan) {
        Err(MergeError::MissingStep)
    } else {
        match generated_from(snapshot.commits, plan.steps, 0, Seq::empty()) {
            Err(err) => Err(err),
            Ok(generated) => match settled_from(
                snapshot.commits,
                plan,
                generated,
                0,
                Seq::empty(),
            ) {
                Err(err) => Err(err),
                Ok(references) => {
                    let plan = PlanView { expected_refs: references, ..plan };
                    match gathered(Setting { snapshot, plan, refs }) {
                        Err(err) => Err(err),
                        Ok(found) => Ok((plan, found)),
                    }
                },
            },
        }
    }
}

/// A plan in an order in which each step comes behind those that it depends on.
pub open spec fn ordered_plan(
    snapshot: SnapshotView,
    plan: PlanView<PlanRef<Seq<u8>>>,
    refs: ReferencesView,
) -> Result<OrderedView, MergeError> {
    match gathered_plan(snapshot, plan, refs) {
        Err(err) => Err(err),
        Ok((plan, found)) => match order_of(
            indices(plan.steps.len()),
            found.dependencies,
            plan.steps.len() as int,
        ) {
            None => Err(MergeError::CyclicPlan),
            Some(order) => Ok(
                OrderedView {
                    plan: reordered(plan, order),
                    refs: ReferencesView {
                        candidates: refs.candidates,
                        placements: placing_from(refs.placements, found.placed, order, 0),
                        ambiguous: found.ambiguous,
                    },
                    dependencies: reordered_dependencies(found.dependencies, order),
                },
            ),
        },
    }
}

fn count(steps: usize) -> (r: Vec<usize>)
    ensures
        r@ == indices(steps as nat),
{
    let mut out: Vec<usize> = Vec::new();
    let mut i: usize = 0;
    while i < steps
        invariant
            i <= steps,
            out@ == indices(i as nat),
        decreases steps - i,
    {
        out.push(i);
        i = i + 1;
        assert(out@ == indices(i as nat));
    }
    out
}

/// Whether an order is one of so many steps: each is there once.
pub open spec fn permutes(order: Seq<usize>, steps: nat) -> bool {
    &&& order.len() == steps
    &&& order.no_duplicates()
    &&& bounded(order, steps)
    &&& forall|i: usize| i < steps ==> #[trigger] order.contains(i)
}

/// An order that is found has each step once.
pub proof fn orders_permute(dependencies: Seq<Seq<usize>>, order: Seq<usize>, steps: nat)
    requires
        steps <= usize::MAX,
        dependencies.len() == steps,
        order_of(indices(steps), dependencies, steps as int) == Some(order),
    ensures
        permutes(order, steps),
        sound(indices(steps), dependencies, order),
{
    broadcast use vstd::seq_lib::seq_to_set_is_finite;

    let items = indices(steps);
    orders_are_sound(items, dependencies, steps as int);
    assert forall|k: int| 0 <= k < order.len() implies (#[trigger] order[k]) < steps by {
        assert(stands(items, dependencies, order, k));
    }
    items.unique_seq_to_set();
    order.unique_seq_to_set();
    assert forall|x: usize| order.to_set().contains(x) implies items.to_set().contains(x) by {
        let k = choose|k: int| 0 <= k < order.len() && order[k] == x;
        assert(items[x as int] == x);
    }
    vstd::set_lib::lemma_len_subset(order.to_set(), items.to_set());
    vstd::set_lib::lemma_subset_equality(order.to_set(), items.to_set());
    assert forall|i: usize| i < steps implies #[trigger] order.contains(i) by {
        assert(items[i as int] == i);
        assert(items.to_set().contains(i));
        assert(order.to_set().contains(i));
    }
}

fn move_place(place: PlanParent, order: &Vec<usize>) -> (r: PlanParent)
    ensures
        r == moved(place, order@),
{
    match place {
        PlanParent::Existing(id) => PlanParent::Existing(id),
        PlanParent::Step(index) => PlanParent::Step(find_place(order, index)),
    }
}

fn move_destination(destination: RefDestination, order: &Vec<usize>) -> (r: RefDestination)
    ensures
        r == moved_destination(destination, order@),
{
    match destination.placement() {
        Some(place) => RefDestination::from_parent(move_place(place, order)),
        None => destination,
    }
}

fn reorder_steps(steps: &Vec<Step>, order: &Vec<usize>) -> (r: Vec<Step>)
    requires
        bounded(order@, steps@.len()),
    ensures
        viewed(r@) == Seq::new(
            order@.len(),
            |k: int|
                PlanStep {
                    parent: moved(viewed(steps@)[order@[k] as int].parent, order@),
                    ..viewed(steps@)[order@[k] as int]
                },
        ),
{
    let mut out: Vec<Step> = Vec::new();
    let mut k: usize = 0;
    while k < order.len()
        invariant
            bounded(order@, steps@.len()),
            k <= order@.len(),
            out@.len() == k,
            forall|j: int|
                0 <= j < k ==> (#[trigger] out@[j])@ == (PlanStep {
                    parent: moved(viewed(steps@)[order@[j] as int].parent, order@),
                    ..viewed(steps@)[order@[j] as int]
                }),
        decreases order.len() - k,
    {
        assert(order@[k as int] < steps@.len());
        let mut step = copy_step(&steps[order[k]]);
        assert(step@ == viewed(steps@)[order@[k as int] as int]);
        step.parent = move_place(step.parent, order);
        out.push(step);
        k = k + 1;
    }
    assert(viewed(out@) == Seq::new(
        order@.len(),
        |k: int|
            PlanStep {
                parent: moved(viewed(steps@)[order@[k] as int].parent, order@),
                ..viewed(steps@)[order@[k] as int]
            },
    ));
    out
}

fn reorder_refs(references: &Vec<PlanRef<FullName>>, order: &Vec<usize>) -> (r: Vec<
    PlanRef<FullName>,
>)
    ensures
        viewed(r@) == Seq::new(
            references@.len(),
            |i: int|
                PlanRef {
                    destination: moved_destination(
                        viewed(references@)[i].destination,
                        order@,
                    ),
                    ..viewed(references@)[i]
                },
        ),
{
    let mut out: Vec<PlanRef<FullName>> = Vec::new();
    let mut i: usize = 0;
    while i < references.len()
        invariant
            i <= references@.len(),
            out@.len() == i,
            forall|j: int|
                0 <= j < i ==> (#[trigger] out@[j])@ == (PlanRef {
                    destination: moved_destination(viewed(references@)[j].destination, order@),
                    ..viewed(references@)[j]
                }),
        decreases references.len() - i,
    {
        let reference = &references[i];
        out.push(
            PlanRef {
                name: reference.name.clone(),
                source: reference.source,
                destination: move_destination(reference.destination, order),
            },
        );
        i = i + 1;
    }
    assert(viewed(out@) == Seq::new(
        references@.len(),
        |i: int|
            PlanRef {
                destination: moved_destination(viewed(references@)[i].destination, order@),
                ..viewed(references@)[i]
            },
    ));
    out
}

fn reorder_indices(indices: &Vec<usize>, order: &Vec<usize>) -> (r: Vec<usize>)
    ensures
        r@ == Seq::new(indices@.len(), |j: int| place_in(order@, indices@[j], 0) as usize),
{
    let mut out: Vec<usize> = Vec::new();
    let mut i: usize = 0;
    while i < indices.len()
        invariant
            i <= indices@.len(),
            out@.len() == i,
            forall|j: int| 0 <= j < i ==> #[trigger] out@[j] == place_in(order@, indices@[j], 0),
        decreases indices.len() - i,
    {
        out.push(find_place(order, indices[i]));
        i = i + 1;
    }
    assert(out@ == Seq::new(indices@.len(), |j: int| place_in(order@, indices@[j], 0) as usize));
    out
}

fn reorder_dependencies(dependencies: &Vec<Vec<usize>>, order: &Vec<usize>) -> (r: Vec<Vec<usize>>)
    requires
        bounded(order@, dependencies@.len()),
    ensures
        viewed(r@) == reordered_dependencies(viewed(dependencies@), order@),
{
    let ghost expected = reordered_dependencies(viewed(dependencies@), order@);
    let mut out: Vec<Vec<usize>> = Vec::new();
    let mut k: usize = 0;
    while k < order.len()
        invariant
            bounded(order@, dependencies@.len()),
            expected == reordered_dependencies(viewed(dependencies@), order@),
            k <= order@.len(),
            out@.len() == k,
            forall|j: int| 0 <= j < k ==> (#[trigger] out@[j])@ == expected[j],
        decreases order.len() - k,
    {
        assert(order@[k as int] < dependencies@.len());
        out.push(reorder_indices(&dependencies[order[k]], order));
        assert(out@[k as int]@ == expected[k as int]);
        k = k + 1;
    }
    assert(viewed(out@) == expected);
    out
}

fn place_all(refs: &mut References, placed: &Vec<Placement>, order: &Vec<usize>)
    ensures
        final(refs)@ == (ReferencesView {
            placements: placing_from(old(refs)@.placements, placed@, order@, 0),
            ..old(refs)@
        }),
{
    let ghost before = refs@;
    let mut at: usize = 0;
    while at < placed.len()
        invariant
            at <= placed@.len(),
            before == old(refs)@,
            refs@.candidates == before.candidates,
            refs@.ambiguous == before.ambiguous,
            placing_from(before.placements, placed@, order@, 0) == placing_from(
                refs@.placements,
                placed@,
                order@,
                at as int,
            ),
        decreases placed.len() - at,
    {
        let destination = move_destination(placed[at].destination, order);
        refs.place(placed[at].commit_id, destination);
        at = at + 1;
    }
}

fn gather_plan(snapshot: &Snapshot, plan: Plan<PlanRef<FullName>>, refs: &mut References) -> (r:
    Result<(Plan<PlanRef<FullName>>, Vec<Vec<usize>>, Vec<Placement>), MergeError>)
    ensures
        match r {
            Ok((settled_plan, dependencies, placed)) => gathered_plan(
                snapshot@,
                plan@,
                old(refs)@,
            ) == Ok::<_, MergeError>(
                (
                    settled_plan@,
                    Gathered {
                        dependencies: viewed(dependencies@),
                        placed: placed@,
                        ambiguous: final(refs)@.ambiguous,
                    },
                ),
            ) && dependencies@.len() == settled_plan.steps@.len(),
            Err(err) => gathered_plan(snapshot@, plan@, old(refs)@) == Err::<
                (PlanView<PlanRef<Seq<u8>>>, Gathered),
                _,
            >(err),
        },
        final(refs)@.candidates == old(refs)@.candidates,
        final(refs)@.placements == old(refs)@.placements,
{
    if !is_complete(&plan) {
        return Err(MergeError::MissingStep);
    }
    let generated = match find_generated(&snapshot.commits, &plan.steps) {
        Err(err) => return Err(err),
        Ok(generated) => generated,
    };
    let references = match settle(&snapshot.commits, &plan, &generated) {
        Err(err) => return Err(err),
        Ok(references) => references,
    };
    let settled_plan = Plan {
        base: plan.base,
        scope: plan.scope,
        steps: plan.steps,
        checkout: plan.checkout,
        expected_refs: references,
    };
    assert(settled_plan@ == (PlanView { expected_refs: viewed(references@), ..plan@ }));
    match gather(snapshot, &settled_plan, refs) {
        Err(err) => Err(err),
        Ok((dependencies, placed)) => Ok((settled_plan, dependencies, placed)),
    }
}

/// Settles where the references of a plan end up, and brings its steps into an order in which
/// each comes behind those that it depends on: inputs of an automatic merge may come later in a
/// plan than the merge.
pub fn order_plan(snapshot: &Snapshot, plan: Plan<PlanRef<FullName>>, refs: References) -> (r:
    Result<Ordered, MergeError>)
    ensures
        match r {
            Ok(ordered) => ordered_plan(snapshot@, plan@, refs@) == Ok::<_, MergeError>(ordered@),
            Err(err) => ordered_plan(snapshot@, plan@, refs@) == Err::<OrderedView, _>(err),
        },
{
    let mut refs = refs;
    let (plan, dependencies, placed) = match gather_plan(snapshot, plan, &mut refs) {
        Err(err) => return Err(err),
        Ok(parts) => parts,
    };
    let total: usize = plan.steps.len();
    let items = count(total);
    let order = match order(&items, &dependencies, total) {
        None => return Err(MergeError::CyclicPlan),
        Some(order) => order,
    };
    proof {
        orders_permute(viewed(dependencies@), order@, total as nat);
    }
    place_all(&mut refs, &placed, &order);
    let ghost settled_plan = plan@;
    let checkout = match plan.checkout {
        Some(checkout) => Some(
            PlanCheckout {
                target: move_place(checkout.target, &order),
                reference: checkout.reference,
            },
        ),
        None => None,
    };
    let steps = reorder_steps(&plan.steps, &order);
    let expected_refs = reorder_refs(&plan.expected_refs, &order);
    let plan = Plan { base: plan.base, scope: plan.scope, steps, checkout, expected_refs };
    assert(plan@ == reordered(settled_plan, order@));
    Ok(Ordered { plan, refs, dependencies: reorder_dependencies(&dependencies, &order) })
}

} // verus!
