//! Plans that are extended by what they affect through automatic merges.
use vstd::prelude::*;
use crate::auto_merge::choices::{follows_from, follows_reference};
use crate::auto_merge::definition::{Input, InputSource};
use crate::auto_merge::prepare::{first_of, prepare, prepared, Graph, GraphView};
use crate::auto_merge::resolve::{
    commit_of, find_commit, Commit, CommitView, References, ReferencesView, Snapshot, SnapshotView,
};
use crate::auto_merge::MergeError;
use crate::ids::{contains_id, ObjectId};
use crate::names::FullName;
use crate::plan::{
    copy_ids, find_position, kept, position, viewed, viewed_option, viewed_push, Plan,
    PlanCheckout, PlanCommit, PlanParent, PlanRef, PlanStep, PlanView, Step, StepView,
};
use crate::refs::Reference;

verus! {

/// The commit that a plan checks out in the end, as far as it exists already or is replayed.
pub open spec fn checked_out(plan: PlanView<PlanRef<Seq<u8>>>) -> Option<ObjectId> {
    match plan.checkout {
        None => None,
        Some(checkout) => match checkout.target {
            PlanParent::Existing(id) => Some(id),
            PlanParent::Step(index) => if index < plan.steps.len() {
                kept(plan.steps[index as int].commit)
            } else {
                None
            },
        },
    }
}

fn find_checked_out(plan: &Plan<PlanRef<FullName>>) -> (r: Option<ObjectId>)
    ensures
        r == checked_out(plan@),
{
    match &plan.checkout {
        None => None,
        Some(checkout) => match checkout.target {
            PlanParent::Existing(id) => Some(id),
            PlanParent::Step(index) => if index < plan.steps.len() {
                assert(plan@.steps[index as int] == plan.steps@[index as int]@);
                match &plan.steps[index].commit {
                    PlanCommit::Pick(id) => Some(*id),
                    PlanCommit::Resolved(id) => Some(*id),
                    _ => None,
                }
            } else {
                None
            },
        },
    }
}

/// Whether a reference is or leads to one of those that a plan moves, from `at` on.
pub open spec fn moved_from(
    references: Seq<Reference<Seq<u8>>>,
    expected: Seq<PlanRef<Seq<u8>>>,
    name: Seq<u8>,
    at: int,
    found: bool,
) -> Result<bool, MergeError>
    decreases expected.len() - at,
{
    if at < 0 || at >= expected.len() {
        Ok(found)
    } else {
        match follows_from(references, name, expected[at].name, Seq::empty(), references.len()) {
            Err(err) => Err(err),
            Ok(follows) => moved_from(references, expected, name, at + 1, found || follows),
        }
    }
}

fn find_moved(
    references: &Vec<Reference<FullName>>,
    expected: &Vec<PlanRef<FullName>>,
    name: &FullName,
) -> (r: Result<bool, MergeError>)
    ensures
        r == moved_from(viewed(references@), viewed(expected@), name@, 0, false),
{
    let mut found = false;
    let mut at: usize = 0;
    while at < expected.len()
        invariant
            at <= expected@.len(),
            moved_from(viewed(references@), viewed(expected@), name@, 0, false) == moved_from(
                viewed(references@),
                viewed(expected@),
                name@,
                at as int,
                found,
            ),
        decreases expected.len() - at,
    {
        assert(viewed(expected@)[at as int] == expected@[at as int]@);
        match follows_reference(references, name, &expected[at].name) {
            Err(err) => return Err(err),
            Ok(follows) => {
                if follows {
                    found = true;
                }
            },
        }
        at = at + 1;
    }
    Ok(found)
}

/// Whether one of the inputs from `at` on follows a reference that a plan moves.
pub open spec fn inputs_moved_from(
    references: Seq<Reference<Seq<u8>>>,
    expected: Seq<PlanRef<Seq<u8>>>,
    inputs: Seq<Input<Seq<u8>>>,
    at: int,
) -> Result<bool, MergeError>
    decreases inputs.len() - at,
{
    if at < 0 || at >= inputs.len() {
        Ok(false)
    } else {
        match inputs[at].source {
            InputSource::Change(_) => inputs_moved_from(references, expected, inputs, at + 1),
            InputSource::Reference(name) => match moved_from(
                references,
                expected,
                name,
                0,
                false,
            ) {
                Err(err) => Err(err),
                Ok(true) => Ok(true),
                Ok(false) => inputs_moved_from(references, expected, inputs, at + 1),
            },
        }
    }
}

fn find_inputs_moved(
    references: &Vec<Reference<FullName>>,
    expected: &Vec<PlanRef<FullName>>,
    inputs: &Vec<Input<FullName>>,
) -> (r: Result<bool, MergeError>)
    ensures
        r == inputs_moved_from(viewed(references@), viewed(expected@), viewed(inputs@), 0),
{
    let mut at: usize = 0;
    while at < inputs.len()
        invariant
            at <= inputs@.len(),
            inputs_moved_from(viewed(references@), viewed(expected@), viewed(inputs@), 0)
                == inputs_moved_from(
                viewed(references@),
                viewed(expected@),
                viewed(inputs@),
                at as int,
            ),
        decreases inputs.len() - at,
    {
        assert(viewed(inputs@)[at as int] == inputs@[at as int]@);
        if let InputSource::Reference(name) = &inputs[at].source {
            match find_moved(references, expected, name) {
                Err(err) => return Err(err),
                Ok(true) => return Ok(true),
                Ok(false) => {},
            }
        }
        at = at + 1;
    }
    Ok(false)
}

/// Ids with those from `at` on of others that are not among them.
pub open spec fn joined_ids(ids: Seq<ObjectId>, more: Seq<ObjectId>, at: int) -> Seq<ObjectId>
    decreases more.len() - at,
{
    if at < 0 || at >= more.len() {
        ids
    } else {
        joined_ids(
            if ids.contains(more[at]) {
                ids
            } else {
                ids.push(more[at])
            },
            more,
            at + 1,
        )
    }
}

fn join_ids(ids: &mut Vec<ObjectId>, more: &Vec<ObjectId>)
    ensures
        final(ids)@ == joined_ids(old(ids)@, more@, 0),
{
    let ghost before = ids@;
    let mut at: usize = 0;
    while at < more.len()
        invariant
            at <= more@.len(),
            joined_ids(before, more@, 0) == joined_ids(ids@, more@, at as int),
        decreases more.len() - at,
    {
        if !contains_id(ids.as_slice(), more[at]) {
            ids.push(more[at]);
        }
        at = at + 1;
    }
}

/// What a plan affects by itself, with what builds on the automatic merges from `at` on that follow
/// a reference which the plan moves.
pub open spec fn named_from(
    snapshot: SnapshotView,
    graph: GraphView,
    expected: Seq<PlanRef<Seq<u8>>>,
    at: int,
    affected: Seq<ObjectId>,
) -> Result<Seq<ObjectId>, MergeError>
    decreases graph.merges.len() - at,
{
    if at < 0 || at >= graph.merges.len() {
        Ok(affected)
    } else if !graph.scope.contains(graph.merges[at].id) {
        named_from(snapshot, graph, expected, at + 1, affected)
    } else {
        match inputs_moved_from(snapshot.references, expected, graph.merges[at].inputs, 0) {
            Err(err) => Err(err),
            Ok(moved) => named_from(
                snapshot,
                graph,
                expected,
                at + 1,
                if moved {
                    joined_ids(affected, graph.merges[at].descendants, 0)
                } else {
                    affected
                },
            ),
        }
    }
}

fn find_named(snapshot: &Snapshot, graph: &Graph, plan: &Plan<PlanRef<FullName>>) -> (r: Result<
    Vec<ObjectId>,
    MergeError,
>)
    ensures
        ({
            let expected = named_from(
                snapshot@,
                graph@,
                plan@.expected_refs,
                0,
                plan@.scope,
            );
            match r {
                Ok(affected) => expected == Ok::<_, MergeError>(affected@),
                Err(err) => expected == Err::<Seq<ObjectId>, _>(err),
            }
        }),
{
    let mut affected = copy_ids(plan.scope.as_slice());
    let mut at: usize = 0;
    while at < graph.merges.len()
        invariant
            at <= graph.merges@.len(),
            named_from(snapshot@, graph@, plan@.expected_refs, 0, plan@.scope) == named_from(
                snapshot@,
                graph@,
                plan@.expected_refs,
                at as int,
                affected@,
            ),
        decreases graph.merges.len() - at,
    {
        let merge = &graph.merges[at];
        assert(graph@.merges[at as int] == merge@);
        if contains_id(graph.scope.as_slice(), merge.id) {
            match find_inputs_moved(
                &snapshot.references,
                &plan.expected_refs,
                &merge.definition.inputs,
            ) {
                Err(err) => return Err(err),
                Ok(moved) => {
                    if moved {
                        join_ids(&mut affected, &merge.descendants);
                    }
                },
            }
        }
        at = at + 1;
    }
    Ok(affected)
}

/// The ids that are not among others.
pub open spec fn beyond(ids: Seq<ObjectId>, others: Seq<ObjectId>) -> Seq<ObjectId>
    decreases ids.len(),
{
    if ids.len() == 0 {
        Seq::empty()
    } else {
        let before = beyond(ids.drop_last(), others);
        if others.contains(ids.last()) {
            before
        } else {
            before.push(ids.last())
        }
    }
}

fn find_beyond(ids: &Vec<ObjectId>, others: &Vec<ObjectId>) -> (r: Vec<ObjectId>)
    ensures
        r@ == beyond(ids@, others@),
{
    let mut out: Vec<ObjectId> = Vec::new();
    let mut i: usize = 0;
    assert(ids@.take(0) == Seq::<ObjectId>::empty());
    while i < ids.len()
        invariant
            i <= ids@.len(),
            out@ == beyond(ids@.take(i as int), others@),
        decreases ids.len() - i,
    {
        assert(ids@.take(i + 1).drop_last() == ids@.take(i as int));
        if !contains_id(others.as_slice(), ids[i]) {
            out.push(ids[i]);
        }
        i = i + 1;
    }
    assert(ids@.take(i as int) == ids@);
    out
}

/// The steps with those that replay the commits from `at` on: each continues the step of its first
/// parent, or the parent itself.
pub open spec fn steps_with(
    commits: Seq<CommitView>,
    steps: Seq<StepView>,
    extra: Seq<ObjectId>,
    at: int,
) -> Result<Seq<StepView>, MergeError>
    decreases extra.len() - at,
{
    if at < 0 || at >= extra.len() {
        Ok(steps)
    } else {
        match commit_of(commits, extra[at]) {
            None => Err(MergeError::UnknownCommit),
            Some(commit) => match first_of(commit.parents) {
                None => Err(MergeError::NoParent),
                Some(parent) => steps_with(
                    commits,
                    steps.push(
                        PlanStep {
                            parent: match position(steps, parent, steps.len() as int) {
                                Some(index) => PlanParent::Step(index),
                                None => PlanParent::Existing(parent),
                            },
                            commit: PlanCommit::Pick(extra[at]),
                            squash: Seq::empty(),
                        },
                    ),
                    extra,
                    at + 1,
                ),
            },
        }
    }
}

fn add_steps(commits: &Vec<Commit>, steps: &mut Vec<Step>, extra: &Vec<ObjectId>) -> (r: Result<
    (),
    MergeError,
>)
    ensures
        ({
            let expected = steps_with(viewed(commits@), viewed(old(steps)@), extra@, 0);
            match r {
                Ok(()) => expected == Ok::<_, MergeError>(viewed(final(steps)@)),
                Err(err) => expected == Err::<Seq<StepView>, _>(err),
            }
        }),
{
    let ghost before = viewed(steps@);
    let mut at: usize = 0;
    while at < extra.len()
        invariant
            before == viewed(old(steps)@),
            at <= extra@.len(),
            steps_with(viewed(commits@), before, extra@, 0) == steps_with(
                viewed(commits@),
                viewed(steps@),
                extra@,
                at as int,
            ),
        decreases extra.len() - at,
    {
        let id = extra[at];
        let commit = match find_commit(commits, id) {
            None => return Err(MergeError::UnknownCommit),
            Some(commit) => commit,
        };
        if commit.parents.len() == 0 {
            return Err(MergeError::NoParent);
        }
        let parent_id = commit.parents[0];
        let parent = match find_position(steps, parent_id) {
            Some(index) => PlanParent::Step(index),
            None => PlanParent::Existing(parent_id),
        };
        let step: Step = PlanStep { parent, commit: PlanCommit::Pick(id), squash: Vec::new() };
        assert(step.squash@ == Seq::<ObjectId>::empty());
        proof {
            viewed_push(steps@, step);
        }
        steps.push(step);
        at = at + 1;
    }
    Ok(())
}

/// HEAD: its commit, and the branch that it is attached to.
#[derive(PartialEq, Eq, Debug)]
pub struct Head<N> {
    pub commit_id: Option<ObjectId>,
    pub branch: Option<N>,
}

impl<N: View> View for Head<N> {
    type V = Head<N::V>;

    open spec fn view(&self) -> Head<N::V> {
        Head { commit_id: self.commit_id, branch: viewed_option(self.branch) }
    }
}

/// What is checked out once a plan is extended: as before, or HEAD if the plan replays it now.
pub open spec fn extended_checkout(
    checkout: Option<PlanCheckout<Seq<u8>>>,
    steps: Seq<StepView>,
    extra: Seq<ObjectId>,
    head: Head<Seq<u8>>,
) -> Option<PlanCheckout<Seq<u8>>> {
    match checkout {
        Some(checkout) => Some(checkout),
        None => match head.commit_id {
            Some(id) if extra.contains(id) => match position(steps, id, steps.len() as int) {
                Some(index) => Some(
                    PlanCheckout { target: PlanParent::Step(index), reference: head.branch },
                ),
                None => None,
            },
            _ => None,
        },
    }
}

/// A plan that is extended, what inputs are resolved with then, and the commits that were added.
#[derive(PartialEq, Eq, Debug)]
pub struct Expanded {
    pub plan: Plan<PlanRef<FullName>>,
    pub refs: References,
    pub extra: Vec<ObjectId>,
}

/// A plan that is extended, in specifications.
pub struct ExpandedView {
    pub plan: PlanView<PlanRef<Seq<u8>>>,
    pub refs: ReferencesView,
    pub extra: Seq<ObjectId>,
}

impl View for Expanded {
    type V = ExpandedView;

    open spec fn view(&self) -> ExpandedView {
        ExpandedView { plan: self.plan@, refs: self.refs@, extra: self.extra@ }
    }
}

/// A plan with what it affects through automatic merges outside of what it is about.
pub open spec fn expanded(
    snapshot: SnapshotView,
    graph: GraphView,
    plan: PlanView<PlanRef<Seq<u8>>>,
    head: Head<Seq<u8>>,
) -> Result<ExpandedView, MergeError> {
    if graph.merges.len() == 0 {
        Ok(
            ExpandedView {
                plan,
                refs: ReferencesView {
                    candidates: None,
                    placements: Seq::empty(),
                    ambiguous: Seq::empty(),
                },
                extra: Seq::empty(),
            },
        )
    } else {
        match named_from(snapshot, graph, plan.expected_refs, 0, plan.scope) {
            Err(err) => Err(err),
            Ok(named) => match prepared(
                snapshot,
                graph,
                named,
                match checked_out(plan) {
                    Some(id) => Some(id),
                    None => head.commit_id,
                },
                None,
            ) {
                Err(err) => Err(err),
                Ok(preparation) => {
                    let extra = beyond(preparation.affected, plan.scope);
                    match steps_with(snapshot.commits, plan.steps, extra, 0) {
                        Err(err) => Err(err),
                        Ok(steps) => Ok(
                            ExpandedView {
                                plan: PlanView {
                                    scope: plan.scope + extra,
                                    steps,
                                    checkout: extended_checkout(
                                        plan.checkout,
                                        steps,
                                        extra,
                                        head,
                                    ),
                                    ..plan
                                },
                                refs: preparation.refs,
                                extra,
                            },
                        ),
                    }
                },
            },
        }
    }
}

fn extend_checkout(
    checkout: Option<PlanCheckout<FullName>>,
    steps: &Vec<Step>,
    extra: &Vec<ObjectId>,
    head: &Head<FullName>,
) -> (r: Option<PlanCheckout<FullName>>)
    ensures
        viewed_option(r) == extended_checkout(
            viewed_option(checkout),
            viewed(steps@),
            extra@,
            head@,
        ),
{
    if checkout.is_some() {
        return checkout;
    }
    let id = match head.commit_id {
        None => return None,
        Some(id) => id,
    };
    if !contains_id(extra.as_slice(), id) {
        return None;
    }
    match find_position(steps, id) {
        None => None,
        Some(index) => {
            let reference = match &head.branch {
                Some(name) => Some(name.clone()),
                None => None,
            };
            Some(PlanCheckout { target: PlanParent::Step(index), reference })
        },
    }
}

/// Adds to a plan what it affects through automatic merges: what builds on merges whose inputs it
/// changes, and inputs in conflict. Commits that the plan is about and leaves out stay left out.
pub fn expand_plan(
    snapshot: &Snapshot,
    graph: &Graph,
    plan: Plan<PlanRef<FullName>>,
    head: &Head<FullName>,
) -> (r: Result<Expanded, MergeError>)
    ensures
        ({
            let expected = expanded(snapshot@, graph@, plan@, head@);
            match r {
                Ok(found) => expected == Ok::<_, MergeError>(found@),
                Err(err) => expected == Err::<ExpandedView, _>(err),
            }
        }),
{
    if graph.merges.len() == 0 {
        return Ok(Expanded { plan, refs: References::new(None), extra: Vec::new() });
    }
    let checkout = match find_checked_out(&plan) {
        Some(id) => Some(id),
        None => head.commit_id,
    };
    let named = match find_named(snapshot, graph, &plan) {
        Err(err) => return Err(err),
        Ok(named) => named,
    };
    let preparation = match prepare(snapshot, graph, named, checkout, None) {
        Err(err) => return Err(err),
        Ok(preparation) => preparation,
    };
    let extra = find_beyond(&preparation.affected, &plan.scope);
    let ghost before = plan@;
    let mut steps = plan.steps;
    if let Err(err) = add_steps(&snapshot.commits, &mut steps, &extra) {
        return Err(err);
    }
    let checkout = extend_checkout(plan.checkout, &steps, &extra, head);
    let mut scope = plan.scope;
    let mut i: usize = 0;
    while i < extra.len()
        invariant
            i <= extra@.len(),
            scope@ == before.scope + extra@.take(i as int),
        decreases extra.len() - i,
    {
        scope.push(extra[i]);
        assert(scope@ == before.scope + extra@.take(i + 1));
        i = i + 1;
    }
    assert(extra@.take(i as int) == extra@);
    let plan = Plan { base: plan.base, scope, steps, checkout, expected_refs: plan.expected_refs };
    Ok(Expanded { plan, refs: preparation.refs, extra })
}

/// Whether one of several references has a name.
pub open spec fn names(references: Seq<PlanRef<Seq<u8>>>, name: Seq<u8>) -> bool {
    exists|i: int| 0 <= i < references.len() && (#[trigger] references[i]).name == name
}

/// References with those from `at` on of others that they do not hold yet.
pub open spec fn joined_refs(
    references: Seq<PlanRef<Seq<u8>>>,
    more: Seq<PlanRef<Seq<u8>>>,
    at: int,
) -> Seq<PlanRef<Seq<u8>>>
    decreases more.len() - at,
{
    if at < 0 || at >= more.len() {
        references
    } else {
        joined_refs(
            if names(references, more[at].name) {
                references
            } else {
                references.push(more[at])
            },
            more,
            at + 1,
        )
    }
}

fn is_named(references: &Vec<PlanRef<FullName>>, name: &FullName) -> (r: bool)
    ensures
        r == names(viewed(references@), name@),
{
    let mut i: usize = 0;
    while i < references.len()
        invariant
            i <= references@.len(),
            forall|j: int| 0 <= j < i ==> (#[trigger] viewed(references@)[j]).name != name@,
        decreases references.len() - i,
    {
        if references[i].name.same(name) {
            assert(viewed(references@)[i as int].name == name@);
            return true;
        }
        i = i + 1;
    }
    false
}

/// Adds the references that point at the commits which were added to a plan.
pub fn add_references(references: &mut Vec<PlanRef<FullName>>, captured: &Vec<PlanRef<FullName>>)
    ensures
        viewed(final(references)@) == joined_refs(viewed(old(references)@), viewed(captured@), 0),
{
    let ghost before = viewed(references@);
    let mut at: usize = 0;
    while at < captured.len()
        invariant
            before == viewed(old(references)@),
            at <= captured@.len(),
            joined_refs(before, viewed(captured@), 0) == joined_refs(
                viewed(references@),
                viewed(captured@),
                at as int,
            ),
        decreases captured.len() - at,
    {
        let reference = &captured[at];
        assert(viewed(captured@)[at as int] == reference@);
        if !is_named(references, &reference.name) {
            let copy = PlanRef {
                name: reference.name.clone(),
                source: reference.source,
                destination: reference.destination,
            };
            proof {
                viewed_push(references@, copy);
            }
            references.push(copy);
        }
        at = at + 1;
    }
}

proof fn steps_stay(
    commits: Seq<CommitView>,
    steps: Seq<StepView>,
    extra: Seq<ObjectId>,
    at: int,
)
    requires
        0 <= at <= extra.len(),
        steps_with(commits, steps, extra, at) is Ok,
    ensures
        ({
            let all = steps_with(commits, steps, extra, at)->Ok_0;
            &&& all.len() == steps.len() + extra.len() - at
            &&& all.take(steps.len() as int) == steps
            &&& forall|i: int|
                #![trigger extra[i]]
                at <= i < extra.len() ==> all[steps.len() + i - at].commit == PlanCommit::<
                    Seq<u8>,
                >::Pick(extra[i])
        }),
    decreases extra.len() - at,
{
    let all = steps_with(commits, steps, extra, at)->Ok_0;
    if at < extra.len() {
        let parent = commit_of(commits, extra[at])->0.parents[0];
        let next = steps.push(
            PlanStep {
                parent: match position(steps, parent, steps.len() as int) {
                    Some(index) => PlanParent::Step(index),
                    None => PlanParent::Existing(parent),
                },
                commit: PlanCommit::Pick(extra[at]),
                squash: Seq::empty(),
            },
        );
        steps_stay(commits, next, extra, at + 1);
        assert(all.take(steps.len() as int) == all.take(next.len() as int).take(
            steps.len() as int,
        ));
        assert(next.take(steps.len() as int) == steps);
        assert(all[steps.len() as int] == all.take(next.len() as int)[steps.len() as int]);
        assert forall|i: int|
            #![trigger extra[i]]
            at <= i < extra.len() implies all[steps.len() + i - at].commit == PlanCommit::<
            Seq<u8>,
        >::Pick(extra[i]) by {}
    } else {
        assert(all.take(steps.len() as int) == steps);
    }
}

/// Extending a plan keeps the steps that it had, and adds a step for each commit that is added, none
/// of which the plan was about before.
pub proof fn plans_are_extended(
    snapshot: SnapshotView,
    graph: GraphView,
    plan: PlanView<PlanRef<Seq<u8>>>,
    head: Head<Seq<u8>>,
    found: ExpandedView,
)
    requires
        expanded(snapshot, graph, plan, head) == Ok::<_, MergeError>(found),
    ensures
        found.plan.steps.len() == plan.steps.len() + found.extra.len(),
        found.plan.steps.take(plan.steps.len() as int) == plan.steps,
        found.plan.scope == plan.scope + found.extra,
        forall|i: int|
            #![trigger found.extra[i]]
            0 <= i < found.extra.len() ==> !plan.scope.contains(found.extra[i])
                && found.plan.steps[plan.steps.len() + i].commit == PlanCommit::<Seq<u8>>::Pick(
                found.extra[i],
            ),
        plan.checkout is Some ==> found.plan.checkout == plan.checkout,
{
    if graph.merges.len() == 0 {
        assert(found.plan.steps.take(plan.steps.len() as int) == plan.steps);
        assert(found.plan.scope == plan.scope + found.extra);
    } else {
        steps_stay(snapshot.commits, plan.steps, found.extra, 0);
        let named = named_from(snapshot, graph, plan.expected_refs, 0, plan.scope)->Ok_0;
        let checkout = match checked_out(plan) {
            Some(id) => Some(id),
            None => head.commit_id,
        };
        let preparation = prepared(snapshot, graph, named, checkout, None)->Ok_0;
        beyond_is_beyond(preparation.affected, plan.scope);
    }
}

proof fn beyond_is_beyond(ids: Seq<ObjectId>, others: Seq<ObjectId>)
    ensures
        forall|i: int| 0 <= i < beyond(ids, others).len() ==> !others.contains(#[trigger] beyond(ids, others)[i]),
    decreases ids.len(),
{
    if ids.len() > 0 {
        let before = beyond(ids.drop_last(), others);
        beyond_is_beyond(ids.drop_last(), others);
        assert forall|i: int| 0 <= i < beyond(ids, others).len() implies !others.contains(
            #[trigger] beyond(ids, others)[i],
        ) by {
            if i < before.len() {
                assert(beyond(ids, others)[i] == before[i]);
            }
        }
    }
}

} // verus!
