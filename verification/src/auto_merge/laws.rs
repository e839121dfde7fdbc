//! What holds of plans that are brought into order.
use vstd::prelude::*;
use crate::auto_merge::definition::{Input, InputSource};
use crate::auto_merge::order::{
    all_bounded, all_within, bounded, change_input, change_step, child_from, complete,
    gathered_from, gathered_plan, generated_from, indices, inputs_add, landing_from, ordered_plan,
    permutes, place_in, reference_step, settled, settled_from, step_adds, step_inputs, tip_from,
    within, Gathered, OrderedView, Setting,
};
use crate::auto_merge::resolve::{
    commit_of, destination_from, Ambiguity, CommitView, Placement, ReferencesView, SnapshotView,
};
use crate::auto_merge::topology::{order_of, ready, stands};
use crate::auto_merge::MergeError;
use crate::ids::ObjectId;
use crate::plan::{position_bounds, PlanParent, PlanRef, PlanView, RefDestination, StepView};

verus! {

proof fn landings_are_within(
    commits: Seq<CommitView>,
    plan: PlanView<PlanRef<Seq<u8>>>,
    id: ObjectId,
    seen: Seq<ObjectId>,
    left: nat,
)
    requires
        plan.steps.len() <= usize::MAX,
    ensures
        landing_from(commits, plan, id, seen, left) matches Ok(place) ==> within(
            place,
            plan.steps.len(),
        ),
    decreases left,
{
    position_bounds(plan.steps, id, plan.steps.len() as int);
    if let Some(commit) = commit_of(commits, id) {
        if left > 0 && commit.parents.len() > 0 {
            landings_are_within(commits, plan, commit.parents[0], seen.push(id), (left - 1) as nat);
        }
    }
}

proof fn children_are_within(
    steps: Seq<StepView>,
    generated: Seq<bool>,
    place: PlanParent,
    from: int,
)
    requires
        0 <= from,
    ensures
        child_from(steps, generated, place, from) matches Some(index) ==> from <= index
            < steps.len(),
    decreases steps.len() - from,
{
    if from < steps.len() && !(steps[from].parent == place && !generated[from]) {
        children_are_within(steps, generated, place, from + 1);
    }
}

proof fn tips_are_within(
    steps: Seq<StepView>,
    generated: Seq<bool>,
    place: PlanParent,
    followed: Seq<usize>,
    left: nat,
)
    requires
        steps.len() <= usize::MAX,
        within(place, steps.len()),
    ensures
        tip_from(steps, generated, place, followed, left) matches Ok(tip) ==> within(
            tip,
            steps.len(),
        ),
    decreases left,
{
    children_are_within(steps, generated, place, 0);
    if let Some(index) = child_from(steps, generated, place, 0) {
        if left > 0 {
            tips_are_within(
                steps,
                generated,
                PlanParent::Step(index as usize),
                followed.push(index as usize),
                (left - 1) as nat,
            );
        }
    }
}

proof fn settled_are_within(
    commits: Seq<CommitView>,
    plan: PlanView<PlanRef<Seq<u8>>>,
    generated: Seq<bool>,
    at: int,
    done: Seq<PlanRef<Seq<u8>>>,
)
    requires
        plan.steps.len() <= usize::MAX,
        complete(plan),
        all_within(done, plan.steps.len()),
        0 <= at,
    ensures
        settled_from(commits, plan, generated, at, done) matches Ok(references) ==> all_within(
            references,
            plan.steps.len(),
        ),
    decreases plan.expected_refs.len() - at,
{
    if at < plan.expected_refs.len() {
        let reference = plan.expected_refs[at];
        assert(reference.destination.placed() matches Some(place) ==> within(
            place,
            plan.steps.len(),
        ));
        if let RefDestination::Follow { tip } = reference.destination {
            landings_are_within(
                commits,
                plan,
                reference.source,
                Seq::empty(),
                plan.scope.len(),
            );
            let place = landing_from(
                commits,
                plan,
                reference.source,
                Seq::empty(),
                plan.scope.len(),
            );
            if place is Ok && tip {
                tips_are_within(
                    plan.steps,
                    generated,
                    place->Ok_0,
                    Seq::empty(),
                    plan.steps.len(),
                );
            }
        }
        if let Ok(next) = settled(commits, plan, generated, reference) {
            settled_are_within(commits, plan, generated, at + 1, done.push(next));
        }
    }
}

proof fn destinations_are_within(
    references: Seq<PlanRef<Seq<u8>>>,
    name: Seq<u8>,
    from: int,
    steps: nat,
)
    requires
        0 <= from,
        all_within(references, steps),
    ensures
        destination_from(references, name, from) matches Some(RefDestination::Step(index)) ==> index
            < steps,
    decreases references.len() - from,
{
    if from < references.len() {
        if references[from].name != name {
            destinations_are_within(references, name, from + 1, steps);
        } else {
            assert(references[from].destination.placed() matches Some(place) ==> within(
                place,
                steps,
            ));
        }
    }
}

proof fn reference_steps_are_within(
    setting: Setting,
    name: Seq<u8>,
    seen: Seq<Seq<u8>>,
    left: nat,
)
    requires
        setting.plan.steps.len() <= usize::MAX,
        all_within(setting.plan.expected_refs, setting.plan.steps.len()),
    ensures
        reference_step(setting, name, seen, left) matches Ok(Some(index)) ==> index
            < setting.plan.steps.len(),
    decreases left,
{
    let steps = setting.plan.steps;
    destinations_are_within(setting.plan.expected_refs, name, 0, steps.len());
    if let crate::refs::State::Symbolic(target) = crate::refs::state_of(
        setting.snapshot.references,
        name,
    ) {
        if left > 0 {
            reference_steps_are_within(setting, target, seen.push(name), (left - 1) as nat);
        }
    } else {
        let found = crate::auto_merge::resolve::resolved_reference(
            setting.snapshot,
            name,
            Seq::empty(),
            None,
        );
        if let Ok(Some(id)) = found {
            position_bounds(steps, id, steps.len() as int);
        }
    }
}

proof fn inputs_add_steps(
    setting: Setting,
    inputs: Seq<Input<Seq<u8>>>,
    at: int,
    parents: Seq<usize>,
    placed: Seq<Placement>,
    ambiguous: Seq<Ambiguity>,
)
    requires
        0 <= at,
        setting.plan.steps.len() <= usize::MAX,
        all_within(setting.plan.expected_refs, setting.plan.steps.len()),
        bounded(parents, setting.plan.steps.len()),
    ensures
        inputs_add(setting, inputs, at, parents, placed, ambiguous) matches Ok((found, _, _))
            ==> bounded(found, setting.plan.steps.len()),
    decreases inputs.len() - at,
{
    if at < inputs.len() {
        let steps = setting.plan.steps;
        match inputs[at].source {
            InputSource::Change(change) => {
                let next = change_input(setting, inputs[at], change, parents, placed, ambiguous);
                if let Ok((found, placed, ambiguous)) = next {
                    assert(bounded(found, steps.len())) by {
                        if found.len() > parents.len() {
                            let index = found.last();
                            assert forall|id: ObjectId| #[trigger]
                                change_step(setting, id, change) == Ok::<_, MergeError>(
                                    Some(index),
                                ) implies index < steps.len() by {
                                position_bounds(steps, id, steps.len() as int);
                            }
                        }
                    }
                    inputs_add_steps(setting, inputs, at + 1, found, placed, ambiguous);
                }
            },
            InputSource::Reference(name) => {
                reference_steps_are_within(
                    setting,
                    name,
                    Seq::empty(),
                    setting.snapshot.references.len(),
                );
                let step = reference_step(
                    setting,
                    name,
                    Seq::empty(),
                    setting.snapshot.references.len(),
                );
                if let Ok(step) = step {
                    let next = match step {
                        Some(index) => parents.push(index),
                        None => parents,
                    };
                    inputs_add_steps(setting, inputs, at + 1, next, placed, ambiguous);
                }
            },
        }
    }
}

/// What each step depends on is among the steps, and a step that produces no automatic merge
/// depends on the one that it continues.
pub open spec fn plausible(
    setting: Setting,
    dependencies: Seq<Seq<usize>>,
) -> bool {
    &&& all_bounded(dependencies, setting.plan.steps.len())
    &&& forall|i: int|
        #![trigger dependencies[i]]
        0 <= i < dependencies.len() ==> (step_inputs(
            setting.snapshot.commits,
            setting.plan.steps[i],
        ) == Ok::<Option<Seq<Input<Seq<u8>>>>, MergeError>(None) ==> (setting.plan.steps[i].parent
            matches PlanParent::Step(index) ==> dependencies[i].contains(index)))
}

proof fn gathered_are_plausible(setting: Setting, at: int, found: Gathered)
    requires
        0 <= at <= setting.plan.steps.len() <= usize::MAX,
        complete(setting.plan),
        all_within(setting.plan.expected_refs, setting.plan.steps.len()),
        found.dependencies.len() == at,
        plausible(setting, found.dependencies),
    ensures
        gathered_from(setting, at, found) matches Ok(end) ==> end.dependencies.len()
            == setting.plan.steps.len() && plausible(setting, end.dependencies),
    decreases setting.plan.steps.len() - at,
{
    if at < setting.plan.steps.len() {
        let step = setting.plan.steps[at];
        if let Ok(next) = step_adds(setting, step, found) {
            match step_inputs(setting.snapshot.commits, step) {
                Ok(Some(inputs)) => {
                    inputs_add_steps(
                        setting,
                        inputs,
                        0,
                        Seq::empty(),
                        found.placed,
                        found.ambiguous,
                    );
                },
                _ => {
                    assert(within(setting.plan.steps[at].parent, setting.plan.steps.len()));
                    if let PlanParent::Step(index) = step.parent {
                        assert(next.dependencies[at][0] == index);
                    }
                },
            }
            assert forall|i: int| 0 <= i < next.dependencies.len() implies bounded(
                #[trigger] next.dependencies[i],
                setting.plan.steps.len(),
            ) by {
                if i < at {
                    assert(next.dependencies[i] == found.dependencies[i]);
                }
            }
            assert forall|i: int|
                #![trigger next.dependencies[i]]
                0 <= i < next.dependencies.len() && step_inputs(
                    setting.snapshot.commits,
                    setting.plan.steps[i],
                ) == Ok::<Option<Seq<Input<Seq<u8>>>>, MergeError>(
                    None,
                ) implies (setting.plan.steps[i].parent matches PlanParent::Step(index)
                ==> next.dependencies[i].contains(index)) by {
                if i < at {
                    assert(next.dependencies[i] == found.dependencies[i]);
                }
            }
            gathered_are_plausible(setting, at + 1, next);
        }
    }
}

proof fn earlier(order: Seq<usize>, steps: nat, index: usize, k: int)
    requires
        permutes(order, steps),
        0 <= k <= order.len(),
        order.take(k).contains(index),
    ensures
        0 <= place_in(order, index, 0) < k,
{
    let w = choose|w: int| 0 <= w < k && order.take(k)[w] == index;
    assert(order[w] == index);
    first_place(order, index, 0, w);
}

proof fn first_place(order: Seq<usize>, index: usize, from: int, at: int)
    requires
        0 <= from <= at < order.len(),
        order[at] == index,
    ensures
        from <= place_in(order, index, from) <= at,
    decreases at - from,
{
    if from < at && order[from] != index {
        first_place(order, index, from + 1, at);
    }
}

/// A plan that is in order runs forward: each step depends on earlier steps alone, and one that
/// produces no automatic merge continues an earlier step. No step is lost or added.
pub proof fn ordered_plans_run_forward(
    snapshot: SnapshotView,
    plan: PlanView<PlanRef<Seq<u8>>>,
    refs: ReferencesView,
    ordered: OrderedView,
)
    requires
        plan.steps.len() <= usize::MAX,
        ordered_plan(snapshot, plan, refs) == Ok::<_, MergeError>(ordered),
    ensures
        ordered.plan.steps.len() == plan.steps.len(),
        ordered.dependencies.len() == plan.steps.len(),
        forall|k: int, j: int|
            0 <= k < ordered.dependencies.len() && 0 <= j < ordered.dependencies[k].len()
                ==> #[trigger] ordered.dependencies[k][j] < k,
        forall|k: int|
            #![trigger ordered.plan.steps[k]]
            0 <= k < ordered.plan.steps.len() && step_inputs(
                snapshot.commits,
                ordered.plan.steps[k],
            ) == Ok::<Option<Seq<Input<Seq<u8>>>>, MergeError>(None) ==> (
            ordered.plan.steps[k].parent matches PlanParent::Step(index) ==> index < k),
        forall|i: int|
            #![trigger plan.steps[i]]
            0 <= i < plan.steps.len() ==> exists|k: int|
                #![trigger ordered.plan.steps[k]]
                0 <= k < ordered.plan.steps.len() && ordered.plan.steps[k].commit
                    == plan.steps[i].commit && ordered.plan.steps[k].squash
                    == plan.steps[i].squash,
{
    let n = plan.steps.len();
    let (settled_plan, found) = gathered_plan(snapshot, plan, refs)->Ok_0;
    let setting = Setting { snapshot, plan: settled_plan, refs };
    let generated = generated_from(snapshot.commits, plan.steps, 0, Seq::empty())->Ok_0;
    settled_are_within(snapshot.commits, plan, generated, 0, Seq::empty());
    assert(complete(settled_plan));
    gathered_are_plausible(
        setting,
        0,
        Gathered {
            dependencies: Seq::empty(),
            placed: Seq::empty(),
            ambiguous: refs.ambiguous,
        },
    );
    let dependencies = found.dependencies;
    let order = order_of(indices(n), dependencies, n as int)->0;
    crate::auto_merge::order::orders_permute(dependencies, order, n);
    assert forall|k: int| 0 <= k < n implies ready(
        #[trigger] dependencies[order[k] as int],
        order.take(k),
    ) by {
        assert(stands(indices(n), dependencies, order, k));
        let i = choose|i: int|
            0 <= i < indices(n).len() && indices(n)[i] == order[k] && ready(
                #[trigger] dependencies[i],
                order.take(k),
            );
        assert(i == order[k]);
    }
    assert forall|k: int, j: int|
        0 <= k < ordered.dependencies.len() && 0 <= j
            < ordered.dependencies[k].len() implies #[trigger] ordered.dependencies[k][j] < k by {
        let index = dependencies[order[k] as int][j];
        assert(ready(dependencies[order[k] as int], order.take(k)));
        assert(order.take(k).contains(index));
        earlier(order, n, index, k);
    }
    assert forall|k: int|
        #![trigger ordered.plan.steps[k]]
        0 <= k < ordered.plan.steps.len() && step_inputs(
            snapshot.commits,
            ordered.plan.steps[k],
        ) == Ok::<Option<Seq<Input<Seq<u8>>>>, MergeError>(
            None,
        ) implies (ordered.plan.steps[k].parent matches PlanParent::Step(index) ==> index < k) by {
        let i = order[k] as int;
        assert(bounded(order, n));
        assert(order[k] < n);
        if let PlanParent::Step(index) = plan.steps[i].parent {
            assert(step_inputs(snapshot.commits, plan.steps[i]) == Ok::<
                Option<Seq<Input<Seq<u8>>>>,
                MergeError,
            >(None));
            assert(dependencies[i].contains(index));
            let j = choose|j: int| 0 <= j < dependencies[i].len() && dependencies[i][j] == index;
            assert(ready(dependencies[order[k] as int], order.take(k)));
            assert(order.take(k).contains(dependencies[i][j]));
            earlier(order, n, index, k);
        }
    }
    assert forall|i: int|
        #![trigger plan.steps[i]]
        0 <= i < plan.steps.len() implies exists|k: int|
        #![trigger ordered.plan.steps[k]]
        0 <= k < ordered.plan.steps.len() && ordered.plan.steps[k].commit == plan.steps[i].commit
            && ordered.plan.steps[k].squash == plan.steps[i].squash by {
        assert(order.contains(i as usize));
        let k = choose|k: int| 0 <= k < order.len() && order[k] == i as usize;
        assert(ordered.plan.steps[k].commit == plan.steps[i].commit);
    }
}

} // verus!
