//! What holds of every plan that is read from a rebase todo.
use vstd::prelude::*;
use crate::bytes;
use crate::ids::ObjectId;
use crate::plan::{holds, kept, position, position_bounds};
use crate::plan::{ExpectedRef, PlanParent, PlanStep, PlanView, StepView};
use crate::todo::lines;
use crate::todo::lines::{command, editable, is_ref_line, is_separator, ref_line, CommandView};
use crate::todo::names::resolved_name;
use crate::todo::parse::{after_line, after_lines, after_names};
use crate::todo::parse::{after_separator, after_squash, after_step, plan_of};
use crate::todo::parse::{placement_from, produced, unread};
use crate::todo::parse::{LookupsView, Placed, ProgressView};
use crate::todo::state::TodoStateView;

verus! {

/// Whether a place is among the first `end` steps, or a commit that exists.
pub open spec fn within(parent: PlanParent, end: int) -> bool {
    parent matches PlanParent::Step(index) ==> index < end
}

/// Whether an optional place is among the first `end` steps, or a commit that exists.
pub open spec fn within_option(parent: Option<PlanParent>, end: int) -> bool {
    parent matches Some(parent) ==> within(parent, end)
}

/// Each step continues an earlier one, or a commit that exists.
pub open spec fn steps_in_order(steps: Seq<StepView>) -> bool {
    forall|i: int| 0 <= i < steps.len() ==> within((#[trigger] steps[i]).parent, i)
}

/// A step picks and folds in commits of the scope, each of them once.
pub open spec fn step_in_scope(step: StepView, scope: Seq<ObjectId>) -> bool {
    &&& forall|id: ObjectId| #[trigger] holds(step, id) ==> scope.contains(id)
    &&& step.squash.no_duplicates()
    &&& kept(step.commit) matches Some(id) ==> !step.squash.contains(id)
}

/// The steps pick and fold in commits of the scope, each of them once.
pub open spec fn steps_in_scope(steps: Seq<StepView>, scope: Seq<ObjectId>) -> bool {
    &&& forall|i: int| 0 <= i < steps.len() ==> step_in_scope(#[trigger] steps[i], scope)
    &&& forall|i: int, j: int, id: ObjectId|
        0 <= i < steps.len() && 0 <= j < steps.len() && #[trigger] holds(steps[i], id)
            && #[trigger] holds(steps[j], id) ==> i == j
}

/// A plan that can be carried out from its first step to its last.
pub open spec fn well_formed(plan: PlanView<ExpectedRef<Seq<u8>>>) -> bool {
    &&& steps_in_order(plan.steps)
    &&& steps_in_scope(plan.steps, plan.scope)
    &&& plan.checkout matches Some(checkout) ==> within(checkout.target, plan.steps.len() as int)
}

/// What holds of what is read so far.
spec fn sound(progress: ProgressView, scope: Seq<ObjectId>) -> bool {
    let end = progress.steps.len() as int;
    &&& steps_in_order(progress.steps)
    &&& steps_in_scope(progress.steps, scope)
    &&& within_option(progress.cursor, end)
    &&& within_option(progress.checkout, end)
    &&& progress.fork_step matches Some(index) ==> index < end
    &&& forall|i: int| 0 <= i < progress.placed.len() ==> within((#[trigger] progress.placed[i]).target, end)
}

proof fn names_stay_sound(
    progress: ProgressView,
    found: Seq<(bool, Seq<u8>)>,
    at: int,
    target: PlanParent,
    allowed: bool,
    lookups: LookupsView,
    scope: Seq<ObjectId>,
)
    requires
        sound(progress, scope),
        within(target, progress.steps.len() as int),
        progress.cursor == Some(target),
    ensures
        after_names(progress, found, at, target, allowed, lookups) matches Ok(next) ==> sound(
            next,
            scope,
        ) && next.steps == progress.steps,
    decreases found.len() - at,
{
    if at < found.len() {
        let (marked, value) = found[at];
        if let Ok((name, refs)) = resolved_name(
            progress.refs,
            value,
            lookups.references,
            lookups.stash_prefix,
            lookups.head,
        ) {
            let placed = Placed { name, target };
            let next = ProgressView {
                refs,
                placed: progress.placed.push(placed),
                attach: if marked {
                    Some(placed)
                } else {
                    progress.attach
                },
                ..progress
            };
            assert(sound(next, scope));
            names_stay_sound(next, found, at + 1, target, allowed, lookups, scope);
        }
    }
}

proof fn separator_stays_sound(
    progress: ProgressView,
    line: Seq<u8>,
    scope: Seq<ObjectId>,
    lookups: LookupsView,
)
    requires
        sound(progress, scope),
        progress.steps.len() <= usize::MAX,
    ensures
        after_separator(progress, line, scope, lookups) matches Ok(next) ==> sound(next, scope)
            && next.steps == progress.steps,
{
    if let Ok(next) = after_separator(progress, line, scope, lookups) {
        let target = lines::separator_target(line)->0;
        let text = bytes::word(target)->0;
        let id = crate::todo::parse::named_commit(lookups.commits, text)->Ok_0;
        position_bounds(progress.steps, id, progress.steps.len() as int);
    }
}

proof fn squash_stays_sound(
    progress: ProgressView,
    command: CommandView,
    scope: Seq<ObjectId>,
    lookups: LookupsView,
)
    requires
        sound(progress, scope),
        progress.steps.len() <= usize::MAX,
    ensures
        after_squash(progress, command, scope, lookups) matches Ok(next) ==> sound(next, scope)
            && next.steps.len() == progress.steps.len(),
{
    if let Ok(next) = after_squash(progress, command, scope, lookups) {
        let index = progress.fork_step->0 as int;
        let text = bytes::word(command.value)->0;
        let id = crate::todo::parse::named_commit(lookups.commits, text)->Ok_0;
        let before = progress.steps;
        position_bounds(before, id, before.len() as int);
        let step = before[index];
        let folded = PlanStep { squash: step.squash.push(id), ..step };
        assert(next.steps == before.update(index, folded));
        assert forall|other: ObjectId| #[trigger] holds(folded, other) implies other == id || holds(
            step,
            other,
        ) by {
            if step.squash.push(id).contains(other) && other != id {
                let k = choose|k: int|
                    0 <= k < step.squash.push(id).len() && step.squash.push(id)[k] == other;
                assert(step.squash[k] == other);
            }
        }
        assert(step_in_scope(before[index], scope));
        assert(!holds(before[index], id));
        assert(step_in_scope(folded, scope));
        assert forall|i: int, j: int, other: ObjectId|
            0 <= i < next.steps.len() && 0 <= j < next.steps.len() && #[trigger] holds(
                next.steps[i],
                other,
            ) && #[trigger] holds(next.steps[j], other) implies i == j by {
            if other == id {
                if i != index {
                    assert(holds(before[i], id));
                }
                if j != index {
                    assert(holds(before[j], id));
                }
            } else {
                assert(holds(before[i], other));
                assert(holds(before[j], other));
            }
        }
        assert forall|i: int| 0 <= i < next.steps.len() implies step_in_scope(
            #[trigger] next.steps[i],
            scope,
        ) by {
            if i != index {
                assert(step_in_scope(before[i], scope));
            }
        }
        assert forall|i: int| 0 <= i < next.steps.len() implies within(
            (#[trigger] next.steps[i]).parent,
            i,
        ) by {
            assert(within(before[i].parent, i));
        }
    }
}

proof fn step_stays_sound(
    progress: ProgressView,
    command: CommandView,
    scope: Seq<ObjectId>,
    resolved: Option<ObjectId>,
    lookups: LookupsView,
)
    requires
        sound(progress, scope),
        progress.steps.len() < usize::MAX,
    ensures
        after_step(progress, command, scope, resolved, lookups) matches Ok(next) ==> sound(
            next,
            scope,
        ) && next.steps.len() == progress.steps.len() + 1,
{
    if let Ok(next) = after_step(progress, command, scope, resolved, lookups) {
        let before = progress.steps;
        let commit = produced(progress, command, scope, resolved, lookups)->Ok_0;
        let step = PlanStep { parent: progress.cursor->0, commit, squash: Seq::empty() };
        assert(next.steps == before.push(step));
        assert(kept(commit) matches Some(id) ==> scope.contains(id) && position(
            before,
            id,
            before.len() as int,
        ) is None);
        if let Some(id) = kept(commit) {
            position_bounds(before, id, before.len() as int);
        }
        assert forall|id: ObjectId| #[trigger] holds(step, id) implies kept(commit) == Some(id) by {}
        assert(step_in_scope(step, scope));
        assert forall|i: int| 0 <= i < next.steps.len() implies step_in_scope(
            #[trigger] next.steps[i],
            scope,
        ) by {
            if i < before.len() {
                assert(step_in_scope(before[i], scope));
            }
        }
        assert forall|i: int, j: int, id: ObjectId|
            0 <= i < next.steps.len() && 0 <= j < next.steps.len() && #[trigger] holds(
                next.steps[i],
                id,
            ) && #[trigger] holds(next.steps[j], id) implies i == j by {
            if i < before.len() {
                assert(holds(before[i], id));
            }
            if j < before.len() {
                assert(holds(before[j], id));
            }
        }
        assert forall|i: int| 0 <= i < next.steps.len() implies within(
            (#[trigger] next.steps[i]).parent,
            i,
        ) by {
            if i < before.len() {
                assert(within(before[i].parent, i));
            }
        }
    }
}

proof fn line_stays_sound(
    progress: ProgressView,
    line: Seq<u8>,
    state: TodoStateView,
    lookups: LookupsView,
)
    requires
        sound(progress, state.scope),
        progress.steps.len() < usize::MAX,
    ensures
        after_line(progress, line, state, lookups) matches Ok(next) ==> sound(next, state.scope)
            && next.steps.len() <= progress.steps.len() + 1,
{
    let allowed = state.checkout_allowed && lookups.has_worktree;
    if is_separator(line) {
        separator_stays_sound(progress, line, state.scope, lookups);
    } else if is_ref_line(line) {
        if let Some(target) = progress.cursor {
            if let Ok(found) = ref_line(line) {
                names_stay_sound(progress, found, 0, target, allowed, lookups, state.scope);
            }
        }
    } else {
        if let Ok(command) = command(line) {
            let marked = ProgressView { marked: progress.marked || command.marked, ..progress };
            assert(sound(marked, state.scope));
            squash_stays_sound(marked, command, state.scope, lookups);
            step_stays_sound(marked, command, state.scope, state.resolved, lookups);
        }
    }
}

proof fn lines_stay_sound(
    progress: ProgressView,
    all: Seq<Seq<u8>>,
    left: int,
    state: TodoStateView,
    lookups: LookupsView,
)
    requires
        sound(progress, state.scope),
        0 <= left <= all.len(),
        progress.steps.len() + left <= usize::MAX,
    ensures
        after_lines(progress, all, left, state, lookups) matches Ok(next) ==> sound(
            next,
            state.scope,
        ),
    decreases left,
{
    if left > 0 {
        line_stays_sound(progress, all[left - 1], state, lookups);
        if let Ok(next) = after_line(progress, all[left - 1], state, lookups) {
            lines_stay_sound(next, all, left - 1, state, lookups);
        }
    }
}

proof fn placement_is_placed(placed: Seq<Placed<Seq<u8>>>, name: Seq<u8>, from: int, end: int)
    requires
        0 <= from,
        forall|i: int| 0 <= i < placed.len() ==> within((#[trigger] placed[i]).target, end),
    ensures
        within_option(placement_from(placed, name, from), end),
    decreases placed.len() - from,
{
    if from < placed.len() && placed[from].name != name {
        placement_is_placed(placed, name, from + 1, end);
    }
}

/// Every plan that is read from a todo can be carried out from its first step to its last: each
/// step continues an earlier one or a commit that exists, what is checked out is among them, and
/// each commit of the history is picked or folded in at most once.
pub proof fn plans_are_well_formed(input: Seq<u8>, state: TodoStateView, lookups: LookupsView)
    requires
        editable(bytes::lines(input), 0, false, Seq::empty()).len() <= usize::MAX,
    ensures
        plan_of(input, state, lookups) matches Ok(plan) ==> well_formed(plan),
{
    let all = editable(bytes::lines(input), 0, false, Seq::empty());
    assert(sound(unread(state.expected_refs), state.scope));
    lines_stay_sound(unread(state.expected_refs), all, all.len() as int, state, lookups);
}

/// The references that a todo edits end up among the steps of its plan, at a commit that exists,
/// or nowhere; and each of them holds nothing else.
pub proof fn edited_references_are_placed(
    input: Seq<u8>,
    state: TodoStateView,
    lookups: LookupsView,
    index: int,
)
    requires
        editable(bytes::lines(input), 0, false, Seq::empty()).len() <= usize::MAX,
        state.edit_refs,
    ensures
        plan_of(input, state, lookups) matches Ok(plan) ==> (0 <= index < plan.expected_refs.len()
            && plan.expected_refs[index].editable ==> plan.expected_refs[index].new is None
            && within_option(plan.expected_refs[index].placement, plan.steps.len() as int)),
{
    let all = editable(bytes::lines(input), 0, false, Seq::empty());
    assert(sound(unread(state.expected_refs), state.scope));
    lines_stay_sound(unread(state.expected_refs), all, all.len() as int, state, lookups);
    if let Ok(progress) = after_lines(
        unread(state.expected_refs),
        all,
        all.len() as int,
        state,
        lookups,
    ) {
        if 0 <= index < progress.refs.len() {
            placement_is_placed(
                progress.placed,
                progress.refs[index].name,
                0,
                progress.steps.len() as int,
            );
        }
    }
}

/// A todo whose checkout must be marked gives a plan only with something to check out.
pub proof fn checkout_is_retained(input: Seq<u8>, state: TodoStateView, lookups: LookupsView)
    requires
        state.marker_required,
    ensures
        plan_of(input, state, lookups) matches Ok(plan) ==> plan.checkout is Some,
{
}

} // verus!
