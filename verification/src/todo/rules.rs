//! What each line of a rebase todo asks for, and when it is refused.
use vstd::prelude::*;
use vstd::string::StringSliceAdditionalSpecFns;
use vstd::utf8::valid_utf8;
use crate::bytes;
use crate::history::{parents_of, CommitNode};
use crate::ids::ObjectId;
use crate::plan::{holds, position_bounds, ExpectedRef, PlanCommit, PlanParent};
use crate::todo::lines::{command, editable, is_ref_line, is_separator, ref_line, separator_target, CommandView};
use crate::todo::names::resolved_name;
use crate::todo::outline::{connected, ids_of, is_parent, pending_path, tips_of, Outline};
use crate::todo::parse::{
    after_line, after_names, after_separator, after_squash,
    after_step, named_commit, parsed, placed_refs, placement_from, planned, produced,
    LookupsView, ParsedView, Placed, ProgressView,
};
use crate::todo::record::field_text;
use crate::todo::state::{
    completed, refs_valid, scope_valid, state_of, valid, with_field, Field, PartialView, TodoStateView,
};
use crate::todo::write::{
    anchor_kind, annotation, initial_state, names_at, names_placed_at, rail_count, AnchorView,
    OntoKind,
};
use crate::todo::TodoError;

verus! {

/// Whether a step holds a commit.
pub open spec fn picked(progress: ProgressView, id: ObjectId) -> bool {
    exists|i: int| 0 <= i < progress.steps.len() && holds(#[trigger] progress.steps[i], id)
}

/// Whether two places in a todo have the same plan so far.
pub open spec fn same_plan(one: ProgressView, other: ProgressView) -> bool {
    &&& one.steps == other.steps
    &&& one.placed == other.placed
    &&& one.refs == other.refs
    &&& one.checkout == other.checkout
    &&& one.attach == other.attach
}

/// A separator starts a stack on the commit that it names: on the step that holds it, or on the commit itself if
/// it is none of those that are rebased. A commit that is rebased but was not picked is refused, and so is a
/// separator behind a stack of nothing. It changes nothing of the plan.
pub proof fn separators_start_stacks(
    progress: ProgressView,
    line: Seq<u8>,
    scope: Seq<ObjectId>,
    lookups: LookupsView,
)
    requires
        progress.steps.len() <= usize::MAX,
        progress.forks >= 0,
    ensures
        after_separator(progress, line, scope, lookups) matches Ok(next) ==> {
            &&& same_plan(progress, next)
            &&& next.forks == progress.forks + 1
            &&& !next.fork_filled && next.fork_step is None
            &&& next.marked == progress.marked
            &&& progress.forks > 0 ==> progress.fork_filled
            &&& separator_target(line) matches Some(target) && (bytes::word(target) matches Some(
                text,
            ) && (named_commit(lookups.commits, text) matches Ok(id) && match next.cursor {
                Some(PlanParent::Step(index)) => index < progress.steps.len() && holds(
                    progress.steps[index as int],
                    id,
                ),
                Some(PlanParent::Existing(other)) => other == id && !scope.contains(id) && !picked(
                    progress,
                    id,
                ),
                None => false,
            }))
        },
        separator_target(line) matches Some(target) ==> (bytes::word(target) matches Some(text) ==> (
        named_commit(lookups.commits, text) matches Ok(id) ==> (after_separator(
            progress,
            line,
            scope,
            lookups,
        ) is Ok <==> (progress.forks == 0 || progress.fork_filled) && (picked(progress, id)
            || !scope.contains(id))))),
        separator_target(line) is None ==> after_separator(progress, line, scope, lookups) is Err,
{
    if let Some(target) = separator_target(line) {
        if let Some(text) = bytes::word(target) {
            if let Ok(id) = named_commit(lookups.commits, text) {
                position_bounds(progress.steps, id, progress.steps.len() as int);
            }
        }
    }
}

/// A command comes on top of what is below it: it is another step behind all others, whose parent is where the
/// cursor is, and the cursor is at it then. The checkout goes to it if it is marked and stays otherwise; two
/// places cannot be checked out. Nothing else changes.
pub proof fn commands_come_on_top(
    progress: ProgressView,
    line: CommandView,
    scope: Seq<ObjectId>,
    resolved: Option<ObjectId>,
    lookups: LookupsView,
)
    ensures
        progress.cursor is None ==> after_step(progress, line, scope, resolved, lookups) is Err,
        after_step(progress, line, scope, resolved, lookups) matches Ok(next) ==> {
            let index = progress.steps.len() as usize;
            &&& next.steps.len() == progress.steps.len() + 1
            &&& next.steps.take(progress.steps.len() as int) == progress.steps
            &&& Some(next.steps.last().parent) == progress.cursor
            &&& next.steps.last().squash.len() == 0
            &&& produced(progress, line, scope, resolved, lookups) == Ok::<_, TodoError>(
                next.steps.last().commit,
            )
            &&& next.cursor == Some(PlanParent::Step(index))
            &&& next.fork_step == Some(index)
            &&& next.fork_filled
            &&& line.marked ==> next.checkout == Some(PlanParent::Step(index))
            &&& !line.marked ==> next.checkout == progress.checkout
            &&& next.placed == progress.placed && next.refs == progress.refs && next.attach
                == progress.attach && next.forks == progress.forks
        },
        progress.cursor is Some && produced(progress, line, scope, resolved, lookups) is Ok && (
        !line.marked || progress.checkout is None) ==> after_step(
            progress,
            line,
            scope,
            resolved,
            lookups,
        ) is Ok,
        produced(progress, line, scope, resolved, lookups) is Err ==> after_step(
            progress,
            line,
            scope,
            resolved,
            lookups,
        ) is Err,
        line.marked && (progress.checkout matches Some(target) && target != PlanParent::Step(
            progress.steps.len() as usize,
        )) ==> after_step(progress, line, scope, resolved, lookups) is Err,
{
    if let Ok(next) = after_step(progress, line, scope, resolved, lookups) {
        assert(next.steps.take(progress.steps.len() as int) == progress.steps);
    }
}

/// What a command makes. A pick takes a commit that is rebased and was not picked before; all zeros take the
/// commit whose conflicts were resolved, if there is one. An empty commit needs a title, which stands behind the
/// command or else behind the quotes around it. There are no other commands.
pub proof fn commands_make_commits(
    progress: ProgressView,
    line: CommandView,
    scope: Seq<ObjectId>,
    resolved: Option<ObjectId>,
    lookups: LookupsView,
)
    requires
        progress.steps.len() <= usize::MAX,
    ensures
        ({
            let made = produced(progress, line, scope, resolved, lookups);
            let zeros = |text: Seq<u8>|
                text.len() == 40 && forall|i: int| 0 <= i < text.len() ==> #[trigger] text[i] == 48;
            let title = if bytes::trimmed(line.value).len() == 0 {
                line.tail
            } else {
                bytes::trimmed(line.value)
            };
            &&& made matches Ok(PlanCommit::Pick(id)) ==> line.verb == "pick".spec_bytes()
                && scope.contains(id) && !picked(progress, id) && (bytes::word(
                line.value,
            ) matches Some(text) && named_commit(lookups.commits, text) == Ok::<_, TodoError>(id)
                && (resolved is Some ==> !zeros(text)))
            &&& made matches Ok(PlanCommit::Resolved(id)) ==> line.verb == "pick".spec_bytes()
                && resolved == Some(id) && scope.contains(id) && !picked(progress, id) && (
            bytes::word(line.value) matches Some(text) && zeros(text))
            &&& made matches Ok(PlanCommit::Empty(text)) ==> line.verb == "empty".spec_bytes() && text
                == title && text.len() > 0
            &&& line.verb != "pick".spec_bytes() && line.verb != "empty".spec_bytes() ==> made
                is Err
            &&& line.verb == "empty".spec_bytes() && line.verb != "pick".spec_bytes() ==> (made
                is Ok <==> title.len() > 0)
            &&& line.verb == "pick".spec_bytes() ==> (bytes::word(line.value) matches Some(text) ==> (
            !(resolved is Some && zeros(text)) ==> (named_commit(
                lookups.commits,
                text,
            ) matches Ok(id) ==> (made is Ok <==> scope.contains(id) && !picked(progress, id)))))
            &&& line.verb == "pick".spec_bytes() ==> (bytes::word(line.value) matches Some(text) ==> (
            resolved matches Some(id) ==> (zeros(text) ==> (made is Ok <==> scope.contains(id)
                && !picked(progress, id)))))
        }),
{
    if let Some(text) = bytes::word(line.value) {
        if let Ok(id) = named_commit(lookups.commits, text) {
            position_bounds(progress.steps, id, progress.steps.len() as int);
        }
    }
    if let Some(id) = resolved {
        position_bounds(progress.steps, id, progress.steps.len() as int);
    }
}

/// A squash goes into the last command of its stack, behind what was squashed into that before. The commit must be
/// rebased and not be picked yet. The cursor stays, and a mark checks the command out.
pub proof fn squashes_go_into_the_last_command(
    progress: ProgressView,
    line: CommandView,
    scope: Seq<ObjectId>,
    lookups: LookupsView,
)
    requires
        progress.steps.len() <= usize::MAX,
        progress.fork_step matches Some(index) ==> index < progress.steps.len(),
    ensures
        progress.fork_step is None ==> after_squash(progress, line, scope, lookups) is Err,
        after_squash(progress, line, scope, lookups) matches Ok(next) ==> {
            let index = progress.fork_step->Some_0 as int;
            &&& bytes::word(line.value) matches Some(text) && (named_commit(
                lookups.commits,
                text,
            ) matches Ok(id) && scope.contains(id) && !picked(progress, id)
                && next.steps[index].squash == progress.steps[index].squash.push(id))
            &&& next.steps.len() == progress.steps.len()
            &&& next.steps[index].parent == progress.steps[index].parent
            &&& next.steps[index].commit == progress.steps[index].commit
            &&& forall|i: int|
                0 <= i < next.steps.len() && i != index ==> #[trigger] next.steps[i]
                    == progress.steps[i]
            &&& next.cursor == progress.cursor && next.fork_step == progress.fork_step
            &&& line.marked ==> next.checkout == Some(PlanParent::Step(index as usize))
            &&& !line.marked ==> next.checkout == progress.checkout
            &&& next.placed == progress.placed && next.refs == progress.refs && next.attach
                == progress.attach
        },
        progress.fork_step is Some ==> (bytes::word(line.value) matches Some(text) ==> (named_commit(
            lookups.commits,
            text,
        ) matches Ok(id) ==> (scope.contains(id) && !picked(progress, id) && (!line.marked
            || progress.checkout is None) ==> after_squash(progress, line, scope, lookups) is Ok))),
{
    if let Some(text) = bytes::word(line.value) {
        if let Ok(id) = named_commit(lookups.commits, text) {
            position_bounds(progress.steps, id, progress.steps.len() as int);
        }
    }
}

proof fn placements_are_first(placed: Seq<Placed<Seq<u8>>>, name: Seq<u8>, from: int)
    requires
        0 <= from,
    ensures
        match placement_from(placed, name, from) {
            Some(target) => exists|i: int|
                from <= i < placed.len() && (#[trigger] placed[i]).name == name
                    && placed[i].target == target,
            None => forall|i: int| from <= i < placed.len() ==> (#[trigger] placed[i]).name != name,
        },
    decreases placed.len() - from,
{
    if from < placed.len() {
        if placed[from].name != name {
            placements_are_first(placed, name, from + 1);
        } else {
            assert(placed[from].target == placement_from(placed, name, from)->Some_0);
        }
    }
}

/// Whether each reference is placed once.
pub open spec fn placed_once(placed: Seq<Placed<Seq<u8>>>) -> bool {
    forall|i: int, j: int|
        0 <= i < j < placed.len() ==> (#[trigger] placed[i]).name != (#[trigger] placed[j]).name
}

/// References are all placed where their line is, in order, and each but once. The marked one is what the checkout
/// attaches to, and there is only one. Nothing else changes but the references that are captured.
pub proof fn references_are_placed_where_they_stand(
    progress: ProgressView,
    found: Seq<(bool, Seq<u8>)>,
    at: int,
    target: PlanParent,
    allowed: bool,
    lookups: LookupsView,
)
    requires
        0 <= at <= found.len(),
        placed_once(progress.placed),
    ensures
        after_names(progress, found, at, target, allowed, lookups) matches Ok(next) ==> {
            &&& next.placed.len() == progress.placed.len() + found.len() - at
            &&& next.placed.take(progress.placed.len() as int) == progress.placed
            &&& forall|i: int|
                progress.placed.len() <= i < next.placed.len() ==> (#[trigger] next.placed[i]).target
                    == target
            &&& placed_once(next.placed)
            &&& next.steps == progress.steps && next.cursor == progress.cursor && next.checkout
                == progress.checkout && next.forks == progress.forks && next.fork_step
                == progress.fork_step
            &&& (exists|i: int| at <= i < found.len() && (#[trigger] found[i]).0) ==> allowed
                && progress.attach is None && (next.attach matches Some(attach) && attach.target
                == target)
            &&& (forall|i: int| at <= i < found.len() ==> !(#[trigger] found[i]).0) ==> next.attach
                == progress.attach
            &&& forall|i: int, j: int|
                at <= i < j < found.len() && (#[trigger] found[i]).0 ==> !(#[trigger] found[j]).0
        },
    decreases found.len() - at,
{
    if at < found.len() {
        let (marked, value) = found[at];
        if let Ok((name, refs)) = resolved_name(
            progress.refs,
            value,
            lookups.references,
            lookups.stash_prefix,
            lookups.head,
        ) {
            if placement_from(progress.placed, name, 0) is None && !(marked && !allowed) && !(marked
                && progress.attach is Some) {
                let placed = Placed { name, target };
                let next = ProgressView {
                    refs,
                    placed: progress.placed.push(placed),
                    attach: if marked {
                        Some(placed)
                    } else {
                        progress.attach
                    },
                    ..progress
                };
                placements_are_first(progress.placed, name, 0);
                assert(placed_once(next.placed)) by {
                    assert forall|i: int, j: int| 0 <= i < j < next.placed.len() implies (
                    #[trigger] next.placed[i]).name != (#[trigger] next.placed[j]).name by {
                        assert(progress.placed[i] == next.placed[i]);
                    }
                }
                references_are_placed_where_they_stand(
                    next,
                    found,
                    at + 1,
                    target,
                    allowed,
                    lookups,
                );
                if let Ok(last) = after_names(next, found, at + 1, target, allowed, lookups) {
                    assert(last.placed.take(progress.placed.len() as int) == last.placed.take(
                        next.placed.len() as int,
                    ).take(progress.placed.len() as int));
                    assert(next.placed.take(progress.placed.len() as int) == progress.placed);
                    assert(last.placed.take(next.placed.len() as int)[progress.placed.len() as int]
                        == last.placed[progress.placed.len() as int]);
                }
            }
        }
    } else {
        assert(progress.placed.take(progress.placed.len() as int) == progress.placed);
    }
}

/// Which lines are what: separators, references in round brackets, and commands. References need a place to be
/// at; they fill a stack. A second mark is refused, and any mark where nothing can be checked out.
pub proof fn lines_are_told_apart(
    progress: ProgressView,
    line: Seq<u8>,
    state: TodoStateView,
    lookups: LookupsView,
)
    ensures
        is_separator(line) ==> after_line(progress, line, state, lookups) == after_separator(
            progress,
            line,
            state.scope,
            lookups,
        ),
        !is_separator(line) && is_ref_line(line) ==> {
            &&& progress.cursor is None ==> after_line(progress, line, state, lookups) is Err
            &&& progress.cursor matches Some(target) ==> (ref_line(line) matches Ok(found) ==> match after_names(
                progress,
                found,
                0,
                target,
                state.checkout_allowed && lookups.has_worktree,
                lookups,
            ) {
                Ok(next) => after_line(progress, line, state, lookups) matches Ok(last)
                    && last.fork_filled && last.placed == next.placed && last.refs == next.refs
                    && last.attach == next.attach && last.steps == next.steps,
                Err(err) => after_line(progress, line, state, lookups) is Err,
            })
        },
        !is_separator(line) && !is_ref_line(line) ==> (command(line) matches Ok(found) ==> {
            &&& found.marked && (progress.marked || !state.checkout_allowed || !lookups.has_worktree)
                ==> after_line(progress, line, state, lookups) is Err
            &&& after_line(progress, line, state, lookups) matches Ok(next) ==> next.marked == (
            progress.marked || found.marked)
            &&& !(found.marked && (progress.marked || !state.checkout_allowed
                || !lookups.has_worktree)) ==> {
                let noted = ProgressView { marked: progress.marked || found.marked, ..progress };
                &&& found.verb == "squash".spec_bytes() ==> after_line(
                    progress,
                    line,
                    state,
                    lookups,
                ) == after_squash(noted, found, state.scope, lookups)
                &&& found.verb != "squash".spec_bytes() ==> after_line(
                    progress,
                    line,
                    state,
                    lookups,
                ) == after_step(noted, found, state.scope, state.resolved, lookups)
            }
        }),
{
}

/// What a todo that was read comes to: a rebase of what was recorded, onto what was recorded, with the steps that
/// were read. There must be a stack, the last one must not be empty unless it is the only one, and a checkout that
/// is required must be there. The checkout attaches to the marked reference, or else to the one that HEAD was on if
/// that is placed there.
pub proof fn todos_come_to_plans(progress: ProgressView, state: TodoStateView)
    requires
        progress.forks >= 0,
    ensures
        planned(progress, state) matches Ok(plan) ==> {
            &&& progress.forks > 0
            &&& plan.base == state.onto
            &&& plan.scope == state.scope
            &&& plan.steps == progress.steps
            &&& plan.checkout is Some <==> progress.checkout is Some
            &&& plan.checkout matches Some(checkout) ==> {
                &&& progress.checkout == Some(checkout.target)
                &&& progress.attach matches Some(attach) ==> checkout.reference == Some(attach.name)
                    && attach.target == checkout.target
                &&& progress.attach is None ==> (checkout.reference is Some <==> (
                state.head_ref matches Some(name) && placement_from(progress.placed, name, 0)
                    == Some(checkout.target)))
                &&& progress.attach is None ==> (checkout.reference is Some ==> checkout.reference
                    == state.head_ref)
            }
            &&& progress.attach is Some ==> progress.checkout is Some
            &&& plan.expected_refs == placed_refs(progress, state.edit_refs)
        },
        planned(progress, state) is Ok <==> {
            &&& progress.forks > 0
            &&& progress.forks > 1 ==> progress.fork_filled
            &&& state.marker_required ==> progress.checkout is Some
            &&& progress.attach matches Some(attach) ==> progress.checkout == Some(attach.target)
        },
{
}

/// References that can be edited end where they were placed, or nowhere; all others, and all where references
/// are not edited, stay as they are expected to be.
pub proof fn placed_references_end_there(progress: ProgressView, edit_refs: bool, i: int)
    requires
        0 <= i < progress.refs.len(),
    ensures
        ({
            let before = progress.refs[i];
            let after = placed_refs(progress, edit_refs)[i];
            &&& placed_refs(progress, edit_refs).len() == progress.refs.len()
            &&& after.name == before.name && after.old == before.old && after.target
                == before.target && after.editable == before.editable && after.follows_tip
                == before.follows_tip
            &&& !edit_refs || !before.editable ==> after == before
            &&& edit_refs && before.editable ==> {
                &&& after.new is None
                &&& after.placement is None <==> forall|k: int|
                    0 <= k < progress.placed.len() ==> (#[trigger] progress.placed[k]).name
                        != before.name
                &&& after.placement matches Some(target) ==> exists|k: int|
                    0 <= k < progress.placed.len() && (#[trigger] progress.placed[k]).name
                        == before.name && progress.placed[k].target == target
            }
        }),
{
    placements_are_first(progress.placed, progress.refs[i].name, 0);
    if let Some(target) = placement_from(progress.placed, progress.refs[i].name, 0) {
        let k = choose|k: int|
            0 <= k < progress.placed.len() && (#[trigger] progress.placed[k]).name
                == progress.refs[i].name && progress.placed[k].target == target;
        assert(progress.placed[k].name == progress.refs[i].name);
    }
}

/// A todo is read only once there is a commit, only if it is UTF-8, and only if it holds a state; one that holds
/// none asks for nothing.
pub proof fn todos_hold_a_state(
    edited: Seq<u8>,
    commits: Seq<CommitNode<Seq<ObjectId>>>,
    lookups: Option<LookupsView>,
)
    ensures
        lookups is None ==> parsed(edited, commits, lookups) is Err,
        !valid_utf8(edited) ==> parsed(edited, commits, lookups) is Err,
        state_of(edited, commits) is Err ==> parsed(edited, commits, lookups) is Err,
        lookups is Some && valid_utf8(edited) && state_of(edited, commits) == Ok::<_, TodoError>(
            None::<TodoStateView>,
        ) ==> parsed(edited, commits, lookups) == Ok::<_, TodoError>(None::<ParsedView>),
        parsed(edited, commits, lookups) matches Ok(Some(found)) ==> (state_of(
            edited,
            commits,
        ) matches Ok(Some(state)) && found.tips == state.tips && found.plan.scope == state.scope
            && found.plan.base == state.onto),
{
}

/// What is recorded of a todo must say where it starts and ends, and whether a checkout is required and allowed;
/// each of those but once.
pub proof fn states_say_all_once(
    state: PartialView,
    a: ObjectId,
    b: ObjectId,
    yes: bool,
    no: bool,
    name: Seq<u8>,
    other: Seq<u8>,
)
    ensures
        completed(state) is Ok <==> state.base is Some && state.onto is Some
            && state.marker_required is Some && state.checkout_allowed is Some,
        completed(state) matches Ok(whole) ==> Some(whole.base) == state.base && Some(whole.onto)
            == state.onto && Some(whole.marker_required) == state.marker_required && Some(
            whole.checkout_allowed,
        ) == state.checkout_allowed && whole.scope == state.scope && whole.tips == state.tips
            && whole.head_ref == state.head_ref && whole.expected_refs == state.expected_refs
            && whole.resolved == state.resolved && whole.edit_refs == state.edit_refs
            && whole.continuation_sources == state.continuation_sources,
        with_field(state, Field::Base(a)) is Ok <==> state.base is None,
        with_field(state, Field::Onto(a)) is Ok <==> state.onto is None,
        with_field(state, Field::MarkerRequired(yes)) is Ok <==> state.marker_required is None,
        with_field(state, Field::CheckoutAllowed(yes)) is Ok <==> state.checkout_allowed is None,
        with_field(state, Field::HeadRef(name)) is Ok <==> state.head_ref is None,
        with_field(state, Field::Resolved(a)) is Ok <==> state.resolved is None,
        with_field(state, Field::Base(a)) matches Ok(next) ==> next.base == Some(a) && with_field(
            next,
            Field::Base(b),
        ) is Err,
        with_field(state, Field::Onto(a)) matches Ok(next) ==> next.onto == Some(a) && with_field(
            next,
            Field::Onto(b),
        ) is Err,
        with_field(state, Field::MarkerRequired(yes)) matches Ok(next) ==> next.marker_required
            == Some(yes) && with_field(next, Field::MarkerRequired(no)) is Err,
        with_field(state, Field::CheckoutAllowed(yes)) matches Ok(next) ==> next.checkout_allowed
            == Some(yes) && with_field(next, Field::CheckoutAllowed(no)) is Err,
        with_field(state, Field::HeadRef(name)) matches Ok(next) ==> next.head_ref == Some(name)
            && with_field(next, Field::HeadRef(other)) is Err,
        with_field(state, Field::Resolved(a)) matches Ok(next) ==> next.resolved == Some(a)
            && with_field(next, Field::Resolved(b)) is Err,
        with_field(state, Field::Tip(a)) matches Ok(next) && next.tips == state.tips.push(a),
        with_field(state, Field::Scope(a)) matches Ok(next) && next.scope == state.scope.push(a),
        with_field(state, Field::ContinuationSource(a)) matches Ok(next)
            && next.continuation_sources == state.continuation_sources.push(a),
        with_field(state, Field::EditRefs(yes)) matches Ok(next) && next.edit_refs == yes,
{
}

/// The tips among commits are those that are nobody's parent.
pub proof fn tips_are_nobodys_parents(
    commits: Seq<CommitNode<Seq<ObjectId>>>,
    end: int,
    id: ObjectId,
)
    requires
        0 <= end <= commits.len(),
    ensures
        tips_of(commits, end).contains(id) <==> exists|i: int|
            0 <= i < end && (#[trigger] commits[i]).id == id && forall|j: int|
                0 <= j < commits.len() ==> !(#[trigger] commits[j]).parents.contains(id),
    decreases end,
{
    if end > 0 {
        tips_are_nobodys_parents(commits, end - 1, id);
        let before = tips_of(commits, end - 1);
        let all = tips_of(commits, end);
        if before.contains(id) {
            let k = before.index_of(id);
            assert(all[k] == id);
        }
        if !is_parent(commits, commits[end - 1].id) {
            assert(all[before.len() as int] == commits[end - 1].id);
        }
    }
}

/// The references that are shown at a commit are exactly those that can be edited and lead to it.
pub proof fn references_are_shown_where_they_lead(
    refs: Seq<ExpectedRef<Seq<u8>>>,
    target: ObjectId,
    end: int,
    name: Seq<u8>,
)
    requires
        0 <= end <= refs.len(),
    ensures
        names_at(refs, target, end).contains(name) <==> exists|i: int|
            0 <= i < end && (#[trigger] refs[i]).name == name && refs[i].editable && refs[i].target
                == target,
    decreases end,
{
    if end > 0 {
        references_are_shown_where_they_lead(refs, target, end - 1, name);
        let before = names_at(refs, target, end - 1);
        let all = names_at(refs, target, end);
        if before.contains(name) {
            let k = before.index_of(name);
            assert(all[k] == name);
        }
        if refs[end - 1].editable && refs[end - 1].target == target {
            assert(all[before.len() as int] == refs[end - 1].name);
        }
    }
}

/// The references that are shown at a place of a plan are exactly those that were placed there.
pub proof fn references_are_shown_where_they_are_placed(
    refs: Seq<ExpectedRef<Seq<u8>>>,
    target: PlanParent,
    end: int,
    name: Seq<u8>,
)
    requires
        0 <= end <= refs.len(),
    ensures
        names_placed_at(refs, target, end).contains(name) <==> exists|i: int|
            0 <= i < end && (#[trigger] refs[i]).name == name && refs[i].placement == Some(target),
    decreases end,
{
    if end > 0 {
        references_are_shown_where_they_are_placed(refs, target, end - 1, name);
        let before = names_placed_at(refs, target, end - 1);
        let all = names_placed_at(refs, target, end);
        if before.contains(name) {
            let k = before.index_of(name);
            assert(all[k] == name);
        }
        if refs[end - 1].placement == Some(target) {
            assert(all[before.len() as int] == refs[end - 1].name);
        }
    }
}

/// A commit stands on a pending rebase if it or one below it by first parents has one, as far as the commits are
/// known.
pub proof fn pending_rebases_are_found_below(
    commits: Seq<CommitNode<Seq<ObjectId>>>,
    pending: Seq<ObjectId>,
    id: ObjectId,
    bound: nat,
)
    requires
        bound > 0,
    ensures
        parents_of(commits, id) is None ==> !pending_path(commits, pending, id, bound),
        parents_of(commits, id) is Some && pending.contains(id) ==> pending_path(
            commits,
            pending,
            id,
            bound,
        ),
        pending_path(commits, pending, id, bound) && !pending.contains(id) ==> (parents_of(
            commits,
            id,
        ) matches Some(parents) && parents.len() > 0 && pending_path(
            commits,
            pending,
            parents[0],
            (bound - 1) as nat,
        )),
        parents_of(commits, id) matches Some(parents) ==> (parents.len() > 0 && pending_path(
            commits,
            pending,
            parents[0],
            (bound - 1) as nat,
        ) ==> pending_path(commits, pending, id, bound)),
{
}

/// The line of a fork is at least four rails on either side, and as wide as asked for if there is room.
pub proof fn forks_are_railed(line: Seq<u8>, width: nat)
    requires
        width <= usize::MAX,
        crate::text::columns(line) + 2 <= usize::MAX,
    ensures
        rail_count(line, width) >= 8,
        width >= crate::text::columns(line) + 2 + 8 ==> crate::text::columns(line) + 2 + rail_count(
            line,
            width,
        ) == width,
{
}

/// What a todo that is written records: the commits that are rebased, from where and onto what, the tips that
/// were asked for or else those that there are, whether a checkout is required and allowed, and HEAD if there is a
/// worktree. References can be edited, and nothing is resolved yet.
pub proof fn written_todos_record_their_rebase(
    outline: Outline,
    base: ObjectId,
    onto: ObjectId,
    resolved_tips: Seq<ObjectId>,
    has_worktree: bool,
    head_ref: Option<Seq<u8>>,
    refs: Seq<ExpectedRef<Seq<u8>>>,
)
    ensures
        ({
            let state = initial_state(
                outline,
                base,
                onto,
                resolved_tips,
                has_worktree,
                head_ref,
                refs,
            );
            &&& state.base == base && state.onto == onto && state.scope == outline.scope@
            &&& resolved_tips.len() > 0 ==> state.tips == resolved_tips
            &&& resolved_tips.len() == 0 ==> state.tips == outline.tips@
            &&& state.marker_required <==> outline.marker is Some
            &&& state.checkout_allowed <==> has_worktree
            &&& has_worktree ==> state.head_ref == head_ref
            &&& !has_worktree ==> state.head_ref is None
            &&& state.edit_refs && state.expected_refs == refs
            &&& state.resolved is None && state.continuation_sources.len() == 0
        }),
{
}

/// A stack says what it is on only where the rebase starts, and there by what that is: the base if nothing moves,
/// or the updated base or the commit that is rebased onto.
pub proof fn anchors_say_what_they_are(
    anchor: AnchorView,
    parent: ObjectId,
    base: ObjectId,
    onto: ObjectId,
    kind: OntoKind,
)
    ensures
        annotation(anchor, parent) is Some <==> parent == anchor.onto,
        annotation(anchor, parent) matches Some((found, title)) ==> found == anchor.kind && title
            == anchor.title,
        base == onto ==> anchor_kind(base, onto, kind) == "base".spec_bytes(),
        base != onto && kind == OntoKind::UpdatedBase ==> anchor_kind(base, onto, kind)
            == "updated-base".spec_bytes(),
        base != onto && kind == OntoKind::Onto ==> anchor_kind(base, onto, kind)
            == "onto".spec_bytes(),
{
}

/// Whether a commit of the rebased history is known and continues another of them or the base, or is squashed by a
/// continuation.
pub open spec fn rests(
    state: TodoStateView,
    commits: Seq<CommitNode<Seq<ObjectId>>>,
    id: ObjectId,
) -> bool {
    parents_of(commits, id) matches Some(parents) && parents.len() > 0 && (parents[0] == state.base
        || state.scope.contains(parents[0]) || state.continuation_sources.contains(id))
}

/// Whether a captured reference leads into the rebased history, or to where that starts or goes, and was not captured
/// before.
pub open spec fn captured_once(state: TodoStateView, at: int) -> bool {
    let reference = state.expected_refs[at];
    &&& state.scope.contains(reference.target) || reference.target == state.base || reference.target
        == state.onto
    &&& forall|i: int| 0 <= i < at ==> (#[trigger] state.expected_refs[i]).name != reference.name
}

proof fn scopes_rest(state: TodoStateView, commits: Seq<CommitNode<Seq<ObjectId>>>, at: int)
    requires
        0 <= at,
    ensures
        scope_valid(state, commits, at) is Ok <==> forall|i: int|
            at <= i < state.scope.len() ==> rests(state, commits, #[trigger] state.scope[i]),
    decreases state.scope.len() - at,
{
    if at < state.scope.len() {
        scopes_rest(state, commits, at + 1);
        if rests(state, commits, state.scope[at]) {
            assert forall|i: int|
                scope_valid(state, commits, at) is Ok && at <= i < state.scope.len() implies rests(
                state,
                commits,
                #[trigger] state.scope[i],
            ) by {}
        } else {
            assert(scope_valid(state, commits, at) is Err);
        }
    }
}

proof fn references_are_captured_once(state: TodoStateView, at: int)
    requires
        0 <= at,
    ensures
        refs_valid(state, at) is Ok <==> forall|i: int|
            at <= i < state.expected_refs.len() ==> #[trigger] captured_once(state, i),
    decreases state.expected_refs.len() - at,
{
    if at < state.expected_refs.len() {
        references_are_captured_once(state, at + 1);
        if captured_once(state, at) {
            assert forall|i: int|
                refs_valid(state, at) is Ok && at <= i < state.expected_refs.len() implies #[trigger] captured_once(
                state,
                i,
            ) by {}
        } else {
            assert(refs_valid(state, at) is Err);
        }
    }
}

/// What is recorded of a todo can be taken up if and only if all of it is known, it says nothing twice, and it fits
/// together: references lead into what is rebased, the branch that HEAD is on can be edited, what is rebased hangs
/// together, and what was resolved or is squashed is part of it.
pub proof fn states_fit_the_repository(
    state: TodoStateView,
    commits: Seq<CommitNode<Seq<ObjectId>>>,
)
    ensures
        valid(state, commits) is Ok <==> {
            &&& parents_of(commits, state.base) is Some
            &&& parents_of(commits, state.onto) is Some
            &&& state.scope.no_duplicates()
            &&& state.tips.no_duplicates()
            &&& forall|i: int|
                0 <= i < state.expected_refs.len() ==> #[trigger] captured_once(state, i)
            &&& state.head_ref is Some ==> exists|i: int|
                0 <= i < state.expected_refs.len() && (#[trigger] state.expected_refs[i]).editable
                    && Some(state.expected_refs[i].name) == state.head_ref
            &&& forall|i: int|
                0 <= i < state.tips.len() ==> parents_of(commits, #[trigger] state.tips[i]) is Some
            &&& forall|i: int|
                0 <= i < state.scope.len() ==> rests(state, commits, #[trigger] state.scope[i])
            &&& state.resolved is Some ==> state.scope.contains(state.resolved->0)
            &&& forall|i: int|
                0 <= i < state.continuation_sources.len() ==> state.scope.contains(
                    #[trigger] state.continuation_sources[i],
                )
        },
{
    scopes_rest(state, commits, 0);
    references_are_captured_once(state, 0);
}

/// Whether a line can belong to a plan: it says something, is no heading and starts no comment.
pub open spec fn of_a_plan(line: Seq<u8>) -> bool {
    &&& line.len() > 0
    &&& !bytes::has_prefix(line, "# ".spec_bytes())
    &&& !bytes::has_prefix(line, "<!--".spec_bytes())
}

proof fn lines_of_the_plan_are_read(
    all: Seq<Seq<u8>>,
    at: int,
    in_comment: bool,
    done: Seq<Seq<u8>>,
)
    requires
        0 <= at,
    ensures
        ({
            let read = editable(all, at, in_comment, done);
            &&& read.len() >= done.len()
            &&& read.take(done.len() as int) == done
            &&& forall|k: int|
                done.len() <= k < read.len() ==> of_a_plan(#[trigger] read[k]) && exists|i: int|
                    at <= i < all.len() && bytes::trimmed(#[trigger] all[i]) == read[k]
            &&& !in_comment && (forall|i: int|
                at <= i < all.len() ==> !bytes::has_prefix(
                    bytes::trimmed(#[trigger] all[i]),
                    "<!--".spec_bytes(),
                )) ==> forall|i: int|
                at <= i < all.len() && of_a_plan(bytes::trimmed(#[trigger] all[i]))
                    ==> read.contains(bytes::trimmed(all[i]))
            &&& in_comment && (forall|i: int|
                at <= i < all.len() ==> bytes::find_from(
                    bytes::trimmed(#[trigger] all[i]),
                    "-->".spec_bytes(),
                    0,
                ) is None) ==> read == done
        }),
    decreases all.len() - at,
{
    let read = editable(all, at, in_comment, done);
    if at < all.len() {
        let line = bytes::trimmed(all[at]);
        if !in_comment && of_a_plan(line) {
            let next = done.push(line);
            lines_of_the_plan_are_read(all, at + 1, false, next);
            assert(read.take(next.len() as int).take(done.len() as int) == read.take(
                done.len() as int,
            ));
            assert(next.take(done.len() as int) == done);
            assert(read.take(next.len() as int)[done.len() as int] == read[done.len() as int]);
            assert(read[done.len() as int] == line);
        } else {
            let inside = (in_comment || bytes::has_prefix(line, "<!--".spec_bytes()))
                && bytes::find_from(line, "-->".spec_bytes(), 0) is None;
            lines_of_the_plan_are_read(all, at + 1, inside, done);
        }
    } else {
        assert(read.take(done.len() as int) == done);
    }
}

/// A plan is read from lines that say something, are no headings and start no comment, and where there are no
/// comments from all of those. Nothing is read from a comment that is not closed.
pub proof fn only_lines_of_the_plan_are_read(all: Seq<Seq<u8>>)
    ensures
        ({
            let read = editable(all, 0, false, Seq::empty());
            &&& forall|k: int|
                0 <= k < read.len() ==> of_a_plan(#[trigger] read[k]) && exists|i: int|
                    0 <= i < all.len() && bytes::trimmed(#[trigger] all[i]) == read[k]
            &&& (forall|i: int|
                0 <= i < all.len() ==> !bytes::has_prefix(
                    bytes::trimmed(#[trigger] all[i]),
                    "<!--".spec_bytes(),
                )) ==> forall|i: int|
                0 <= i < all.len() && of_a_plan(bytes::trimmed(#[trigger] all[i]))
                    ==> read.contains(bytes::trimmed(all[i]))
            &&& all.len() > 0 && bytes::has_prefix(bytes::trimmed(all[0]), "<!--".spec_bytes()) && (
            forall|i: int|
                0 <= i < all.len() ==> bytes::find_from(
                    bytes::trimmed(#[trigger] all[i]),
                    "-->".spec_bytes(),
                    0,
                ) is None) ==> read.len() == 0
        }),
{
    lines_of_the_plan_are_read(all, 0, false, Seq::empty());
    if all.len() > 0 {
        lines_of_the_plan_are_read(all, 1, true, Seq::empty());
    }
}

/// A command in backticks is the same as without them, and what is behind them belongs to it. Only one that starts
/// with `@` is marked.
pub proof fn backticks_do_not_matter(text: Seq<u8>, tail: Seq<u8>)
    requires
        forall|i: int| 0 <= i < text.len() ==> text[i] != 96,
    ensures
        command(text) matches Ok(plain) && plain.tail.len() == 0 && command(
            seq![96u8] + text + seq![96u8] + tail,
        ) == Ok::<_, TodoError>(CommandView { tail: bytes::trimmed(tail), ..plain }) && (
        plain.marked ==> text.len() > 0 && text[0] == 64) && (if plain.marked {
            seq![64u8] + plain.verb
        } else {
            plain.verb
        }) == bytes::split_at_space(text).0 && plain.value == bytes::split_at_space(text).1,
{
    let line = seq![96u8] + text + seq![96u8] + tail;
    let rest = line.skip(1);
    assert(rest == text + seq![96u8] + tail);
    bytes::find_byte_bounds(rest, 96, 0);
    assert(rest[text.len() as int] == 96);
    assert forall|i: int| 0 <= i < text.len() implies rest[i] != 96 by {
        assert(rest[i] == text[i]);
    }
    assert(rest.take(text.len() as int) == text);
    assert(rest.skip(text.len() as int + 1) == tail);
    bytes::word_end_bounds(text, 0);
    let verb = bytes::split_at_space(text).0;
    if verb.len() > 0 && verb[0] == 64 {
        assert(seq![64u8] + verb.skip(1) == verb);
        assert(verb[0] == text[0]);
    }
}

/// An item of a list of references is a name, with an `@` before it if it is marked.
pub proof fn marks_are_not_part_of_names(item: Seq<u8>, name: Seq<u8>)
    requires
        item.len() > 0,
        item[0] != 64,
        name.len() > 0,
        bytes::trimmed(item) == item,
        bytes::trimmed(seq![64u8] + item) == seq![64u8] + item,
        bytes::trimmed(Seq::<u8>::empty()).len() == 0,
        crate::names::unquoted(item) == Some((name, item.len())),
    ensures
        crate::todo::lines::ref_item(item) == Ok::<_, TodoError>((false, name)),
        crate::todo::lines::ref_item(seq![64u8] + item) == Ok::<_, TodoError>((true, name)),
{
    assert((seq![64u8] + item).skip(1) == item);
    assert(item.skip(item.len() as int) == Seq::<u8>::empty());
}

/// A commit is named by what was abbreviated to, if that has four hexadecimal digits or more.
pub proof fn commits_are_named_by_their_abbreviations(
    commits: Seq<crate::todo::parse::Abbreviation<Seq<u8>>>,
    text: Seq<u8>,
)
    ensures
        named_commit(commits, text) matches Ok(id) ==> text.len() >= 4 && exists|i: int|
            0 <= i < commits.len() && (#[trigger] commits[i]).text == text && commits[i].id == id,
        text.len() < 4 ==> named_commit(commits, text) is Err,
        (exists|i: int|
            0 <= i < text.len() && crate::ids::hex_digit(#[trigger] text[i]) is None)
            ==> named_commit(commits, text) is Err,
        text.len() >= 4 && (forall|i: int|
            0 <= i < text.len() ==> crate::ids::hex_digit(#[trigger] text[i]) is Some) && (exists|
            i: int,
        | 0 <= i < commits.len() && (#[trigger] commits[i]).text == text) ==> named_commit(
            commits,
            text,
        ) is Ok,
{
    abbreviations_are_found(commits, text, 0);
}

proof fn abbreviations_are_found(
    commits: Seq<crate::todo::parse::Abbreviation<Seq<u8>>>,
    text: Seq<u8>,
    from: int,
)
    requires
        0 <= from,
    ensures
        crate::todo::parse::abbreviated_from(commits, text, from) matches Some(id) ==> exists|i: int|
            from <= i < commits.len() && (#[trigger] commits[i]).text == text && commits[i].id == id,
        crate::todo::parse::abbreviated_from(commits, text, from) is None ==> forall|i: int|
            from <= i < commits.len() ==> (#[trigger] commits[i]).text != text,
    decreases commits.len() - from,
{
    if from < commits.len() && commits[from].text != text {
        abbreviations_are_found(commits, text, from + 1);
    }
}

/// Commits can be edited together if and only if each of them has a parent that is another of them, or the commit
/// below all of them.
pub proof fn edited_commits_hang_together(
    commits: Seq<CommitNode<Seq<ObjectId>>>,
    base: ObjectId,
    at: int,
)
    requires
        0 <= at,
    ensures
        connected(commits, base, at) is Ok <==> forall|i: int|
            at <= i < commits.len() ==> hangs_together(commits, base, #[trigger] commits[i]),
    decreases commits.len() - at,
{
    if at < commits.len() {
        edited_commits_hang_together(commits, base, at + 1);
        assert(ids_of(commits).contains(commits[at].parents[0]) <==> exists|j: int|
            0 <= j < commits.len() && (#[trigger] commits[j]).id == commits[at].parents[0]) by {
            if ids_of(commits).contains(commits[at].parents[0]) {
                let j = choose|j: int|
                    0 <= j < commits.len() && ids_of(commits)[j] == commits[at].parents[0];
                assert(commits[j].id == commits[at].parents[0]);
            }
            if exists|j: int|
                0 <= j < commits.len() && (#[trigger] commits[j]).id == commits[at].parents[0] {
                let j = choose|j: int|
                    0 <= j < commits.len() && (#[trigger] commits[j]).id == commits[at].parents[0];
                assert(ids_of(commits)[j] == commits[at].parents[0]);
            }
        }
        if !hangs_together(commits, base, commits[at]) {
            assert(connected(commits, base, at) is Err);
        }
    }
}

/// Whether a commit continues another one, or the one below all of them.
pub open spec fn hangs_together(
    commits: Seq<CommitNode<Seq<ObjectId>>>,
    base: ObjectId,
    commit: CommitNode<Seq<ObjectId>>,
) -> bool {
    commit.parents.len() > 0 && (commit.parents[0] == base || exists|j: int|
        0 <= j < commits.len() && (#[trigger] commits[j]).id == commit.parents[0])
}

/// How what is recorded of a todo is written: a key and its value on a line, with a space between.
pub proof fn fields_are_written_by_their_keys(id: ObjectId, value: bool, name: Seq<u8>)
    ensures
        ({
            let space = seq![32u8];
            let hex = crate::ids::hex_of(id);
            let truth = if value {
                "true".spec_bytes()
            } else {
                "false".spec_bytes()
            };
            &&& field_text(Field::Base(id)) == "base".spec_bytes() + space + hex
            &&& field_text(Field::Onto(id)) == "onto".spec_bytes() + space + hex
            &&& field_text(Field::Tip(id)) == "tip".spec_bytes() + space + hex
            &&& field_text(Field::Scope(id)) == "scope".spec_bytes() + space + hex
            &&& field_text(Field::Resolved(id)) == "resolved".spec_bytes() + space + hex
            &&& field_text(Field::ContinuationSource(id)) == "continuation-source".spec_bytes() + space
                + hex
            &&& field_text(Field::MarkerRequired(value)) == "marker-required".spec_bytes() + space
                + truth
            &&& field_text(Field::CheckoutAllowed(value)) == "checkout-allowed".spec_bytes() + space
                + truth
            &&& field_text(Field::EditRefs(value)) == "edit-refs".spec_bytes() + space + truth
            &&& field_text(Field::HeadRef(name)) == "head-ref".spec_bytes() + space
                + crate::names::quoted(name)
        }),
{
}

} // verus!
