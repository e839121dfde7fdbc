//! The todo that continues a rebase after one of its conflicts was materialized.
use vstd::prelude::*;
use vstd::string::StringSliceAdditionalSpecFns;
use vstd::utf8::valid_utf8;
use crate::bytes;
use crate::bytes::{lines, LF};
use crate::history::CommitNode;
use crate::ids::{hex_of, reverse_hex_of, ObjectId};
use crate::names::FullName;
use crate::plan::{copy_ids, viewed};
use crate::plan::{ExpectedRef, Plan, PlanCommit, PlanParent, PlanView, StepView};
use crate::text;
use crate::text::lossy;
use crate::todo::parse::{copy_refs, parsed, LookupsView, ParsedView};
use crate::todo::quiet::stays_in_comment;
use crate::todo::record::{as_captured, starts_behind, write_state, written};
use crate::todo::resumed::{resumable, resumed_plan, unedited_continuations_are_resumed};
use crate::todo::state::{valid, TodoState, TodoStateView};
use crate::todo::write::{bottom_up, command_line, find_label, heading, label_from};
use crate::todo::write::{names_placed_at, ref_line_text, widest, write_bottom_up, write_command};
use crate::todo::write::{write_fork_heading, write_plan_refs_at};
use crate::todo::write::{Label, Prepared, CONTINUATION, HELP};
use crate::todo::TodoError;

verus! {

/// The commit that a step is about, if it is about one.
pub open spec fn commit_of(commit: PlanCommit<Seq<u8>>) -> Option<ObjectId> {
    match commit {
        PlanCommit::Pick(id) => Some(id),
        PlanCommit::Copy(id) => Some(id),
        PlanCommit::Resolved(id) => Some(id),
        PlanCommit::Empty(_) => None,
    }
}

/// Whether a step continues the one before it.
pub open spec fn continues(steps: Seq<StepView>, index: int) -> bool {
    steps[index].parent matches PlanParent::Step(parent) && parent + 1 == index
}

/// The commit that a fork is shown at.
pub open spec fn fork_point(steps: Seq<StepView>, index: int) -> Option<ObjectId> {
    match steps[index].parent {
        PlanParent::Existing(id) => Some(id),
        PlanParent::Step(parent) => commit_of(steps[parent as int].commit),
    }
}

/// How a fork starts: with a heading, and the references at a commit that exists.
pub open spec fn fork_text(
    plan: PlanView<ExpectedRef<Seq<u8>>>,
    labels: Seq<Label<Seq<u8>>>,
    index: int,
    point: ObjectId,
) -> Seq<u8> {
    let refs = plan.expected_refs;
    (if index > 0 {
        seq![LF]
    } else {
        Seq::empty()
    }) + heading(
        label_from(labels, point, 0).short,
        if point == plan.base {
            Some(("base".spec_bytes(), label_from(labels, point, 0).info))
        } else {
            None
        },
    ) + (if plan.steps[index].parent is Existing {
        ref_line_text(names_placed_at(refs, plan.steps[index].parent, refs.len() as int), refs)
    } else {
        Seq::empty()
    })
}

/// The id that a step is shown by: the null id for the resolved conflict, with the change id
/// where change ids are shown.
pub open spec fn shown_id(commit: PlanCommit<Seq<u8>>, label: Label<Seq<u8>>) -> Seq<u8> {
    if commit is Resolved {
        hex_of(ObjectId { high: 0, low: 0 }) + (match label.change_id {
            Some(change_id) => seq![32u8] + reverse_hex_of(change_id),
            None => Seq::empty(),
        })
    } else {
        label.short
    }
}

/// A verb, marked or not.
pub open spec fn verb_text(marked: bool, verb: Seq<u8>) -> Seq<u8> {
    if marked {
        "@".spec_bytes() + verb
    } else {
        verb
    }
}

/// The line of what a step produces.
pub open spec fn produced_text(
    commit: PlanCommit<Seq<u8>>,
    labels: Seq<Label<Seq<u8>>>,
    marked: bool,
) -> Seq<u8> {
    match commit {
        PlanCommit::Empty(title) => "`".spec_bytes() + verb_text(marked, "empty".spec_bytes())
            + seq![32u8] + lossy(title) + "`\n".spec_bytes(),
        PlanCommit::Pick(id) | PlanCommit::Copy(id) | PlanCommit::Resolved(id) => {
            let label = label_from(labels, id, 0);
            command_line(
                verb_text(marked, "pick".spec_bytes()),
                shown_id(commit, label),
                label.states + label.info,
            )
        },
    }
}

/// The lines of the first `end` commits that are folded into a step.
pub open spec fn squash_text(
    squash: Seq<ObjectId>,
    labels: Seq<Label<Seq<u8>>>,
    end: int,
) -> Seq<u8>
    decreases end,
{
    if end <= 0 || end > squash.len() {
        Seq::empty()
    } else {
        let label = label_from(labels, squash[end - 1], 0);
        squash_text(squash, labels, end - 1) + command_line(
            "squash".spec_bytes(),
            label.short,
            label.states + label.info,
        )
    }
}

/// The lines of a step, from its base up.
pub open spec fn step_text(
    plan: PlanView<ExpectedRef<Seq<u8>>>,
    labels: Seq<Label<Seq<u8>>>,
    index: int,
) -> Seq<u8> {
    let step = plan.steps[index];
    let refs = plan.expected_refs;
    let marked = plan.checkout matches Some(checkout) && checkout.target == PlanParent::Step(
        index as usize,
    );
    (if continues(plan.steps, index) {
        Seq::empty()
    } else {
        fork_text(plan, labels, index, fork_point(plan.steps, index)->0)
    }) + produced_text(step.commit, labels, marked) + squash_text(
        step.squash,
        labels,
        step.squash.len() as int,
    ) + ref_line_text(
        names_placed_at(refs, PlanParent::Step(index as usize), refs.len() as int),
        refs,
    )
}

/// The lines of the first `end` steps.
pub open spec fn steps_text(
    plan: PlanView<ExpectedRef<Seq<u8>>>,
    labels: Seq<Label<Seq<u8>>>,
    end: int,
) -> Seq<u8>
    decreases end,
{
    if end <= 0 || end > plan.steps.len() {
        Seq::empty()
    } else {
        steps_text(plan, labels, end - 1) + step_text(plan, labels, end - 1)
    }
}

/// The todo that continues a plan, without its state.
pub open spec fn continuation_text(
    plan: PlanView<ExpectedRef<Seq<u8>>>,
    labels: Seq<Label<Seq<u8>>>,
) -> Seq<u8> {
    let body = lines(steps_text(plan, labels, plan.steps.len() as int));
    CONTINUATION.spec_bytes() + bottom_up(
        body,
        body.len() as int,
        widest(body, body.len() as int),
    ) + HELP.spec_bytes()
}

/// Whether one of the first `end` steps forks from an empty commit, which has no id yet.
pub open spec fn forks_at_empty(steps: Seq<StepView>, end: int) -> bool {
    exists|i: int|
        0 <= i < end && i < steps.len() && !(#[trigger] continues(steps, i)) && fork_point(
            steps,
            i,
        ) is None
}

/// The first resolved conflict of the steps from `from` on.
pub open spec fn resolved_of(steps: Seq<StepView>, from: int) -> Option<ObjectId>
    decreases steps.len() - from,
{
    if from < 0 || from >= steps.len() {
        None
    } else {
        match steps[from].commit {
            PlanCommit::Resolved(id) => Some(id),
            _ => resolved_of(steps, from + 1),
        }
    }
}

/// The commits that are folded into the first `end` steps.
pub open spec fn sources_of(steps: Seq<StepView>, end: int) -> Seq<ObjectId>
    decreases end,
{
    if end <= 0 || end > steps.len() {
        Seq::empty()
    } else {
        sources_of(steps, end - 1) + steps[end - 1].squash
    }
}

/// The state of the todo that continues a plan.
pub open spec fn continuation_state(
    plan: PlanView<ExpectedRef<Seq<u8>>>,
    tips: Seq<ObjectId>,
    has_worktree: bool,
) -> TodoStateView {
    TodoStateView {
        base: plan.base,
        onto: plan.base,
        tips,
        scope: plan.scope,
        marker_required: plan.checkout is Some,
        checkout_allowed: has_worktree,
        head_ref: match plan.checkout {
            Some(checkout) => checkout.reference,
            None => None,
        },
        edit_refs: true,
        expected_refs: plan.expected_refs,
        resolved: resolved_of(plan.steps, 0),
        continuation_sources: sources_of(plan.steps, plan.steps.len() as int),
    }
}

fn step_commit(commit: &PlanCommit<Vec<u8>>) -> (r: Option<ObjectId>)
    ensures
        r == commit_of(commit@),
{
    match commit {
        PlanCommit::Pick(id) => Some(*id),
        PlanCommit::Copy(id) => Some(*id),
        PlanCommit::Resolved(id) => Some(*id),
        PlanCommit::Empty(_) => None,
    }
}

fn write_verb(marked: bool, verb: &[u8]) -> (r: Vec<u8>)
    ensures
        r@ == verb_text(marked, verb@),
{
    if marked {
        bytes::joined("@".as_bytes(), verb)
    } else {
        bytes::copied(verb)
    }
}

fn write_produced(
    out: &mut Vec<u8>,
    commit: &PlanCommit<Vec<u8>>,
    labels: &Vec<Label<Vec<u8>>>,
    marked: bool,
)
    ensures
        final(out)@ == old(out)@ + produced_text(commit@, viewed(labels@), marked),
{
    match commit {
        PlanCommit::Empty(title) => {
            let verb = write_verb(marked, "empty".as_bytes());
            let shown = text::to_str_lossy(title.as_slice());
            bytes::append(out, "`".as_bytes());
            bytes::append(out, verb.as_slice());
            out.push(32);
            bytes::append(out, shown.as_slice());
            bytes::append(out, "`\n".as_bytes());
            assert(out@ == old(out)@ + produced_text(commit@, viewed(labels@), marked));
        },
        PlanCommit::Pick(id) | PlanCommit::Copy(id) | PlanCommit::Resolved(id) => {
            let label = find_label(labels, *id);
            let verb = write_verb(marked, "pick".as_bytes());
            let resolved = match commit {
                PlanCommit::Resolved(_) => true,
                _ => false,
            };
            let value = if resolved {
                let mut value = ObjectId::null().to_hex();
                if let Some(change_id) = label.change_id {
                    value.push(32);
                    let shown = change_id.to_reverse_hex();
                    bytes::append(&mut value, shown.as_slice());
                }
                value
            } else {
                bytes::copied(label.short.as_slice())
            };
            assert(value@ == shown_id(commit@, label@));
            write_command(
                out,
                verb.as_slice(),
                value.as_slice(),
                label.states.as_slice(),
                label.info.as_slice(),
            );
        },
    }
}

fn write_squash(out: &mut Vec<u8>, squash: &Vec<ObjectId>, labels: &Vec<Label<Vec<u8>>>)
    ensures
        final(out)@ == old(out)@ + squash_text(squash@, viewed(labels@), squash@.len() as int),
{
    let mut i: usize = 0;
    assert(out@ == old(out)@ + squash_text(squash@, viewed(labels@), 0));
    while i < squash.len()
        invariant
            i <= squash@.len(),
            out@ == old(out)@ + squash_text(squash@, viewed(labels@), i as int),
        decreases squash.len() - i,
    {
        let label = find_label(labels, squash[i]);
        write_command(
            out,
            "squash".as_bytes(),
            label.short.as_slice(),
            label.states.as_slice(),
            label.info.as_slice(),
        );
        i = i + 1;
        assert(out@ == old(out)@ + squash_text(squash@, viewed(labels@), i as int));
    }
}

fn write_fork(
    out: &mut Vec<u8>,
    plan: &Plan<ExpectedRef<FullName>>,
    labels: &Vec<Label<Vec<u8>>>,
    index: usize,
    point: ObjectId,
)
    requires
        index < plan.steps@.len(),
    ensures
        final(out)@ == old(out)@ + fork_text(plan@, viewed(labels@), index as int, point),
{
    let parent = plan.steps[index].parent;
    assert(plan@.steps[index as int].parent == parent);
    if index > 0 {
        out.push(LF);
    }
    let label = find_label(labels, point);
    let note = if point == plan.base {
        Some(("base".as_bytes(), label.info.as_slice()))
    } else {
        None
    };
    write_fork_heading(out, labels, point, note);
    match parent {
        PlanParent::Existing(_) => write_plan_refs_at(out, &plan.expected_refs, parent),
        PlanParent::Step(_) => {},
    }
    assert(out@ == old(out)@ + fork_text(plan@, viewed(labels@), index as int, point));
}

fn write_step(
    out: &mut Vec<u8>,
    plan: &Plan<ExpectedRef<FullName>>,
    labels: &Vec<Label<Vec<u8>>>,
    index: usize,
) -> (r: Result<(), TodoError>)
    requires
        index < plan.steps@.len(),
        forall|i: int|
            0 <= i < plan.steps@.len() ==> ((#[trigger] plan@.steps[i]).parent matches PlanParent::Step(
                parent,
            ) ==> parent < plan.steps@.len()),
    ensures
        r is Err == (!continues(plan@.steps, index as int) && fork_point(
            plan@.steps,
            index as int,
        ) is None),
        r matches Err(err) ==> err == TodoError::ForkAtEmptyCommit,
        r is Ok ==> final(out)@ == old(out)@ + step_text(plan@, viewed(labels@), index as int),
{
    let step = &plan.steps[index];
    assert(plan@.steps[index as int] == step@);
    let continued = match step.parent {
        PlanParent::Step(parent) => parent < index && parent + 1 == index,
        PlanParent::Existing(_) => false,
    };
    assert(continued == continues(plan@.steps, index as int));
    if !continued {
        let point = match step.parent {
            PlanParent::Existing(id) => id,
            PlanParent::Step(parent) => {
                assert(plan@.steps[parent as int] == plan.steps@[parent as int]@);
                match step_commit(&plan.steps[parent].commit) {
                    Some(id) => id,
                    None => return Err(TodoError::ForkAtEmptyCommit),
                }
            },
        };
        write_fork(out, plan, labels, index, point);
    }
    let marked = match &plan.checkout {
        Some(checkout) => checkout.target == PlanParent::Step(index),
        None => false,
    };
    write_produced(out, &step.commit, labels, marked);
    write_squash(out, &step.squash, labels);
    write_plan_refs_at(out, &plan.expected_refs, PlanParent::Step(index));
    assert(out@ == old(out)@ + step_text(plan@, viewed(labels@), index as int));
    Ok(())
}

fn find_resolved(plan: &Plan<ExpectedRef<FullName>>) -> (r: Option<ObjectId>)
    ensures
        r == resolved_of(plan@.steps, 0),
{
    let mut i: usize = 0;
    while i < plan.steps.len()
        invariant
            i <= plan.steps@.len(),
            resolved_of(plan@.steps, 0) == resolved_of(plan@.steps, i as int),
        decreases plan.steps.len() - i,
    {
        assert(plan@.steps[i as int] == plan.steps@[i as int]@);
        if let PlanCommit::Resolved(id) = plan.steps[i].commit {
            return Some(id);
        }
        i = i + 1;
    }
    None
}

fn collect_sources(plan: &Plan<ExpectedRef<FullName>>) -> (r: Vec<ObjectId>)
    ensures
        r@ == sources_of(plan@.steps, plan@.steps.len() as int),
{
    let mut out: Vec<ObjectId> = Vec::new();
    let mut i: usize = 0;
    while i < plan.steps.len()
        invariant
            i <= plan.steps@.len(),
            out@ == sources_of(plan@.steps, i as int),
        decreases plan.steps.len() - i,
    {
        assert(plan@.steps[i as int] == plan.steps@[i as int]@);
        let mut squash = copy_ids(plan.steps[i].squash.as_slice());
        out.append(&mut squash);
        i = i + 1;
    }
    out
}

/// Prepares the todo that continues a plan. Saving it unchanged applies it: as far as the plan can be read
/// from a todo, that is the plan that is read.
pub fn prepare_continuation(
    plan: &Plan<ExpectedRef<FullName>>,
    tips: &Vec<ObjectId>,
    has_worktree: bool,
    labels: &Vec<Label<Vec<u8>>>,
) -> (r: Result<Prepared, TodoError>)
    requires
        forall|i: int|
            0 <= i < plan.steps@.len() ==> ((#[trigger] plan@.steps[i]).parent matches PlanParent::Step(
                parent,
            ) ==> parent < plan.steps@.len()),
    ensures
        ({
            let body = steps_text(plan@, viewed(labels@), plan@.steps.len() as int);
            let forks = forks_at_empty(plan@.steps, plan@.steps.len() as int);
            &&& r is Ok == (!forks && valid_utf8(body))
            &&& forks ==> r == Err::<Prepared, _>(TodoError::ForkAtEmptyCommit)
            &&& !forks && !valid_utf8(body) ==> r == Err::<Prepared, _>(TodoError::NotUtf8)
            &&& r matches Ok(prepared) ==> prepared.apply_unchanged && prepared.document@
                == continuation_text(plan@, viewed(labels@)) + written(
                continuation_state(plan@, tips@, has_worktree),
            )
        }),
        r matches Ok(prepared) ==> forall|
            commits: Seq<CommitNode<Seq<ObjectId>>>,
            lookups: LookupsView,
        |
            ({
                let state = continuation_state(plan@, tips@, has_worktree);
                &&& resumable(plan@, viewed(labels@), has_worktree, lookups)
                &&& starts_behind(continuation_text(plan@, viewed(labels@)))
                &&& stays_in_comment(state)
                &&& valid(as_captured(state), commits) is Ok
            }) ==> #[trigger] parsed(prepared.document@, commits, Some(lookups)) == Ok::<
                _,
                TodoError,
            >(Some(ParsedView { plan: resumed_plan(plan@), tips: tips@ })),
{
    let mut body: Vec<u8> = Vec::new();
    let mut i: usize = 0;
    assert(plan@.steps.len() == plan.steps@.len());
    while i < plan.steps.len()
        invariant
            plan@.steps.len() == plan.steps@.len(),
            i <= plan.steps@.len(),
            body@ == steps_text(plan@, viewed(labels@), i as int),
            !forks_at_empty(plan@.steps, i as int),
            forall|i: int|
                0 <= i < plan.steps@.len() ==> ((#[trigger] plan@.steps[i]).parent matches PlanParent::Step(
                    parent,
                ) ==> parent < plan.steps@.len()),
        decreases plan.steps.len() - i,
    {
        match write_step(&mut body, plan, labels, i) {
            Ok(_) => {},
            Err(err) => {
                assert(!continues(plan@.steps, i as int));
                assert(forks_at_empty(plan@.steps, plan@.steps.len() as int));
                return Err(err);
            },
        }
        i = i + 1;
    }
    let mut document = bytes::copied(CONTINUATION.as_bytes());
    match write_bottom_up(&mut document, body.as_slice()) {
        Ok(_) => {},
        Err(err) => return Err(err),
    }
    bytes::append(&mut document, HELP.as_bytes());
    let head_ref = match &plan.checkout {
        Some(checkout) => match &checkout.reference {
            Some(name) => Some(name.clone()),
            None => None,
        },
        None => None,
    };
    let state = TodoState {
        base: plan.base,
        onto: plan.base,
        tips: copy_ids(tips.as_slice()),
        scope: copy_ids(plan.scope.as_slice()),
        marker_required: plan.checkout.is_some(),
        checkout_allowed: has_worktree,
        head_ref,
        edit_refs: true,
        expected_refs: copy_refs(&plan.expected_refs),
        resolved: find_resolved(plan),
        continuation_sources: collect_sources(plan),
    };
    assert(state@ == continuation_state(plan@, tips@, has_worktree));
    write_state(&mut document, &state);
    proof {
        let state = continuation_state(plan@, tips@, has_worktree);
        assert forall|commits: Seq<CommitNode<Seq<ObjectId>>>, lookups: LookupsView|
            resumable(plan@, viewed(labels@), has_worktree, lookups) && starts_behind(
                continuation_text(plan@, viewed(labels@)),
            ) && stays_in_comment(state) && valid(
                as_captured(state),
                commits,
            ) is Ok implies #[trigger] parsed(document@, commits, Some(lookups)) == Ok::<
            _,
            TodoError,
        >(Some(ParsedView { plan: resumed_plan(plan@), tips: tips@ })) by {
            unedited_continuations_are_resumed(
                plan@,
                tips@,
                has_worktree,
                viewed(labels@),
                commits,
                lookups,
            );
        }
    }
    Ok(Prepared { document, apply_unchanged: true })
}

} // verus!
