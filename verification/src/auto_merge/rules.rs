//! What holds of automatic merges: what can be followed, what changes of their inputs do, and how they are
//! rebuilt.
use vstd::prelude::*;
use vstd::string::StringSliceAdditionalSpecFns;
use crate::auto_merge::choices::{
    additions_of, choices_of, follows_from, inserted_choice, inserted_selection, removable_from,
    removal_label, removals_from, removals_of, shows, sorted_selections, source_choice, sources_from,
    sources_of, tracks_from, Candidate, Change, Choice, ChoiceView, Decoration, DecorationKind,
    Selected, Selection, SelectionView,
};
use crate::auto_merge::definition::{
    allowed, automatic, definition_of, follows, input_of, input_slot, inputs_from, label_of, title_of,
    value_of, Header, Input, InputSource, HEADER,
};
use crate::auto_merge::expand::{
    beyond, expanded, inputs_moved_from, joined_ids, joined_refs, moved_from, named_from, names,
    steps_with, ExpandedView, Head,
};
use crate::auto_merge::order::{
    child_from, gathered, gathered_from, generated_from, inputs_add, landing_from, moved, permutes,
    place_in, reordered, settled, step_inputs, tip_from, Gathered, Setting,
};
use crate::auto_merge::perform::{
    added_input, changed, current_inputs, site_error, with_input, without_input, Outcome, Site,
};
use crate::auto_merge::prepare::{
    containing, prepared, tracked_from, GraphView, MergeBase, MergeView,
};
use crate::auto_merge::rebuild::{
    live_from, message_with, parents_of, rebuilt_of, rebuilt_to, MergingView, Rebuilt,
    TreeSource,
};
use crate::auto_merge::resolve::{
    change_start, commit_of, mapping, placement_of, resolved_input, resolved_reference, rewrite_from,
    versions_from, Ambiguity, CommitView, Placement, PlannedView, ReferencesView, Rewrite, SnapshotView,
};
use crate::auto_merge::MergeError;
use crate::bytes::{find_byte_from, has_prefix, LF};
use crate::ids::{ChangeId, ObjectId};
use crate::names::{
    category_of, short_name, Category, HEAD_PIN_NAME, PIN_PREFIX, REVIEW_PIN_PREFIX,
};
use crate::plan::{position, PlanCommit, PlanParent, PlanRef, PlanView, RefDestination, StepView};
use crate::refs::{state_of, Reference, State};

verus! {

/// A commit is an automatic merge if and only if its headers list inputs; what can be read of them is never
/// empty.
pub proof fn merges_list_inputs(headers: Seq<Header<Seq<u8>>>)
    ensures
        definition_of(headers) == Ok::<_, MergeError>(None::<Seq<Input<Seq<u8>>>>) <==> !automatic(
            headers,
        ),
        definition_of(headers) matches Ok(Some(inputs)) ==> inputs.len() > 0,
{
    inputs_are_listed(headers, 0, Seq::empty());
}

proof fn inputs_are_listed(headers: Seq<Header<Seq<u8>>>, at: int, done: Seq<Input<Seq<u8>>>)
    requires
        0 <= at <= headers.len(),
    ensures
        inputs_from(headers, at, done) matches Ok(inputs) ==> inputs.len() >= done.len() && (
        inputs.len() == done.len() <==> forall|i: int|
            at <= i < headers.len() ==> (#[trigger] headers[i]).name != HEADER.spec_bytes()),
        (forall|i: int| at <= i < headers.len() ==> (#[trigger] headers[i]).name
            != HEADER.spec_bytes()) ==> inputs_from(headers, at, done) == Ok::<_, MergeError>(done),
    decreases headers.len() - at,
{
    if at < headers.len() {
        if headers[at].name != HEADER.spec_bytes() {
            inputs_are_listed(headers, at + 1, done);
        } else if let Ok(input) = input_of(headers[at].value) {
            if !follows(done, input.source) {
                inputs_are_listed(headers, at + 1, done.push(input));
            }
        }
    }
}

/// What an automatic merge can follow: branches, remote-tracking branches, tags and pins, but neither the pin
/// of HEAD nor those of reviews.
pub proof fn followable_references(name: Seq<u8>)
    ensures
        has_prefix(name, "refs/heads/".spec_bytes()) ==> allowed(name),
        has_prefix(name, "refs/remotes/".spec_bytes()) ==> allowed(name),
        has_prefix(name, "refs/tags/".spec_bytes()) ==> allowed(name),
        allowed(name) && !has_prefix(name, PIN_PREFIX.spec_bytes()) ==> has_prefix(
            name,
            "refs/heads/".spec_bytes(),
        ) || has_prefix(name, "refs/remotes/".spec_bytes()) || has_prefix(
            name,
            "refs/tags/".spec_bytes(),
        ),
        has_prefix(name, PIN_PREFIX.spec_bytes()) && name != HEAD_PIN_NAME.spec_bytes()
            && !has_prefix(name, REVIEW_PIN_PREFIX.spec_bytes()) ==> allowed(name),
{
}

proof fn choice_is_inserted(sorted: Seq<ChoiceView>, choice: ChoiceView, other: ChoiceView)
    ensures
        inserted_choice(sorted, choice).contains(other) <==> sorted.contains(other) || other
            == choice,
        inserted_choice(sorted, choice).len() == sorted.len() + 1,
    decreases sorted.len(),
{
    let all = inserted_choice(sorted, choice);
    if sorted.len() == 0 {
        assert(all[0] == choice);
    } else if crate::auto_merge::choices::precedes(choice.reference, sorted[0].reference) {
        assert(all[0] == choice);
        if sorted.contains(other) {
            let i = sorted.index_of(other);
            assert(all[i + 1] == other);
        }
        if all.contains(other) {
            let i = all.index_of(other);
            if i > 0 {
                assert(sorted[i - 1] == other);
            }
        }
    } else {
        let rest = sorted.skip(1);
        choice_is_inserted(rest, choice, other);
        let tail = inserted_choice(rest, choice);
        assert(all[0] == sorted[0]);
        if all.contains(other) {
            let i = all.index_of(other);
            if i > 0 {
                assert(tail[i - 1] == other);
                if rest.contains(other) {
                    let k = rest.index_of(other);
                    assert(sorted[k + 1] == other);
                }
            }
        }
        if sorted.contains(other) {
            let i = sorted.index_of(other);
            if i > 0 {
                assert(rest[i - 1] == other);
            }
        }
        if tail.contains(other) {
            let k = tail.index_of(other);
            assert(all[k + 1] == other);
        }
    }
}

/// What can be chosen are exactly the references that a merge can follow and that lead to a commit, each at
/// that commit.
pub proof fn choices_are_what_can_be_followed(
    candidates: Seq<Candidate<Seq<u8>>>,
    name: Seq<u8>,
    commit_id: ObjectId,
)
    ensures
        (exists|i: int|
            0 <= i < choices_of(candidates).len() && (#[trigger] choices_of(
                candidates,
            )[i]).reference == name && choices_of(candidates)[i].commit_id == commit_id)
            <==> allowed(name) && exists|i: int|
            0 <= i < candidates.len() && (#[trigger] candidates[i]).name == name
                && candidates[i].commit_id == Some(commit_id),
    decreases candidates.len(),
{
    let all = choices_of(candidates);
    let label = crate::auto_merge::choices::choice_label(name, commit_id);
    let wanted = Choice { reference: name, commit_id, label };
    choices_are_labelled(candidates);
    assert((exists|i: int|
        0 <= i < all.len() && (#[trigger] all[i]).reference == name && all[i].commit_id
            == commit_id) <==> all.contains(wanted)) by {
        if exists|i: int|
            0 <= i < all.len() && (#[trigger] all[i]).reference == name && all[i].commit_id
                == commit_id {
            let i = choose|i: int|
                0 <= i < all.len() && (#[trigger] all[i]).reference == name && all[i].commit_id
                    == commit_id;
            assert(all[i] == wanted);
        }
        if all.contains(wanted) {
            let i = all.index_of(wanted);
            assert(all[i].reference == name);
        }
    }
    if candidates.len() > 0 {
        let rest = candidates.drop_last();
        let last = candidates.last();
        choices_are_what_can_be_followed(rest, name, commit_id);
        choices_are_labelled(rest);
        let before = choices_of(rest);
        assert(forall|i: int| 0 <= i < rest.len() ==> rest[i] == #[trigger] candidates[i]);
        assert(candidates[candidates.len() - 1] == last);
        if before.contains(wanted) {
            let i = before.index_of(wanted);
            assert(before[i].reference == name);
            let k = choose|k: int|
                0 <= k < rest.len() && (#[trigger] rest[k]).name == name && rest[k].commit_id
                    == Some(commit_id);
            assert(candidates[k].name == name);
        }
        if let Some(id) = last.commit_id {
            if allowed(last.name) {
                let choice = Choice {
                    reference: last.name,
                    commit_id: id,
                    label: crate::auto_merge::choices::choice_label(last.name, id),
                };
                choice_is_inserted(before, choice, wanted);
            }
        }
        if allowed(name) && exists|i: int|
            0 <= i < candidates.len() && (#[trigger] candidates[i]).name == name
                && candidates[i].commit_id == Some(commit_id) {
            let k = choose|k: int|
                0 <= k < candidates.len() && (#[trigger] candidates[k]).name == name
                    && candidates[k].commit_id == Some(commit_id);
            if k < rest.len() {
                assert(rest[k].name == name);
                let i = choose|i: int|
                    0 <= i < before.len() && (#[trigger] before[i]).reference == name
                        && before[i].commit_id == commit_id;
                assert(before[i] == wanted);
                assert(before.contains(wanted));
            }
        }
    }
}

proof fn choices_are_labelled(candidates: Seq<Candidate<Seq<u8>>>)
    ensures
        forall|i: int|
            0 <= i < choices_of(candidates).len() ==> (#[trigger] choices_of(candidates)[i]).label
                == crate::auto_merge::choices::choice_label(
                choices_of(candidates)[i].reference,
                choices_of(candidates)[i].commit_id,
            ),
    decreases candidates.len(),
{
    if candidates.len() > 0 {
        let rest = candidates.drop_last();
        choices_are_labelled(rest);
        let before = choices_of(rest);
        let all = choices_of(candidates);
        let last = candidates.last();
        if let Some(id) = last.commit_id {
            if allowed(last.name) {
                let choice = Choice {
                    reference: last.name,
                    commit_id: id,
                    label: crate::auto_merge::choices::choice_label(last.name, id),
                };
                assert forall|i: int| 0 <= i < all.len() implies (#[trigger] all[i]).label
                    == crate::auto_merge::choices::choice_label(
                    all[i].reference,
                    all[i].commit_id,
                ) by {
                    choice_is_inserted(before, choice, all[i]);
                    assert(all.contains(all[i]));
                    if before.contains(all[i]) {
                        let k = before.index_of(all[i]);
                        assert(before[k] == all[i]);
                    }
                }
            }
        }
    }
}

/// The order of choices: local branches, then pins, then remote-tracking branches, then tags.
pub open spec fn group_of(name: Seq<u8>) -> nat {
    if category_of(name) == Category::LocalBranch {
        0
    } else if category_of(name) == Category::RemoteBranch {
        2
    } else if category_of(name) == Category::Tag {
        3
    } else {
        1
    }
}

/// Whether choices are in order: by what they are of, and by name among their like.
pub open spec fn in_order(choices: Seq<ChoiceView>) -> bool {
    forall|i: int, j: int|
        #![trigger choices[i], choices[j]]
        0 <= i < j < choices.len() ==> group_of(choices[i].reference) < group_of(
            choices[j].reference,
        ) || (group_of(choices[i].reference) == group_of(choices[j].reference)
            && !crate::bytes::before(choices[j].reference, choices[i].reference))
}

proof fn insertion_keeps_order(sorted: Seq<ChoiceView>, choice: ChoiceView)
    requires
        in_order(sorted),
    ensures
        in_order(inserted_choice(sorted, choice)),
    decreases sorted.len(),
{
    let all = inserted_choice(sorted, choice);
    if sorted.len() == 0 {
    } else if crate::auto_merge::choices::precedes(choice.reference, sorted[0].reference) {
        assert forall|i: int, j: int|
            #![trigger all[i], all[j]]
            0 <= i < j < all.len() implies group_of(all[i].reference) < group_of(all[j].reference)
            || (group_of(all[i].reference) == group_of(all[j].reference)
            && !crate::bytes::before(all[j].reference, all[i].reference)) by {
            if i > 0 {
                assert(all[i] == sorted[i - 1]);
                assert(all[j] == sorted[j - 1]);
            } else {
                assert(all[j] == sorted[j - 1]);
                let (a, b, c) = (choice.reference, sorted[0].reference, sorted[j - 1].reference);
                if j > 1 {
                    assert(sorted[0] == sorted[0]);
                }
                if group_of(a) == group_of(c) && crate::bytes::before(c, a) {
                    crate::bytes::before_transitive(c, a, b);
                    crate::bytes::before_irreflexive(b);
                }
            }
        }
    } else {
        let rest = sorted.skip(1);
        assert forall|i: int, j: int|
            #![trigger rest[i], rest[j]]
            0 <= i < j < rest.len() implies group_of(rest[i].reference) < group_of(
            rest[j].reference,
        ) || (group_of(rest[i].reference) == group_of(rest[j].reference)
            && !crate::bytes::before(rest[j].reference, rest[i].reference)) by {
            assert(rest[i] == sorted[i + 1]);
            assert(rest[j] == sorted[j + 1]);
        }
        insertion_keeps_order(rest, choice);
        let tail = inserted_choice(rest, choice);
        assert forall|i: int, j: int|
            #![trigger all[i], all[j]]
            0 <= i < j < all.len() implies group_of(all[i].reference) < group_of(all[j].reference)
            || (group_of(all[i].reference) == group_of(all[j].reference)
            && !crate::bytes::before(all[j].reference, all[i].reference)) by {
            assert(all[j] == tail[j - 1]);
            if i > 0 {
                assert(all[i] == tail[i - 1]);
            } else {
                choice_is_inserted(rest, choice, tail[j - 1]);
                assert(tail.contains(tail[j - 1]));
                if rest.contains(tail[j - 1]) {
                    let k = rest.index_of(tail[j - 1]);
                    assert(sorted[k + 1] == rest[k]);
                    assert(sorted[0] == all[0]);
                }
            }
        }
    }
}

/// Choices are in order: local branches first, then pins, remote-tracking branches and tags, and each of those
/// by name.
pub proof fn choices_are_in_order(candidates: Seq<Candidate<Seq<u8>>>)
    ensures
        in_order(choices_of(candidates)),
    decreases candidates.len(),
{
    if candidates.len() > 0 {
        choices_are_in_order(candidates.drop_last());
        let last = candidates.last();
        if let Some(id) = last.commit_id {
            if allowed(last.name) {
                insertion_keeps_order(
                    choices_of(candidates.drop_last()),
                    Choice {
                        reference: last.name,
                        commit_id: id,
                        label: crate::auto_merge::choices::choice_label(last.name, id),
                    },
                );
            }
        }
    }
}

/// What stands for a commit are the local branches and the pins at it; a pin on a local branch stands for that
/// branch. Remote-tracking branches and tags stand for nothing.
pub proof fn branches_and_pins_are_sources(
    references: Seq<Reference<Seq<u8>>>,
    choice: ChoiceView,
)
    ensures
        source_choice(references, choice) matches Ok(Some(found)) ==> {
            &&& found.commit_id == choice.commit_id
            &&& found.reference != choice.reference ==> has_prefix(
                choice.reference,
                PIN_PREFIX.spec_bytes(),
            ) && category_of(found.reference) == Category::LocalBranch && state_of(
                references,
                choice.reference,
            ) == State::Symbolic(found.reference)
            &&& found.reference == choice.reference ==> has_prefix(
                choice.reference,
                PIN_PREFIX.spec_bytes(),
            ) || category_of(choice.reference) == Category::LocalBranch
        },
        !has_prefix(choice.reference, PIN_PREFIX.spec_bytes()) ==> (source_choice(
            references,
            choice,
        ) == Ok::<_, MergeError>(Some(choice)) <==> category_of(choice.reference)
            == Category::LocalBranch),
        has_prefix(choice.reference, PIN_PREFIX.spec_bytes()) ==> (source_choice(references, choice)
            is Err <==> state_of(references, choice.reference) is Missing),
        has_prefix(choice.reference, PIN_PREFIX.spec_bytes()) && (state_of(
            references,
            choice.reference,
        ) matches State::Symbolic(name) && category_of(name) == Category::LocalBranch) ==> (
        source_choice(references, choice) matches Ok(Some(found)) && State::Symbolic(
            found.reference,
        ) == state_of(references, choice.reference)),
{
}

/// What can be added to HEAD: any reference if HEAD itself is selected. Another commit can be added unless HEAD
/// contains it already, or it contains the merge at HEAD, which would then follow itself. It is added by what
/// stands for it, or by its change if nothing does.
pub proof fn other_commits_can_be_added(
    references: Seq<Reference<Seq<u8>>>,
    candidates: Seq<Candidate<Seq<u8>>>,
    bases: Seq<MergeBase>,
    selected: Selected,
)
    ensures
        ({
            let found = additions_of(references, candidates, bases, selected);
            let head = selected.head_commit_id;
            let contained = containing(bases, selected.commit_id, head);
            let contains = containing(bases, head, selected.commit_id);
            &&& selected.commit_id == head ==> (found matches Ok(list) && list.len() == choices_of(
                candidates,
            ).len() && forall|i: int|
                0 <= i < list.len() ==> (#[trigger] list[i]).change == Change::Add(
                    choices_of(candidates)[i].reference,
                ) && list[i].merge_commit_id == head && list[i].label == choices_of(
                    candidates,
                )[i].label)
            &&& selected.commit_id != head ==> {
                &&& found is Ok ==> contained == Ok::<_, MergeError>(false) && (
                selected.head_is_merge ==> contains == Ok::<_, MergeError>(false)) && sources_of(
                    references,
                    candidates,
                    selected.commit_id,
                ) is Ok
                &&& contained == Ok::<_, MergeError>(true) ==> found == Err::<
                    Seq<SelectionView>,
                    _,
                >(MergeError::AlreadyAncestor)
                &&& contained == Ok::<_, MergeError>(false) && selected.head_is_merge && contains
                    == Ok::<_, MergeError>(true) ==> found == Err::<Seq<SelectionView>, _>(
                    MergeError::TracksItself,
                )
                &&& found matches Ok(list) ==> {
                    let sources = sources_of(references, candidates, selected.commit_id)->Ok_0;
                    &&& list.len() > 0
                    &&& forall|i: int|
                        0 <= i < list.len() ==> (#[trigger] list[i]).merge_commit_id == head
                    &&& sources.len() == 0 ==> list.len() == 1 && list[0].change
                        == Change::<Seq<u8>>::AddCommit(selected.commit_id)
                    &&& sources.len() > 0 ==> list.len() == sources.len() && forall|i: int|
                        0 <= i < list.len() ==> (#[trigger] list[i]).change == Change::Add(
                            sources[i].reference,
                        )
                }
                &&& contained == Ok::<_, MergeError>(false) && !selected.head_is_merge && sources_of(
                    references,
                    candidates,
                    selected.commit_id,
                ) is Ok ==> found is Ok
            }
        }),
{
}

proof fn sources_are_at_the_commit_from(
    references: Seq<Reference<Seq<u8>>>,
    choices: Seq<ChoiceView>,
    commit_id: ObjectId,
    at: int,
    done: Seq<ChoiceView>,
)
    requires
        0 <= at <= choices.len(),
        forall|i: int| 0 <= i < done.len() ==> (#[trigger] done[i]).commit_id == commit_id,
        forall|i: int, j: int|
            0 <= i < j < done.len() ==> (#[trigger] done[i]).reference != (
            #[trigger] done[j]).reference,
    ensures
        sources_from(references, choices, commit_id, at, done) matches Ok(found) ==> {
            &&& forall|i: int| 0 <= i < found.len() ==> (#[trigger] found[i]).commit_id == commit_id
            &&& forall|i: int, j: int|
                0 <= i < j < found.len() ==> (#[trigger] found[i]).reference != (
                #[trigger] found[j]).reference
            &&& forall|i: int|
                0 <= i < done.len() ==> crate::auto_merge::choices::chosen(
                    found,
                    (#[trigger] done[i]).reference,
                )
            &&& forall|i: int|
                at <= i < choices.len() && (#[trigger] choices[i]).commit_id == commit_id ==> (
                source_choice(references, choices[i]) matches Ok(source) && (source matches Some(
                    source,
                ) ==> crate::auto_merge::choices::chosen(found, source.reference)))
        },
    decreases choices.len() - at,
{
    if at < choices.len() {
        if choices[at].commit_id != commit_id {
            sources_are_at_the_commit_from(references, choices, commit_id, at + 1, done);
        } else if let Ok(source) = source_choice(references, choices[at]) {
            branches_and_pins_are_sources(references, choices[at]);
            let next = match source {
                Some(choice) if !crate::auto_merge::choices::chosen(done, choice.reference) => done.push(
                    choice,
                ),
                _ => done,
            };
            assert forall|i: int, j: int| 0 <= i < j < next.len() implies (
            #[trigger] next[i]).reference != (#[trigger] next[j]).reference by {
                if j == done.len() {
                    assert(done[i].reference == next[i].reference);
                }
            }
            sources_are_at_the_commit_from(references, choices, commit_id, at + 1, next);
            if let Ok(found) = sources_from(references, choices, commit_id, at + 1, next) {
                assert forall|i: int| 0 <= i < done.len() implies crate::auto_merge::choices::chosen(
                    found,
                    (#[trigger] done[i]).reference,
                ) by {
                    assert(next[i] == done[i]);
                }
                if let Some(choice) = source {
                    if crate::auto_merge::choices::chosen(done, choice.reference) {
                        let i = choose|i: int|
                            0 <= i < done.len() && (#[trigger] done[i]).reference
                                == choice.reference;
                        assert(next[i].reference == choice.reference);
                    } else {
                        assert(next[done.len() as int] == choice);
                    }
                }
            }
        }
    } else {
        assert forall|i: int| 0 <= i < done.len() implies crate::auto_merge::choices::chosen(
            done,
            (#[trigger] done[i]).reference,
        ) by {}
    }
}

/// The sources of a commit are all at it, no two are the same reference, and none that stands for it is
/// missing.
pub proof fn sources_are_at_the_commit(
    references: Seq<Reference<Seq<u8>>>,
    candidates: Seq<Candidate<Seq<u8>>>,
    commit_id: ObjectId,
)
    ensures
        sources_of(references, candidates, commit_id) matches Ok(found) ==> {
            let choices = choices_of(candidates);
            &&& forall|i: int| 0 <= i < found.len() ==> (#[trigger] found[i]).commit_id == commit_id
            &&& forall|i: int, j: int|
                0 <= i < j < found.len() ==> (#[trigger] found[i]).reference != (
                #[trigger] found[j]).reference
            &&& forall|i: int|
                0 <= i < choices.len() && (#[trigger] choices[i]).commit_id == commit_id ==> (
                source_choice(references, choices[i]) matches Ok(source) && (source matches Some(
                    source,
                ) ==> crate::auto_merge::choices::chosen(found, source.reference)))
        },
{
    sources_are_at_the_commit_from(
        references,
        choices_of(candidates),
        commit_id,
        0,
        Seq::empty(),
    );
}

/// A decoration shows a reference only if it is of its kind and has its short name: local branches in any of
/// their guises, remote-tracking branches, and tags of either sort behind `tag: `.
pub proof fn decorations_show_their_like(decoration: Decoration<Seq<u8>>, reference: Seq<u8>)
    ensures
        shows(decoration, reference) && decoration.kind == DecorationKind::Remote ==> category_of(
            reference,
        ) == Category::RemoteBranch && decoration.name == short_name(reference),
        shows(decoration, reference) && (decoration.kind == DecorationKind::Tag || decoration.kind
            == DecorationKind::AnnotatedTag) ==> category_of(reference) == Category::Tag
            && decoration.name == "tag: ".spec_bytes() + short_name(reference),
        shows(decoration, reference) && category_of(reference) == Category::LocalBranch ==> (
        decoration.kind == DecorationKind::Local || decoration.kind
            == DecorationKind::CurrentWorktreeBranch || decoration.kind
            == DecorationKind::WorktreeBranch || decoration.kind == DecorationKind::HeadPinBranch)
            && decoration.name == short_name(reference),
        category_of(reference) == Category::LocalBranch && decoration.name == short_name(reference)
            && (decoration.kind == DecorationKind::Local || decoration.kind
            == DecorationKind::CurrentWorktreeBranch || decoration.kind
            == DecorationKind::WorktreeBranch || decoration.kind == DecorationKind::HeadPinBranch)
            ==> shows(decoration, reference),
        category_of(reference) == Category::Other ==> !shows(decoration, reference),
{
    let prefix = "tag: ".spec_bytes();
    if has_prefix(decoration.name, prefix) {
        assert(decoration.name == prefix + decoration.name.skip(prefix.len() as int));
    }
}

/// A merge tracks a reference that one of its inputs is, or points at by name; a change tracks none.
pub proof fn merges_track_their_inputs(
    references: Seq<Reference<Seq<u8>>>,
    inputs: Seq<Input<Seq<u8>>>,
    reference: Seq<u8>,
    at: int,
)
    requires
        0 <= at,
    ensures
        (exists|i: int|
            at <= i < inputs.len() && (#[trigger] inputs[i]).source == InputSource::Reference(
                reference,
            )) ==> tracks_from(references, inputs, reference, at) != Ok::<_, MergeError>(false),
        (forall|i: int|
            at <= i < inputs.len() ==> ((#[trigger] inputs[i]).source matches InputSource::Reference(
                name,
            ) ==> name != reference && !(state_of(references, name) is Symbolic))) ==> tracks_from(
            references,
            inputs,
            reference,
            at,
        ) == Ok::<_, MergeError>(false),
    decreases inputs.len() - at,
{
    if at < inputs.len() {
        merges_track_their_inputs(references, inputs, reference, at + 1);
    }
}

/// A reference follows itself, and what it points at by name; one that holds a commit or is missing follows
/// nothing else.
pub proof fn references_follow_names(
    references: Seq<Reference<Seq<u8>>>,
    name: Seq<u8>,
    reference: Seq<u8>,
    left: nat,
)
    ensures
        name == reference ==> follows_from(references, name, reference, Seq::empty(), left) == Ok::<
            _,
            MergeError,
        >(true),
        name != reference && !(state_of(references, name) is Symbolic) ==> follows_from(
            references,
            name,
            reference,
            Seq::empty(),
            left,
        ) == Ok::<_, MergeError>(false),
        name != reference && state_of(references, name) == State::Symbolic(reference) && left > 0
            ==> follows_from(references, name, reference, Seq::empty(), left) == Ok::<_, MergeError>(
            true,
        ),
{
    reveal_with_fuel(follows_from, 2);
}

/// Where a merge can be changed: there must be a worktree whose index is settled, and anything but removing an
/// input is done at HEAD.
pub proof fn merges_are_changed_at_head(site: Site, change: Change<Seq<u8>>)
    ensures
        site_error(site, change) is None <==> site.has_worktree && !site.index_in_conflict && (
        change is Remove || site.head_commit_id == site.selected_commit_id),
        site_error(site, change) == Some(MergeError::NoWorktree) <==> !site.has_worktree,
        site_error(site, change) == Some(MergeError::UnresolvedIndex) <==> site.has_worktree
            && site.index_in_conflict,
{
}

/// Adding an input to a commit that is no merge makes one of it whose first input is the commit itself, by the
/// one reference that stands for it or else by its change. Nothing else can be done to such a commit.
pub proof fn new_merges_start_from_head(
    snapshot: SnapshotView,
    candidates: Seq<Candidate<Seq<u8>>>,
    site: Site,
    change: Change<Seq<u8>>,
)
    ensures
        current_inputs(snapshot, candidates, site, change) matches Ok((inputs, created)) ==> {
            let commit = commit_of(snapshot.commits, site.selected_commit_id);
            &&& commit is Some
            &&& created <==> !automatic(commit->0.headers)
            &&& !created ==> definition_of(commit->0.headers) == Ok::<_, MergeError>(Some(inputs))
            &&& created ==> {
                &&& change is Add || change is AddCommit
                &&& inputs.len() == 1
                &&& inputs[0].commit_id == site.head_commit_id
                &&& !inputs[0].muted
                &&& inputs[0].source matches InputSource::Change(own) ==> (commit_of(
                    snapshot.commits,
                    site.head_commit_id,
                ) matches Some(head) && head.change == own)
                &&& inputs[0].source is Reference <==> sources_of(
                    snapshot.references,
                    candidates,
                    site.head_commit_id,
                )->Ok_0.len() == 1
            }
        },
        (commit_of(snapshot.commits, site.selected_commit_id) matches Some(commit) && !automatic(
            commit.headers,
        )) && !(change is Add) && !(change is AddCommit) ==> current_inputs(
            snapshot,
            candidates,
            site,
            change,
        ) == Err::<(Seq<Input<Seq<u8>>>, bool), _>(MergeError::NotAMerge),
{
    if let Some(commit) = commit_of(snapshot.commits, site.selected_commit_id) {
        merges_list_inputs(commit.headers);
    }
}

proof fn slot_is_first(inputs: Seq<Input<Seq<u8>>>, source: InputSource<Seq<u8>>, from: int)
    requires
        0 <= from,
    ensures
        match input_slot(inputs, source, from) {
            Some(i) => from <= i < inputs.len() && inputs[i].source == source,
            None => forall|i: int|
                from <= i < inputs.len() ==> (#[trigger] inputs[i]).source != source,
        },
    decreases inputs.len() - from,
{
    if from < inputs.len() {
        slot_is_first(inputs, source, from + 1);
    }
}

/// An input that is there already keeps its place and whether it is muted, and only stands for another commit.
/// A new one comes last and is not muted. All others stay as they are.
pub proof fn inputs_keep_their_places(
    inputs: Seq<Input<Seq<u8>>>,
    source: InputSource<Seq<u8>>,
    commit_id: ObjectId,
)
    ensures
        ({
            let all = with_input(inputs, source, commit_id);
            &&& follows(inputs, source) ==> all.len() == inputs.len()
            &&& !follows(inputs, source) ==> all == inputs.push(
                Input { source, commit_id, muted: false },
            )
            &&& forall|i: int|
                0 <= i < inputs.len() ==> (#[trigger] all[i]).source == inputs[i].source
                    && all[i].muted == inputs[i].muted && (inputs[i].source != source
                    ==> all[i].commit_id == inputs[i].commit_id)
            &&& exists|i: int|
                0 <= i < all.len() && (#[trigger] all[i]).source == source && all[i].commit_id
                    == commit_id
        }),
{
    slot_is_first(inputs, source, 0);
    let all = with_input(inputs, source, commit_id);
    match input_slot(inputs, source, 0) {
        Some(i) => {
            assert(all[i].source == source);
            assert(inputs[i].source == source);
        },
        None => {
            assert(all[inputs.len() as int].source == source);
        },
    }
}

/// What changes of a merge come to. Removing takes out what was asked for and leaves all else in order; what is
/// no input any more cannot be removed. Merging again leaves the inputs alone. Adding what HEAD contains changes
/// nothing; what contains the merge itself cannot be added to it.
pub proof fn changes_of_merges_do_what_they_say(
    snapshot: SnapshotView,
    candidates: Seq<Candidate<Seq<u8>>>,
    bases: Seq<MergeBase>,
    site: Site,
    change: Change<Seq<u8>>,
    inputs: Seq<Input<Seq<u8>>>,
    created: bool,
)
    requires
        site_error(site, change) is None,
        current_inputs(snapshot, candidates, site, change) == Ok::<_, MergeError>((inputs, created)),
    ensures
        ({
            let done = changed(snapshot, candidates, bases, site, change);
            &&& done matches Ok(Outcome::Changed { created: new, .. }) ==> new == created
            &&& change matches Change::Remove(source) ==> {
                &&& done is Ok <==> without_input(inputs, source).len() != inputs.len()
                &&& done matches Ok(outcome) ==> (outcome matches Outcome::Changed {
                    definition,
                    ..
                } && definition == without_input(inputs, source))
                &&& done is Err ==> done->Err_0 == MergeError::NoLongerInput
            }
            &&& change is Remerge ==> (done matches Ok(Outcome::Changed { definition, .. })
                && definition == inputs)
            &&& change is Add || change is AddCommit ==> (added_input(
                snapshot,
                change,
            ) matches Ok((source, id)) ==> {
                let contained = containing(bases, id, site.head_commit_id);
                let contains = containing(bases, site.selected_commit_id, id);
                &&& contained == Ok::<_, MergeError>(true) <== (done matches Ok(Outcome::Unchanged(
                    _,
                )))
                &&& contained == Ok::<_, MergeError>(true) ==> (done matches Ok(Outcome::Unchanged(
                    _,
                )))
                &&& contained == Ok::<_, MergeError>(false) && !created && contains == Ok::<
                    _,
                    MergeError,
                >(true) ==> done is Err
                &&& contained == Ok::<_, MergeError>(false) && (created || contains == Ok::<
                    _,
                    MergeError,
                >(false)) ==> (done matches Ok(Outcome::Changed { definition, .. }) && definition
                    == with_input(inputs, source, id))
            })
            &&& (change is Add || change is AddCommit) && added_input(snapshot, change) is Err
                ==> done is Err
        }),
{
}

/// What is added: a reference that can be followed and leads to a commit, at that commit; or a commit that is
/// known, by its change.
pub proof fn added_inputs_lead_to_commits(snapshot: SnapshotView, name: Seq<u8>, id: ObjectId)
    ensures
        added_input(snapshot, Change::Add(name)) matches Ok((source, found)) ==> allowed(name)
            && source == InputSource::Reference(name) && resolved_reference(
            snapshot,
            name,
            Seq::empty(),
            None,
        ) == Ok::<_, MergeError>(Some(found)),
        !allowed(name) ==> added_input(snapshot, Change::Add(name)) is Err,
        allowed(name) && (resolved_reference(snapshot, name, Seq::empty(), None) matches Ok(Some(_)))
            ==> added_input(snapshot, Change::Add(name)) is Ok,
        added_input(snapshot, Change::AddCommit(id)) matches Ok((source, found)) ==> found == id && (
        commit_of(snapshot.commits, id) matches Some(commit) && source == InputSource::<
            Seq<u8>,
        >::Change(commit.change)),
        added_input(snapshot, Change::AddCommit(id)) is Ok <==> commit_of(snapshot.commits, id)
            is Some,
{
}

proof fn removed_inputs_go_alone(inputs: Seq<Input<Seq<u8>>>, source: InputSource<Seq<u8>>)
    ensures
        forall|input: Input<Seq<u8>>| #[trigger]
            without_input(inputs, source).contains(input) <==> inputs.contains(input)
                && input.source != source,
    decreases inputs.len(),
{
    if inputs.len() > 0 {
        let rest = inputs.drop_last();
        let last = inputs.last();
        removed_inputs_go_alone(rest, source);
        let before = without_input(rest, source);
        let all = without_input(inputs, source);
        assert(inputs[inputs.len() - 1] == last);
        assert forall|input: Input<Seq<u8>>| #[trigger] all.contains(input) <==> inputs.contains(
            input,
        ) && input.source != source by {
            if before.contains(input) {
                let k = before.index_of(input);
                assert(all[k] == input);
                let i = rest.index_of(input);
                assert(inputs[i] == input);
            }
            if last.source != source {
                assert(all[before.len() as int] == last);
            }
            if inputs.contains(input) {
                let i = inputs.index_of(input);
                if i < rest.len() {
                    assert(rest[i] == input);
                }
            }
        }
    }
}

/// Removing an input takes away that input and no other.
pub proof fn only_the_input_is_removed(
    inputs: Seq<Input<Seq<u8>>>,
    source: InputSource<Seq<u8>>,
    input: Input<Seq<u8>>,
)
    ensures
        without_input(inputs, source).contains(input) <==> inputs.contains(input) && input.source
            != source,
{
    removed_inputs_go_alone(inputs, source);
}

proof fn noted_ambiguities_do_not_matter(
    snapshot: SnapshotView,
    one: ReferencesView,
    other: ReferencesView,
    input: Input<Seq<u8>>,
    rewritten: Seq<Rewrite>,
    planned: Option<PlannedView>,
)
    requires
        one.placements == other.placements,
        one.candidates == other.candidates,
    ensures
        resolved_input(one, snapshot, input, rewritten, planned).0 == resolved_input(
            other,
            snapshot,
            input,
            rewritten,
            planned,
        ).0,
{
}

proof fn live_inputs_stand_for_commits_from(
    refs: ReferencesView,
    snapshot: SnapshotView,
    inputs: Seq<Input<Seq<u8>>>,
    rewritten: Seq<Rewrite>,
    planned: Option<PlannedView>,
    at: int,
    done: Seq<Input<Seq<u8>>>,
    input: Input<Seq<u8>>,
)
    requires
        0 <= at <= inputs.len(),
        live_from(refs, snapshot, inputs, rewritten, planned, at, done) is Ok,
    ensures
        live_from(refs, snapshot, inputs, rewritten, planned, at, done)->Ok_0.0.contains(input)
            <==> done.contains(input) || exists|i: int|
            at <= i < inputs.len() && (#[trigger] inputs[i]).source == input.source
                && inputs[i].muted == input.muted && resolved_input(
                refs,
                snapshot,
                inputs[i],
                rewritten,
                planned,
            ).0 == Ok::<_, MergeError>(Some(input.commit_id)),
    decreases inputs.len() - at,
{
    if at < inputs.len() {
        let (result, ambiguous) = resolved_input(refs, snapshot, inputs[at], rewritten, planned);
        let known = ReferencesView { ambiguous, ..refs };
        let found = result->Ok_0;
        let next = match found {
            Some(commit_id) => done.push(Input { commit_id, ..inputs[at] }),
            None => done,
        };
        live_inputs_stand_for_commits_from(
            known,
            snapshot,
            inputs,
            rewritten,
            planned,
            at + 1,
            next,
            input,
        );
        assert forall|i: int| at <= i < inputs.len() implies resolved_input(
            known,
            snapshot,
            #[trigger] inputs[i],
            rewritten,
            planned,
        ).0 == resolved_input(refs, snapshot, inputs[i], rewritten, planned).0 by {
            noted_ambiguities_do_not_matter(
                snapshot,
                known,
                refs,
                inputs[i],
                rewritten,
                planned,
            );
        }
        if let Some(commit_id) = found {
            assert(next[done.len() as int] == (Input { commit_id, ..inputs[at] }));
            if done.contains(input) {
                let k = done.index_of(input);
                assert(next[k] == input);
            }
            if next.contains(input) && !done.contains(input) {
                let k = next.index_of(input);
                assert(k == done.len());
                assert(inputs[at].source == input.source);
            }
        }
    }
}

/// A merge is rebuilt from the inputs that still stand for a commit, each at the commit that it stands for now,
/// muted or not as before. Inputs that stand for none are left out, and no others.
pub proof fn live_inputs_stand_for_commits(
    refs: ReferencesView,
    snapshot: SnapshotView,
    inputs: Seq<Input<Seq<u8>>>,
    rewritten: Seq<Rewrite>,
    planned: Option<PlannedView>,
    input: Input<Seq<u8>>,
)
    requires
        live_from(refs, snapshot, inputs, rewritten, planned, 0, Seq::empty()) is Ok,
    ensures
        live_from(refs, snapshot, inputs, rewritten, planned, 0, Seq::empty())->Ok_0.0.contains(input)
            <==> exists|i: int|
            0 <= i < inputs.len() && (#[trigger] inputs[i]).source == input.source
                && inputs[i].muted == input.muted && resolved_input(
                refs,
                snapshot,
                inputs[i],
                rewritten,
                planned,
            ).0 == Ok::<_, MergeError>(Some(input.commit_id)),
{
    live_inputs_stand_for_commits_from(
        refs,
        snapshot,
        inputs,
        rewritten,
        planned,
        0,
        Seq::empty(),
        input,
    );
}

/// A merge of nothing is empty, one of a single input is that commit, and anything else is merged.
pub proof fn single_inputs_are_not_merged(inputs: Seq<Input<Seq<u8>>>)
    ensures
        rebuilt_of(inputs) is Empty <==> inputs.len() == 0,
        rebuilt_of(inputs) is Collapse <==> inputs.len() == 1,
        rebuilt_of(inputs) matches Rebuilt::Collapse(id) ==> id == inputs[0].commit_id,
        rebuilt_of(inputs) is Commit <==> inputs.len() > 1,
{
}

/// What is merged next is the next input that has no pending rebase, with what was merged so far. Merging starts
/// from the first such input, and an input that adds nothing is passed over. Sources and commits stay.
pub proof fn inputs_are_merged_in_turn(state: MergingView, commits: Seq<CommitView>)
    requires
        0 <= state.at <= state.inputs.len(),
    ensures
        state.advanced(commits) matches Ok((request, next)) ==> {
            &&& state.at <= next.at <= state.inputs.len()
            &&& next.inputs.len() == state.inputs.len()
            &&& forall|i: int|
                0 <= i < state.inputs.len() ==> (#[trigger] next.inputs[i]).source
                    == state.inputs[i].source && next.inputs[i].commit_id
                    == state.inputs[i].commit_id
            &&& request is None ==> next.at == state.inputs.len()
            &&& request matches Some(wanted) ==> {
                &&& next.at < state.inputs.len()
                &&& wanted.theirs == state.inputs[next.at].commit_id
                &&& next.accumulated == Some(wanted.ours)
                &&& wanted.ours != wanted.theirs
                &&& commit_of(commits, wanted.theirs) matches Some(commit) && !commit.pending
            }
            &&& state.accumulated is Some ==> next.accumulated == state.accumulated
            &&& state.accumulated is None && next.accumulated is Some ==> exists|i: int|
                state.at <= i < state.inputs.len() && next.accumulated == Some(
                    (#[trigger] state.inputs[i]).commit_id,
                ) && (commit_of(commits, state.inputs[i].commit_id) matches Some(commit)
                    && !commit.pending) && forall|j: int|
                    state.at <= j < i ==> (commit_of(
                        commits,
                        (#[trigger] state.inputs[j]).commit_id,
                    ) matches Some(commit) && commit.pending)
        },
    decreases state.inputs.len() - state.at,
{
    if state.at < state.inputs.len() {
        let id = state.inputs[state.at].commit_id;
        if let Some(commit) = commit_of(commits, id) {
            if commit.pending {
                let past = state.past(true);
                inputs_are_merged_in_turn(past, commits);
                if let Ok((_, next)) = past.advanced(commits) {
                    if past.accumulated is None && next.accumulated is Some {
                        let i = choose|i: int|
                            past.at <= i < past.inputs.len() && next.accumulated == Some(
                                (#[trigger] past.inputs[i]).commit_id,
                            ) && (commit_of(commits, past.inputs[i].commit_id) matches Some(commit)
                                && !commit.pending) && forall|j: int|
                                past.at <= j < i ==> (commit_of(
                                    commits,
                                    (#[trigger] past.inputs[j]).commit_id,
                                ) matches Some(commit) && commit.pending);
                        assert(state.inputs[i].commit_id == past.inputs[i].commit_id);
                        assert forall|j: int| state.at <= j < i implies (commit_of(
                            commits,
                            (#[trigger] state.inputs[j]).commit_id,
                        ) matches Some(commit) && commit.pending) by {
                            assert(state.inputs[j].commit_id == past.inputs[j].commit_id);
                        }
                    }
                }
            } else {
                match state.accumulated {
                    None => {
                        let past = MergingView { accumulated: Some(id), ..state.past(false) };
                        inputs_are_merged_in_turn(past, commits);
                        assert(state.inputs[state.at].commit_id == id);
                    },
                    Some(ours) => {
                        if ours == id {
                            inputs_are_merged_in_turn(state.past(false), commits);
                        }
                    },
                }
            }
        }
    }
}

/// A rebuilt merge has the tree of what was merged, or else of what its inputs have in common, or else none; its
/// inputs as parents; and a title that says what was merged. One that is not merged again keeps its message and
/// its tree.
pub proof fn rebuilt_merges_hold_what_was_merged(
    live: Seq<Input<Seq<u8>>>,
    merged: Option<MergingView>,
    common_base: Option<ObjectId>,
    message: Seq<u8>,
    headers: Seq<Header<Seq<u8>>>,
)
    ensures
        ({
            let found = rebuilt_to(live, merged, common_base, message, headers);
            &&& merged is None ==> found.tree is None && found.message == message && found.parents
                == parents_of(live)
            &&& merged matches Some(state) ==> {
                &&& state.accumulated matches Some(id) ==> found.tree == Some(
                    TreeSource::Commit(id),
                )
                &&& state.accumulated is None ==> found.tree == Some(
                    match common_base {
                        Some(id) => TreeSource::Commit(id),
                        None => TreeSource::Empty,
                    },
                )
                &&& found.parents == parents_of(state.inputs)
            }
        }),
{
}

proof fn first_byte_is_found(text: Seq<u8>, byte: u8, from: int)
    requires
        0 <= from,
    ensures
        match find_byte_from(text, byte, from) {
            Some(i) => from <= i < text.len() && text[i] == byte && forall|j: int|
                from <= j < i ==> text[j] != byte,
            None => forall|j: int| from <= j < text.len() ==> text[j] != byte,
        },
    decreases text.len() - from,
{
    if from < text.len() && text[from] != byte {
        first_byte_is_found(text, byte, from + 1);
    }
}

/// A new title takes the place of the first line and leaves the others: a title that comes later makes the one
/// before it forgotten, and a message that has its title already stays.
pub proof fn titles_replace_the_first_line(title: Seq<u8>, other: Seq<u8>, message: Seq<u8>)
    requires
        forall|i: int| 0 <= i < title.len() ==> title[i] != LF,
    ensures
        message_with(other, message_with(title, message)) == message_with(other, message),
        message_with(title, message).take(title.len() as int) == title,
        message_with(title, message)[title.len() as int] == LF,
        forall|rest: Seq<u8>|
            message == title + (seq![LF] + rest) ==> #[trigger] message_with(other, message) == other
                + (seq![LF] + rest),
{
    let once = message_with(title, message);
    first_byte_is_found(message, LF, 0);
    first_byte_is_found(once, LF, 0);
    assert(once.take(title.len() as int) == title);
    assert(once[title.len() as int] == LF);
    let k = find_byte_from(once, LF, 0)->Some_0;
    if k < title.len() {
        assert(once.take(title.len() as int)[k] == LF);
    }
    assert(k == title.len());
    match find_byte_from(message, LF, 0) {
        Some(newline) => {
            assert(once.skip(title.len() as int) == message.skip(newline));
        },
        None => {
            assert(once.skip(title.len() as int) == seq![LF]);
            assert(other + seq![LF] == other.push(LF));
        },
    }
    assert forall|rest: Seq<u8>| message == title + (seq![LF] + rest) implies #[trigger] message_with(
        other,
        message,
    ) == other + (seq![LF] + rest) by {
        assert(message[title.len() as int] == LF);
        let i = find_byte_from(message, LF, 0)->Some_0;
        if i < title.len() {
            assert(message[i] == title[i]);
        }
        assert(message.skip(title.len() as int) == seq![LF] + rest);
    }
}

proof fn rewrite_is_first(rewritten: Seq<Rewrite>, id: ObjectId, from: int)
    requires
        0 <= from,
    ensures
        match rewrite_from(rewritten, id, from) {
            Some(new_id) => exists|i: int|
                from <= i < rewritten.len() && (#[trigger] rewritten[i]).old_id == id
                    && rewritten[i].new_id == new_id,
            None => forall|i: int|
                from <= i < rewritten.len() ==> (#[trigger] rewritten[i]).old_id != id,
        },
    decreases rewritten.len() - from,
{
    if from < rewritten.len() && rewritten[from].old_id != id {
        rewrite_is_first(rewritten, id, from + 1);
    } else if from < rewritten.len() {
        assert(rewritten[from].old_id == id);
    }
}

/// A commit that was not rewritten stands for itself, one that was dropped for none, and one that was rewritten
/// once for what it became.
pub proof fn rewrites_are_followed(rewritten: Seq<Rewrite>, id: ObjectId)
    ensures
        (forall|i: int| 0 <= i < rewritten.len() ==> (#[trigger] rewritten[i]).old_id != id)
            ==> mapping(rewritten, id) == Some(id),
        rewrite_from(rewritten, id, 0) matches Some(None) ==> mapping(rewritten, id) is None,
        rewrite_from(rewritten, id, 0) matches Some(Some(next)) ==> (rewrite_from(
            rewritten,
            next,
            0,
        ) is None ==> mapping(rewritten, id) == Some(next)),
        rewrite_from(rewritten, id, 0) matches Some(Some(next)) ==> (rewrite_from(
            rewritten,
            next,
            0,
        ) == Some(None::<ObjectId>) && next != id ==> mapping(rewritten, id) is None),
{
    rewrite_is_first(rewritten, id, 0);
    reveal_with_fuel(crate::auto_merge::resolve::mapped_from, 3);
    if rewrite_from(rewritten, id, 0) is Some {
        let i = choose|i: int|
            0 <= i < rewritten.len() && (#[trigger] rewritten[i]).old_id == id;
        assert(rewritten.len() > 0);
    }
}

proof fn versions_are_found(
    commits: Seq<CommitView>,
    candidates: Seq<ObjectId>,
    change: ChangeId,
    at: int,
    done: Seq<ObjectId>,
    id: ObjectId,
)
    requires
        0 <= at <= candidates.len(),
        done.no_duplicates(),
        versions_from(commits, candidates, change, at, done) is Ok,
    ensures
        versions_from(commits, candidates, change, at, done)->Ok_0.no_duplicates(),
        versions_from(commits, candidates, change, at, done)->Ok_0.contains(id) <==> done.contains(
            id,
        ) || ((exists|i: int| at <= i < candidates.len() && candidates[i] == id) && (commit_of(
            commits,
            id,
        ) matches Some(commit) && commit.change == change)),
    decreases candidates.len() - at,
{
    if at < candidates.len() {
        let commit = commit_of(commits, candidates[at])->Some_0;
        let takes = commit.change == change && !done.contains(candidates[at]);
        let next = if takes {
            done.push(candidates[at])
        } else {
            done
        };
        if takes {
            assert(next[done.len() as int] == candidates[at]);
            if done.contains(id) {
                let k = done.index_of(id);
                assert(next[k] == id);
            }
            if next.contains(id) && !done.contains(id) {
                let k = next.index_of(id);
                assert(k == done.len());
            }
        }
        versions_are_found(commits, candidates, change, at + 1, next, id);
        if candidates[at] == id {
            assert(exists|i: int| at <= i < candidates.len() && candidates[i] == id);
        }
    }
}

/// Where a change is looked for. One whose commit was moved is followed from there. Otherwise it is the one
/// version of it that there is in the history; if there is none or several it stays with its commit, and that
/// several were found is noted.
pub proof fn changes_have_one_version(
    refs: ReferencesView,
    snapshot: SnapshotView,
    commit_id: ObjectId,
    change: ChangeId,
    candidates: Seq<ObjectId>,
    a: ObjectId,
    b: ObjectId,
)
    ensures
        placement_of(refs.placements, commit_id) is Some ==> change_start(
            refs,
            snapshot,
            commit_id,
            change,
        ) == Ok::<_, MergeError>((commit_id, refs.ambiguous)),
        refs.candidates is None ==> change_start(refs, snapshot, commit_id, change) == Ok::<
            _,
            MergeError,
        >((commit_id, refs.ambiguous)),
        placement_of(refs.placements, commit_id) is None && refs.candidates == Some(candidates) && (
        change_start(refs, snapshot, commit_id, change) is Ok) ==> {
            let version = |id: ObjectId|
                candidates.contains(id) && (commit_of(snapshot.commits, id) matches Some(commit)
                    && commit.change == change);
            let (start, ambiguous) = change_start(refs, snapshot, commit_id, change)->Ok_0;
            &&& version(a) && version(b) && a != b ==> start == commit_id && ambiguous
                == crate::auto_merge::resolve::with_ambiguity(refs.ambiguous, commit_id, change)
            &&& version(a) && (forall|id: ObjectId| #[trigger] version(id) ==> id == a) ==> start
                == a && ambiguous == refs.ambiguous
            &&& (forall|id: ObjectId| !(#[trigger] version(id))) ==> start == commit_id && ambiguous
                == refs.ambiguous
        },
{
    if placement_of(refs.placements, commit_id) is None && refs.candidates == Some(candidates) {
        if let Ok(found) = versions_from(snapshot.commits, candidates, change, 0, Seq::empty()) {
            let version = |id: ObjectId|
                candidates.contains(id) && (commit_of(snapshot.commits, id) matches Some(commit)
                    && commit.change == change);
            assert forall|id: ObjectId| found.contains(id) <==> #[trigger] version(id) by {
                versions_are_found(snapshot.commits, candidates, change, 0, Seq::empty(), id);
                if candidates.contains(id) {
                    let i = candidates.index_of(id);
                    assert(candidates[i] == id);
                }
            }
            versions_are_found(snapshot.commits, candidates, change, 0, Seq::empty(), a);
            if version(a) && version(b) && a != b {
                let i = found.index_of(a);
                let j = found.index_of(b);
                assert(found[i] == a && found[j] == b);
                assert(found.len() > 1);
            }
            if version(a) && (forall|id: ObjectId| #[trigger] version(id) ==> id == a) {
                assert(found.contains(a));
                if found.len() > 1 {
                    assert(found.contains(found[0]));
                    assert(found.contains(found[1]));
                    assert(version(found[0]));
                    assert(version(found[1]));
                }
                assert(found.contains(found[0]));
                assert(version(found[0]));
            }
            if forall|id: ObjectId| !(#[trigger] version(id)) {
                if found.len() > 0 {
                    assert(found.contains(found[0]));
                    assert(version(found[0]));
                }
            }
        }
    }
}

proof fn beyond_holds_the_rest(ids: Seq<ObjectId>, others: Seq<ObjectId>, id: ObjectId)
    ensures
        beyond(ids, others).contains(id) <==> ids.contains(id) && !others.contains(id),
    decreases ids.len(),
{
    if ids.len() > 0 {
        let rest = ids.drop_last();
        beyond_holds_the_rest(rest, others, id);
        let before = beyond(rest, others);
        let all = beyond(ids, others);
        assert(ids[ids.len() - 1] == ids.last());
        if before.contains(id) {
            let k = before.index_of(id);
            assert(all[k] == id);
            let i = rest.index_of(id);
            assert(ids[i] == id);
        }
        if !others.contains(ids.last()) {
            assert(all[before.len() as int] == ids.last());
        }
        if ids.contains(id) {
            let i = ids.index_of(id);
            if i < rest.len() {
                assert(rest[i] == id);
            }
        }
    }
}

proof fn added_steps_have_their_parents(
    commits: Seq<CommitView>,
    steps: Seq<StepView>,
    extra: Seq<ObjectId>,
    at: int,
)
    requires
        0 <= at <= extra.len(),
        steps_with(commits, steps, extra, at) is Ok,
        steps.len() + extra.len() - at <= usize::MAX,
    ensures
        ({
            let all = steps_with(commits, steps, extra, at)->Ok_0;
            &&& all.len() == steps.len() + extra.len() - at
            &&& all.take(steps.len() as int) == steps
            &&& forall|i: int|
                #![trigger extra[i]]
                at <= i < extra.len() ==> {
                    let k = steps.len() + i - at;
                    &&& commit_of(commits, extra[i]) matches Some(commit) && commit.parents.len() > 0
                        && match all[k].parent {
                        PlanParent::Step(index) => index < k && crate::plan::holds(
                            all[index as int],
                            commit.parents[0],
                        ),
                        PlanParent::Existing(id) => id == commit.parents[0] && forall|j: int|
                            0 <= j < k ==> !crate::plan::holds(#[trigger] all[j], commit.parents[0]),
                    }
                    &&& all[k].commit == PlanCommit::<Seq<u8>>::Pick(extra[i])
                    &&& all[k].squash.len() == 0
                }
        }),
    decreases extra.len() - at,
{
    if at < extra.len() {
        let commit = commit_of(commits, extra[at])->Some_0;
        let parent = commit.parents[0];
        crate::plan::position_bounds(steps, parent, steps.len() as int);
        let found = crate::plan::position(steps, parent, steps.len() as int);
        let step = crate::plan::PlanStep {
            parent: match found {
                Some(index) => PlanParent::Step(index),
                None => PlanParent::Existing(parent),
            },
            commit: PlanCommit::<Seq<u8>>::Pick(extra[at]),
            squash: Seq::<ObjectId>::empty(),
        };
        let next = steps.push(step);
        added_steps_have_their_parents(commits, next, extra, at + 1);
        let all = steps_with(commits, steps, extra, at)->Ok_0;
        assert(all.take(next.len() as int) == next);
        assert forall|j: int| 0 <= j < next.len() implies #[trigger] all[j] == next[j] by {
            assert(all.take(next.len() as int)[j] == all[j]);
        }
        assert(all.take(steps.len() as int) == steps);
    } else {
        assert(steps.take(steps.len() as int) == steps);
    }
}

/// A plan is extended by all that automatic merges make it affect and that it does not have: each such commit is
/// picked on top of the step that holds its first parent, or of that parent if no step does. HEAD goes along if it
/// is at one of them and the plan checks nothing out.
pub proof fn extended_plans_hold_what_follows(
    snapshot: SnapshotView,
    graph: GraphView,
    plan: PlanView<PlanRef<Seq<u8>>>,
    head: Head<Seq<u8>>,
    found: ExpandedView,
    named: Seq<ObjectId>,
)
    requires
        expanded(snapshot, graph, plan, head) == Ok::<_, MergeError>(found),
        graph.merges.len() > 0,
        crate::auto_merge::expand::named_from(snapshot, graph, plan.expected_refs, 0, plan.scope)
            == Ok::<_, MergeError>(named),
        found.plan.steps.len() <= usize::MAX,
    ensures
        ({
            let checkout = match crate::auto_merge::expand::checked_out(plan) {
                Some(id) => Some(id),
                None => head.commit_id,
            };
            let preparation = prepared(snapshot, graph, named, checkout, None)->Ok_0;
            &&& prepared(snapshot, graph, named, checkout, None) is Ok
            &&& forall|id: ObjectId| #[trigger]
                found.extra.contains(id) <==> preparation.affected.contains(id)
                    && !plan.scope.contains(id)
            &&& forall|i: int|
                #![trigger found.extra[i]]
                0 <= i < found.extra.len() ==> {
                    let k = plan.steps.len() + i;
                    commit_of(snapshot.commits, found.extra[i]) matches Some(commit)
                        && commit.parents.len() > 0 && match found.plan.steps[k].parent {
                        PlanParent::Step(index) => index < k && crate::plan::holds(
                            found.plan.steps[index as int],
                            commit.parents[0],
                        ),
                        PlanParent::Existing(id) => id == commit.parents[0] && forall|j: int|
                            0 <= j < k ==> !crate::plan::holds(
                                #[trigger] found.plan.steps[j],
                                commit.parents[0],
                            ),
                    }
                }
            &&& plan.checkout is None && (head.commit_id matches Some(id) && found.extra.contains(
                id,
            )) ==> (found.plan.checkout matches Some(checkout) ==> checkout.reference == head.branch
                && (checkout.target matches PlanParent::Step(index) && crate::plan::holds(
                found.plan.steps[index as int],
                head.commit_id->Some_0,
            )))
            &&& plan.checkout is None && !(head.commit_id matches Some(id) && found.extra.contains(
                id,
            )) ==> found.plan.checkout is None
            &&& found.plan.base == plan.base && found.plan.expected_refs == plan.expected_refs
            &&& found.refs == preparation.refs
        }),
{
    let checkout = match crate::auto_merge::expand::checked_out(plan) {
        Some(id) => Some(id),
        None => head.commit_id,
    };
    let preparation = prepared(snapshot, graph, named, checkout, None)->Ok_0;
    assert forall|id: ObjectId| #[trigger] found.extra.contains(
        id,
    ) <==> preparation.affected.contains(id) && !plan.scope.contains(id) by {
        beyond_holds_the_rest(preparation.affected, plan.scope, id);
    }
    steps_are_as_many(snapshot.commits, plan.steps, found.extra, 0);
    added_steps_have_their_parents(snapshot.commits, plan.steps, found.extra, 0);
    if let Some(id) = head.commit_id {
        crate::plan::position_bounds(found.plan.steps, id, found.plan.steps.len() as int);
    }
}

proof fn steps_are_as_many(
    commits: Seq<CommitView>,
    steps: Seq<StepView>,
    extra: Seq<ObjectId>,
    at: int,
)
    requires
        0 <= at <= extra.len(),
        steps_with(commits, steps, extra, at) is Ok,
    ensures
        steps_with(commits, steps, extra, at)->Ok_0.len() == steps.len() + extra.len() - at,
    decreases extra.len() - at,
{
    if at < extra.len() {
        let commit = commit_of(commits, extra[at])->Some_0;
        let parent = commit.parents[0];
        let step = crate::plan::PlanStep {
            parent: match crate::plan::position(steps, parent, steps.len() as int) {
                Some(index) => PlanParent::Step(index),
                None => PlanParent::Existing(parent),
            },
            commit: PlanCommit::<Seq<u8>>::Pick(extra[at]),
            squash: Seq::<ObjectId>::empty(),
        };
        steps_are_as_many(commits, steps.push(step), extra, at + 1);
    }
}

/// References of one plan win over those of another with the same names; all others are taken over, in order.
pub proof fn first_references_win(
    references: Seq<PlanRef<Seq<u8>>>,
    more: Seq<PlanRef<Seq<u8>>>,
    at: int,
)
    requires
        0 <= at <= more.len(),
    ensures
        ({
            let all = joined_refs(references, more, at);
            &&& references.len() <= all.len()
            &&& all.take(references.len() as int) == references
            &&& forall|i: int| at <= i < more.len() ==> names(all, (#[trigger] more[i]).name)
            &&& forall|i: int|
                references.len() <= i < all.len() ==> exists|j: int|
                    at <= j < more.len() && more[j] == #[trigger] all[i]
        }),
    decreases more.len() - at,
{
    if at < more.len() {
        let next = if names(references, more[at].name) {
            references
        } else {
            references.push(more[at])
        };
        first_references_win(next, more, at + 1);
        let all = joined_refs(references, more, at);
        assert(all.take(references.len() as int) == all.take(next.len() as int).take(
            references.len() as int,
        ));
        assert(next.take(references.len() as int) == references);
        assert forall|i: int| at <= i < more.len() implies names(all, (#[trigger] more[i]).name) by {
            if i == at {
                let k = choose|k: int|
                    0 <= k < next.len() && (#[trigger] next[k]).name == more[at].name;
                if !names(references, more[at].name) {
                    assert(next[references.len() as int] == more[at]);
                } else {
                    assert(next[k].name == more[at].name);
                }
                let k = choose|k: int|
                    0 <= k < next.len() && (#[trigger] next[k]).name == more[at].name;
                assert(all.take(next.len() as int)[k] == all[k]);
                assert(all[k].name == more[at].name);
            }
        }
        assert forall|i: int| references.len() <= i < all.len() implies exists|j: int|
            at <= j < more.len() && more[j] == #[trigger] all[i] by {
            if i < next.len() {
                assert(all.take(next.len() as int)[i] == all[i]);
                assert(more[at] == all[i]);
            }
        }
    } else {
        assert(references.take(references.len() as int) == references);
    }
}

proof fn places_are_kept(order: Seq<usize>, index: usize, from: int, steps: nat)
    requires
        permutes(order, steps),
        index < steps,
        0 <= from,
        forall|k: int| 0 <= k < from ==> order[k] != index,
    ensures
        from <= place_in(order, index, from) < order.len(),
        order[place_in(order, index, from)] == index,
    decreases order.len() - from,
{
    assert(order.contains(index));
    let at = order.index_of(index);
    assert(order[at] == index);
    if from < order.len() && order[from] != index {
        places_are_kept(order, index, from + 1, steps);
    }
}

/// Another order of its steps changes nothing of what a plan does: what was on top of a step, checked out at it
/// or pointed at it still is, wherever the step is now.
pub proof fn other_orders_do_the_same(
    plan: PlanView<PlanRef<Seq<u8>>>,
    order: Seq<usize>,
    index: usize,
)
    requires
        permutes(order, plan.steps.len()),
        plan.steps.len() <= usize::MAX,
        index < plan.steps.len(),
    ensures
        ({
            let after = reordered(plan, order);
            let there = |place: PlanParent, held: PlanParent|
                match (place, held) {
                    (PlanParent::Existing(a), PlanParent::Existing(b)) => a == b,
                    (PlanParent::Step(a), PlanParent::Step(b)) => b < plan.steps.len() ==> a
                        < after.steps.len() && after.steps[a as int].commit
                        == plan.steps[b as int].commit && after.steps[a as int].squash
                        == plan.steps[b as int].squash,
                    _ => false,
                };
            &&& after.base == plan.base && after.scope == plan.scope
            &&& after.steps.len() == plan.steps.len()
            &&& moved(PlanParent::Step(index), order) matches PlanParent::Step(k) && k
                < after.steps.len() && after.steps[k as int].commit == plan.steps[index as int].commit
                && after.steps[k as int].squash == plan.steps[index as int].squash && there(
                after.steps[k as int].parent,
                plan.steps[index as int].parent,
            )
            &&& plan.checkout is Some <==> after.checkout is Some
            &&& plan.checkout matches Some(checkout) ==> there(
                after.checkout->Some_0.target,
                checkout.target,
            ) && after.checkout->Some_0.reference == checkout.reference
            &&& after.expected_refs.len() == plan.expected_refs.len()
            &&& forall|i: int|
                #![trigger plan.expected_refs[i]]
                0 <= i < plan.expected_refs.len() ==> after.expected_refs[i].name
                    == plan.expected_refs[i].name && after.expected_refs[i].source
                    == plan.expected_refs[i].source && (plan.expected_refs[i].destination matches RefDestination::Step(
                    b,
                ) ==> (after.expected_refs[i].destination matches RefDestination::Step(a) && there(
                    PlanParent::Step(a),
                    PlanParent::Step(b),
                ))) && (!(plan.expected_refs[i].destination is Step)
                    ==> after.expected_refs[i].destination == plan.expected_refs[i].destination)
        }),
{
    places_are_kept(order, index, 0, plan.steps.len());
    let after = reordered(plan, order);
    let parent = plan.steps[index as int].parent;
    if let PlanParent::Step(b) = parent {
        if b < plan.steps.len() {
            places_are_kept(order, b, 0, plan.steps.len());
        }
    }
    if let Some(checkout) = plan.checkout {
        if let PlanParent::Step(b) = checkout.target {
            if b < plan.steps.len() {
                places_are_kept(order, b, 0, plan.steps.len());
            }
        }
    }
    assert forall|i: int|
        #![trigger plan.expected_refs[i]]
        0 <= i < plan.expected_refs.len() && (plan.expected_refs[i].destination matches RefDestination::Step(
            b,
        ) && b < plan.steps.len()) implies ({
        let b = plan.expected_refs[i].destination->Step_0;
        let a = place_in(order, b, 0);
        0 <= a < order.len() && order[a] == b
    }) by {
        places_are_kept(order, plan.expected_refs[i].destination->Step_0, 0, plan.steps.len());
    }
}

/// A reference that the plan places stays there. One that follows goes to the last step that holds its commit, or
/// stays with its commit if that is not rewritten.
pub proof fn followers_go_with_their_commits(
    commits: Seq<CommitView>,
    plan: PlanView<PlanRef<Seq<u8>>>,
    generated: Seq<bool>,
    reference: PlanRef<Seq<u8>>,
)
    requires
        plan.steps.len() <= usize::MAX,
    ensures
        !(reference.destination is Follow) ==> settled(commits, plan, generated, reference) == Ok::<
            _,
            MergeError,
        >(reference),
        settled(commits, plan, generated, reference) matches Ok(found) ==> found.name
            == reference.name && found.source == reference.source && !(found.destination is Follow),
        reference.destination == (RefDestination::Follow { tip: false }) ==> {
            &&& (exists|k: int|
                0 <= k < plan.steps.len() && crate::plan::holds(
                    #[trigger] plan.steps[k],
                    reference.source,
                )) ==> (settled(commits, plan, generated, reference) matches Ok(found) && (
            found.destination matches RefDestination::Step(index) && crate::plan::holds(
                plan.steps[index as int],
                reference.source,
            )))
            &&& (forall|k: int|
                0 <= k < plan.steps.len() ==> !crate::plan::holds(
                    #[trigger] plan.steps[k],
                    reference.source,
                )) && !plan.scope.contains(reference.source) ==> (settled(
                commits,
                plan,
                generated,
                reference,
            ) matches Ok(found) && found.destination == RefDestination::Existing(reference.source))
        },
{
    crate::plan::position_bounds(plan.steps, reference.source, plan.steps.len() as int);
}

/// Whether an input of a merge can be removed from a selected commit: the commit is the merge itself, or the
/// input stands for it.
pub open spec fn removable(
    snapshot: SnapshotView,
    refs: ReferencesView,
    input: Input<Seq<u8>>,
    selected: ObjectId,
    from_merge: bool,
) -> bool {
    ||| from_merge
    ||| input.source is Change && input.commit_id == selected
    ||| resolved_input(refs, snapshot, input, Seq::empty(), None).0 == Ok::<_, MergeError>(
        Some(selected),
    )
}

/// What is offered to remove an input of a merge.
pub open spec fn removal_of(merge: MergeView, k: int, from_merge: bool) -> SelectionView {
    Selection {
        merge_commit_id: merge.id,
        change: Change::Remove(merge.inputs[k].source),
        label: removal_label(merge.inputs[k].source, merge.inputs, merge.id, from_merge),
    }
}

proof fn inputs_are_offered(
    snapshot: SnapshotView,
    refs: ReferencesView,
    merge: MergeView,
    selected: ObjectId,
    from_merge: bool,
    at: int,
    done: Seq<SelectionView>,
    offer: SelectionView,
)
    requires
        0 <= at <= merge.inputs.len(),
        removable_from(snapshot, refs, merge, selected, from_merge, at, done) is Ok,
    ensures
        ({
            let (all, next) = removable_from(
                snapshot,
                refs,
                merge,
                selected,
                from_merge,
                at,
                done,
            )->Ok_0;
            &&& all.contains(offer) <==> done.contains(offer) || exists|k: int|
                at <= k < merge.inputs.len() && removable(
                    snapshot,
                    refs,
                    #[trigger] merge.inputs[k],
                    selected,
                    from_merge,
                ) && offer == removal_of(merge, k, from_merge)
            &&& next.placements == refs.placements && next.candidates == refs.candidates
        }),
    decreases merge.inputs.len() - at,
{
    if at < merge.inputs.len() {
        let input = merge.inputs[at];
        let direct = from_merge || (input.source is Change && input.commit_id == selected);
        let ambiguous = if direct {
            refs.ambiguous
        } else {
            resolved_input(refs, snapshot, input, Seq::empty(), None).1
        };
        let known = ReferencesView { ambiguous, ..refs };
        let takes = removable(snapshot, refs, input, selected, from_merge);
        let next = if takes {
            done.push(removal_of(merge, at, from_merge))
        } else {
            done
        };
        inputs_are_offered(snapshot, known, merge, selected, from_merge, at + 1, next, offer);
        assert forall|k: int| at <= k < merge.inputs.len() implies removable(
            snapshot,
            known,
            #[trigger] merge.inputs[k],
            selected,
            from_merge,
        ) == removable(snapshot, refs, merge.inputs[k], selected, from_merge) by {
            noted_ambiguities_do_not_matter(
                snapshot,
                known,
                refs,
                merge.inputs[k],
                Seq::empty(),
                None,
            );
        }
        if takes {
            assert(next[done.len() as int] == removal_of(merge, at, from_merge));
            if done.contains(offer) {
                let k = done.index_of(offer);
                assert(next[k] == offer);
            }
            if next.contains(offer) && !done.contains(offer) {
                let k = next.index_of(offer);
                assert(k == done.len());
                assert(offer == removal_of(merge, at, from_merge));
                assert(merge.inputs[at] == input);
            }
        }
    }
}

/// Whether an offer is to remove an input of a merge that is looked at.
pub open spec fn offered(
    snapshot: SnapshotView,
    refs: ReferencesView,
    graph: GraphView,
    selected: ObjectId,
    from_merge: bool,
    from: int,
    offer: SelectionView,
) -> bool {
    exists|m: int, k: int|
        from <= m < graph.merges.len() && graph.scope.contains(graph.merges[m].id) && (from_merge
            ==> graph.merges[m].id == selected) && 0 <= k < graph.merges[m].inputs.len() && removable(
            snapshot,
            refs,
            #[trigger] graph.merges[m].inputs[k],
            selected,
            from_merge,
        ) && offer == removal_of(graph.merges[m], k, from_merge)
}

proof fn merges_are_offered(
    snapshot: SnapshotView,
    refs: ReferencesView,
    graph: GraphView,
    selected: ObjectId,
    from_merge: bool,
    at: int,
    done: Seq<SelectionView>,
    offer: SelectionView,
)
    requires
        0 <= at <= graph.merges.len(),
        removals_from(snapshot, refs, graph, selected, from_merge, at, done) is Ok,
    ensures
        removals_from(snapshot, refs, graph, selected, from_merge, at, done)->Ok_0.contains(offer)
            <==> done.contains(offer) || offered(
            snapshot,
            refs,
            graph,
            selected,
            from_merge,
            at,
            offer,
        ),
    decreases graph.merges.len() - at,
{
    if at < graph.merges.len() {
        let merge = graph.merges[at];
        if !graph.scope.contains(merge.id) || (from_merge && merge.id != selected) {
            merges_are_offered(snapshot, refs, graph, selected, from_merge, at + 1, done, offer);
        } else {
            let (more, next) = removable_from(
                snapshot,
                refs,
                merge,
                selected,
                from_merge,
                0,
                done,
            )->Ok_0;
            inputs_are_offered(snapshot, refs, merge, selected, from_merge, 0, done, offer);
            merges_are_offered(snapshot, next, graph, selected, from_merge, at + 1, more, offer);
            assert forall|m: int, k: int|
                0 <= m < graph.merges.len() && 0 <= k < graph.merges[m].inputs.len() implies removable(
                snapshot,
                next,
                #[trigger] graph.merges[m].inputs[k],
                selected,
                from_merge,
            ) == removable(snapshot, refs, graph.merges[m].inputs[k], selected, from_merge) by {
                noted_ambiguities_do_not_matter(
                    snapshot,
                    next,
                    refs,
                    graph.merges[m].inputs[k],
                    Seq::empty(),
                    None,
                );
            }
            if offered(snapshot, next, graph, selected, from_merge, at + 1, offer) {
                let (m, k) = choose|m: int, k: int|
                    at + 1 <= m < graph.merges.len() && graph.scope.contains(graph.merges[m].id) && (
                    from_merge ==> graph.merges[m].id == selected) && 0 <= k
                        < graph.merges[m].inputs.len() && removable(
                        snapshot,
                        next,
                        #[trigger] graph.merges[m].inputs[k],
                        selected,
                        from_merge,
                    ) && offer == removal_of(graph.merges[m], k, from_merge);
                assert(removable(
                    snapshot,
                    refs,
                    graph.merges[m].inputs[k],
                    selected,
                    from_merge,
                ));
            }
            if offered(snapshot, refs, graph, selected, from_merge, at, offer) {
                let (m, k) = choose|m: int, k: int|
                    at <= m < graph.merges.len() && graph.scope.contains(graph.merges[m].id) && (
                    from_merge ==> graph.merges[m].id == selected) && 0 <= k
                        < graph.merges[m].inputs.len() && removable(
                        snapshot,
                        refs,
                        #[trigger] graph.merges[m].inputs[k],
                        selected,
                        from_merge,
                    ) && offer == removal_of(graph.merges[m], k, from_merge);
                assert(removable(
                    snapshot,
                    next,
                    graph.merges[m].inputs[k],
                    selected,
                    from_merge,
                ));
                if m == at {
                    assert(merge.inputs[k] == graph.merges[m].inputs[k]);
                }
            }
            if exists|k: int|
                0 <= k < merge.inputs.len() && removable(
                    snapshot,
                    refs,
                    #[trigger] merge.inputs[k],
                    selected,
                    from_merge,
                ) && offer == removal_of(merge, k, from_merge) {
                let k = choose|k: int|
                    0 <= k < merge.inputs.len() && removable(
                        snapshot,
                        refs,
                        #[trigger] merge.inputs[k],
                        selected,
                        from_merge,
                    ) && offer == removal_of(merge, k, from_merge);
                assert(removable(snapshot, refs, graph.merges[at].inputs[k], selected, from_merge));
            }
        }
    }
}

proof fn selection_is_inserted(
    sorted: Seq<SelectionView>,
    selection: SelectionView,
    other: SelectionView,
)
    ensures
        inserted_selection(sorted, selection).contains(other) <==> sorted.contains(other) || other
            == selection,
    decreases sorted.len(),
{
    let all = inserted_selection(sorted, selection);
    if sorted.len() == 0 {
        assert(all[0] == selection);
    } else if selection.merge_commit_id.number() < sorted[0].merge_commit_id.number() {
        assert(all[0] == selection);
        if sorted.contains(other) {
            let i = sorted.index_of(other);
            assert(all[i + 1] == other);
        }
        if all.contains(other) {
            let i = all.index_of(other);
            if i > 0 {
                assert(sorted[i - 1] == other);
            }
        }
    } else {
        let rest = sorted.skip(1);
        selection_is_inserted(rest, selection, other);
        let tail = inserted_selection(rest, selection);
        assert(all[0] == sorted[0]);
        if all.contains(other) {
            let i = all.index_of(other);
            if i > 0 {
                assert(tail[i - 1] == other);
                if rest.contains(other) {
                    let k = rest.index_of(other);
                    assert(sorted[k + 1] == other);
                }
            }
        }
        if sorted.contains(other) {
            let i = sorted.index_of(other);
            if i > 0 {
                assert(rest[i - 1] == other);
            }
        }
        if tail.contains(other) {
            let k = tail.index_of(other);
            assert(all[k + 1] == other);
        }
    }
}

proof fn sorting_keeps_offers(selections: Seq<SelectionView>, offer: SelectionView)
    ensures
        sorted_selections(selections).contains(offer) <==> selections.contains(offer),
    decreases selections.len(),
{
    if selections.len() > 0 {
        let rest = selections.drop_last();
        sorting_keeps_offers(rest, offer);
        selection_is_inserted(sorted_selections(rest), selections.last(), offer);
        assert(selections[selections.len() - 1] == selections.last());
        if rest.contains(offer) {
            let i = rest.index_of(offer);
            assert(selections[i] == offer);
        }
        if selections.contains(offer) {
            let i = selections.index_of(offer);
            if i < rest.len() {
                assert(rest[i] == offer);
            }
        }
    }
}

/// What can be removed: from a selected merge each of its inputs, and from any other commit the inputs of all
/// merges of the scope that stand for it, whether muted or not; nothing else is offered.
pub proof fn inputs_of_the_commit_can_be_removed(
    snapshot: SnapshotView,
    graph: GraphView,
    selected: ObjectId,
    from_merge: bool,
    offer: SelectionView,
)
    requires
        removals_of(snapshot, graph, selected, from_merge) is Ok,
    ensures
        removals_of(snapshot, graph, selected, from_merge)->Ok_0.contains(offer) <==> offered(
            snapshot,
            ReferencesView {
                candidates: graph.bounded_history,
                placements: Seq::empty(),
                ambiguous: Seq::empty(),
            },
            graph,
            selected,
            from_merge,
            0,
            offer,
        ),
{
    let refs = ReferencesView {
        candidates: graph.bounded_history,
        placements: Seq::empty(),
        ambiguous: Seq::empty(),
    };
    merges_are_offered(snapshot, refs, graph, selected, from_merge, 0, Seq::empty(), offer);
    let found = removals_from(snapshot, refs, graph, selected, from_merge, 0, Seq::empty())->Ok_0;
    sorting_keeps_offers(found, offer);
}

proof fn moves_are_found(
    references: Seq<Reference<Seq<u8>>>,
    expected: Seq<PlanRef<Seq<u8>>>,
    name: Seq<u8>,
    at: int,
    found: bool,
)
    requires
        0 <= at <= expected.len(),
        moved_from(references, expected, name, at, found) is Ok,
    ensures
        moved_from(references, expected, name, at, found)->Ok_0 <==> found || exists|j: int|
            at <= j < expected.len() && follows_from(
                references,
                name,
                (#[trigger] expected[j]).name,
                Seq::empty(),
                references.len(),
            ) == Ok::<_, MergeError>(true),
    decreases expected.len() - at,
{
    if at < expected.len() {
        let now = follows_from(
            references,
            name,
            expected[at].name,
            Seq::empty(),
            references.len(),
        )->Ok_0;
        moves_are_found(references, expected, name, at + 1, found || now);
    }
}

/// Whether an input of a merge is a reference that a plan moves, or follows one that it moves.
pub open spec fn moves_input(
    references: Seq<Reference<Seq<u8>>>,
    expected: Seq<PlanRef<Seq<u8>>>,
    input: Input<Seq<u8>>,
) -> bool {
    input.source matches InputSource::Reference(name) && exists|j: int|
        0 <= j < expected.len() && follows_from(
            references,
            name,
            (#[trigger] expected[j]).name,
            Seq::empty(),
            references.len(),
        ) == Ok::<_, MergeError>(true)
}

proof fn moved_inputs_are_found(
    references: Seq<Reference<Seq<u8>>>,
    expected: Seq<PlanRef<Seq<u8>>>,
    inputs: Seq<Input<Seq<u8>>>,
    at: int,
)
    requires
        0 <= at <= inputs.len(),
        inputs_moved_from(references, expected, inputs, at) is Ok,
    ensures
        inputs_moved_from(references, expected, inputs, at)->Ok_0 <==> exists|i: int|
            at <= i < inputs.len() && moves_input(references, expected, #[trigger] inputs[i]),
    decreases inputs.len() - at,
{
    if at < inputs.len() {
        match inputs[at].source {
            InputSource::Change(_) => {
                moved_inputs_are_found(references, expected, inputs, at + 1);
            },
            InputSource::Reference(name) => {
                moves_are_found(references, expected, name, 0, false);
                if moved_from(references, expected, name, 0, false) == Ok::<_, MergeError>(false) {
                    moved_inputs_are_found(references, expected, inputs, at + 1);
                } else {
                    assert(moves_input(references, expected, inputs[at]));
                }
            },
        }
    }
}

proof fn joining_holds_both(ids: Seq<ObjectId>, more: Seq<ObjectId>, at: int, id: ObjectId)
    requires
        0 <= at <= more.len(),
    ensures
        joined_ids(ids, more, at).contains(id) <==> ids.contains(id) || exists|i: int|
            at <= i < more.len() && more[i] == id,
    decreases more.len() - at,
{
    if at < more.len() {
        let next = if ids.contains(more[at]) {
            ids
        } else {
            ids.push(more[at])
        };
        joining_holds_both(next, more, at + 1, id);
        if !ids.contains(more[at]) {
            assert(next[ids.len() as int] == more[at]);
            if ids.contains(id) {
                let k = ids.index_of(id);
                assert(next[k] == id);
            }
            if next.contains(id) && !ids.contains(id) {
                let k = next.index_of(id);
                assert(k == ids.len());
            }
        }
        if next.contains(id) && !ids.contains(id) {
            assert(more[at] == id);
        }
    }
}

/// A plan names its own commits and, of each merge of the scope with an input that the plan moves, the merge and
/// all that stands above it; and no others.
pub proof fn moved_inputs_name_their_merges(
    snapshot: SnapshotView,
    graph: GraphView,
    expected: Seq<PlanRef<Seq<u8>>>,
    at: int,
    affected: Seq<ObjectId>,
    id: ObjectId,
)
    requires
        0 <= at <= graph.merges.len(),
        named_from(snapshot, graph, expected, at, affected) is Ok,
    ensures
        named_from(snapshot, graph, expected, at, affected)->Ok_0.contains(id) <==> affected.contains(
            id,
        ) || exists|m: int|
            at <= m < graph.merges.len() && named_by(
                snapshot,
                graph,
                expected,
                #[trigger] graph.merges[m],
                id,
            ),
    decreases graph.merges.len() - at,
{
    if at < graph.merges.len() {
        let merge = graph.merges[at];
        if !graph.scope.contains(merge.id) {
            moved_inputs_name_their_merges(snapshot, graph, expected, at + 1, affected, id);
        } else {
            moved_inputs_are_found(snapshot.references, expected, merge.inputs, 0);
            let found = inputs_moved_from(snapshot.references, expected, merge.inputs, 0)->Ok_0;
            let next = if found {
                joined_ids(affected, merge.descendants, 0)
            } else {
                affected
            };
            joining_holds_both(affected, merge.descendants, 0, id);
            moved_inputs_name_their_merges(snapshot, graph, expected, at + 1, next, id);
            assert(graph.merges[at] == merge);
        }
    }
}

/// Whether a merge of the scope has an input that a plan moves, and a commit stands above it.
pub open spec fn named_by(
    snapshot: SnapshotView,
    graph: GraphView,
    expected: Seq<PlanRef<Seq<u8>>>,
    merge: MergeView,
    id: ObjectId,
) -> bool {
    &&& graph.scope.contains(merge.id)
    &&& exists|k: int|
        0 <= k < merge.inputs.len() && moves_input(
            snapshot.references,
            expected,
            #[trigger] merge.inputs[k],
        )
    &&& exists|i: int| 0 <= i < merge.descendants.len() && merge.descendants[i] == id
}

/// Where the plan puts a reference: at what a step produced, at a commit that exists, or nowhere if it goes. A
/// step that produced nothing yet, and a reference that still follows another, are refused.
pub proof fn destinations_lead_to_commits(destination: RefDestination, produced: Seq<ObjectId>)
    ensures
        ({
            let found = crate::auto_merge::resolve::resolved_destination(destination, produced);
            &&& destination matches RefDestination::Existing(id) ==> found == Ok::<_, MergeError>(
                Some(id),
            )
            &&& destination matches RefDestination::Step(index) ==> (found is Ok <==> index
                < produced.len()) && (found matches Ok(id) ==> id == Some(produced[index as int]))
            &&& destination is Delete ==> found == Ok::<_, MergeError>(None::<ObjectId>)
            &&& destination is Follow ==> found is Err
        }),
{
}

/// What a plan does to a reference is what it says of it first.
pub proof fn plans_place_by_name(references: Seq<PlanRef<Seq<u8>>>, name: Seq<u8>, from: int)
    requires
        0 <= from,
    ensures
        forall|i: int|
            from <= i < references.len() && (#[trigger] references[i]).name == name && (forall|j: int|
                from <= j < i ==> (#[trigger] references[j]).name != name)
                ==> crate::auto_merge::resolve::destination_from(references, name, from) == Some(
                references[i].destination,
            ),
        crate::auto_merge::resolve::destination_from(references, name, from) is None <==> forall|
            i: int,
        | from <= i < references.len() ==> (#[trigger] references[i]).name != name,
    decreases references.len() - from,
{
    if from < references.len() && references[from].name != name {
        plans_place_by_name(references, name, from + 1);
    }
}

/// Tags and remote-tracking branches never change on account of an edit; branches, pins and changes do.
pub proof fn tags_and_remotes_are_fixed(name: Seq<u8>)
    ensures
        crate::auto_merge::definition::fixed(name) <==> category_of(name) == Category::Tag
            || category_of(name) == Category::RemoteBranch,
        category_of(name) == Category::LocalBranch || category_of(name) == Category::Other
            ==> !crate::auto_merge::definition::fixed(name),
{
}

/// A reference that the plan places leads where the plan puts it. Any other leads where it is; if that was
/// rewritten it leads to what became of it, but not if it is a tag or a remote-tracking branch.
pub proof fn references_lead_to_commits(
    snapshot: SnapshotView,
    name: Seq<u8>,
    rewritten: Seq<Rewrite>,
    planned: Option<PlannedView>,
)
    ensures
        ({
            let found = resolved_reference(snapshot, name, rewritten, planned);
            let placed = match planned {
                Some(plan) => crate::auto_merge::resolve::destination_from(plan.references, name, 0),
                None => None,
            };
            &&& placed matches Some(destination) ==> found
                == crate::auto_merge::resolve::resolved_destination(
                destination,
                planned->Some_0.produced,
            )
            &&& placed is None && state_of(snapshot.references, name) is Missing ==> found == Ok::<
                _,
                MergeError,
            >(None::<ObjectId>)
            &&& placed is None ==> (state_of(snapshot.references, name) matches State::Object(id)
                ==> {
                let fixed = category_of(name) == Category::Tag || category_of(name)
                    == Category::RemoteBranch;
                let now = if fixed {
                    Some(id)
                } else {
                    mapping(rewritten, id)
                };
                &&& now is None ==> found == Ok::<_, MergeError>(None::<ObjectId>)
                &&& now matches Some(id) ==> match crate::auto_merge::resolve::peeled_from(
                    snapshot.peeled,
                    id,
                    0,
                ) {
                    Some(commit_id) => found == Ok::<_, MergeError>(Some(commit_id)),
                    None => found is Err,
                }
            })
        }),
{
}

/// Where a decoration shows a reference: at the first that does, and nowhere if none does. A pin is where the pins
/// say.
pub proof fn decorations_tell_tips(
    decorations: Seq<Decoration<Seq<u8>>>,
    pins: Seq<Candidate<Seq<u8>>>,
    reference: Seq<u8>,
    from: int,
)
    requires
        0 <= from,
    ensures
        match crate::auto_merge::choices::shown_from(decorations, reference, from) {
            Some(id) => exists|i: int|
                from <= i < decorations.len() && shows(#[trigger] decorations[i], reference)
                    && decorations[i].commit_id == id && forall|j: int|
                    from <= j < i ==> !shows(#[trigger] decorations[j], reference),
            None => forall|i: int|
                from <= i < decorations.len() ==> !shows(#[trigger] decorations[i], reference),
        },
        (forall|i: int| from <= i < pins.len() ==> (#[trigger] pins[i]).name != reference)
            ==> crate::auto_merge::choices::pinned_from(pins, reference, from) is None,
        forall|i: int|
            from <= i < pins.len() && (#[trigger] pins[i]).name == reference && (forall|j: int|
                from <= j < i ==> (#[trigger] pins[j]).name != reference)
                ==> crate::auto_merge::choices::pinned_from(pins, reference, from)
                == pins[i].commit_id,
    decreases decorations.len() + pins.len() - from,
{
    if from < decorations.len() + pins.len() {
        decorations_tell_tips(decorations, pins, reference, from + 1);
        if from < decorations.len() {
            if shows(decorations[from], reference) {
                assert(decorations[from].commit_id == crate::auto_merge::choices::shown_from(
                    decorations,
                    reference,
                    from,
                )->Some_0);
            } else if let Some(id) = crate::auto_merge::choices::shown_from(
                decorations,
                reference,
                from + 1,
            ) {
                let i = choose|i: int|
                    from + 1 <= i < decorations.len() && shows(#[trigger] decorations[i], reference)
                        && decorations[i].commit_id == id && forall|j: int|
                        from + 1 <= j < i ==> !shows(#[trigger] decorations[j], reference);
                assert(shows(decorations[i], reference));
            }
        }
    }
}

/// A commit that is no merge tracks nothing; a merge tracks what its inputs do.
pub proof fn only_merges_track(
    references: Seq<Reference<Seq<u8>>>,
    headers: Seq<Header<Seq<u8>>>,
    reference: Seq<u8>,
)
    ensures
        !automatic(headers) ==> crate::auto_merge::choices::tracks(references, headers, reference)
            == Ok::<_, MergeError>(false),
        definition_of(headers) matches Ok(Some(inputs)) ==> crate::auto_merge::choices::tracks(
            references,
            headers,
            reference,
        ) == tracks_from(references, inputs, reference, 0),
        definition_of(headers) is Err ==> crate::auto_merge::choices::tracks(
            references,
            headers,
            reference,
        ) is Err,
{
    merges_list_inputs(headers);
}

/// A pin is an input if and only if some merge has it as one, muted or not.
pub proof fn pins_are_inputs_of_merges(merges: Seq<MergeView>, name: Seq<u8>, m: int, i: int)
    ensures
        0 <= m < merges.len() && 0 <= i < merges[m].inputs.len() && merges[m].inputs[i].source
            == InputSource::Reference(name) && has_prefix(name, PIN_PREFIX.spec_bytes())
            ==> crate::auto_merge::choices::pin_is_input(merges, name),
        crate::auto_merge::choices::pin_is_input(merges, name) ==> has_prefix(
            name,
            PIN_PREFIX.spec_bytes(),
        ),
{
}

/// Whether a merge waits for what one of its inputs stands for: the step that its reference is placed at, or the step
/// that its commit ends up in if that still holds the change of the input. The commit is noted to have gone there, or
/// to be gone.
pub open spec fn waited_for(
    setting: Setting,
    input: Input<Seq<u8>>,
    waits: Seq<usize>,
    placed: Seq<Placement>,
) -> bool {
    let steps = setting.plan.steps;
    let gone = Placement { commit_id: input.commit_id, destination: RefDestination::Delete };
    match input.source {
        InputSource::Reference(name) => crate::auto_merge::resolve::destination_from(
            setting.plan.expected_refs,
            name,
            0,
        ) matches Some(RefDestination::Step(index)) ==> waits.contains(index),
        InputSource::Change(change) => setting.plan.scope.contains(input.commit_id) ==> match position(
            steps,
            input.commit_id,
            steps.len() as int,
        ) {
            None => placed.contains(gone),
            Some(index) => match crate::plan::kept(steps[index as int].commit) {
                None => placed.contains(gone),
                Some(id) => commit_of(setting.snapshot.commits, id) matches Some(commit) && if commit.change
                    == change {
                    waits.contains(index) && placed.contains(
                        Placement {
                            commit_id: input.commit_id,
                            destination: RefDestination::Step(index),
                        },
                    )
                } else {
                    placed.contains(gone)
                },
            },
        },
    }
}

proof fn pushed_are_kept<T>(all: Seq<T>, item: T)
    ensures
        all.push(item).contains(item),
        forall|x: T| all.contains(x) ==> #[trigger] all.push(item).contains(x),
{
    assert(all.push(item)[all.len() as int] == item);
    assert forall|x: T| all.contains(x) implies #[trigger] all.push(item).contains(x) by {
        let i = choose|i: int| 0 <= i < all.len() && all[i] == x;
        assert(all.push(item)[i] == x);
    }
}

proof fn inputs_are_waited_for(
    setting: Setting,
    inputs: Seq<Input<Seq<u8>>>,
    at: int,
    parents: Seq<usize>,
    placed: Seq<Placement>,
    ambiguous: Seq<Ambiguity>,
)
    requires
        0 <= at <= inputs.len(),
        inputs_add(setting, inputs, at, parents, placed, ambiguous) is Ok,
    ensures
        ({
            let found = inputs_add(setting, inputs, at, parents, placed, ambiguous)->Ok_0;
            &&& forall|x: usize| parents.contains(x) ==> #[trigger] found.0.contains(x)
            &&& forall|x: Placement| placed.contains(x) ==> #[trigger] found.1.contains(x)
            &&& forall|k: int|
                at <= k < inputs.len() ==> waited_for(
                    setting,
                    #[trigger] inputs[k],
                    found.0,
                    found.1,
                )
        }),
    decreases inputs.len() - at,
{
    if at < inputs.len() {
        let found = inputs_add(setting, inputs, at, parents, placed, ambiguous)->Ok_0;
        let (next_parents, next_placed, next_ambiguous) = match inputs[at].source {
            InputSource::Change(change) => crate::auto_merge::order::change_input(
                setting,
                inputs[at],
                change,
                parents,
                placed,
                ambiguous,
            )->Ok_0,
            InputSource::Reference(name) => (
                match crate::auto_merge::order::reference_step(
                    setting,
                    name,
                    Seq::empty(),
                    setting.snapshot.references.len(),
                )->Ok_0 {
                    Some(index) => parents.push(index),
                    None => parents,
                },
                placed,
                ambiguous,
            ),
        };
        inputs_are_waited_for(setting, inputs, at + 1, next_parents, next_placed, next_ambiguous);
        if next_parents.len() > parents.len() {
            assert(next_parents == parents.push(next_parents.last()));
            pushed_are_kept(parents, next_parents.last());
        }
        if next_placed.len() > placed.len() {
            assert(next_placed == placed.push(next_placed.last()));
            pushed_are_kept(placed, next_placed.last());
        }
        assert(waited_for(setting, inputs[at], next_parents, next_placed));
        assert(waited_for(setting, inputs[at], found.0, found.1));
    }
}

/// Whether a step waits for what it needs: a merge for its inputs, and any other step for the one that it continues.
/// Nothing can be squashed into a merge.
pub open spec fn waits_for_its_parents(
    setting: Setting,
    step: StepView,
    waits: Seq<usize>,
    placed: Seq<Placement>,
) -> bool {
    match step_inputs(setting.snapshot.commits, step) {
        Err(_) => false,
        Ok(None) => match step.parent {
            PlanParent::Step(index) => waits == seq![index],
            PlanParent::Existing(_) => waits.len() == 0,
        },
        Ok(Some(inputs)) => step.squash.len() == 0 && forall|k: int|
            0 <= k < inputs.len() ==> waited_for(setting, #[trigger] inputs[k], waits, placed),
    }
}

proof fn steps_wait(setting: Setting, at: int, before: Gathered)
    requires
        0 <= at <= setting.plan.steps.len(),
        before.dependencies.len() == at,
        gathered_from(setting, at, before) is Ok,
    ensures
        ({
            let all = gathered_from(setting, at, before)->Ok_0;
            &&& all.dependencies.len() == setting.plan.steps.len()
            &&& forall|i: int|
                0 <= i < at ==> #[trigger] all.dependencies[i] == before.dependencies[i]
            &&& forall|x: Placement| before.placed.contains(x) ==> #[trigger] all.placed.contains(x)
            &&& forall|i: int|
                at <= i < setting.plan.steps.len() ==> waits_for_its_parents(
                    setting,
                    #[trigger] setting.plan.steps[i],
                    all.dependencies[i],
                    all.placed,
                )
        }),
    decreases setting.plan.steps.len() - at,
{
    if at < setting.plan.steps.len() {
        let step = setting.plan.steps[at];
        let next = crate::auto_merge::order::step_adds(setting, step, before)->Ok_0;
        let all = gathered_from(setting, at, before)->Ok_0;
        if let Ok(Some(inputs)) = step_inputs(setting.snapshot.commits, step) {
            inputs_are_waited_for(setting, inputs, 0, Seq::empty(), before.placed, before.ambiguous);
        }
        steps_wait(setting, at + 1, next);
        assert(all.dependencies[at] == next.dependencies[at]);
        assert(waits_for_its_parents(setting, step, next.dependencies[at], next.placed));
        assert(waits_for_its_parents(setting, step, all.dependencies[at], all.placed));
        assert forall|i: int| 0 <= i < at implies #[trigger] all.dependencies[i]
            == before.dependencies[i] by {
            assert(next.dependencies[i] == before.dependencies[i]);
        }
    }
}

/// Each step of a plan waits for what it is made from.
pub proof fn merges_come_behind_their_inputs(setting: Setting)
    ensures
        gathered(setting) matches Ok(all) ==> all.dependencies.len() == setting.plan.steps.len() && (
        forall|i: int|
            0 <= i < setting.plan.steps.len() ==> waits_for_its_parents(
                setting,
                #[trigger] setting.plan.steps[i],
                all.dependencies[i],
                all.placed,
            )),
{
    if gathered(setting) is Ok {
        steps_wait(
            setting,
            0,
            Gathered {
                dependencies: Seq::empty(),
                placed: Seq::empty(),
                ambiguous: setting.refs.ambiguous,
            },
        );
    }
}

/// Which steps are merges: those that pick a commit that lists inputs.
pub proof fn picked_merges_are_known(
    commits: Seq<CommitView>,
    steps: Seq<StepView>,
    at: int,
    done: Seq<bool>,
)
    requires
        0 <= at <= steps.len(),
        done.len() == at,
    ensures
        generated_from(commits, steps, at, done) matches Ok(all) ==> all.len() == steps.len() && (
        forall|i: int| 0 <= i < at ==> #[trigger] all[i] == done[i]) && (forall|i: int|
            at <= i < steps.len() ==> (#[trigger] all[i] <==> (steps[i].commit matches PlanCommit::Pick(
                id,
            ) && (commit_of(commits, id) matches Some(commit) && exists|k: int|
                0 <= k < commit.headers.len() && (#[trigger] commit.headers[k]).name
                    == HEADER.spec_bytes())))),
    decreases steps.len() - at,
{
    if at < steps.len() && generated_from(commits, steps, at, done) is Ok {
        let flag = match steps[at].commit {
            PlanCommit::Pick(id) => automatic(commit_of(commits, id)->Some_0.headers),
            _ => false,
        };
        picked_merges_are_known(commits, steps, at + 1, done.push(flag));
        let all = generated_from(commits, steps, at, done)->Ok_0;
        assert(all[at] == done.push(flag)[at]);
        assert forall|i: int| 0 <= i < at implies #[trigger] all[i] == done[i] by {
            assert(all[i] == done.push(flag)[i]);
        }
    }
}

proof fn no_child_is_left(steps: Seq<StepView>, generated: Seq<bool>, place: PlanParent, from: int)
    requires
        0 <= from,
    ensures
        child_from(steps, generated, place, from) is None ==> forall|i: int|
            from <= i < steps.len() && (#[trigger] steps[i]).parent == place ==> generated[i],
    decreases steps.len() - from,
{
    if from < steps.len() && child_from(steps, generated, place, from) is None {
        no_child_is_left(steps, generated, place, from + 1);
    }
}

/// A reference that follows the tip of a stack ends where no step continues, but for merges.
pub proof fn tips_have_nothing_on_top(
    steps: Seq<StepView>,
    generated: Seq<bool>,
    place: PlanParent,
    followed: Seq<usize>,
    left: nat,
)
    ensures
        tip_from(steps, generated, place, followed, left) matches Ok(tip) ==> forall|i: int|
            0 <= i < steps.len() && (#[trigger] steps[i]).parent == tip ==> generated[i],
    decreases left,
{
    no_child_is_left(steps, generated, place, 0);
    if let Some(index) = child_from(steps, generated, place, 0) {
        if left > 0 {
            tips_have_nothing_on_top(
                steps,
                generated,
                PlanParent::Step(index as usize),
                followed.push(index as usize),
                (left - 1) as nat,
            );
        }
    }
}

/// A reference at a commit that is dropped goes to the parent of that commit, or what becomes of it; to where the
/// rebase starts if there is no parent.
pub proof fn references_of_dropped_commits_go_down(
    commits: Seq<CommitView>,
    plan: PlanView<PlanRef<Seq<u8>>>,
    id: ObjectId,
    parent: Option<ObjectId>,
)
    requires
        plan.steps.len() <= usize::MAX,
        plan.scope.contains(id),
        forall|k: int| 0 <= k < plan.steps.len() ==> !crate::plan::holds(#[trigger] plan.steps[k], id),
        commit_of(commits, id) matches Some(commit) && (match parent {
            Some(parent) => commit.parents.len() > 0 && commit.parents[0] == parent && parent != id,
            None => commit.parents.len() == 0,
        }),
    ensures
        ({
            let place = landing_from(commits, plan, id, Seq::empty(), plan.scope.len());
            match parent {
                None => place == Ok::<_, MergeError>(PlanParent::Existing(plan.base)),
                Some(parent) => {
                    &&& (exists|k: int|
                        0 <= k < plan.steps.len() && crate::plan::holds(
                            #[trigger] plan.steps[k],
                            parent,
                        )) ==> (place matches Ok(PlanParent::Step(index)) && index < plan.steps.len()
                        && crate::plan::holds(plan.steps[index as int], parent))
                    &&& (forall|k: int|
                        0 <= k < plan.steps.len() ==> !crate::plan::holds(
                            #[trigger] plan.steps[k],
                            parent,
                        )) && !plan.scope.contains(parent) ==> place == Ok::<_, MergeError>(
                        PlanParent::Existing(parent),
                    )
                },
            }
        }),
{
    let end = plan.steps.len() as int;
    crate::plan::position_bounds(plan.steps, id, end);
    if let Some(parent) = parent {
        crate::plan::position_bounds(plan.steps, parent, end);
        let seen = Seq::<ObjectId>::empty().push(id);
        assert(!seen.contains(parent));
        assert(plan.scope.len() > 0);
        assert(landing_from(commits, plan, id, Seq::empty(), plan.scope.len()) == landing_from(
            commits,
            plan,
            parent,
            seen,
            (plan.scope.len() - 1) as nat,
        ));
    }
}

/// A commit is part of itself and of those with which it is the best common ancestor.
pub proof fn ancestors_are_their_own_bases(
    bases: Seq<MergeBase>,
    ancestor: ObjectId,
    descendant: ObjectId,
    at: int,
)
    requires
        0 <= at < bases.len(),
        bases[at].one == ancestor && bases[at].other == descendant,
        forall|i: int|
            0 <= i < at ==> !((#[trigger] bases[i]).one == ancestor && bases[i].other == descendant),
    ensures
        containing(bases, ancestor, descendant) == Ok::<_, MergeError>(
            ancestor == descendant || bases[at].base == Some(ancestor),
        ),
{
    first_bases_count(bases, ancestor, descendant, 0, at);
}

proof fn first_bases_count(
    bases: Seq<MergeBase>,
    one: ObjectId,
    other: ObjectId,
    from: int,
    at: int,
)
    requires
        0 <= from <= at < bases.len(),
        bases[at].one == one && bases[at].other == other,
        forall|i: int| from <= i < at ==> !((#[trigger] bases[i]).one == one && bases[i].other == other),
    ensures
        crate::auto_merge::prepare::base_from(bases, one, other, from) == Some(bases[at].base),
    decreases at - from,
{
    if from < at {
        first_bases_count(bases, one, other, from + 1, at);
    }
}

/// A merge never follows a commit that it is part of.
pub proof fn merges_do_not_follow_themselves(
    snapshot: SnapshotView,
    bases: Seq<MergeBase>,
    merge: ObjectId,
    inputs: Seq<Input<Seq<u8>>>,
    at: int,
    done: Seq<ObjectId>,
    refs: ReferencesView,
)
    requires
        0 <= at,
        forall|i: int|
            0 <= i < done.len() ==> containing(bases, merge, #[trigger] done[i]) == Ok::<_, MergeError>(
                false,
            ),
    ensures
        tracked_from(snapshot, bases, merge, inputs, at, done, refs) matches Ok(found) ==> (
        forall|i: int|
            0 <= i < found.0.len() ==> containing(bases, merge, #[trigger] found.0[i]) == Ok::<
                _,
                MergeError,
            >(false) && found.0[i] != merge) && found.0.len() >= done.len() && found.0.len()
            <= done.len() + (if at < inputs.len() {
            inputs.len() - at
        } else {
            0
        }),
        at < inputs.len() && (resolved_input(refs, snapshot, inputs[at], Seq::empty(), None).0 matches Ok(
            Some(id),
        ) && (id == merge || containing(bases, merge, id) == Ok::<_, MergeError>(true)))
            ==> tracked_from(snapshot, bases, merge, inputs, at, done, refs) is Err,
    decreases inputs.len() - at,
{
    if at < inputs.len() {
        let (result, ambiguous) = resolved_input(refs, snapshot, inputs[at], Seq::empty(), None);
        let next = ReferencesView { ambiguous, ..refs };
        match result {
            Err(_) => {},
            Ok(None) => {
                merges_do_not_follow_themselves(snapshot, bases, merge, inputs, at + 1, done, next);
            },
            Ok(Some(id)) => {
                if containing(bases, merge, id) == Ok::<_, MergeError>(false) {
                    merges_do_not_follow_themselves(
                        snapshot,
                        bases,
                        merge,
                        inputs,
                        at + 1,
                        done.push(id),
                        next,
                    );
                }
            },
        }
    }
}

/// The title of a merge has one mark and label for each of its inputs, in their order, with spaces between.
pub proof fn titles_list_the_inputs(inputs: Seq<Input<Seq<u8>>>, input: Input<Seq<u8>>)
    ensures
        title_of(Seq::<Input<Seq<u8>>>::empty()).len() == 0,
        title_of(inputs.push(input)) == title_of(inputs) + (if title_of(inputs).len() > 0 {
            seq![32u8]
        } else {
            Seq::empty()
        }) + (if input.muted {
            "💥 ".spec_bytes()
        } else {
            "✔️ ".spec_bytes()
        }) + label_of(input.source),
        input.source matches InputSource::Reference(name) ==> {
            &&& has_prefix(name, PIN_PREFIX.spec_bytes()) ==> label_of(input.source)
                == "📌".spec_bytes()
            &&& category_of(name) == Category::LocalBranch || category_of(name)
                == Category::RemoteBranch ==> has_prefix(name, PIN_PREFIX.spec_bytes()) || label_of(
                input.source,
            ) == short_name(name)
        },
{
    assert(inputs.push(input).drop_last() == inputs);
}

/// How a header lists an input: the version, the commit, whether the input is left out, and what it follows, with
/// spaces between.
pub proof fn inputs_are_written_out(input: Input<Seq<u8>>)
    ensures
        value_of(input) == "1".spec_bytes() + seq![32u8] + crate::ids::hex_of(input.commit_id) + seq![
            32u8,
        ] + (if input.muted {
            "muted".spec_bytes()
        } else {
            "included".spec_bytes()
        }) + seq![32u8] + (match input.source {
            InputSource::Reference(name) => name,
            InputSource::Change(change) => "change-id ".spec_bytes() + crate::ids::reverse_hex_of(change),
        }),
{
}

} // verus!
