//! What can be added to automatic merges and removed from them.
use vstd::prelude::*;
use vstd::string::StringSliceAdditionalSpecFns;
use crate::auto_merge::definition::{
    allowed, allowed_ref, definition_of, label_of, title_of, Definition, Header, Input, InputSource,
};
use crate::auto_merge::prepare::{containing, contains, Graph, GraphView, Merge, MergeBase, MergeView};
use crate::auto_merge::resolve::{
    resolved_input, References, ReferencesView, Rewrite, Snapshot, SnapshotView,
};
use crate::auto_merge::MergeError;
use crate::bytes;
use crate::bytes::{before, has_prefix, is_before, without_prefix};
use crate::ids::{contains_id, hex_of, reverse_hex_of, ChangeId, ObjectId};
use crate::names::{category_of, short_name, Category, FullName, PIN_PREFIX};
use crate::plan::{copy_ids, viewed, viewed_push};
use crate::refs::{contains_name, find_state, state_of, Reference, State};
use crate::text::{lossy, to_str_lossy};

verus! {

/// A reference that an automatic merge can follow.
#[derive(PartialEq, Eq, Debug)]
pub struct Choice<N, T> {
    pub reference: N,
    pub commit_id: ObjectId,
    pub label: T,
}

/// A choice in specifications.
pub type ChoiceView = Choice<Seq<u8>, Seq<u8>>;

impl<N: View, T: View> View for Choice<N, T> {
    type V = Choice<N::V, T::V>;

    open spec fn view(&self) -> Choice<N::V, T::V> {
        Choice { reference: self.reference@, commit_id: self.commit_id, label: self.label@ }
    }
}

/// A reference and the commit that it leads to, if it leads to one.
#[derive(PartialEq, Eq, Debug)]
pub struct Candidate<N> {
    pub name: N,
    pub commit_id: Option<ObjectId>,
}

impl<N: View> View for Candidate<N> {
    type V = Candidate<N::V>;

    open spec fn view(&self) -> Candidate<N::V> {
        Candidate { name: self.name@, commit_id: self.commit_id }
    }
}

/// What precedes the name of a pin in a label.
pub const PIN_LABEL: &'static str = "📌 ";

/// What separates the parts of a label.
pub const SEPARATOR: &'static str = " · ";

/// The label of a reference that an automatic merge can follow.
pub open spec fn choice_label(name: Seq<u8>, commit_id: ObjectId) -> Seq<u8> {
    match without_prefix(name, PIN_PREFIX.spec_bytes()) {
        Some(rest) => PIN_LABEL.spec_bytes() + lossy(rest) + SEPARATOR.spec_bytes() + hex_of(
            commit_id,
        ).take(7),
        None => if category_of(name) == Category::Tag {
            "tag: ".spec_bytes() + lossy(short_name(name))
        } else {
            lossy(short_name(name))
        },
    }
}

fn short_hex(id: ObjectId) -> (r: Vec<u8>)
    ensures
        r@ == hex_of(id).take(7),
{
    let hex = id.to_hex();
    proof {
        crate::ids::hex_round_trip(id);
    }
    bytes::copied(bytes::head_of(hex.as_slice(), 7))
}

fn write_choice_label(name: &FullName, commit_id: ObjectId) -> (r: Vec<u8>)
    ensures
        r@ == choice_label(name@, commit_id),
{
    if let Some(rest) = bytes::strip_prefix(name.as_bytes(), PIN_PREFIX.as_bytes()) {
        let mut out = bytes::copied(PIN_LABEL.as_bytes());
        let shown = to_str_lossy(rest);
        bytes::append(&mut out, shown.as_slice());
        bytes::append(&mut out, SEPARATOR.as_bytes());
        let hex = short_hex(commit_id);
        bytes::append(&mut out, hex.as_slice());
        return out;
    }
    let short = name.shorten();
    let shown = to_str_lossy(short.as_slice());
    if name.category() == Category::Tag {
        bytes::joined("tag: ".as_bytes(), shown.as_slice())
    } else {
        shown
    }
}

/// The rank of a reference among choices: local branches, then pins, then remote-tracking
/// branches, then tags.
pub open spec fn rank_of(name: Seq<u8>) -> nat {
    match category_of(name) {
        Category::LocalBranch => 0,
        Category::RemoteBranch => 2,
        Category::Tag => 3,
        Category::Other => 1,
    }
}

fn rank(name: &FullName) -> (r: u8)
    ensures
        r == rank_of(name@),
{
    match name.category() {
        Category::LocalBranch => 0,
        Category::RemoteBranch => 2,
        Category::Tag => 3,
        Category::Other => 1,
    }
}

/// Whether a reference comes before another among choices.
pub open spec fn precedes(a: Seq<u8>, b: Seq<u8>) -> bool {
    rank_of(a) < rank_of(b) || (rank_of(a) == rank_of(b) && before(a, b))
}

fn is_preceding(a: &FullName, b: &FullName) -> (r: bool)
    ensures
        r == precedes(a@, b@),
{
    let rank_a: u8 = rank(a);
    let rank_b: u8 = rank(b);
    rank_a < rank_b || (rank_a == rank_b && is_before(a.as_bytes(), b.as_bytes()))
}

/// Sorted choices with one more, behind those that do not come after it.
pub open spec fn inserted_choice(sorted: Seq<ChoiceView>, choice: ChoiceView) -> Seq<ChoiceView>
    decreases sorted.len(),
{
    if sorted.len() == 0 {
        seq![choice]
    } else if precedes(choice.reference, sorted[0].reference) {
        seq![choice] + sorted
    } else {
        seq![sorted[0]] + inserted_choice(sorted.skip(1), choice)
    }
}

proof fn inserted_choice_at(sorted: Seq<ChoiceView>, choice: ChoiceView, at: int)
    requires
        0 <= at <= sorted.len(),
        forall|i: int|
            0 <= i < at ==> !precedes(choice.reference, (#[trigger] sorted[i]).reference),
        at < sorted.len() ==> precedes(choice.reference, sorted[at].reference),
    ensures
        inserted_choice(sorted, choice) == sorted.insert(at, choice),
    decreases sorted.len(),
{
    if sorted.len() == 0 || precedes(choice.reference, sorted[0].reference) {
        assert(at == 0);
        assert(inserted_choice(sorted, choice) == sorted.insert(at, choice));
    } else {
        assert forall|i: int| 0 <= i < at - 1 implies !precedes(
            choice.reference,
            (#[trigger] sorted.skip(1)[i]).reference,
        ) by {
            assert(sorted.skip(1)[i] == sorted[i + 1]);
        }
        inserted_choice_at(sorted.skip(1), choice, at - 1);
        assert(inserted_choice(sorted, choice) == sorted.insert(at, choice));
    }
}

fn insert_choice(choices: &mut Vec<Choice<FullName, Vec<u8>>>, choice: Choice<FullName, Vec<u8>>)
    ensures
        viewed(final(choices)@) == inserted_choice(viewed(old(choices)@), choice@),
{
    let mut i: usize = 0;
    let ghost all = viewed(choices@);
    while i < choices.len() && !is_preceding(&choice.reference, &choices[i].reference)
        invariant
            all == viewed(choices@),
            choices@ == old(choices)@,
            i <= choices@.len(),
            forall|j: int|
                0 <= j < i ==> !precedes(choice@.reference, (#[trigger] all[j]).reference),
        decreases choices.len() - i,
    {
        assert(all[i as int] == choices@[i as int]@);
        i = i + 1;
    }
    proof {
        if i < choices@.len() {
            assert(all[i as int] == choices@[i as int]@);
        }
        inserted_choice_at(all, choice@, i as int);
    }
    let ghost added = choice@;
    choices.insert(i, choice);
    assert(viewed(choices@) == all.insert(i as int, added));
}

/// The references that an automatic merge can follow, in order.
pub open spec fn choices_of(candidates: Seq<Candidate<Seq<u8>>>) -> Seq<ChoiceView>
    decreases candidates.len(),
{
    if candidates.len() == 0 {
        Seq::empty()
    } else {
        let sorted = choices_of(candidates.drop_last());
        let candidate = candidates.last();
        match candidate.commit_id {
            Some(commit_id) if allowed(candidate.name) => inserted_choice(
                sorted,
                Choice {
                    reference: candidate.name,
                    commit_id,
                    label: choice_label(candidate.name, commit_id),
                },
            ),
            _ => sorted,
        }
    }
}

/// The references that an automatic merge can follow, in order.
pub fn choices(candidates: &Vec<Candidate<FullName>>) -> (r: Vec<Choice<FullName, Vec<u8>>>)
    ensures
        viewed(r@) == choices_of(viewed(candidates@)),
{
    let mut out: Vec<Choice<FullName, Vec<u8>>> = Vec::new();
    let mut i: usize = 0;
    assert(viewed(candidates@).take(0) == Seq::<Candidate<Seq<u8>>>::empty());
    assert(viewed(out@) == Seq::<ChoiceView>::empty());
    while i < candidates.len()
        invariant
            i <= candidates@.len(),
            viewed(out@) == choices_of(viewed(candidates@).take(i as int)),
        decreases candidates.len() - i,
    {
        let candidate = &candidates[i];
        assert(viewed(candidates@).take(i + 1).drop_last() == viewed(candidates@).take(i as int));
        if allowed_ref(candidate.name.as_bytes()) {
            if let Some(commit_id) = candidate.commit_id {
                let label = write_choice_label(&candidate.name, commit_id);
                insert_choice(
                    &mut out,
                    Choice { reference: candidate.name.clone(), commit_id, label },
                );
            }
        }
        i = i + 1;
    }
    assert(viewed(candidates@).take(i as int) == viewed(candidates@));
    out
}

/// Whether one of several choices is of a reference.
pub open spec fn chosen(choices: Seq<ChoiceView>, name: Seq<u8>) -> bool {
    exists|i: int| 0 <= i < choices.len() && (#[trigger] choices[i]).reference == name
}

/// A choice as a source of its commit: a local branch, or a pin, which stands for the local branch
/// that it points at; none if it is neither.
pub open spec fn source_choice(
    references: Seq<Reference<Seq<u8>>>,
    choice: ChoiceView,
) -> Result<Option<ChoiceView>, MergeError> {
    if has_prefix(choice.reference, PIN_PREFIX.spec_bytes()) {
        match state_of(references, choice.reference) {
            State::Missing => Err(MergeError::UnknownReference),
            State::Symbolic(name) if category_of(name) == Category::LocalBranch => Ok(
                Some(
                    Choice {
                        reference: name,
                        label: lossy(short_name(name)),
                        commit_id: choice.commit_id,
                    },
                ),
            ),
            _ => Ok(Some(choice)),
        }
    } else if category_of(choice.reference) == Category::LocalBranch {
        Ok(Some(choice))
    } else {
        Ok(None)
    }
}

/// The sources of a commit among the choices from `at` on, each reference once, behind `done`.
pub open spec fn sources_from(
    references: Seq<Reference<Seq<u8>>>,
    choices: Seq<ChoiceView>,
    commit_id: ObjectId,
    at: int,
    done: Seq<ChoiceView>,
) -> Result<Seq<ChoiceView>, MergeError>
    decreases choices.len() - at,
{
    if at < 0 || at >= choices.len() {
        Ok(done)
    } else if choices[at].commit_id != commit_id {
        sources_from(references, choices, commit_id, at + 1, done)
    } else {
        match source_choice(references, choices[at]) {
            Err(err) => Err(err),
            Ok(None) => sources_from(references, choices, commit_id, at + 1, done),
            Ok(Some(choice)) => sources_from(
                references,
                choices,
                commit_id,
                at + 1,
                if chosen(done, choice.reference) {
                    done
                } else {
                    done.push(choice)
                },
            ),
        }
    }
}

/// The sources of a commit.
pub open spec fn sources_of(
    references: Seq<Reference<Seq<u8>>>,
    candidates: Seq<Candidate<Seq<u8>>>,
    commit_id: ObjectId,
) -> Result<Seq<ChoiceView>, MergeError> {
    sources_from(references, choices_of(candidates), commit_id, 0, Seq::empty())
}

fn copy_choice(choice: &Choice<FullName, Vec<u8>>) -> (r: Choice<FullName, Vec<u8>>)
    ensures
        r@ == choice@,
{
    Choice {
        reference: choice.reference.clone(),
        commit_id: choice.commit_id,
        label: bytes::copied(choice.label.as_slice()),
    }
}

fn as_source(references: &Vec<Reference<FullName>>, choice: &Choice<FullName, Vec<u8>>) -> (r:
    Result<Option<Choice<FullName, Vec<u8>>>, MergeError>)
    ensures
        match r {
            Ok(found) => source_choice(viewed(references@), choice@) == Ok::<_, MergeError>(
                crate::plan::viewed_option(found),
            ),
            Err(err) => source_choice(viewed(references@), choice@) == Err::<
                Option<ChoiceView>,
                _,
            >(err),
        },
{
    if bytes::starts_with(choice.reference.as_bytes(), PIN_PREFIX.as_bytes()) {
        match find_state(references, &choice.reference) {
            State::Missing => Err(MergeError::UnknownReference),
            State::Symbolic(name) => {
                if name.category() == Category::LocalBranch {
                    let short = name.shorten();
                    let label = to_str_lossy(short.as_slice());
                    Ok(Some(Choice { reference: name, commit_id: choice.commit_id, label }))
                } else {
                    Ok(Some(copy_choice(choice)))
                }
            },
            State::Object(_) => Ok(Some(copy_choice(choice))),
        }
    } else if choice.reference.category() == Category::LocalBranch {
        Ok(Some(copy_choice(choice)))
    } else {
        Ok(None)
    }
}

fn is_chosen(choices: &Vec<Choice<FullName, Vec<u8>>>, name: &FullName) -> (r: bool)
    ensures
        r == chosen(viewed(choices@), name@),
{
    let mut i: usize = 0;
    while i < choices.len()
        invariant
            i <= choices@.len(),
            forall|j: int| 0 <= j < i ==> (#[trigger] viewed(choices@)[j]).reference != name@,
        decreases choices.len() - i,
    {
        if choices[i].reference.same(name) {
            assert(viewed(choices@)[i as int].reference == name@);
            return true;
        }
        i = i + 1;
    }
    false
}

/// The sources of a commit: the local branches that lead to it, and the pins.
pub fn sources(
    references: &Vec<Reference<FullName>>,
    candidates: &Vec<Candidate<FullName>>,
    commit_id: ObjectId,
) -> (r: Result<Vec<Choice<FullName, Vec<u8>>>, MergeError>)
    ensures
        ({
            let expected = sources_of(viewed(references@), viewed(candidates@), commit_id);
            match r {
                Ok(found) => expected == Ok::<_, MergeError>(viewed(found@)),
                Err(err) => expected == Err::<Seq<ChoiceView>, _>(err),
            }
        }),
{
    let all = choices(candidates);
    let mut out: Vec<Choice<FullName, Vec<u8>>> = Vec::new();
    let mut at: usize = 0;
    assert(viewed(out@) == Seq::<ChoiceView>::empty());
    while at < all.len()
        invariant
            viewed(all@) == choices_of(viewed(candidates@)),
            at <= all@.len(),
            sources_of(viewed(references@), viewed(candidates@), commit_id) == sources_from(
                viewed(references@),
                viewed(all@),
                commit_id,
                at as int,
                viewed(out@),
            ),
        decreases all.len() - at,
    {
        assert(viewed(all@)[at as int] == all@[at as int]@);
        if all[at].commit_id == commit_id {
            match as_source(references, &all[at]) {
                Err(err) => return Err(err),
                Ok(None) => {},
                Ok(Some(choice)) => {
                    if !is_chosen(&out, &choice.reference) {
                        proof {
                            viewed_push(out@, choice);
                        }
                        out.push(choice);
                    }
                },
            }
        }
        at = at + 1;
    }
    Ok(out)
}

/// A change of an automatic merge: an input that follows a reference or a commit's change is added,
/// an input is removed, or the merge is made again.
#[derive(PartialEq, Eq, Debug)]
pub enum Change<N> {
    Add(N),
    AddCommit(ObjectId),
    Remove(InputSource<N>),
    Remerge,
}

impl<N: View> View for Change<N> {
    type V = Change<N::V>;

    open spec fn view(&self) -> Change<N::V> {
        match self {
            Change::Add(name) => Change::Add(name@),
            Change::AddCommit(id) => Change::AddCommit(*id),
            Change::Remove(source) => Change::Remove(source@),
            Change::Remerge => Change::Remerge,
        }
    }
}

/// A change that can be selected.
#[derive(PartialEq, Eq, Debug)]
pub struct Selection<N, T> {
    pub merge_commit_id: ObjectId,
    pub change: Change<N>,
    pub label: T,
}

/// A selection in specifications.
pub type SelectionView = Selection<Seq<u8>, Seq<u8>>;

impl<N: View, T: View> View for Selection<N, T> {
    type V = Selection<N::V, T::V>;

    open spec fn view(&self) -> Selection<N::V, T::V> {
        Selection {
            merge_commit_id: self.merge_commit_id,
            change: self.change@,
            label: self.label@,
        }
    }
}

/// The choices as selections.
pub open spec fn as_additions(head: ObjectId, choices: Seq<ChoiceView>) -> Seq<SelectionView> {
    Seq::new(
        choices.len(),
        |i: int|
            Selection {
                merge_commit_id: head,
                change: Change::Add(choices[i].reference),
                label: choices[i].label,
            },
    )
}

/// What is known of what is to be added: the change that the selected commit is a version of, and
/// whether HEAD is an automatic merge.
#[derive(Clone, Copy, PartialEq, Eq, Structural, Debug)]
pub struct Selected {
    pub commit_id: ObjectId,
    pub change: ChangeId,
    pub head_commit_id: ObjectId,
    pub head_is_merge: bool,
}

/// What can be added to HEAD, given the selected commit: any reference if that is HEAD, or else
/// the sources of the commit, or its change if it has none.
pub open spec fn additions_of(
    references: Seq<Reference<Seq<u8>>>,
    candidates: Seq<Candidate<Seq<u8>>>,
    bases: Seq<MergeBase>,
    selected: Selected,
) -> Result<Seq<SelectionView>, MergeError> {
    if selected.commit_id == selected.head_commit_id {
        Ok(as_additions(selected.head_commit_id, choices_of(candidates)))
    } else {
        match containing(bases, selected.commit_id, selected.head_commit_id) {
            Err(err) => Err(err),
            Ok(true) => Err(MergeError::AlreadyAncestor),
            Ok(false) => match if selected.head_is_merge {
                containing(bases, selected.head_commit_id, selected.commit_id)
            } else {
                Ok(false)
            } {
                Err(err) => Err(err),
                Ok(true) => Err(MergeError::TracksItself),
                Ok(false) => match sources_of(references, candidates, selected.commit_id) {
                    Err(err) => Err(err),
                    Ok(found) => Ok(
                        if found.len() == 0 {
                            seq![
                                Selection {
                                    merge_commit_id: selected.head_commit_id,
                                    change: Change::AddCommit(selected.commit_id),
                                    label: reverse_hex_of(selected.change).take(7),
                                },
                            ]
                        } else {
                            as_additions(selected.head_commit_id, found)
                        },
                    ),
                },
            },
        }
    }
}

fn select_all(head: ObjectId, choices: &Vec<Choice<FullName, Vec<u8>>>) -> (r: Vec<
    Selection<FullName, Vec<u8>>,
>)
    ensures
        viewed(r@) == as_additions(head, viewed(choices@)),
{
    let mut out: Vec<Selection<FullName, Vec<u8>>> = Vec::new();
    let ghost expected = as_additions(head, viewed(choices@));
    let mut i: usize = 0;
    while i < choices.len()
        invariant
            expected == as_additions(head, viewed(choices@)),
            i <= choices@.len(),
            out@.len() == i,
            forall|j: int| 0 <= j < i ==> (#[trigger] out@[j])@ == expected[j],
        decreases choices.len() - i,
    {
        let choice = &choices[i];
        out.push(
            Selection {
                merge_commit_id: head,
                change: Change::Add(choice.reference.clone()),
                label: bytes::copied(choice.label.as_slice()),
            },
        );
        assert(out@[i as int]@ == expected[i as int]);
        i = i + 1;
    }
    assert(viewed(out@) == expected);
    out
}

/// What can be added to HEAD, given the selected commit.
pub fn additions(
    references: &Vec<Reference<FullName>>,
    candidates: &Vec<Candidate<FullName>>,
    bases: &[MergeBase],
    selected: Selected,
) -> (r: Result<Vec<Selection<FullName, Vec<u8>>>, MergeError>)
    ensures
        ({
            let expected = additions_of(
                viewed(references@),
                viewed(candidates@),
                bases@,
                selected,
            );
            match r {
                Ok(found) => expected == Ok::<_, MergeError>(viewed(found@)),
                Err(err) => expected == Err::<Seq<SelectionView>, _>(err),
            }
        }),
{
    let head = selected.head_commit_id;
    if selected.commit_id == head {
        return Ok(select_all(head, &choices(candidates)));
    }
    match contains(bases, selected.commit_id, head) {
        Err(err) => return Err(err),
        Ok(true) => return Err(MergeError::AlreadyAncestor),
        Ok(false) => {},
    }
    if selected.head_is_merge {
        match contains(bases, head, selected.commit_id) {
            Err(err) => return Err(err),
            Ok(true) => return Err(MergeError::TracksItself),
            Ok(false) => {},
        }
    }
    let found = match sources(references, candidates, selected.commit_id) {
        Err(err) => return Err(err),
        Ok(found) => found,
    };
    if found.len() == 0 {
        let mut out: Vec<Selection<FullName, Vec<u8>>> = Vec::new();
        out.push(
            Selection {
                merge_commit_id: head,
                change: Change::AddCommit(selected.commit_id),
                label: selected.change.to_reverse_hex_with_len(7),
            },
        );
        assert(viewed(out@) == seq![out@[0]@]);
        return Ok(out);
    }
    Ok(select_all(head, &found))
}

/// The label of an input that can be removed, by itself or with the merge that it belongs to.
pub open spec fn removal_label(
    source: InputSource<Seq<u8>>,
    inputs: Seq<Input<Seq<u8>>>,
    merge: ObjectId,
    from_merge: bool,
) -> Seq<u8> {
    let label = match source {
        InputSource::Reference(name) if has_prefix(name, PIN_PREFIX.spec_bytes()) => {
            PIN_LABEL.spec_bytes() + lossy(short_name(name))
        },
        _ => lossy(label_of(source)),
    };
    if from_merge {
        label
    } else {
        label + SEPARATOR.spec_bytes() + lossy(title_of(inputs)) + SEPARATOR.spec_bytes() + hex_of(
            merge,
        ).take(7)
    }
}

/// The inputs from `at` on that can be removed, behind `done`.
pub open spec fn removable_from(
    snapshot: SnapshotView,
    refs: ReferencesView,
    merge: MergeView,
    selected: ObjectId,
    from_merge: bool,
    at: int,
    done: Seq<SelectionView>,
) -> Result<(Seq<SelectionView>, ReferencesView), MergeError>
    decreases merge.inputs.len() - at,
{
    if at < 0 || at >= merge.inputs.len() {
        Ok((done, refs))
    } else {
        let input = merge.inputs[at];
        let direct = from_merge || (input.source is Change && input.commit_id == selected);
        let (result, ambiguous) = if direct {
            (Ok(Some(selected)), refs.ambiguous)
        } else {
            resolved_input(refs, snapshot, input, Seq::empty(), None)
        };
        let refs = ReferencesView { ambiguous, ..refs };
        match result {
            Err(err) => Err(err),
            Ok(id) => removable_from(
                snapshot,
                refs,
                merge,
                selected,
                from_merge,
                at + 1,
                if id == Some(selected) {
                    done.push(
                        Selection {
                            merge_commit_id: merge.id,
                            change: Change::Remove(input.source),
                            label: removal_label(input.source, merge.inputs, merge.id, from_merge),
                        },
                    )
                } else {
                    done
                },
            ),
        }
    }
}

/// The inputs of the merges from `at` on that can be removed, behind `done`.
pub open spec fn removals_from(
    snapshot: SnapshotView,
    refs: ReferencesView,
    graph: GraphView,
    selected: ObjectId,
    from_merge: bool,
    at: int,
    done: Seq<SelectionView>,
) -> Result<Seq<SelectionView>, MergeError>
    decreases graph.merges.len() - at,
{
    if at < 0 || at >= graph.merges.len() {
        Ok(done)
    } else {
        let merge = graph.merges[at];
        if !graph.scope.contains(merge.id) || (from_merge && merge.id != selected) {
            removals_from(snapshot, refs, graph, selected, from_merge, at + 1, done)
        } else {
            match removable_from(snapshot, refs, merge, selected, from_merge, 0, done) {
                Err(err) => Err(err),
                Ok((done, refs)) => removals_from(
                    snapshot,
                    refs,
                    graph,
                    selected,
                    from_merge,
                    at + 1,
                    done,
                ),
            }
        }
    }
}

/// Selections sorted by their merge with one more, behind those of merges that do not come after
/// its own.
pub open spec fn inserted_selection(
    sorted: Seq<SelectionView>,
    selection: SelectionView,
) -> Seq<SelectionView>
    decreases sorted.len(),
{
    if sorted.len() == 0 {
        seq![selection]
    } else if selection.merge_commit_id.number() < sorted[0].merge_commit_id.number() {
        seq![selection] + sorted
    } else {
        seq![sorted[0]] + inserted_selection(sorted.skip(1), selection)
    }
}

/// Selections sorted by their merge; those of one merge stay as they are.
pub open spec fn sorted_selections(selections: Seq<SelectionView>) -> Seq<SelectionView>
    decreases selections.len(),
{
    if selections.len() == 0 {
        Seq::empty()
    } else {
        inserted_selection(sorted_selections(selections.drop_last()), selections.last())
    }
}

/// The inputs that can be removed: those of the selected merge, or those that the selected commit
/// is for other merges.
pub open spec fn removals_of(
    snapshot: SnapshotView,
    graph: GraphView,
    selected: ObjectId,
    from_merge: bool,
) -> Result<Seq<SelectionView>, MergeError> {
    match removals_from(
        snapshot,
        ReferencesView {
            candidates: graph.bounded_history,
            placements: Seq::empty(),
            ambiguous: Seq::empty(),
        },
        graph,
        selected,
        from_merge,
        0,
        Seq::empty(),
    ) {
        Err(err) => Err(err),
        Ok(found) => Ok(sorted_selections(found)),
    }
}

fn write_removal_label(
    source: &InputSource<FullName>,
    definition: &Definition,
    merge: ObjectId,
    from_merge: bool,
) -> (r: Vec<u8>)
    ensures
        r@ == removal_label(source@, definition@, merge, from_merge),
{
    let mut label = match source {
        InputSource::Reference(name) => {
            if bytes::starts_with(name.as_bytes(), PIN_PREFIX.as_bytes()) {
                let short = name.shorten();
                let shown = to_str_lossy(short.as_slice());
                bytes::joined(PIN_LABEL.as_bytes(), shown.as_slice())
            } else {
                let label = source.label();
                to_str_lossy(label.as_slice())
            }
        },
        InputSource::Change(_) => {
            let label = source.label();
            to_str_lossy(label.as_slice())
        },
    };
    if !from_merge {
        bytes::append(&mut label, SEPARATOR.as_bytes());
        let title = definition.title();
        let shown = to_str_lossy(title.as_slice());
        bytes::append(&mut label, shown.as_slice());
        bytes::append(&mut label, SEPARATOR.as_bytes());
        let hex = short_hex(merge);
        bytes::append(&mut label, hex.as_slice());
    }
    label
}

fn find_removable(
    snapshot: &Snapshot,
    refs: &mut References,
    merge: &Merge,
    selected: ObjectId,
    from_merge: bool,
    out: &mut Vec<Selection<FullName, Vec<u8>>>,
) -> (r: Result<(), MergeError>)
    ensures
        ({
            let expected = removable_from(
                snapshot@,
                old(refs)@,
                merge@,
                selected,
                from_merge,
                0,
                viewed(old(out)@),
            );
            match r {
                Ok(()) => expected == Ok::<_, MergeError>((viewed(final(out)@), final(refs)@)),
                Err(err) => expected == Err::<(Seq<SelectionView>, ReferencesView), _>(err),
            }
        }),
{
    let nothing: Vec<Rewrite> = Vec::new();
    let inputs = &merge.definition.inputs;
    let mut at: usize = 0;
    while at < inputs.len()
        invariant
            nothing@ == Seq::<Rewrite>::empty(),
            inputs == merge.definition.inputs,
            at <= inputs@.len(),
            removable_from(
                snapshot@,
                old(refs)@,
                merge@,
                selected,
                from_merge,
                0,
                viewed(old(out)@),
            ) == removable_from(
                snapshot@,
                refs@,
                merge@,
                selected,
                from_merge,
                at as int,
                viewed(out@),
            ),
        decreases inputs.len() - at,
    {
        let input = &inputs[at];
        assert(merge@.inputs[at as int] == input@);
        let ghost before = refs@;
        let follows_change = match &input.source {
            InputSource::Change(_) => true,
            InputSource::Reference(_) => false,
        };
        let removable = if from_merge || (follows_change && input.commit_id == selected) {
            true
        } else {
            match refs.resolve_input(snapshot, input, nothing.as_slice(), None) {
                Err(err) => return Err(err),
                Ok(Some(id)) => id == selected,
                Ok(None) => false,
            }
        };
        assert(refs@ == (ReferencesView { ambiguous: refs@.ambiguous, ..before }));
        if removable {
            let selection = Selection {
                merge_commit_id: merge.id,
                change: Change::Remove(input.source.copy()),
                label: write_removal_label(
                    &input.source,
                    &merge.definition,
                    merge.id,
                    from_merge,
                ),
            };
            proof {
                viewed_push(out@, selection);
            }
            out.push(selection);
        }
        at = at + 1;
    }
    Ok(())
}

proof fn inserted_selection_at(sorted: Seq<SelectionView>, selection: SelectionView, at: int)
    requires
        0 <= at <= sorted.len(),
        forall|i: int|
            0 <= i < at ==> selection.merge_commit_id.number() >= (
            #[trigger] sorted[i]).merge_commit_id.number(),
        at < sorted.len() ==> selection.merge_commit_id.number()
            < sorted[at].merge_commit_id.number(),
    ensures
        inserted_selection(sorted, selection) == sorted.insert(at, selection),
    decreases sorted.len(),
{
    if sorted.len() == 0 || selection.merge_commit_id.number()
        < sorted[0].merge_commit_id.number() {
        assert(at == 0);
        assert(inserted_selection(sorted, selection) == sorted.insert(at, selection));
    } else {
        assert forall|i: int| 0 <= i < at - 1 implies selection.merge_commit_id.number() >= (
        #[trigger] sorted.skip(1)[i]).merge_commit_id.number() by {
            assert(sorted.skip(1)[i] == sorted[i + 1]);
        }
        inserted_selection_at(sorted.skip(1), selection, at - 1);
        assert(inserted_selection(sorted, selection) == sorted.insert(at, selection));
    }
}

fn insert_selection(
    selections: &mut Vec<Selection<FullName, Vec<u8>>>,
    selection: Selection<FullName, Vec<u8>>,
)
    ensures
        viewed(final(selections)@) == inserted_selection(viewed(old(selections)@), selection@),
{
    let mut i: usize = 0;
    let ghost all = viewed(selections@);
    while i < selections.len() && !selection.merge_commit_id.is_before(
        selections[i].merge_commit_id,
    )
        invariant
            all == viewed(selections@),
            selections@ == old(selections)@,
            i <= selections@.len(),
            forall|j: int|
                0 <= j < i ==> selection.merge_commit_id.number() >= (
                #[trigger] all[j]).merge_commit_id.number(),
        decreases selections.len() - i,
    {
        assert(all[i as int] == selections@[i as int]@);
        i = i + 1;
    }
    proof {
        if i < selections@.len() {
            assert(all[i as int] == selections@[i as int]@);
        }
        inserted_selection_at(all, selection@, i as int);
    }
    let ghost added = selection@;
    selections.insert(i, selection);
    assert(viewed(selections@) == all.insert(i as int, added));
}

fn sort_selections(selections: Vec<Selection<FullName, Vec<u8>>>) -> (r: Vec<
    Selection<FullName, Vec<u8>>,
>)
    ensures
        viewed(r@) == sorted_selections(viewed(selections@)),
{
    let mut out: Vec<Selection<FullName, Vec<u8>>> = Vec::new();
    let mut i: usize = 0;
    let ghost all = viewed(selections@);
    assert(all.take(0) == Seq::<SelectionView>::empty());
    assert(viewed(out@) == Seq::<SelectionView>::empty());
    while i < selections.len()
        invariant
            all == viewed(selections@),
            i <= selections@.len(),
            viewed(out@) == sorted_selections(all.take(i as int)),
        decreases selections.len() - i,
    {
        let selection = &selections[i];
        assert(all.take(i + 1).drop_last() == all.take(i as int));
        assert(all.take(i + 1).last() == selection@);
        let change = match &selection.change {
            Change::Add(name) => Change::Add(name.clone()),
            Change::AddCommit(id) => Change::AddCommit(*id),
            Change::Remove(source) => Change::Remove(source.copy()),
            Change::Remerge => Change::Remerge,
        };
        insert_selection(
            &mut out,
            Selection {
                merge_commit_id: selection.merge_commit_id,
                change,
                label: bytes::copied(selection.label.as_slice()),
            },
        );
        i = i + 1;
    }
    assert(all.take(i as int) == all);
    out
}

/// The inputs that can be removed: those of the selected merge, or those that the selected commit
/// is for other merges.
pub fn removals(snapshot: &Snapshot, graph: &Graph, selected: ObjectId, from_merge: bool) -> (r:
    Result<Vec<Selection<FullName, Vec<u8>>>, MergeError>)
    ensures
        ({
            let expected = removals_of(snapshot@, graph@, selected, from_merge);
            match r {
                Ok(found) => expected == Ok::<_, MergeError>(viewed(found@)),
                Err(err) => expected == Err::<Seq<SelectionView>, _>(err),
            }
        }),
{
    let candidates = match &graph.bounded_history {
        Some(ids) => Some(copy_ids(ids.as_slice())),
        None => None,
    };
    let mut refs = References::new(candidates);
    let ghost fresh = refs@;
    let mut out: Vec<Selection<FullName, Vec<u8>>> = Vec::new();
    let mut at: usize = 0;
    assert(viewed(out@) == Seq::<SelectionView>::empty());
    while at < graph.merges.len()
        invariant
            fresh == (ReferencesView {
                candidates: graph@.bounded_history,
                placements: Seq::empty(),
                ambiguous: Seq::empty(),
            }),
            at <= graph.merges@.len(),
            removals_from(snapshot@, fresh, graph@, selected, from_merge, 0, Seq::empty())
                == removals_from(
                snapshot@,
                refs@,
                graph@,
                selected,
                from_merge,
                at as int,
                viewed(out@),
            ),
        decreases graph.merges.len() - at,
    {
        let merge = &graph.merges[at];
        assert(graph@.merges[at as int] == merge@);
        if contains_id(graph.scope.as_slice(), merge.id) && !(from_merge && merge.id != selected) {
            if let Err(err) = find_removable(
                snapshot,
                &mut refs,
                merge,
                selected,
                from_merge,
                &mut out,
            ) {
                return Err(err);
            }
        }
        at = at + 1;
    }
    Ok(sort_selections(out))
}

/// What a name that decorates a commit is of.
#[derive(Clone, Copy, PartialEq, Eq, Structural, Debug)]
pub enum DecorationKind {
    Local,
    CurrentWorktreeBranch,
    WorktreeBranch,
    HeadPinBranch,
    Remote,
    Tag,
    AnnotatedTag,
    Other,
}

/// A name that decorates a commit.
#[derive(PartialEq, Eq, Debug)]
pub struct Decoration<T> {
    pub commit_id: ObjectId,
    pub kind: DecorationKind,
    pub name: T,
}

impl<T: View> View for Decoration<T> {
    type V = Decoration<T::V>;

    open spec fn view(&self) -> Decoration<T::V> {
        Decoration { commit_id: self.commit_id, kind: self.kind, name: self.name@ }
    }
}

/// Whether a decoration shows a reference that is no pin.
pub open spec fn shows(decoration: Decoration<Seq<u8>>, reference: Seq<u8>) -> bool {
    match category_of(reference) {
        Category::LocalBranch => (decoration.kind == DecorationKind::Local || decoration.kind
            == DecorationKind::CurrentWorktreeBranch || decoration.kind
            == DecorationKind::WorktreeBranch || decoration.kind == DecorationKind::HeadPinBranch)
            && decoration.name == short_name(reference),
        Category::RemoteBranch => decoration.kind == DecorationKind::Remote && decoration.name
            == short_name(reference),
        Category::Tag => (decoration.kind == DecorationKind::Tag || decoration.kind
            == DecorationKind::AnnotatedTag) && without_prefix(
            decoration.name,
            "tag: ".spec_bytes(),
        ) == Some(short_name(reference)),
        Category::Other => false,
    }
}

fn is_shown(decoration: &Decoration<Vec<u8>>, reference: &FullName) -> (r: bool)
    ensures
        r == shows(decoration@, reference@),
{
    let short = reference.shorten();
    match reference.category() {
        Category::LocalBranch => (decoration.kind == DecorationKind::Local || decoration.kind
            == DecorationKind::CurrentWorktreeBranch || decoration.kind
            == DecorationKind::WorktreeBranch || decoration.kind == DecorationKind::HeadPinBranch)
            && bytes::equal(decoration.name.as_slice(), short.as_slice()),
        Category::RemoteBranch => decoration.kind == DecorationKind::Remote && bytes::equal(
            decoration.name.as_slice(),
            short.as_slice(),
        ),
        Category::Tag => {
            if decoration.kind == DecorationKind::Tag || decoration.kind
                == DecorationKind::AnnotatedTag {
                match bytes::strip_prefix(decoration.name.as_slice(), "tag: ".as_bytes()) {
                    Some(rest) => bytes::equal(rest, short.as_slice()),
                    None => false,
                }
            } else {
                false
            }
        },
        Category::Other => false,
    }
}

/// The commit of the first decoration at or after `from` that shows a reference.
pub open spec fn shown_from(
    decorations: Seq<Decoration<Seq<u8>>>,
    reference: Seq<u8>,
    from: int,
) -> Option<ObjectId>
    decreases decorations.len() - from,
{
    if from < 0 || from >= decorations.len() {
        None
    } else if shows(decorations[from], reference) {
        Some(decorations[from].commit_id)
    } else {
        shown_from(decorations, reference, from + 1)
    }
}

/// The commit of the first pin at or after `from` with the given name.
pub open spec fn pinned_from(
    pins: Seq<Candidate<Seq<u8>>>,
    reference: Seq<u8>,
    from: int,
) -> Option<ObjectId>
    decreases pins.len() - from,
{
    if from < 0 || from >= pins.len() {
        None
    } else if pins[from].name == reference {
        pins[from].commit_id
    } else {
        pinned_from(pins, reference, from + 1)
    }
}

/// The commit that a reference is shown at.
pub fn decorated_tip(
    reference: &FullName,
    decorations: &Vec<Decoration<Vec<u8>>>,
    pins: &Vec<Candidate<FullName>>,
) -> (r: Option<ObjectId>)
    ensures
        r == if has_prefix(reference@, PIN_PREFIX.spec_bytes()) {
            pinned_from(viewed(pins@), reference@, 0)
        } else {
            shown_from(viewed(decorations@), reference@, 0)
        },
{
    let mut i: usize = 0;
    if bytes::starts_with(reference.as_bytes(), PIN_PREFIX.as_bytes()) {
        while i < pins.len()
            invariant
                has_prefix(reference@, PIN_PREFIX.spec_bytes()),
                i <= pins@.len(),
                pinned_from(viewed(pins@), reference@, 0) == pinned_from(
                    viewed(pins@),
                    reference@,
                    i as int,
                ),
            decreases pins.len() - i,
        {
            assert(viewed(pins@)[i as int] == pins@[i as int]@);
            if pins[i].name.same(reference) {
                return pins[i].commit_id;
            }
            i = i + 1;
        }
        return None;
    }
    while i < decorations.len()
        invariant
            !has_prefix(reference@, PIN_PREFIX.spec_bytes()),
            i <= decorations@.len(),
            shown_from(viewed(decorations@), reference@, 0) == shown_from(
                viewed(decorations@),
                reference@,
                i as int,
            ),
        decreases decorations.len() - i,
    {
        assert(viewed(decorations@)[i as int] == decorations@[i as int]@);
        if is_shown(&decorations[i], reference) {
            return Some(decorations[i].commit_id);
        }
        i = i + 1;
    }
    None
}

/// Whether an automatic merge follows a pin.
pub open spec fn pin_is_input(merges: Seq<MergeView>, name: Seq<u8>) -> bool {
    has_prefix(name, PIN_PREFIX.spec_bytes()) && exists|m: int, i: int|
        0 <= m < merges.len() && 0 <= i < merges[m].inputs.len() && (
        #[trigger] merges[m].inputs[i]).source == InputSource::Reference(name)
}

/// The pins that automatic merges follow, each once.
pub fn input_pins(merges: &Vec<Merge>) -> (r: Vec<FullName>)
    ensures
        viewed(r@).no_duplicates(),
        forall|name: Seq<u8>| #[trigger]
            viewed(r@).contains(name) == pin_is_input(viewed(merges@), name),
{
    let ghost all = viewed(merges@);
    let mut out: Vec<FullName> = Vec::new();
    let mut m: usize = 0;
    while m < merges.len()
        invariant
            all == viewed(merges@),
            m <= merges@.len(),
            viewed(out@).no_duplicates(),
            forall|name: Seq<u8>| #[trigger]
                viewed(out@).contains(name) == pin_is_input(all.take(m as int), name),
        decreases merges.len() - m,
    {
        let inputs = &merges[m].definition.inputs;
        let ghost earlier = viewed(out@);
        let mut i: usize = 0;
        while i < inputs.len()
            invariant
                all == viewed(merges@),
                m < merges@.len(),
                inputs == merges@[m as int].definition.inputs,
                i <= inputs@.len(),
                viewed(out@).no_duplicates(),
                forall|name: Seq<u8>| #[trigger]
                    earlier.contains(name) == pin_is_input(all.take(m as int), name),
                forall|name: Seq<u8>| #[trigger]
                    viewed(out@).contains(name) == (earlier.contains(name) || (has_prefix(
                        name,
                        PIN_PREFIX.spec_bytes(),
                    ) && exists|k: int|
                        0 <= k < i && (#[trigger] viewed(inputs@)[k]).source
                            == InputSource::Reference(name))),
            decreases inputs.len() - i,
        {
            let ghost before = viewed(out@);
            assert(viewed(inputs@)[i as int] == inputs@[i as int]@);
            if let InputSource::Reference(name) = &inputs[i].source {
                if bytes::starts_with(name.as_bytes(), PIN_PREFIX.as_bytes()) && !contains_name(
                    &out,
                    name,
                ) {
                    let copy = name.clone();
                    proof {
                        viewed_push(out@, copy);
                        assert(before.push(name@)[before.len() as int] == name@);
                        assert forall|other: Seq<u8>| #[trigger]
                            before.push(name@).contains(other) == (before.contains(other) || other
                                == name@) by {
                            if before.contains(other) {
                                let w = choose|w: int|
                                    0 <= w < before.len() && before[w] == other;
                                assert(before.push(name@)[w] == other);
                            }
                        }
                    }
                    out.push(copy);
                }
            }
            assert forall|name: Seq<u8>| #[trigger]
                viewed(out@).contains(name) == (earlier.contains(name) || (has_prefix(
                    name,
                    PIN_PREFIX.spec_bytes(),
                ) && exists|k: int|
                    0 <= k < i + 1 && (#[trigger] viewed(inputs@)[k]).source
                        == InputSource::Reference(name))) by {
                assert(before.contains(name) == (earlier.contains(name) || (has_prefix(
                    name,
                    PIN_PREFIX.spec_bytes(),
                ) && exists|k: int|
                    0 <= k < i && (#[trigger] viewed(inputs@)[k]).source
                        == InputSource::Reference(name))));
                let this = viewed(inputs@)[i as int].source == InputSource::Reference(name);
                if this {
                    assert(exists|k: int|
                        0 <= k < i + 1 && (#[trigger] viewed(inputs@)[k]).source
                            == InputSource::Reference(name));
                }
            }
            i = i + 1;
        }
        assert forall|name: Seq<u8>| #[trigger]
            viewed(out@).contains(name) == pin_is_input(all.take(m + 1), name) by {
            assert(earlier.contains(name) == pin_is_input(all.take(m as int), name));
            if pin_is_input(all.take(m as int), name) {
                let (a, b) = choose|a: int, b: int|
                    0 <= a < m && 0 <= b < all.take(m as int)[a].inputs.len() && (
                    #[trigger] all.take(m as int)[a].inputs[b]).source == InputSource::Reference(
                        name,
                    );
                assert(all.take(m + 1)[a].inputs[b].source == InputSource::Reference(name));
            }
            if exists|k: int|
                0 <= k < inputs@.len() && (#[trigger] viewed(inputs@)[k]).source
                    == InputSource::Reference(name) {
                let k = choose|k: int|
                    0 <= k < inputs@.len() && (#[trigger] viewed(inputs@)[k]).source
                        == InputSource::Reference(name);
                assert(all.take(m + 1)[m as int].inputs[k].source == InputSource::Reference(name));
            }
            if pin_is_input(all.take(m + 1), name) {
                let (a, b) = choose|a: int, b: int|
                    0 <= a < m + 1 && 0 <= b < all.take(m + 1)[a].inputs.len() && (
                    #[trigger] all.take(m + 1)[a].inputs[b]).source == InputSource::Reference(name);
                if a < m {
                    assert(all.take(m as int)[a].inputs[b].source == InputSource::Reference(name));
                } else {
                    assert(viewed(inputs@)[b].source == InputSource::Reference(name));
                }
            }
        }
        m = m + 1;
    }
    assert(all.take(m as int) == all);
    out
}

/// Whether a reference is or leads to another through symbolic references, where `seen` led to it
/// and at most `left` follow.
pub open spec fn follows_from(
    references: Seq<Reference<Seq<u8>>>,
    name: Seq<u8>,
    reference: Seq<u8>,
    seen: Seq<Seq<u8>>,
    left: nat,
) -> Result<bool, MergeError>
    decreases left,
{
    if name == reference {
        Ok(true)
    } else if seen.contains(name) {
        Err(MergeError::CyclicReference)
    } else {
        match state_of(references, name) {
            State::Symbolic(target) => if left == 0 {
                Err(MergeError::CyclicReference)
            } else {
                follows_from(references, target, reference, seen.push(name), (left - 1) as nat)
            },
            _ => Ok(false),
        }
    }
}

/// Whether a reference is or leads to another through symbolic references.
pub fn follows_reference(
    references: &Vec<Reference<FullName>>,
    input: &FullName,
    reference: &FullName,
) -> (r: Result<bool, MergeError>)
    ensures
        r == follows_from(
            viewed(references@),
            input@,
            reference@,
            Seq::empty(),
            references@.len(),
        ),
{
    let mut current = input.clone();
    let mut seen: Vec<FullName> = Vec::new();
    let mut left: usize = references.len();
    assert(viewed(seen@) == Seq::<Seq<u8>>::empty());
    loop
        invariant
            follows_from(
                viewed(references@),
                input@,
                reference@,
                Seq::empty(),
                references@.len(),
            ) == follows_from(
                viewed(references@),
                current@,
                reference@,
                viewed(seen@),
                left as nat,
            ),
        decreases left,
    {
        if current.same(reference) {
            return Ok(true);
        }
        if contains_name(&seen, &current) {
            return Err(MergeError::CyclicReference);
        }
        match find_state(references, &current) {
            State::Symbolic(target) => {
                if left == 0 {
                    return Err(MergeError::CyclicReference);
                }
                proof {
                    viewed_push(seen@, current);
                }
                seen.push(current);
                current = target;
                left = left - 1;
            },
            _ => return Ok(false),
        }
    }
}

/// Whether one of the inputs from `at` on is a reference, or leads to it through symbolic references.
pub open spec fn tracks_from(
    references: Seq<Reference<Seq<u8>>>,
    inputs: Seq<Input<Seq<u8>>>,
    reference: Seq<u8>,
    at: int,
) -> Result<bool, MergeError>
    decreases inputs.len() - at,
{
    if at < 0 || at >= inputs.len() {
        Ok(false)
    } else {
        match inputs[at].source {
            InputSource::Change(_) => tracks_from(references, inputs, reference, at + 1),
            InputSource::Reference(name) => match follows_from(
                references,
                name,
                reference,
                Seq::empty(),
                references.len(),
            ) {
                Err(err) => Err(err),
                Ok(true) => Ok(true),
                Ok(false) => tracks_from(references, inputs, reference, at + 1),
            },
        }
    }
}

/// Whether a commit with the given headers is an automatic merge that follows a reference.
pub open spec fn tracks(
    references: Seq<Reference<Seq<u8>>>,
    headers: Seq<Header<Seq<u8>>>,
    reference: Seq<u8>,
) -> Result<bool, MergeError> {
    match definition_of(headers) {
        Err(err) => Err(err),
        Ok(None) => Ok(false),
        Ok(Some(inputs)) => tracks_from(references, inputs, reference, 0),
    }
}

/// Whether a commit with the given headers is an automatic merge that follows a reference.
pub fn tracks_reference(
    references: &Vec<Reference<FullName>>,
    headers: &Vec<Header<Vec<u8>>>,
    reference: &FullName,
) -> (r: Result<bool, MergeError>)
    ensures
        r == tracks(viewed(references@), viewed(headers@), reference@),
{
    let definition = match Definition::from_headers(headers) {
        Err(err) => return Err(err),
        Ok(None) => return Ok(false),
        Ok(Some(definition)) => definition,
    };
    let inputs = &definition.inputs;
    let mut at: usize = 0;
    while at < inputs.len()
        invariant
            at <= inputs@.len(),
            tracks(viewed(references@), viewed(headers@), reference@) == tracks_from(
                viewed(references@),
                viewed(inputs@),
                reference@,
                at as int,
            ),
        decreases inputs@.len() - at,
    {
        assert(viewed(inputs@)[at as int] == inputs@[at as int]@);
        if let InputSource::Reference(name) = &inputs[at].source {
            match follows_reference(references, name, reference) {
                Err(err) => return Err(err),
                Ok(true) => return Ok(true),
                Ok(false) => {},
            }
        }
        at = at + 1;
    }
    Ok(false)
}

} // verus!
