//! How far an edit reaches through automatic merges: to all that follows what it affects, and no further.
use vstd::prelude::*;
use crate::auto_merge::coverage::{among, orders_are_complete};
use crate::auto_merge::definition::{automatic, Input, InputSource};
use crate::auto_merge::prepare::{
    ancestors_add, dependencies_from, extend_all, first_of, inputs_extend, merge_adds,
    merge_inputs, merges_add_from, optional_too, ordered_ids, parts_of, path_from, prepared, reached,
    spread, standing, standing_from, starting, touched_from, tracked_from, Goal, GraphView, MergeView,
    PreparationView,
};
use crate::auto_merge::resolve::{
    commit_of, placement_from, placement_of, resolved_input, CommitView, Placement,
    ReferencesView, SnapshotView,
};
use crate::auto_merge::MergeError;
use crate::ids::ObjectId;
use crate::names::{category_of, Category};
use crate::plan::RefDestination;

verus! {

/// Whether an input of a merge can change: it is neither a tag nor a remote-tracking branch. Whether it is
/// muted does not matter.
pub open spec fn changeable(input: Input<Seq<u8>>) -> bool {
    match input.source {
        InputSource::Reference(name) => category_of(name) != Category::Tag && category_of(name)
            != Category::RemoteBranch,
        InputSource::Change(_) => true,
    }
}

/// Whether an input of a merge can change and stands for one of some commits.
pub open spec fn follows(
    snapshot: SnapshotView,
    refs: ReferencesView,
    ids: Seq<ObjectId>,
    input: Input<Seq<u8>>,
) -> bool {
    &&& changeable(input)
    &&& resolved_input(refs, snapshot, input, Seq::empty(), None).0 matches Ok(Some(id))
        && ids.contains(id)
}

/// Whether any input of a merge can change and stands for one of some commits.
pub open spec fn any_follows(
    snapshot: SnapshotView,
    refs: ReferencesView,
    ids: Seq<ObjectId>,
    inputs: Seq<Input<Seq<u8>>>,
    from: int,
) -> bool {
    exists|k: int| from <= k < inputs.len() && #[trigger] follows(snapshot, refs, ids, inputs[k])
}

/// Whether there is a reason to rebuild a merge: it is affected, follows what is, is forced to, or is needed
/// and its rebase is pending.
pub open spec fn called_for(
    snapshot: SnapshotView,
    goal: Goal,
    merge: MergeView,
    refs: ReferencesView,
    ids: Seq<ObjectId>,
) -> bool {
    ||| ids.contains(merge.id)
    ||| any_follows(snapshot, refs, ids, merge.inputs, 0)
    ||| goal.force == Some(merge.id)
    ||| goal.required.contains(merge.id) && (commit_of(snapshot.commits, merge.id) matches Some(
        commit,
    ) && commit.pending)
}

/// Whether exactly some commits are known to stand for themselves.
pub open spec fn self_placed(refs: ReferencesView, ids: Seq<ObjectId>) -> bool {
    forall|id: ObjectId| #[trigger]
        placement_of(refs.placements, id) == if ids.contains(id) {
            Some(RefDestination::Existing(id))
        } else {
            None
        }
}

spec fn steps(before: PreparationView, after: PreparationView) -> bool {
    &&& after.refs.candidates == before.refs.candidates
    &&& self_placed(before.refs, before.affected) ==> self_placed(after.refs, after.affected)
    &&& before.affected.len() <= after.affected.len()
    &&& after.affected.take(before.affected.len() as int) == before.affected
    &&& after.affected.len() == before.affected.len() ==> after.refs.placements
        == before.refs.placements
}

proof fn steps_hold(before: PreparationView, after: PreparationView)
    requires
        steps(before, after),
    ensures
        forall|id: ObjectId|
            before.affected.contains(id) ==> #[trigger] after.affected.contains(id),
        among(before.affected, after.affected),
        after.affected.len() == before.affected.len() ==> after.affected == before.affected,
{
    assert forall|id: ObjectId| before.affected.contains(id) implies #[trigger] after.affected.contains(
        id,
    ) by {
        let i = before.affected.index_of(id);
        assert(after.affected.take(before.affected.len() as int)[i] == after.affected[i]);
    }
    if after.affected.len() == before.affected.len() {
        assert(after.affected.take(before.affected.len() as int) == after.affected);
    }
}

proof fn steps_further(a: PreparationView, b: PreparationView, c: PreparationView)
    requires
        steps(a, b),
        steps(b, c),
    ensures
        steps(a, c),
{
    assert(c.affected.take(a.affected.len() as int) == c.affected.take(
        b.affected.len() as int,
    ).take(a.affected.len() as int));
}

proof fn placement_shifts(placements: Seq<Placement>, first: Placement, id: ObjectId, from: int)
    requires
        0 <= from,
    ensures
        placement_from(seq![first] + placements, id, from + 1) == placement_from(
            placements,
            id,
            from,
        ),
    decreases placements.len() - from,
{
    let more = seq![first] + placements;
    if from < placements.len() {
        assert(more[from + 1] == placements[from]);
        placement_shifts(placements, first, id, from + 1);
    }
}

proof fn standing_places(refs: ReferencesView, ids: Seq<ObjectId>, id: ObjectId)
    requires
        self_placed(refs, ids),
    ensures
        self_placed(standing(refs, id), ids.push(id)),
{
    let next = standing(refs, id);
    let first = Placement { commit_id: id, destination: RefDestination::Existing(id) };
    assert(next.placements == seq![first] + refs.placements);
    assert forall|other: ObjectId| #[trigger]
        placement_of(next.placements, other) == if ids.push(id).contains(other) {
            Some(RefDestination::Existing(other))
        } else {
            None
        } by {
        placement_shifts(refs.placements, first, other, 0);
        assert(next.placements[0] == first);
        assert(placement_of(refs.placements, other) == if ids.contains(other) {
            Some(RefDestination::Existing(other))
        } else {
            None
        });
        if ids.contains(other) {
            let i = ids.index_of(other);
            assert(ids.push(id)[i] == other);
        }
        assert(ids.push(id)[ids.len() as int] == id);
    }
}

proof fn including_steps(state: PreparationView, id: ObjectId)
    ensures
        steps(state, state.including(id)),
        state.including(id).affected.contains(id),
        state.including(id).affected.len() == state.affected.len() <==> state.affected.contains(id),
        forall|other: ObjectId| #[trigger]
            state.including(id).affected.contains(other) ==> state.affected.contains(other) || other
                == id,
{
    let next = state.including(id);
    if state.affected.contains(id) {
        assert(state.affected.take(state.affected.len() as int) == state.affected);
    } else {
        assert(next.affected.take(state.affected.len() as int) == state.affected);
        if self_placed(state.refs, state.affected) {
            standing_places(state.refs, state.affected, id);
        }
        assert(next.affected[state.affected.len() as int] == id);
    }
}

proof fn including_all_steps(state: PreparationView, ids: Seq<ObjectId>, at: int)
    requires
        0 <= at <= ids.len(),
    ensures
        ({
            let next = state.including_from(ids, at);
            &&& steps(state, next)
            &&& forall|i: int| at <= i < ids.len() ==> next.affected.contains(#[trigger] ids[i])
            &&& (forall|i: int| at <= i < ids.len() ==> state.affected.contains(#[trigger] ids[i]))
                ==> next == state
            &&& next.queue == state.queue && next.eager == state.eager && next.optional
                == state.optional
            &&& forall|other: ObjectId| #[trigger]
                next.affected.contains(other) ==> state.affected.contains(other) || ids.contains(
                    other,
                )
        }),
    decreases ids.len() - at,
{
    if at < ids.len() {
        let middle = state.including(ids[at]);
        including_steps(state, ids[at]);
        including_all_steps(middle, ids, at + 1);
        let next = state.including_from(ids, at);
        steps_further(state, middle, next);
        steps_hold(middle, next);
        assert forall|i: int| at <= i < ids.len() implies next.affected.contains(
            #[trigger] ids[i],
        ) by {
            if i == at {
                assert(middle.affected.contains(ids[at]));
            }
        }
        if forall|i: int| at <= i < ids.len() ==> state.affected.contains(#[trigger] ids[i]) {
            assert(state.affected.contains(ids[at]));
            assert(middle == state);
        }
    } else {
        assert(state.affected.take(state.affected.len() as int) == state.affected);
    }
}

proof fn ambiguities_do_not_matter(
    snapshot: SnapshotView,
    one: ReferencesView,
    other: ReferencesView,
    input: Input<Seq<u8>>,
)
    requires
        one.placements == other.placements,
        one.candidates == other.candidates,
    ensures
        resolved_input(one, snapshot, input, Seq::empty(), None).0 == resolved_input(
            other,
            snapshot,
            input,
            Seq::empty(),
            None,
        ).0,
{
}

proof fn touching_finds(
    snapshot: SnapshotView,
    state: PreparationView,
    inputs: Seq<Input<Seq<u8>>>,
    at: int,
    found: bool,
)
    requires
        0 <= at <= inputs.len(),
    ensures
        touched_from(snapshot, state, inputs, at, found) matches Ok((touched, next)) ==> {
            &&& touched == (found || any_follows(snapshot, state.refs, state.affected, inputs, at))
            &&& next.affected == state.affected
            &&& next.refs.placements == state.refs.placements
            &&& next.refs.candidates == state.refs.candidates
            &&& next.queue == state.queue && next.eager == state.eager && next.optional
                == state.optional
        },
    decreases inputs.len() - at,
{
    if at < inputs.len() {
        let (refs, ids) = (state.refs, state.affected);
        let now = follows(snapshot, refs, ids, inputs[at]);
        assert(any_follows(snapshot, refs, ids, inputs, at) == (now || any_follows(
            snapshot,
            refs,
            ids,
            inputs,
            at + 1,
        )));
        if !changeable(inputs[at]) {
            touching_finds(snapshot, state, inputs, at + 1, found);
        } else {
            let (result, ambiguous) = resolved_input(refs, snapshot, inputs[at], Seq::empty(), None);
            if let Ok(id) = result {
                let known = state.knowing(ambiguous);
                let more = found || (id matches Some(id) && ids.contains(id));
                assert(more == (found || now));
                touching_finds(snapshot, known, inputs, at + 1, more);
                assert forall|k: int| at + 1 <= k < inputs.len() implies #[trigger] follows(
                    snapshot,
                    refs,
                    ids,
                    inputs[k],
                ) == follows(snapshot, known.refs, ids, inputs[k]) by {
                    ambiguities_do_not_matter(snapshot, refs, known.refs, inputs[k]);
                }
                if any_follows(snapshot, refs, ids, inputs, at + 1) {
                    let k = choose|k: int|
                        at + 1 <= k < inputs.len() && #[trigger] follows(
                            snapshot,
                            refs,
                            ids,
                            inputs[k],
                        );
                    assert(follows(snapshot, known.refs, ids, inputs[k]));
                }
                if any_follows(snapshot, known.refs, ids, inputs, at + 1) {
                    let k = choose|k: int|
                        at + 1 <= k < inputs.len() && #[trigger] follows(
                            snapshot,
                            known.refs,
                            ids,
                            inputs[k],
                        );
                    assert(follows(snapshot, refs, ids, inputs[k]));
                }
            }
        }
    }
}

proof fn merge_steps(
    snapshot: SnapshotView,
    scope: Seq<ObjectId>,
    goal: Goal,
    merge: MergeView,
    state: PreparationView,
)
    ensures
        merge_adds(snapshot, scope, goal, merge, state) matches Ok(next) ==> {
            let wanted = scope.contains(merge.id) && called_for(
                snapshot,
                goal,
                merge,
                state.refs,
                state.affected,
            );
            &&& steps(state, next)
            &&& next.eager == state.eager && next.optional == state.optional
            &&& wanted ==> among(merge.descendants, next.affected)
            &&& !wanted ==> next.affected == state.affected && next.queue == state.queue
            &&& next.queue.len() > state.queue.len() ==> goal.required.contains(merge.id)
                || goal.force == Some(merge.id)
            &&& next.affected.len() != state.affected.len() ==> !among(
                merge.descendants,
                state.affected,
            ) && wanted
            &&& forall|id: ObjectId| #[trigger]
                next.affected.contains(id) ==> state.affected.contains(id) || (scope.contains(
                    merge.id,
                ) && merge.descendants.contains(id))
        },
{
    assert(state.affected.take(state.affected.len() as int) == state.affected);
    touching_finds(snapshot, state, merge.inputs, 0, false);
    if scope.contains(merge.id) {
        if let Ok((touched, known)) = touched_from(snapshot, state, merge.inputs, 0, false) {
            assert(steps(state, known));
            including_all_steps(known, merge.descendants, 0);
            steps_further(state, known, known.including_from(merge.descendants, 0));
            let more = known.including_from(merge.descendants, 0);
            if among(merge.descendants, state.affected) {
                assert(more == known);
            }
            assert forall|i: int| 0 <= i < merge.descendants.len() implies more.affected.contains(
                #[trigger] merge.descendants[i],
            ) by {}
            assert(among(merge.descendants, more.affected));
        }
    }
}

proof fn kept_placements_resolve_alike(
    snapshot: SnapshotView,
    goal: Goal,
    merge: MergeView,
    one: PreparationView,
    other: PreparationView,
)
    requires
        one.refs.placements == other.refs.placements,
        one.refs.candidates == other.refs.candidates,
        one.affected == other.affected,
    ensures
        called_for(snapshot, goal, merge, one.refs, one.affected) == called_for(
            snapshot,
            goal,
            merge,
            other.refs,
            other.affected,
        ),
{
    let ids = one.affected;
    assert forall|k: int| 0 <= k < merge.inputs.len() implies #[trigger] follows(
        snapshot,
        one.refs,
        ids,
        merge.inputs[k],
    ) == follows(snapshot, other.refs, ids, merge.inputs[k]) by {
        ambiguities_do_not_matter(snapshot, one.refs, other.refs, merge.inputs[k]);
    }
    if any_follows(snapshot, one.refs, ids, merge.inputs, 0) {
        let k = choose|k: int|
            0 <= k < merge.inputs.len() && #[trigger] follows(
                snapshot,
                one.refs,
                ids,
                merge.inputs[k],
            );
        assert(follows(snapshot, other.refs, ids, merge.inputs[k]));
    }
    if any_follows(snapshot, other.refs, ids, merge.inputs, 0) {
        let k = choose|k: int|
            0 <= k < merge.inputs.len() && #[trigger] follows(
                snapshot,
                other.refs,
                ids,
                merge.inputs[k],
            );
        assert(follows(snapshot, one.refs, ids, merge.inputs[k]));
    }
}

/// Whether a merge of the scope that is called for has all that stands above it affected.
pub open spec fn settled(
    snapshot: SnapshotView,
    graph: GraphView,
    goal: Goal,
    refs: ReferencesView,
    ids: Seq<ObjectId>,
    m: int,
) -> bool {
    graph.scope.contains(graph.merges[m].id) && called_for(
        snapshot,
        goal,
        graph.merges[m],
        refs,
        ids,
    ) ==> among(graph.merges[m].descendants, ids)
}

proof fn among_all(some: Seq<ObjectId>, before: PreparationView, after: PreparationView)
    requires
        among(some, before.affected),
        steps(before, after),
    ensures
        among(some, after.affected),
{
    steps_hold(before, after);
}

proof fn round_steps(
    snapshot: SnapshotView,
    graph: GraphView,
    goal: Goal,
    at: int,
    state: PreparationView,
)
    requires
        0 <= at <= graph.merges.len(),
    ensures
        merges_add_from(snapshot, graph, goal, at, state) matches Ok(last) ==> {
            &&& steps(state, last)
            &&& last.eager == state.eager && last.optional == state.optional
            &&& last.affected.len() == state.affected.len() ==> forall|m: int|
                at <= m < graph.merges.len() ==> #[trigger] settled(
                    snapshot,
                    graph,
                    goal,
                    state.refs,
                    state.affected,
                    m,
                )
            &&& last.affected.len() != state.affected.len() ==> exists|m: int|
                at <= m < graph.merges.len() && !among(
                    (#[trigger] graph.merges[m]).descendants,
                    state.affected,
                ) && among(graph.merges[m].descendants, last.affected)
            &&& forall|id: ObjectId| #[trigger]
                last.affected.contains(id) ==> state.affected.contains(id) || above_some(graph, id)
        },
    decreases graph.merges.len() - at,
{
    if at < graph.merges.len() {
        let merge = graph.merges[at];
        merge_steps(snapshot, graph.scope, goal, merge, state);
        if let Ok(next) = merge_adds(snapshot, graph.scope, goal, merge, state) {
            round_steps(snapshot, graph, goal, at + 1, next);
            if let Ok(last) = merges_add_from(snapshot, graph, goal, at + 1, next) {
                steps_further(state, next, last);
                steps_hold(state, next);
                steps_hold(next, last);
                assert forall|id: ObjectId| #[trigger] last.affected.contains(
                    id,
                ) implies state.affected.contains(id) || above_some(graph, id) by {
                    if next.affected.contains(id) && !state.affected.contains(id) {
                        assert(graph.merges[at].descendants.contains(id));
                    }
                }
                if last.affected.len() == state.affected.len() {
                    assert forall|m: int| at <= m < graph.merges.len() implies #[trigger] settled(
                        snapshot,
                        graph,
                        goal,
                        state.refs,
                        state.affected,
                        m,
                    ) by {
                        if m > at {
                            assert(settled(snapshot, graph, goal, next.refs, next.affected, m));
                            kept_placements_resolve_alike(
                                snapshot,
                                goal,
                                graph.merges[m],
                                state,
                                next,
                            );
                        }
                    }
                } else if next.affected.len() != state.affected.len() {
                    among_all(merge.descendants, next, last);
                    assert(graph.merges[at] == merge);
                } else {
                    let m = choose|m: int|
                        at + 1 <= m < graph.merges.len() && !among(
                            (#[trigger] graph.merges[m]).descendants,
                            next.affected,
                        ) && among(graph.merges[m].descendants, last.affected);
                    assert(!among(graph.merges[m].descendants, state.affected));
                }
            }
        }
    } else {
        assert(state.affected.take(state.affected.len() as int) == state.affected);
    }
}

/// Whether a commit stands above an automatic merge of the scope.
pub open spec fn above_some(graph: GraphView, id: ObjectId) -> bool {
    exists|m: int|
        0 <= m < graph.merges.len() && graph.scope.contains((#[trigger] graph.merges[m]).id)
            && graph.merges[m].descendants.contains(id)
}

/// How many of the first merges have something above them that is not affected.
spec fn unspread(graph: GraphView, ids: Seq<ObjectId>, end: int) -> nat
    decreases end,
{
    if end <= 0 || end > graph.merges.len() {
        0
    } else {
        unspread(graph, ids, end - 1) + (if among(graph.merges[end - 1].descendants, ids) {
            0nat
        } else {
            1nat
        })
    }
}

proof fn unspread_shrinks(graph: GraphView, before: Seq<ObjectId>, after: Seq<ObjectId>, end: int)
    requires
        0 <= end <= graph.merges.len(),
        forall|id: ObjectId| before.contains(id) ==> #[trigger] after.contains(id),
    ensures
        unspread(graph, after, end) <= unspread(graph, before, end) <= end,
        (exists|m: int|
            0 <= m < end && !among((#[trigger] graph.merges[m]).descendants, before) && among(
                graph.merges[m].descendants,
                after,
            )) ==> unspread(graph, after, end) < unspread(graph, before, end),
        unspread(graph, before, end) == 0 ==> forall|m: int|
            0 <= m < end ==> among((#[trigger] graph.merges[m]).descendants, before),
    decreases end,
{
    if end > 0 {
        unspread_shrinks(graph, before, after, end - 1);
        let descendants = graph.merges[end - 1].descendants;
        if among(descendants, before) {
            assert forall|i: int| 0 <= i < descendants.len() implies after.contains(
                #[trigger] descendants[i],
            ) by {
                assert(before.contains(descendants[i]));
            }
            assert(among(descendants, after));
        }
    }
}

proof fn spreading_settles(
    snapshot: SnapshotView,
    graph: GraphView,
    goal: Goal,
    state: PreparationView,
    left: nat,
)
    requires
        unspread(graph, state.affected, graph.merges.len() as int) <= left,
    ensures
        spread(snapshot, graph, goal, state, left) matches Ok(last) ==> {
            &&& steps(state, last)
            &&& last.eager == state.eager && last.optional == state.optional
            &&& forall|m: int|
                0 <= m < graph.merges.len() ==> #[trigger] settled(
                    snapshot,
                    graph,
                    goal,
                    last.refs,
                    last.affected,
                    m,
                )
            &&& forall|id: ObjectId| #[trigger]
                last.affected.contains(id) ==> state.affected.contains(id) || above_some(graph, id)
        },
    decreases left,
{
    let total = graph.merges.len() as int;
    round_steps(snapshot, graph, goal, 0, state);
    if let Ok(next) = merges_add_from(snapshot, graph, goal, 0, state) {
        steps_hold(state, next);
        unspread_shrinks(graph, state.affected, next.affected, total);
        if next.affected.len() == state.affected.len() {
            assert forall|m: int| 0 <= m < graph.merges.len() implies #[trigger] settled(
                snapshot,
                graph,
                goal,
                next.refs,
                next.affected,
                m,
            ) by {
                assert(settled(snapshot, graph, goal, state.refs, state.affected, m));
                kept_placements_resolve_alike(snapshot, goal, graph.merges[m], state, next);
            }
        } else {
            let m = choose|m: int|
                0 <= m < graph.merges.len() && !among(
                    (#[trigger] graph.merges[m]).descendants,
                    state.affected,
                ) && among(graph.merges[m].descendants, next.affected);
            assert(!among(graph.merges[m].descendants, state.affected));
            assert(left > 0);
            spreading_settles(snapshot, graph, goal, next, (left - 1) as nat);
            if let Ok(last) = spread(snapshot, graph, goal, next, (left - 1) as nat) {
                steps_further(state, next, last);
            }
        }
    }
}

/// What an extension adds: only commits that must be rebuilt completely or may stay in conflict.
spec fn extends(before: PreparationView, after: PreparationView) -> bool {
    &&& steps(before, after)
    &&& forall|id: ObjectId| before.eager.contains(id) ==> #[trigger] after.eager.contains(id)
    &&& forall|id: ObjectId| before.optional.contains(id) ==> #[trigger] after.optional.contains(id)
    &&& forall|id: ObjectId| #[trigger]
        after.affected.contains(id) ==> before.affected.contains(id) || after.eager.contains(id)
            || after.optional.contains(id)
}

proof fn extends_further(a: PreparationView, b: PreparationView, c: PreparationView)
    requires
        extends(a, b),
        extends(b, c),
    ensures
        extends(a, c),
{
    steps_further(a, b, c);
    assert forall|id: ObjectId| #[trigger] c.affected.contains(id) implies a.affected.contains(id)
        || c.eager.contains(id) || c.optional.contains(id) by {
        if b.affected.contains(id) && !a.affected.contains(id) {
            if b.eager.contains(id) {
                assert(c.eager.contains(id));
            } else {
                assert(c.optional.contains(id));
            }
        }
    }
}

proof fn ancestors_extend(
    commits: Seq<CommitView>,
    state: PreparationView,
    cursor: Option<ObjectId>,
    seen: Seq<ObjectId>,
    left: nat,
)
    ensures
        ancestors_add(commits, state, cursor, seen, left) matches Ok(next) ==> extends(state, next),
    decreases left,
{
    assert(state.affected.take(state.affected.len() as int) == state.affected);
    if let Some(id) = cursor {
        if left > 0 {
            if let Some(commit) = commit_of(commits, id) {
                let noted = optional_too(state, id);
                let next = noted.including(id);
                including_steps(noted, id);
                assert(next.optional == noted.optional);
                assert(noted.optional.contains(id)) by {
                    if !state.optional.contains(id) {
                        assert(noted.optional[state.optional.len() as int] == id);
                    }
                }
                assert forall|other: ObjectId| state.optional.contains(
                    other,
                ) implies #[trigger] next.optional.contains(other) by {
                    let i = state.optional.index_of(other);
                    assert(noted.optional[i] == other);
                }
                assert(extends(state, next));
                let parent = first_of(commit.parents);
                ancestors_extend(commits, next, parent, seen.push(id), (left - 1) as nat);
                if let Ok(last) = ancestors_add(
                    commits,
                    next,
                    parent,
                    seen.push(id),
                    (left - 1) as nat,
                ) {
                    extends_further(state, next, last);
                }
            }
        }
    }
}

proof fn inputs_extend_alone(
    snapshot: SnapshotView,
    state: PreparationView,
    inputs: Seq<Input<Seq<u8>>>,
    at: int,
)
    ensures
        inputs_extend(snapshot, state, inputs, at) matches Ok(next) ==> extends(state, next),
    decreases inputs.len() - at,
{
    assert(state.affected.take(state.affected.len() as int) == state.affected);
    if 0 <= at < inputs.len() {
        let (result, ambiguous) = resolved_input(
            state.refs,
            snapshot,
            inputs[at],
            Seq::empty(),
            None,
        );
        let known = state.knowing(ambiguous);
        assert(extends(state, known));
        if let Ok(cursor) = result {
            inputs_extend_alone(snapshot, known, inputs, at + 1);
            if let Ok(last) = inputs_extend(snapshot, known, inputs, at + 1) {
                extends_further(state, known, last);
            }
            let limit = (snapshot.commits.len() + 1) as nat;
            ancestors_extend(snapshot.commits, known, cursor, Seq::empty(), limit);
            if let Ok(next) = ancestors_add(snapshot.commits, known, cursor, Seq::empty(), limit) {
                extends_further(state, known, next);
                inputs_extend_alone(snapshot, next, inputs, at + 1);
                if let Ok(last) = inputs_extend(snapshot, next, inputs, at + 1) {
                    extends_further(state, next, last);
                }
            }
        }
    }
}

proof fn extending_adds_little(
    snapshot: SnapshotView,
    graph: GraphView,
    state: PreparationView,
    left: nat,
)
    ensures
        extend_all(snapshot, graph, state, left) matches Ok(next) ==> extends(state, next),
    decreases left, state.queue.len(),
{
    assert(state.affected.take(state.affected.len() as int) == state.affected);
    if state.queue.len() > 0 {
        let id = state.queue.last();
        let popped = PreparationView { queue: state.queue.drop_last(), ..state };
        assert(extends(state, popped));
        if state.eager.contains(id) {
            extending_adds_little(snapshot, graph, popped, left);
            if let Ok(last) = extend_all(snapshot, graph, popped, left) {
                extends_further(state, popped, last);
            }
        } else if left > 0 {
            let noted = PreparationView { eager: popped.eager.push(id), ..popped };
            let next = noted.including(id);
            including_steps(noted, id);
            assert(noted.eager[state.eager.len() as int] == id);
            assert forall|other: ObjectId| state.eager.contains(
                other,
            ) implies #[trigger] next.eager.contains(other) by {
                let i = state.eager.index_of(other);
                assert(noted.eager[i] == other);
            }
            assert(extends(state, next));
            if let Ok(inputs) = merge_inputs(snapshot, graph, id) {
                inputs_extend_alone(snapshot, next, inputs, 0);
                if let Ok(extended) = inputs_extend(snapshot, next, inputs, 0) {
                    extends_further(state, next, extended);
                    extending_adds_little(snapshot, graph, extended, (left - 1) as nat);
                    if let Ok(last) = extend_all(snapshot, graph, extended, (left - 1) as nat) {
                        extends_further(state, extended, last);
                    }
                }
            }
        }
    }
}

proof fn tracking_keeps_placements(
    snapshot: SnapshotView,
    graph: GraphView,
    merge: ObjectId,
    inputs: Seq<Input<Seq<u8>>>,
    at: int,
    done: Seq<ObjectId>,
    refs: ReferencesView,
)
    ensures
        tracked_from(snapshot, graph.bases, merge, inputs, at, done, refs) matches Ok((_, next))
            ==> next.placements == refs.placements && next.candidates == refs.candidates,
    decreases inputs.len() - at,
{
    if 0 <= at < inputs.len() {
        let (result, ambiguous) = resolved_input(refs, snapshot, inputs[at], Seq::empty(), None);
        let known = ReferencesView { ambiguous, ..refs };
        if let Ok(found) = result {
            if let Some(id) = found {
                tracking_keeps_placements(
                    snapshot,
                    graph,
                    merge,
                    inputs,
                    at + 1,
                    done.push(id),
                    known,
                );
            }
            tracking_keeps_placements(snapshot, graph, merge, inputs, at + 1, done, known);
        }
    }
}

proof fn ordering_keeps_placements(
    snapshot: SnapshotView,
    graph: GraphView,
    ids: Seq<ObjectId>,
    at: int,
    done: Seq<Seq<usize>>,
    refs: ReferencesView,
)
    ensures
        dependencies_from(snapshot, graph, ids, at, done, refs) matches Ok((_, next))
            ==> next.placements == refs.placements && next.candidates == refs.candidates,
    decreases ids.len() - at,
{
    if 0 <= at < ids.len() {
        if let Some(commit) = commit_of(snapshot.commits, ids[at]) {
            if let Ok(listed) = crate::auto_merge::definition::definition_of(commit.headers) {
                let known = crate::auto_merge::prepare::known_inputs_from(graph.merges, ids[at], 0);
                if let Some(inputs) = known {
                    tracking_keeps_placements(
                        snapshot,
                        graph,
                        ids[at],
                        inputs,
                        0,
                        Seq::empty(),
                        refs,
                    );
                } else if let Some(inputs) = listed {
                    tracking_keeps_placements(
                        snapshot,
                        graph,
                        ids[at],
                        inputs,
                        0,
                        Seq::empty(),
                        refs,
                    );
                }
            }
        }
        if let Ok((found, next)) = parts_of(snapshot, graph, ids[at], refs) {
            ordering_keeps_placements(
                snapshot,
                graph,
                ids,
                at + 1,
                done.push(crate::auto_merge::prepare::slots_of(ids, found)),
                next,
            );
        }
    }
}

proof fn starting_places(refs: ReferencesView, ids: Seq<ObjectId>, at: int)
    requires
        0 <= at <= ids.len(),
        self_placed(refs, ids.take(at)),
    ensures
        self_placed(standing_from(refs, ids, at), ids),
        standing_from(refs, ids, at).candidates == refs.candidates,
    decreases ids.len() - at,
{
    if at < ids.len() {
        standing_places(refs, ids.take(at), ids[at]);
        assert(ids.take(at).push(ids[at]) == ids.take(at + 1));
        starting_places(standing(refs, ids[at]), ids, at + 1);
    } else {
        assert(ids.take(at) == ids);
    }
}

proof fn earlier_inputs_stood_for_it(
    snapshot: SnapshotView,
    input: Input<Seq<u8>>,
    before: ReferencesView,
    some: Seq<ObjectId>,
    after: ReferencesView,
    all: Seq<ObjectId>,
    id: ObjectId,
)
    requires
        self_placed(before, some),
        self_placed(after, all),
        before.candidates == after.candidates,
        forall|other: ObjectId| some.contains(other) ==> #[trigger] all.contains(other),
        resolved_input(after, snapshot, input, Seq::empty(), None).0 == Ok::<_, MergeError>(Some(id)),
        some.contains(id),
    ensures
        resolved_input(before, snapshot, input, Seq::empty(), None).0 == Ok::<_, MergeError>(
            Some(id),
        ),
{
    if input.source is Change {
        assert(placement_of(before.placements, input.commit_id) is Some <==> some.contains(
            input.commit_id,
        ));
        assert(placement_of(after.placements, input.commit_id) is Some <==> all.contains(
            input.commit_id,
        ));
        assert(placement_of(before.placements, id) == Some(RefDestination::Existing(id)));
        assert(all.contains(id));
        assert(placement_of(after.placements, id) == Some(RefDestination::Existing(id)));
    }
}

/// How far an edit reaches. Of all automatic merges of the scope, each that has an input, muted or not,
/// which can change and stands for an affected commit, is affected with all that stands above it; so is each
/// that is affected itself, that is forced to be rebuilt, or that the checkout needs while its rebase is
/// pending. The exception are commits that only became affected because a merge must be rebuilt completely,
/// and are noted as such: nothing is rebuilt on their account. There are none of those without a checkout
/// and without a merge that is forced to be rebuilt.
pub proof fn followers_are_affected(
    snapshot: SnapshotView,
    graph: GraphView,
    named: Seq<ObjectId>,
    checkout: Option<ObjectId>,
    force: Option<ObjectId>,
    preparation: PreparationView,
)
    requires
        prepared(snapshot, graph, named, checkout, force) == Ok::<_, MergeError>(preparation),
        reached(snapshot, graph, named, checkout, force)->Ok_0.affected.len() <= usize::MAX,
    ensures
        forall|m: int, k: int, id: ObjectId|
            #![trigger graph.merges[m].inputs[k], preparation.affected.contains(id)]
            {
                &&& 0 <= m < graph.merges.len()
                &&& graph.scope.contains(graph.merges[m].id)
                &&& 0 <= k < graph.merges[m].inputs.len()
                &&& changeable(graph.merges[m].inputs[k])
                &&& resolved_input(
                    preparation.refs,
                    snapshot,
                    graph.merges[m].inputs[k],
                    Seq::empty(),
                    None,
                ).0 == Ok::<_, MergeError>(Some(id))
                &&& preparation.affected.contains(id)
                &&& !preparation.eager.contains(id)
                &&& !preparation.optional.contains(id)
            } ==> among(graph.merges[m].descendants, preparation.affected),
        forall|m: int|
            0 <= m < graph.merges.len() && graph.scope.contains((#[trigger] graph.merges[m]).id) && {
                ||| preparation.affected.contains(graph.merges[m].id)
                    && !preparation.eager.contains(graph.merges[m].id)
                    && !preparation.optional.contains(graph.merges[m].id)
                ||| force == Some(graph.merges[m].id)
                ||| checkout is Some && path_from(
                    snapshot.commits,
                    graph.scope,
                    checkout,
                    Seq::empty(),
                    graph.scope.len(),
                )->Ok_0.contains(graph.merges[m].id) && (commit_of(
                    snapshot.commits,
                    graph.merges[m].id,
                ) matches Some(commit) && commit.pending)
            } ==> among(graph.merges[m].descendants, preparation.affected),
        checkout is None && force is None ==> preparation.eager.len() == 0
            && preparation.optional.len() == 0,
        forall|id: ObjectId| #[trigger]
            preparation.affected.contains(id) ==> named.contains(id) || above_some(graph, id)
                || preparation.eager.contains(id) || preparation.optional.contains(id),
{
    let required = path_from(
        snapshot.commits,
        graph.scope,
        checkout,
        Seq::empty(),
        graph.scope.len(),
    )->Ok_0;
    let goal = Goal { required, force };
    let start = starting(graph.bounded_history, named);
    let total = graph.merges.len();
    let fresh = ReferencesView {
        candidates: graph.bounded_history,
        placements: Seq::empty(),
        ambiguous: Seq::empty(),
    };
    assert(self_placed(fresh, named.take(0)));
    starting_places(fresh, named, 0);
    unspread_shrinks(graph, start.affected, start.affected, total as int);
    spreading_settles(snapshot, graph, goal, start, total);
    let widened = spread(snapshot, graph, goal, start, total)->Ok_0;
    let limit = total + snapshot.commits.len();
    extending_adds_little(snapshot, graph, widened, limit);
    let state = extend_all(snapshot, graph, widened, limit)->Ok_0;
    let (out, next) = ordered_ids(snapshot, graph, state.affected, state.refs)->Ok_0;
    orders_are_complete(snapshot, graph, state.affected, state.refs, out, next);
    ordering_keeps_placements(snapshot, graph, state.affected, 0, Seq::empty(), state.refs);
    steps_hold(widened, state);
    assert forall|id: ObjectId| #[trigger] out.contains(id) implies state.affected.contains(id) by {
        let i = out.index_of(id);
        assert(state.affected.contains(out[i]));
    }
    assert forall|id: ObjectId| state.affected.contains(id) implies #[trigger] out.contains(id) by {
        let i = state.affected.index_of(id);
        assert(out.contains(state.affected[i]));
    }
    assert forall|m: int|
        0 <= m < total && among(
            (#[trigger] graph.merges[m]).descendants,
            widened.affected,
        ) implies among(graph.merges[m].descendants, preparation.affected) by {
        let descendants = graph.merges[m].descendants;
        assert forall|i: int| 0 <= i < descendants.len() implies preparation.affected.contains(
            #[trigger] descendants[i],
        ) by {
            assert(widened.affected.contains(descendants[i]));
        }
    }
    assert forall|m: int, k: int, id: ObjectId|
        #![trigger graph.merges[m].inputs[k], preparation.affected.contains(id)]
        {
            &&& 0 <= m < graph.merges.len()
            &&& graph.scope.contains(graph.merges[m].id)
            &&& 0 <= k < graph.merges[m].inputs.len()
            &&& changeable(graph.merges[m].inputs[k])
            &&& resolved_input(
                preparation.refs,
                snapshot,
                graph.merges[m].inputs[k],
                Seq::empty(),
                None,
            ).0 == Ok::<_, MergeError>(Some(id))
            &&& preparation.affected.contains(id)
            &&& !preparation.eager.contains(id)
            &&& !preparation.optional.contains(id)
        } implies among(graph.merges[m].descendants, preparation.affected) by {
        let input = graph.merges[m].inputs[k];
        assert(widened.affected.contains(id));
        ambiguities_do_not_matter(snapshot, preparation.refs, state.refs, input);
        earlier_inputs_stood_for_it(
            snapshot,
            input,
            widened.refs,
            widened.affected,
            state.refs,
            state.affected,
            id,
        );
        assert(follows(snapshot, widened.refs, widened.affected, input));
        assert(settled(snapshot, graph, goal, widened.refs, widened.affected, m));
    }
    assert forall|m: int|
        0 <= m < graph.merges.len() && graph.scope.contains((#[trigger] graph.merges[m]).id) && {
            ||| preparation.affected.contains(graph.merges[m].id)
                && !preparation.eager.contains(graph.merges[m].id)
                && !preparation.optional.contains(graph.merges[m].id)
            ||| force == Some(graph.merges[m].id)
            ||| checkout is Some && required.contains(graph.merges[m].id) && (commit_of(
                snapshot.commits,
                graph.merges[m].id,
            ) matches Some(commit) && commit.pending)
        } implies among(graph.merges[m].descendants, preparation.affected) by {
        assert(settled(snapshot, graph, goal, widened.refs, widened.affected, m));
    }
    if checkout is None && force is None {
        assert(required == Seq::<ObjectId>::empty());
        spreading_queues_nothing(snapshot, graph, goal, start, total);
    }
}

proof fn round_queues_nothing(
    snapshot: SnapshotView,
    graph: GraphView,
    goal: Goal,
    at: int,
    state: PreparationView,
)
    requires
        goal.required.len() == 0,
        goal.force is None,
        state.queue.len() == 0,
    ensures
        merges_add_from(snapshot, graph, goal, at, state) matches Ok(next) ==> next.queue.len() == 0,
    decreases graph.merges.len() - at,
{
    if 0 <= at < graph.merges.len() {
        merge_steps(snapshot, graph.scope, goal, graph.merges[at], state);
        if let Ok(next) = merge_adds(snapshot, graph.scope, goal, graph.merges[at], state) {
            round_queues_nothing(snapshot, graph, goal, at + 1, next);
        }
    }
}

proof fn spreading_queues_nothing(
    snapshot: SnapshotView,
    graph: GraphView,
    goal: Goal,
    state: PreparationView,
    left: nat,
)
    requires
        goal.required.len() == 0,
        goal.force is None,
        state.queue.len() == 0,
    ensures
        spread(snapshot, graph, goal, state, left) matches Ok(next) ==> next.queue.len() == 0,
    decreases left,
{
    round_queues_nothing(snapshot, graph, goal, 0, state);
    if let Ok(next) = merges_add_from(snapshot, graph, goal, 0, state) {
        if left > 0 {
            spreading_queues_nothing(snapshot, graph, goal, next, (left - 1) as nat);
        }
    }
}

proof fn quiet_rounds_change_nothing(
    snapshot: SnapshotView,
    graph: GraphView,
    goal: Goal,
    at: int,
    state: PreparationView,
)
    requires
        0 <= at <= graph.merges.len(),
        forall|m: int|
            0 <= m < graph.merges.len() && graph.scope.contains((#[trigger] graph.merges[m]).id)
                ==> !called_for(snapshot, goal, graph.merges[m], state.refs, state.affected),
    ensures
        merges_add_from(snapshot, graph, goal, at, state) matches Ok(next) ==> next.affected
            == state.affected && next.queue == state.queue && next.eager == state.eager
            && next.optional == state.optional,
    decreases graph.merges.len() - at,
{
    if at < graph.merges.len() {
        merge_steps(snapshot, graph.scope, goal, graph.merges[at], state);
        if let Ok(next) = merge_adds(snapshot, graph.scope, goal, graph.merges[at], state) {
            assert forall|m: int|
                0 <= m < graph.merges.len() && graph.scope.contains(
                    (#[trigger] graph.merges[m]).id,
                ) implies !called_for(snapshot, goal, graph.merges[m], next.refs, next.affected) by {
                kept_placements_resolve_alike(snapshot, goal, graph.merges[m], state, next);
            }
            quiet_rounds_change_nothing(snapshot, graph, goal, at + 1, next);
        }
    }
}

/// An edit reaches no further than it must: where no automatic merge of the scope is named, follows what is
/// named through an input that can change, is forced to be rebuilt, or is needed while its rebase is
/// pending, only what was named is affected, and nothing must be rebuilt completely.
pub proof fn nothing_else_is_affected(
    snapshot: SnapshotView,
    graph: GraphView,
    named: Seq<ObjectId>,
    checkout: Option<ObjectId>,
    force: Option<ObjectId>,
    preparation: PreparationView,
)
    requires
        prepared(snapshot, graph, named, checkout, force) == Ok::<_, MergeError>(preparation),
        named.len() <= usize::MAX,
        ({
            let required = path_from(
                snapshot.commits,
                graph.scope,
                checkout,
                Seq::empty(),
                graph.scope.len(),
            )->Ok_0;
            let known = starting(graph.bounded_history, named).refs;
            forall|m: int|
                0 <= m < graph.merges.len() && graph.scope.contains((#[trigger] graph.merges[m]).id)
                    ==> !called_for(
                    snapshot,
                    Goal { required, force },
                    graph.merges[m],
                    known,
                    named,
                )
        }),
    ensures
        among(preparation.affected, named),
        among(named, preparation.affected),
        preparation.eager.len() == 0,
        preparation.optional.len() == 0,
{
    let required = path_from(
        snapshot.commits,
        graph.scope,
        checkout,
        Seq::empty(),
        graph.scope.len(),
    )->Ok_0;
    let goal = Goal { required, force };
    let start = starting(graph.bounded_history, named);
    quiet_rounds_change_nothing(snapshot, graph, goal, 0, start);
    let widened = spread(snapshot, graph, goal, start, graph.merges.len())->Ok_0;
    assert(widened.affected == named);
    let (out, next) = ordered_ids(snapshot, graph, widened.affected, widened.refs)->Ok_0;
    orders_are_complete(snapshot, graph, widened.affected, widened.refs, out, next);
}

/// Whether a commit is reached from another by first parents, where all of them are in the scope, and none above
/// it is an automatic merge.
pub open spec fn on_the_way(
    commits: Seq<CommitView>,
    scope: Seq<ObjectId>,
    path: Seq<ObjectId>,
    start: ObjectId,
) -> bool {
    &&& path.len() > 0 ==> path[0] == start
    &&& path.no_duplicates()
    &&& forall|i: int| 0 <= i < path.len() ==> scope.contains(#[trigger] path[i])
    &&& forall|i: int|
        #![trigger path[i]]
        0 <= i < path.len() - 1 ==> (commit_of(commits, path[i]) matches Some(commit) && !automatic(
            commit.headers,
        ) && first_of(commit.parents) == Some(path[i + 1]))
}

proof fn paths_lead_down_from(
    commits: Seq<CommitView>,
    scope: Seq<ObjectId>,
    cursor: Option<ObjectId>,
    path: Seq<ObjectId>,
    left: nat,
    start: ObjectId,
)
    requires
        on_the_way(commits, scope, path, start),
        path.len() > 0 ==> (commit_of(commits, path.last()) matches Some(commit) && !automatic(
            commit.headers,
        ) && first_of(commit.parents) == cursor),
        path.len() == 0 ==> cursor == Some(start),
    ensures
        path_from(commits, scope, cursor, path, left) matches Ok(found) ==> on_the_way(
            commits,
            scope,
            found,
            start,
        ) && found.len() >= path.len() && (left > 0 && (cursor matches Some(id) && scope.contains(
            id,
        ) && !path.contains(id)) ==> found.len() > path.len()) && (found.len() < path.len() + left
            ==> found.len() > 0 ==> (commit_of(commits, found.last()) matches Some(commit) && (
        automatic(commit.headers) || first_of(commit.parents) is None || !scope.contains(
            first_of(commit.parents)->0,
        ) || found.contains(first_of(commit.parents)->0)))),
    decreases left,
{
    if let Some(id) = cursor {
        if left > 0 && scope.contains(id) && !path.contains(id) {
            if let Some(commit) = commit_of(commits, id) {
                let next = path.push(id);
                assert(on_the_way(commits, scope, next, start)) by {
                    assert forall|i: int|
                        #![trigger next[i]]
                        0 <= i < next.len() - 1 implies (commit_of(commits, next[i]) matches Some(
                        commit,
                    ) && !automatic(commit.headers) && first_of(commit.parents) == Some(
                        next[i + 1],
                    )) by {
                        if i < path.len() - 1 {
                            assert(path[i] == next[i]);
                            assert(path[i + 1] == next[i + 1]);
                        } else {
                            assert(path.last() == next[i]);
                        }
                    }
                    assert forall|i: int, j: int|
                        0 <= i < next.len() && 0 <= j < next.len() && i != j implies next[i]
                        != next[j] by {
                        if j == path.len() {
                            assert(path[i] == next[i]);
                        } else if i == path.len() {
                            assert(path[j] == next[j]);
                        }
                    }
                }
                if !automatic(commit.headers) {
                    paths_lead_down_from(
                        commits,
                        scope,
                        first_of(commit.parents),
                        next,
                        (left - 1) as nat,
                        start,
                    );
                }
            }
        }
    }
}

/// What a checkout needs are the commits from it down by first parents, as far as they are in the scope, to the
/// first automatic merge: that one is needed too, and nothing below it.
pub proof fn checkouts_need_the_way_down(
    commits: Seq<CommitView>,
    scope: Seq<ObjectId>,
    checkout: ObjectId,
)
    ensures
        path_from(commits, scope, Some(checkout), Seq::empty(), scope.len()) matches Ok(found) ==> {
            &&& on_the_way(commits, scope, found, checkout)
            &&& scope.contains(checkout) ==> found.contains(checkout)
            &&& !scope.contains(checkout) ==> found.len() == 0
            &&& found.len() < scope.len() && found.len() > 0 ==> (commit_of(
                commits,
                found.last(),
            ) matches Some(commit) && (automatic(commit.headers) || first_of(commit.parents) is None
                || !scope.contains(first_of(commit.parents)->0) || found.contains(
                first_of(commit.parents)->0,
            )))
        },
{
    paths_lead_down_from(commits, scope, Some(checkout), Seq::empty(), scope.len(), checkout);
    if scope.contains(checkout) {
        let i = scope.index_of(checkout);
        assert(scope.len() > 0);
        if let Ok(found) = path_from(commits, scope, Some(checkout), Seq::empty(), scope.len()) {
            assert(found.len() > 0);
            assert(found[0] == checkout);
        }
    }
}

/// Whether a commit is reached from another by first parents, where each on the way has a pending rebase and is
/// no automatic merge.
pub open spec fn pending_down(
    commits: Seq<CommitView>,
    from: ObjectId,
    to: ObjectId,
    steps: nat,
) -> bool
    decreases steps,
{
    commit_of(commits, from) matches Some(commit) && commit.pending && !automatic(commit.headers) && (
    from == to || (steps > 0 && (first_of(commit.parents) matches Some(parent) && pending_down(
        commits,
        parent,
        to,
        (steps - 1) as nat,
    ))))
}

proof fn extended_states_hold(before: PreparationView, after: PreparationView, id: ObjectId)
    requires
        extends(before, after),
    ensures
        before.affected.contains(id) ==> after.affected.contains(id),
        before.optional.contains(id) ==> after.optional.contains(id),
{
    steps_hold(before, after);
}

/// Where a merge must be rebuilt completely, the commits from each of its inputs down whose rebases are pending
/// come along, and are noted as such, as far as the first automatic merge, which must be rebuilt completely too.
pub proof fn pending_inputs_come_along(
    commits: Seq<CommitView>,
    state: PreparationView,
    from: ObjectId,
    seen: Seq<ObjectId>,
    left: nat,
    to: ObjectId,
    steps: nat,
)
    requires
        ancestors_add(commits, state, Some(from), seen, left) is Ok,
    ensures
        ({
            let next = ancestors_add(commits, state, Some(from), seen, left)->Ok_0;
            &&& pending_down(commits, from, to, steps) ==> next.affected.contains(to)
                && next.optional.contains(to)
            &&& commit_of(commits, from) matches Some(commit) && (automatic(commit.headers)
                ==> next.queue.contains(from) && next.affected == state.affected)
            &&& commit_of(commits, from) matches Some(commit) && (!automatic(commit.headers)
                && !commit.pending && !state.affected.contains(from) ==> next == state)
        }),
    decreases left,
{
    let next = ancestors_add(commits, state, Some(from), seen, left)->Ok_0;
    let commit = commit_of(commits, from)->Some_0;
    if automatic(commit.headers) {
        assert(next.queue[state.queue.len() as int] == from);
    } else if state.affected.contains(from) || commit.pending {
        let noted = optional_too(state, from);
        let middle = noted.including(from);
        including_steps(noted, from);
        assert(noted.optional.contains(from)) by {
            if !state.optional.contains(from) {
                assert(noted.optional[state.optional.len() as int] == from);
            }
        }
        assert(middle.optional == noted.optional);
        let parent = first_of(commit.parents);
        ancestors_extend(commits, middle, parent, seen.push(from), (left - 1) as nat);
        extended_states_hold(middle, next, from);
        if pending_down(commits, from, to, steps) && from != to {
            pending_inputs_come_along(
                commits,
                middle,
                parent->Some_0,
                seen.push(from),
                (left - 1) as nat,
                to,
                (steps - 1) as nat,
            );
        }
    }
}

spec fn held(state: PreparationView, id: ObjectId) -> bool {
    state.queue.contains(id) || state.eager.contains(id)
}

proof fn ancestors_keep_the_queue(
    commits: Seq<CommitView>,
    state: PreparationView,
    cursor: Option<ObjectId>,
    seen: Seq<ObjectId>,
    left: nat,
    id: ObjectId,
)
    requires
        held(state, id),
    ensures
        ancestors_add(commits, state, cursor, seen, left) matches Ok(next) ==> held(next, id),
    decreases left,
{
    if let Some(at) = cursor {
        if left > 0 {
            if let Some(commit) = commit_of(commits, at) {
                let more = state.queue.push(at);
                if state.queue.contains(id) {
                    let i = state.queue.index_of(id);
                    assert(more[i] == id);
                }
                let next = optional_too(state, at).including(at);
                assert(held(next, id));
                ancestors_keep_the_queue(
                    commits,
                    next,
                    first_of(commit.parents),
                    seen.push(at),
                    (left - 1) as nat,
                    id,
                );
            }
        }
    }
}

proof fn inputs_keep_the_queue(
    snapshot: SnapshotView,
    state: PreparationView,
    inputs: Seq<Input<Seq<u8>>>,
    at: int,
    id: ObjectId,
)
    requires
        held(state, id),
    ensures
        inputs_extend(snapshot, state, inputs, at) matches Ok(next) ==> held(next, id),
    decreases inputs.len() - at,
{
    if 0 <= at < inputs.len() {
        let (result, ambiguous) = resolved_input(
            state.refs,
            snapshot,
            inputs[at],
            Seq::empty(),
            None,
        );
        let known = state.knowing(ambiguous);
        assert(held(known, id));
        if let Ok(cursor) = result {
            inputs_keep_the_queue(snapshot, known, inputs, at + 1, id);
            let limit = (snapshot.commits.len() + 1) as nat;
            ancestors_keep_the_queue(snapshot.commits, known, cursor, Seq::empty(), limit, id);
            if let Ok(next) = ancestors_add(snapshot.commits, known, cursor, Seq::empty(), limit) {
                inputs_keep_the_queue(snapshot, next, inputs, at + 1, id);
            }
        }
    }
}

proof fn queued_merges_become_eager(
    snapshot: SnapshotView,
    graph: GraphView,
    state: PreparationView,
    left: nat,
    id: ObjectId,
)
    requires
        held(state, id),
    ensures
        extend_all(snapshot, graph, state, left) matches Ok(next) ==> next.eager.contains(id),
    decreases left, state.queue.len(),
{
    if state.queue.len() > 0 {
        let last = state.queue.last();
        let popped = PreparationView { queue: state.queue.drop_last(), ..state };
        if state.queue.contains(id) && id != last {
            let i = state.queue.index_of(id);
            assert(popped.queue[i] == id);
        }
        if state.eager.contains(last) {
            queued_merges_become_eager(snapshot, graph, popped, left, id);
        } else if left > 0 {
            let noted = PreparationView { eager: popped.eager.push(last), ..popped };
            assert(noted.eager[popped.eager.len() as int] == last);
            if state.eager.contains(id) {
                let i = state.eager.index_of(id);
                assert(noted.eager[i] == id);
            }
            let next = noted.including(last);
            assert(held(next, id));
            if let Ok(inputs) = merge_inputs(snapshot, graph, last) {
                inputs_keep_the_queue(snapshot, next, inputs, 0, id);
                if let Ok(extended) = inputs_extend(snapshot, next, inputs, 0) {
                    queued_merges_become_eager(snapshot, graph, extended, (left - 1) as nat, id);
                }
            }
        }
    }
}

proof fn round_queues_what_is_needed(
    snapshot: SnapshotView,
    graph: GraphView,
    goal: Goal,
    at: int,
    state: PreparationView,
    id: ObjectId,
    m: int,
)
    requires
        0 <= at <= graph.merges.len(),
    ensures
        merges_add_from(snapshot, graph, goal, at, state) matches Ok(last) ==> {
            &&& state.queue.contains(id) ==> last.queue.contains(id)
            &&& at <= m < graph.merges.len() && graph.merges[m].id == id && graph.scope.contains(id)
                && (goal.force == Some(id) || (goal.required.contains(id) && called_for(
                snapshot,
                goal,
                graph.merges[m],
                state.refs,
                state.affected,
            ) && last.affected.len() == state.affected.len())) ==> last.queue.contains(id)
        },
    decreases graph.merges.len() - at,
{
    if at < graph.merges.len() {
        let merge = graph.merges[at];
        merge_steps(snapshot, graph.scope, goal, merge, state);
        touching_finds(snapshot, state, merge.inputs, 0, false);
        if let Ok(next) = merge_adds(snapshot, graph.scope, goal, merge, state) {
            if graph.scope.contains(merge.id) {
                let known = touched_from(snapshot, state, merge.inputs, 0, false)->Ok_0.1;
                including_all_steps(known, merge.descendants, 0);
            }
            assert(state.queue.contains(id) ==> next.queue.contains(id)) by {
                if state.queue.contains(id) {
                    let i = state.queue.index_of(id);
                    assert(next.queue[i] == id);
                }
            }
            assert(next.queue.len() > 0 && next.queue != state.queue ==> next.queue[next.queue.len()
                - 1] == merge.id);
            round_queues_what_is_needed(snapshot, graph, goal, at + 1, next, id, m);
            if let Ok(last) = merges_add_from(snapshot, graph, goal, at + 1, next) {
                round_steps(snapshot, graph, goal, at + 1, next);
                steps_hold(state, next);
                steps_hold(next, last);
                if m > at && last.affected.len() == state.affected.len() {
                    kept_placements_resolve_alike(snapshot, goal, graph.merges[m], state, next);
                }
                if m == at && merge.id == id && graph.scope.contains(id) && (goal.force == Some(id)
                    || (goal.required.contains(id) && called_for(
                    snapshot,
                    goal,
                    merge,
                    state.refs,
                    state.affected,
                ))) {
                    assert(next.queue[next.queue.len() - 1] == id);
                    assert(next.queue.contains(id));
                }
            }
        }
    }
}

proof fn spreading_queues_what_is_needed(
    snapshot: SnapshotView,
    graph: GraphView,
    goal: Goal,
    state: PreparationView,
    left: nat,
    m: int,
)
    requires
        unspread(graph, state.affected, graph.merges.len() as int) <= left,
        0 <= m < graph.merges.len(),
        graph.scope.contains(graph.merges[m].id),
    ensures
        spread(snapshot, graph, goal, state, left) matches Ok(last) ==> {
            let id = graph.merges[m].id;
            &&& state.queue.contains(id) ==> last.queue.contains(id)
            &&& goal.force == Some(id) || (goal.required.contains(id) && called_for(
                snapshot,
                goal,
                graph.merges[m],
                last.refs,
                last.affected,
            )) ==> last.queue.contains(id)
        },
    decreases left,
{
    let total = graph.merges.len() as int;
    let id = graph.merges[m].id;
    round_steps(snapshot, graph, goal, 0, state);
    round_queues_what_is_needed(snapshot, graph, goal, 0, state, id, m);
    if let Ok(next) = merges_add_from(snapshot, graph, goal, 0, state) {
        steps_hold(state, next);
        unspread_shrinks(graph, state.affected, next.affected, total);
        if next.affected.len() == state.affected.len() {
            kept_placements_resolve_alike(snapshot, goal, graph.merges[m], state, next);
        } else {
            let w = choose|w: int|
                0 <= w < graph.merges.len() && !among(
                    (#[trigger] graph.merges[w]).descendants,
                    state.affected,
                ) && among(graph.merges[w].descendants, next.affected);
            assert(!among(graph.merges[w].descendants, state.affected));
            assert(left > 0);
            spreading_queues_what_is_needed(snapshot, graph, goal, next, (left - 1) as nat, m);
        }
    }
}

/// Which merges must be rebuilt completely: the one that is forced to be, and each on the way down from the
/// checkout that is affected itself, or whose rebase is pending.
pub proof fn needed_merges_are_rebuilt_completely(
    snapshot: SnapshotView,
    graph: GraphView,
    named: Seq<ObjectId>,
    checkout: Option<ObjectId>,
    force: Option<ObjectId>,
    preparation: PreparationView,
    m: int,
)
    requires
        prepared(snapshot, graph, named, checkout, force) == Ok::<_, MergeError>(preparation),
        0 <= m < graph.merges.len(),
        graph.scope.contains(graph.merges[m].id),
    ensures
        force == Some(graph.merges[m].id) ==> preparation.eager.contains(graph.merges[m].id),
        path_from(
            snapshot.commits,
            graph.scope,
            checkout,
            Seq::empty(),
            graph.scope.len(),
        )->Ok_0.contains(graph.merges[m].id) && (named.contains(graph.merges[m].id) || (commit_of(
            snapshot.commits,
            graph.merges[m].id,
        ) matches Some(commit) && commit.pending)) ==> preparation.eager.contains(
            graph.merges[m].id,
        ),
{
    let id = graph.merges[m].id;
    let required = path_from(
        snapshot.commits,
        graph.scope,
        checkout,
        Seq::empty(),
        graph.scope.len(),
    )->Ok_0;
    let goal = Goal { required, force };
    let start = starting(graph.bounded_history, named);
    let total = graph.merges.len();
    unspread_shrinks(graph, start.affected, start.affected, total as int);
    spreading_settles(snapshot, graph, goal, start, total);
    spreading_queues_what_is_needed(snapshot, graph, goal, start, total, m);
    let widened = spread(snapshot, graph, goal, start, total)->Ok_0;
    steps_hold(start, widened);
    let limit = total + snapshot.commits.len();
    if widened.queue.contains(id) {
        queued_merges_become_eager(snapshot, graph, widened, limit, id);
    }
}

} // verus!
