//! What holds of the commits that an edit affects through automatic merges.
use vstd::prelude::*;
use crate::auto_merge::definition::{definition_of, Input};
use crate::auto_merge::prepare::{
    ancestors_add, dependencies_from, distinct_count, extend_all, first_of, first_slots, id_slot,
    inputs_extend, known_inputs_from, merge_adds, merge_inputs, merges_add_from, optional_too,
    ordered_ids, parts_of, path_from, prepared, reached, slots_of, spread, starting, touched_from,
    Goal, GraphView, MergeView, PreparationView,
};
use crate::auto_merge::resolve::{commit_of, resolved_input, CommitView, ReferencesView, SnapshotView};
use crate::auto_merge::topology::{order_of, orders_are_sound, ready, sound, stands};
use crate::auto_merge::MergeError;
use crate::ids::ObjectId;

verus! {

/// Whether all of some ids are among others.
pub open spec fn among(some: Seq<ObjectId>, all: Seq<ObjectId>) -> bool {
    forall|i: int| 0 <= i < some.len() ==> all.contains(#[trigger] some[i])
}

/// Whether a state comes behind another: what was affected still is, and what must be rebuilt
/// completely or may stay in conflict is affected.
pub open spec fn grows(before: PreparationView, after: PreparationView) -> bool {
    &&& among(before.affected, after.affected)
    &&& among(before.eager, before.affected) ==> among(after.eager, after.affected)
    &&& among(before.optional, before.affected) ==> among(after.optional, after.affected)
}

proof fn among_more(some: Seq<ObjectId>, all: Seq<ObjectId>, more: Seq<ObjectId>)
    requires
        among(some, all),
        among(all, more),
    ensures
        among(some, more),
{
    assert forall|i: int| 0 <= i < some.len() implies more.contains(#[trigger] some[i]) by {
        assert(all.contains(some[i]));
        let k = choose|k: int| 0 <= k < all.len() && all[k] == some[i];
        assert(more.contains(all[k]));
    }
}

proof fn grows_further(a: PreparationView, b: PreparationView, c: PreparationView)
    requires
        grows(a, b),
        grows(b, c),
    ensures
        grows(a, c),
{
    among_more(a.affected, b.affected, c.affected);
}

proof fn including_grows(state: PreparationView, id: ObjectId)
    ensures
        grows(state, state.including(id)),
        state.including(id).affected.contains(id),
        state.including(id).queue == state.queue,
        state.including(id).eager == state.eager,
        state.including(id).optional == state.optional,
{
    let next = state.including(id);
    assert forall|i: int| 0 <= i < state.affected.len() implies next.affected.contains(
        #[trigger] state.affected[i],
    ) by {
        assert(next.affected[i] == state.affected[i]);
    }
    if !state.affected.contains(id) {
        assert(next.affected[state.affected.len() as int] == id);
    }
    if among(state.eager, state.affected) {
        among_more(state.eager, state.affected, next.affected);
    }
    if among(state.optional, state.affected) {
        among_more(state.optional, state.affected, next.affected);
    }
}

proof fn including_all_grows(state: PreparationView, ids: Seq<ObjectId>, at: int)
    ensures
        grows(state, state.including_from(ids, at)),
    decreases ids.len() - at,
{
    if 0 <= at < ids.len() {
        including_grows(state, ids[at]);
        including_all_grows(state.including(ids[at]), ids, at + 1);
        grows_further(state, state.including(ids[at]), state.including_from(ids, at));
    }
}

proof fn touching_grows(
    snapshot: SnapshotView,
    state: PreparationView,
    inputs: Seq<Input<Seq<u8>>>,
    at: int,
    found: bool,
)
    ensures
        touched_from(snapshot, state, inputs, at, found) matches Ok((_, next)) ==> grows(
            state,
            next,
        ),
    decreases inputs.len() - at,
{
    if 0 <= at < inputs.len() {
        let (result, ambiguous) = resolved_input(
            state.refs,
            snapshot,
            inputs[at],
            Seq::empty(),
            None,
        );
        touching_grows(snapshot, state, inputs, at + 1, found);
        if let Ok(id) = result {
            let more = found || (id matches Some(id) && state.affected.contains(id));
            touching_grows(snapshot, state.knowing(ambiguous), inputs, at + 1, more);
        }
    }
}

proof fn merge_grows(
    snapshot: SnapshotView,
    scope: Seq<ObjectId>,
    goal: Goal,
    merge: MergeView,
    state: PreparationView,
)
    ensures
        merge_adds(snapshot, scope, goal, merge, state) matches Ok(next) ==> grows(state, next),
{
    touching_grows(snapshot, state, merge.inputs, 0, false);
    if let Ok((_, touched_state)) = touched_from(snapshot, state, merge.inputs, 0, false) {
        including_all_grows(touched_state, merge.descendants, 0);
        grows_further(
            state,
            touched_state,
            touched_state.including_from(merge.descendants, 0),
        );
    }
}

proof fn merges_grow(
    snapshot: SnapshotView,
    graph: GraphView,
    goal: Goal,
    at: int,
    state: PreparationView,
)
    ensures
        merges_add_from(snapshot, graph, goal, at, state) matches Ok(next) ==> grows(state, next),
    decreases graph.merges.len() - at,
{
    if 0 <= at < graph.merges.len() {
        merge_grows(snapshot, graph.scope, goal, graph.merges[at], state);
        if let Ok(next) = merge_adds(snapshot, graph.scope, goal, graph.merges[at], state) {
            merges_grow(snapshot, graph, goal, at + 1, next);
            if let Ok(last) = merges_add_from(snapshot, graph, goal, at + 1, next) {
                grows_further(state, next, last);
            }
        }
    }
}

proof fn spreading_grows(
    snapshot: SnapshotView,
    graph: GraphView,
    goal: Goal,
    state: PreparationView,
    left: nat,
)
    ensures
        spread(snapshot, graph, goal, state, left) matches Ok(next) ==> grows(state, next),
    decreases left,
{
    merges_grow(snapshot, graph, goal, 0, state);
    if let Ok(next) = merges_add_from(snapshot, graph, goal, 0, state) {
        if left > 0 {
            spreading_grows(snapshot, graph, goal, next, (left - 1) as nat);
            if let Ok(last) = spread(snapshot, graph, goal, next, (left - 1) as nat) {
                grows_further(state, next, last);
            }
        }
    }
}

proof fn optional_grows(state: PreparationView, id: ObjectId)
    ensures
        grows(state, optional_too(state, id).including(id)),
{
    let middle = optional_too(state, id);
    let next = middle.including(id);
    including_grows(middle, id);
    assert(among(state.affected, next.affected));
    if among(state.eager, state.affected) {
        among_more(state.eager, state.affected, next.affected);
    }
    if among(state.optional, state.affected) {
        assert forall|i: int| 0 <= i < next.optional.len() implies next.affected.contains(
            #[trigger] next.optional[i],
        ) by {
            if i < state.optional.len() {
                assert(state.affected.contains(state.optional[i]));
                let k = choose|k: int|
                    0 <= k < state.affected.len() && state.affected[k] == state.optional[i];
                assert(next.affected.contains(state.affected[k]));
            }
        }
    }
}

proof fn ancestors_grow(
    commits: Seq<CommitView>,
    state: PreparationView,
    cursor: Option<ObjectId>,
    seen: Seq<ObjectId>,
    left: nat,
)
    ensures
        ancestors_add(commits, state, cursor, seen, left) matches Ok(next) ==> grows(state, next),
    decreases left,
{
    if let Some(id) = cursor {
        if left > 0 {
            if let Some(commit) = commit_of(commits, id) {
                let next = optional_too(state, id).including(id);
                optional_grows(state, id);
                let parent = first_of(commit.parents);
                ancestors_grow(commits, next, parent, seen.push(id), (left - 1) as nat);
                if let Ok(last) = ancestors_add(
                    commits,
                    next,
                    parent,
                    seen.push(id),
                    (left - 1) as nat,
                ) {
                    grows_further(state, next, last);
                }
            }
        }
    }
}

proof fn inputs_grow(
    snapshot: SnapshotView,
    state: PreparationView,
    inputs: Seq<Input<Seq<u8>>>,
    at: int,
)
    ensures
        inputs_extend(snapshot, state, inputs, at) matches Ok(next) ==> grows(state, next),
    decreases inputs.len() - at,
{
    if 0 <= at < inputs.len() {
        let (result, ambiguous) = resolved_input(
            state.refs,
            snapshot,
            inputs[at],
            Seq::empty(),
            None,
        );
        let known = state.knowing(ambiguous);
        if let Ok(cursor) = result {
            inputs_grow(snapshot, known, inputs, at + 1);
            let steps = (snapshot.commits.len() + 1) as nat;
            ancestors_grow(snapshot.commits, known, cursor, Seq::empty(), steps);
            if let Ok(next) = ancestors_add(snapshot.commits, known, cursor, Seq::empty(), steps) {
                inputs_grow(snapshot, next, inputs, at + 1);
                if let Ok(last) = inputs_extend(snapshot, next, inputs, at + 1) {
                    grows_further(known, next, last);
                }
            }
        }
    }
}

proof fn extending_grows(
    snapshot: SnapshotView,
    graph: GraphView,
    state: PreparationView,
    left: nat,
)
    ensures
        extend_all(snapshot, graph, state, left) matches Ok(next) ==> grows(state, next)
            && next.queue.len() == 0,
    decreases left, state.queue.len(),
{
    if state.queue.len() > 0 {
        let id = state.queue.last();
        let popped = PreparationView { queue: state.queue.drop_last(), ..state };
        if state.eager.contains(id) {
            extending_grows(snapshot, graph, popped, left);
        } else if left > 0 {
            let eager = PreparationView { eager: popped.eager.push(id), ..popped };
            let next = eager.including(id);
            including_grows(eager, id);
            assert(grows(state, next)) by {
                if among(state.eager, state.affected) {
                    assert forall|i: int| 0 <= i < next.eager.len() implies next.affected.contains(
                        #[trigger] next.eager[i],
                    ) by {
                        if i < state.eager.len() {
                            assert(state.affected.contains(state.eager[i]));
                            let k = choose|k: int|
                                0 <= k < state.affected.len() && state.affected[k]
                                    == state.eager[i];
                            assert(next.affected.contains(state.affected[k]));
                        }
                    }
                }
            }
            if let Ok(inputs) = merge_inputs(snapshot, graph, id) {
                inputs_grow(snapshot, next, inputs, 0);
                if let Ok(extended) = inputs_extend(snapshot, next, inputs, 0) {
                    extending_grows(snapshot, graph, extended, (left - 1) as nat);
                    grows_further(state, next, extended);
                    if let Ok(last) = extend_all(snapshot, graph, extended, (left - 1) as nat) {
                        grows_further(state, extended, last);
                    }
                }
            }
        }
    }
}

proof fn slot_is_first(ids: Seq<ObjectId>, id: ObjectId, from: int, at: int)
    requires
        0 <= from <= at < ids.len(),
        ids[at] == id,
    ensures
        from <= id_slot(ids, id, from) <= at,
        ids[id_slot(ids, id, from)] == id,
    decreases at - from,
{
    if from < at && ids[from] != id {
        slot_is_first(ids, id, from + 1, at);
    }
}

/// The first places among the first `end` ids.
spec fn firsts(ids: Seq<ObjectId>, end: int) -> Set<usize> {
    Set::new(|slot: usize| slot < end && id_slot(ids, ids[slot as int], 0) == slot)
}

proof fn firsts_are_counted(ids: Seq<ObjectId>, end: int)
    requires
        0 <= end <= ids.len() <= usize::MAX,
    ensures
        firsts(ids, end).finite(),
        firsts(ids, end).len() == distinct_count(ids, end),
    decreases end,
{
    if end == 0 {
        assert(firsts(ids, 0) =~= Set::<usize>::empty());
    } else {
        firsts_are_counted(ids, end - 1);
        let slot = (end - 1) as usize;
        if id_slot(ids, ids[end - 1], 0) == end - 1 {
            assert(firsts(ids, end) =~= firsts(ids, end - 1).insert(slot));
        } else {
            assert(firsts(ids, end) =~= firsts(ids, end - 1));
        }
    }
}

proof fn order_covers(ids: Seq<ObjectId>, dependencies: Seq<Seq<usize>>, order: Seq<usize>)
    requires
        ids.len() <= usize::MAX,
        order_of(first_slots(ids), dependencies, distinct_count(ids, ids.len() as int)) == Some(
            order,
        ),
    ensures
        sound(first_slots(ids), dependencies, order),
        forall|k: int| 0 <= k < order.len() ==> firsts(ids, ids.len() as int).contains(#[trigger] order[k]),
        forall|slot: usize|
            firsts(ids, ids.len() as int).contains(slot) ==> #[trigger] order.contains(slot),
{
    broadcast use vstd::seq_lib::seq_to_set_is_finite;

    let items = first_slots(ids);
    let n = ids.len() as int;
    orders_are_sound(items, dependencies, distinct_count(ids, n));
    firsts_are_counted(ids, n);
    assert forall|k: int| 0 <= k < order.len() implies firsts(ids, n).contains(
        #[trigger] order[k],
    ) by {
        assert(stands(items, dependencies, order, k));
        let i = choose|i: int|
            0 <= i < items.len() && items[i] == order[k] && ready(
                #[trigger] dependencies[i],
                order.take(k),
            );
        slot_is_first(ids, ids[i], 0, i);
    }
    order.unique_seq_to_set();
    assert forall|slot: usize| order.to_set().contains(slot) implies firsts(ids, n).contains(
        slot,
    ) by {
        let k = choose|k: int| 0 <= k < order.len() && order[k] == slot;
        assert(firsts(ids, n).contains(order[k]));
    }
    vstd::set_lib::lemma_len_subset(order.to_set(), firsts(ids, n));
    vstd::set_lib::lemma_subset_equality(order.to_set(), firsts(ids, n));
    assert forall|slot: usize| firsts(ids, n).contains(slot) implies #[trigger] order.contains(
        slot,
    ) by {
        assert(order.to_set().contains(slot));
    }
}

/// Whether a commit is no automatic merge.
pub open spec fn ordinary(snapshot: SnapshotView, graph: GraphView, id: ObjectId) -> bool {
    &&& known_inputs_from(graph.merges, id, 0) is None
    &&& commit_of(snapshot.commits, id) matches Some(commit) && definition_of(commit.headers)
        == Ok::<Option<Seq<Input<Seq<u8>>>>, MergeError>(None)
}

proof fn slots_hold(ids: Seq<ObjectId>, found: Seq<ObjectId>, j: int)
    requires
        0 <= j < found.len(),
        ids.contains(found[j]),
    ensures
        slots_of(ids, found).contains(id_slot(ids, found[j], 0) as usize),
    decreases found.len(),
{
    let before = slots_of(ids, found.drop_last());
    let slot = id_slot(ids, found[j], 0) as usize;
    if j < found.len() - 1 {
        slots_hold(ids, found.drop_last(), j);
        assert(found.drop_last()[j] == found[j]);
        let w = choose|w: int| 0 <= w < before.len() && before[w] == slot;
        assert(slots_of(ids, found)[w] == slot);
    } else {
        assert(slots_of(ids, found)[before.len() as int] == slot);
    }
}

proof fn dependencies_hold_parents(
    snapshot: SnapshotView,
    graph: GraphView,
    ids: Seq<ObjectId>,
    at: int,
    done: Seq<Seq<usize>>,
    refs: ReferencesView,
)
    requires
        0 <= at <= ids.len(),
        done.len() == at,
        forall|i: int|
            0 <= i < at && ordinary(snapshot, graph, ids[i]) ==> #[trigger] done[i] == slots_of(
                ids,
                commit_of(snapshot.commits, ids[i])->0.parents,
            ),
    ensures
        dependencies_from(snapshot, graph, ids, at, done, refs) matches Ok((found, _))
            ==> found.len() == ids.len() && forall|i: int|
            0 <= i < ids.len() && ordinary(snapshot, graph, ids[i]) ==> #[trigger] found[i]
                == slots_of(ids, commit_of(snapshot.commits, ids[i])->0.parents),
    decreases ids.len() - at,
{
    if at < ids.len() {
        if let Ok((parts, refs)) = parts_of(snapshot, graph, ids[at], refs) {
            let next = done.push(slots_of(ids, parts));
            assert forall|i: int|
                0 <= i < at + 1 && ordinary(snapshot, graph, ids[i]) implies #[trigger] next[i]
                == slots_of(ids, commit_of(snapshot.commits, ids[i])->0.parents) by {
                if i < at {
                    assert(next[i] == done[i]);
                }
            }
            dependencies_hold_parents(snapshot, graph, ids, at + 1, next, refs);
        }
    }
}

/// Commits that are brought into order are each there once, none is lost or added, and those that
/// are no automatic merges come behind their parents.
pub proof fn orders_are_complete(
    snapshot: SnapshotView,
    graph: GraphView,
    ids: Seq<ObjectId>,
    refs: ReferencesView,
    out: Seq<ObjectId>,
    next: ReferencesView,
)
    requires
        ids.len() <= usize::MAX,
        ordered_ids(snapshot, graph, ids, refs) == Ok::<_, MergeError>((out, next)),
    ensures
        out.no_duplicates(),
        among(ids, out),
        among(out, ids),
        forall|k: int, j: int|
            #![trigger out[k], commit_of(snapshot.commits, out[k])->0.parents[j]]
            0 <= k < out.len() && ordinary(snapshot, graph, out[k]) && 0 <= j < commit_of(
                snapshot.commits,
                out[k],
            )->0.parents.len() && ids.contains(
                commit_of(snapshot.commits, out[k])->0.parents[j],
            ) ==> out.take(k).contains(commit_of(snapshot.commits, out[k])->0.parents[j]),
{
    let n = ids.len() as int;
    let (dependencies, refs_after) = dependencies_from(
        snapshot,
        graph,
        ids,
        0,
        Seq::empty(),
        refs,
    )->Ok_0;
    let order = order_of(first_slots(ids), dependencies, distinct_count(ids, n))->0;
    order_covers(ids, dependencies, order);
    dependencies_hold_parents(snapshot, graph, ids, 0, Seq::empty(), refs);
    assert forall|i: int, j: int| 0 <= i < out.len() && 0 <= j < out.len() && i != j implies out[i]
        != out[j] by {
        assert(firsts(ids, n).contains(order[i]));
        assert(firsts(ids, n).contains(order[j]));
        assert(order[i] != order[j]);
    }
    assert forall|i: int| 0 <= i < ids.len() implies out.contains(#[trigger] ids[i]) by {
        slot_is_first(ids, ids[i], 0, i);
        let slot = id_slot(ids, ids[i], 0) as usize;
        assert(firsts(ids, n).contains(slot));
        assert(order.contains(slot));
        let k = choose|k: int| 0 <= k < order.len() && order[k] == slot;
        assert(out[k] == ids[i]);
    }
    assert forall|k: int| 0 <= k < out.len() implies ids.contains(#[trigger] out[k]) by {
        assert(firsts(ids, n).contains(order[k]));
        assert(ids[order[k] as int] == out[k]);
    }
    assert forall|k: int, j: int|
        #![trigger out[k], commit_of(snapshot.commits, out[k])->0.parents[j]]
        0 <= k < out.len() && ordinary(snapshot, graph, out[k]) && 0 <= j < commit_of(
            snapshot.commits,
            out[k],
        )->0.parents.len() && ids.contains(
            commit_of(snapshot.commits, out[k])->0.parents[j],
        ) implies out.take(k).contains(commit_of(snapshot.commits, out[k])->0.parents[j]) by {
        let parents = commit_of(snapshot.commits, out[k])->0.parents;
        let parent = parents[j];
        assert(stands(first_slots(ids), dependencies, order, k));
        let i = choose|i: int|
            0 <= i < first_slots(ids).len() && first_slots(ids)[i] == order[k] && ready(
                #[trigger] dependencies[i],
                order.take(k),
            );
        slot_is_first(ids, ids[i], 0, i);
        assert(ids[i] == out[k]);
        assert(dependencies[i] == slots_of(ids, parents));
        slots_hold(ids, parents, j);
        let slot = id_slot(ids, parent, 0) as usize;
        let w = choose|w: int| 0 <= w < dependencies[i].len() && dependencies[i][w] == slot;
        assert(order.take(k).contains(dependencies[i][w]));
        let v = choose|v: int| 0 <= v < k && order.take(k)[v] == slot;
        let p = choose|p: int| 0 <= p < ids.len() && ids[p] == parent;
        slot_is_first(ids, parent, 0, p);
        assert(out.take(k)[v] == parent);
    }
}

/// What the commit at `index` depends on, once what the ones before it from `at` on depend on is found.
pub open spec fn parts_in_turn(
    snapshot: SnapshotView,
    graph: GraphView,
    ids: Seq<ObjectId>,
    at: int,
    index: int,
    refs: ReferencesView,
) -> Seq<ObjectId>
    decreases index - at,
{
    let found = parts_of(snapshot, graph, ids[at], refs)->Ok_0;
    if at >= index {
        found.0
    } else {
        parts_in_turn(snapshot, graph, ids, at + 1, index, found.1)
    }
}

/// Whether the commit at place `k` of an order, which is the one at `index` of those to order, comes behind
/// what it depends on: the commits that its inputs stand for if it is an automatic merge, or else its
/// parents.
pub open spec fn comes_behind(
    snapshot: SnapshotView,
    graph: GraphView,
    ids: Seq<ObjectId>,
    refs: ReferencesView,
    out: Seq<ObjectId>,
    k: int,
    index: int,
) -> bool {
    let parts = parts_in_turn(snapshot, graph, ids, 0, index, refs);
    &&& 0 <= index < ids.len()
    &&& ids[index] == out[k]
    &&& forall|j: int|
        0 <= j < parts.len() && ids.contains(#[trigger] parts[j]) ==> out.take(k).contains(parts[j])
}

/// Whether the commit at place `k` of an order comes behind what it depends on.
pub open spec fn in_place(
    snapshot: SnapshotView,
    graph: GraphView,
    ids: Seq<ObjectId>,
    refs: ReferencesView,
    out: Seq<ObjectId>,
    k: int,
) -> bool {
    exists|i: int| #[trigger] comes_behind(snapshot, graph, ids, refs, out, k, i)
}

proof fn dependencies_hold_parts(
    snapshot: SnapshotView,
    graph: GraphView,
    ids: Seq<ObjectId>,
    at: int,
    done: Seq<Seq<usize>>,
    refs: ReferencesView,
)
    requires
        0 <= at <= ids.len(),
        done.len() == at,
    ensures
        dependencies_from(snapshot, graph, ids, at, done, refs) matches Ok((found, _)) ==> {
            &&& found.len() == ids.len()
            &&& found.take(at) == done
            &&& forall|i: int|
                at <= i < ids.len() ==> #[trigger] found[i] == slots_of(
                    ids,
                    parts_in_turn(snapshot, graph, ids, at, i, refs),
                )
        },
    decreases ids.len() - at,
{
    if at < ids.len() {
        if let Ok((parts, after)) = parts_of(snapshot, graph, ids[at], refs) {
            let next = done.push(slots_of(ids, parts));
            dependencies_hold_parts(snapshot, graph, ids, at + 1, next, after);
            if let Ok((found, _)) = dependencies_from(snapshot, graph, ids, at, done, refs) {
                assert(found.take(at + 1) == next);
                assert(found.take(at) == done) by {
                    assert forall|i: int| 0 <= i < at implies found[i] == done[i] by {
                        assert(found.take(at + 1)[i] == next[i]);
                    }
                }
                assert forall|i: int| at <= i < ids.len() implies #[trigger] found[i] == slots_of(
                    ids,
                    parts_in_turn(snapshot, graph, ids, at, i, refs),
                ) by {
                    if i == at {
                        assert(found.take(at + 1)[at] == next[at]);
                    }
                }
            }
        }
    } else if let Ok((found, _)) = dependencies_from(snapshot, graph, ids, at, done, refs) {
        assert(found.take(at) == done);
    }
}

/// Commits that are brought into order come behind what they depend on, as far as that is among them: an
/// automatic merge behind the commits that its inputs stand for, and any other commit behind its parents.
pub proof fn orders_follow_parts(
    snapshot: SnapshotView,
    graph: GraphView,
    ids: Seq<ObjectId>,
    refs: ReferencesView,
    out: Seq<ObjectId>,
    next: ReferencesView,
)
    requires
        ids.len() <= usize::MAX,
        ordered_ids(snapshot, graph, ids, refs) == Ok::<_, MergeError>((out, next)),
    ensures
        forall|k: int|
            0 <= k < out.len() ==> #[trigger] in_place(snapshot, graph, ids, refs, out, k),
{
    let n = ids.len() as int;
    let (dependencies, refs_after) = dependencies_from(
        snapshot,
        graph,
        ids,
        0,
        Seq::empty(),
        refs,
    )->Ok_0;
    let order = order_of(first_slots(ids), dependencies, distinct_count(ids, n))->0;
    order_covers(ids, dependencies, order);
    dependencies_hold_parts(snapshot, graph, ids, 0, Seq::empty(), refs);
    assert forall|k: int| 0 <= k < out.len() implies #[trigger] in_place(
        snapshot,
        graph,
        ids,
        refs,
        out,
        k,
    ) by {
        assert(stands(first_slots(ids), dependencies, order, k));
        let i = choose|i: int|
            0 <= i < first_slots(ids).len() && first_slots(ids)[i] == order[k] && ready(
                #[trigger] dependencies[i],
                order.take(k),
            );
        let parts = parts_in_turn(snapshot, graph, ids, 0, i, refs);
        slot_is_first(ids, ids[i], 0, i);
        assert(ids[i] == out[k]);
        assert(dependencies[i] == slots_of(ids, parts));
        assert forall|j: int|
            0 <= j < parts.len() && ids.contains(#[trigger] parts[j]) implies out.take(k).contains(
            parts[j],
        ) by {
            slots_hold(ids, parts, j);
            let slot = id_slot(ids, parts[j], 0) as usize;
            let w = choose|w: int| 0 <= w < dependencies[i].len() && dependencies[i][w] == slot;
            assert(order.take(k).contains(dependencies[i][w]));
            let v = choose|v: int| 0 <= v < k && order.take(k)[v] == slot;
            let p = choose|p: int| 0 <= p < ids.len() && ids[p] == parts[j];
            slot_is_first(ids, parts[j], 0, p);
            assert(out.take(k)[v] == parts[j]);
        }
        assert(comes_behind(snapshot, graph, ids, refs, out, k, i));
    }
}

/// What an edit affects holds every commit that the edit names, each once, and behind what it depends on:
/// automatic merges come behind the commits that their inputs stand for, and other commits behind their
/// parents. Merges that must be rebuilt completely and commits that may stay in conflict are among them.
pub proof fn edits_affect_what_they_name(
    snapshot: SnapshotView,
    graph: GraphView,
    named: Seq<ObjectId>,
    checkout: Option<ObjectId>,
    force: Option<ObjectId>,
    preparation: PreparationView,
)
    requires
        prepared(snapshot, graph, named, checkout, force) == Ok::<_, MergeError>(preparation),
        reached(snapshot, graph, named, checkout, force)->Ok_0.affected.len() <= usize::MAX,
    ensures
        preparation.affected.no_duplicates(),
        among(named, preparation.affected),
        among(preparation.eager, preparation.affected),
        among(preparation.optional, preparation.affected),
        preparation.queue.len() == 0,
        forall|k: int, j: int|
            #![trigger preparation.affected[k], commit_of(
                snapshot.commits,
                preparation.affected[k],
            )->0.parents[j]]
            0 <= k < preparation.affected.len() && ordinary(
                snapshot,
                graph,
                preparation.affected[k],
            ) && 0 <= j < commit_of(snapshot.commits, preparation.affected[k])->0.parents.len()
                && preparation.affected.contains(
                commit_of(snapshot.commits, preparation.affected[k])->0.parents[j],
            ) ==> preparation.affected.take(k).contains(
                commit_of(snapshot.commits, preparation.affected[k])->0.parents[j],
            ),
        ({
            let known = reached(snapshot, graph, named, checkout, force)->Ok_0;
            forall|k: int|
                0 <= k < preparation.affected.len() ==> #[trigger] in_place(
                    snapshot,
                    graph,
                    known.affected,
                    known.refs,
                    preparation.affected,
                    k,
                )
        }),
{
    let required = path_from(
        snapshot.commits,
        graph.scope,
        checkout,
        Seq::empty(),
        graph.scope.len(),
    )->Ok_0;
    let goal = Goal { required, force };
    let start = starting(graph.bounded_history, named);
    let widened = spread(snapshot, graph, goal, start, graph.merges.len())->Ok_0;
    spreading_grows(snapshot, graph, goal, start, graph.merges.len());
    let steps = graph.merges.len() + snapshot.commits.len();
    let state = extend_all(snapshot, graph, widened, steps)->Ok_0;
    extending_grows(snapshot, graph, widened, steps);
    grows_further(start, widened, state);
    let (out, next) = ordered_ids(snapshot, graph, state.affected, state.refs)->Ok_0;
    orders_are_complete(snapshot, graph, state.affected, state.refs, out, next);
    orders_follow_parts(snapshot, graph, state.affected, state.refs, out, next);
    assert(among(start.eager, start.affected));
    assert(among(start.optional, start.affected));
    among_more(named, state.affected, out);
    among_more(state.eager, state.affected, out);
    among_more(state.optional, state.affected, out);
    assert forall|k: int, j: int|
        #![trigger out[k], commit_of(snapshot.commits, out[k])->0.parents[j]]
        0 <= k < out.len() && ordinary(snapshot, graph, out[k]) && 0 <= j < commit_of(
            snapshot.commits,
            out[k],
        )->0.parents.len() && out.contains(
            commit_of(snapshot.commits, out[k])->0.parents[j],
        ) implies out.take(k).contains(commit_of(snapshot.commits, out[k])->0.parents[j]) by {
        let parent = commit_of(snapshot.commits, out[k])->0.parents[j];
        let w = choose|w: int| 0 <= w < out.len() && out[w] == parent;
        assert(state.affected.contains(out[w]));
    }
}

} // verus!
