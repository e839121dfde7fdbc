//! The forks of a todo hold each of its commits once, and can be picked in their order.
use vstd::prelude::*;
use crate::history::CommitNode;
use crate::ids::ObjectId;
use crate::todo::laws::{in_order, picked};
use crate::todo::outline::{branches, children_of, connected, continues, ids_of, sections_of};
use crate::todo::outline::{walked, Section};

verus! {

/// Whether no commit is listed twice, and each is newer than its first parent.
pub open spec fn aged(
    commits: Seq<CommitNode<Seq<ObjectId>>>,
    age: spec_fn(ObjectId) -> nat,
) -> bool {
    &&& ids_of(commits).no_duplicates()
    &&& forall|i: int|
        0 <= i < commits.len() ==> (#[trigger] commits[i]).parents.len() > 0 && age(
            commits[i].parents[0],
        ) < age(commits[i].id)
}

/// Whether a commit is another, or descends from it by first parents.
pub open spec fn descends(
    commits: Seq<CommitNode<Seq<ObjectId>>>,
    age: spec_fn(ObjectId) -> nat,
    id: ObjectId,
    from: ObjectId,
) -> bool
    decreases age(id),
{
    id == from || exists|below: ObjectId| #[trigger]
        continues(commits, below, id) && age(below) < age(id) && descends(commits, age, below, from)
}

proof fn one_below(
    commits: Seq<CommitNode<Seq<ObjectId>>>,
    id: ObjectId,
    one: ObjectId,
    other: ObjectId,
)
    requires
        ids_of(commits).no_duplicates(),
        continues(commits, one, id),
        continues(commits, other, id),
    ensures
        one == other,
{
    let i = choose|i: int|
        0 <= i < commits.len() && (#[trigger] commits[i]).id == id && commits[i].parents.len() > 0
            && commits[i].parents[0] == one;
    let j = choose|j: int|
        0 <= j < commits.len() && (#[trigger] commits[j]).id == id && commits[j].parents.len() > 0
            && commits[j].parents[0] == other;
    assert(ids_of(commits)[i] == id && ids_of(commits)[j] == id);
}

proof fn descendants_are_newer(
    commits: Seq<CommitNode<Seq<ObjectId>>>,
    age: spec_fn(ObjectId) -> nat,
    id: ObjectId,
    from: ObjectId,
)
    requires
        descends(commits, age, id, from),
    ensures
        age(id) >= age(from),
    decreases age(id),
{
    if id != from {
        let below = choose|below: ObjectId| #[trigger]
            continues(commits, below, id) && age(below) < age(id) && descends(
                commits,
                age,
                below,
                from,
            );
        descendants_are_newer(commits, age, below, from);
    }
}

proof fn ancestors_are_in_line(
    commits: Seq<CommitNode<Seq<ObjectId>>>,
    age: spec_fn(ObjectId) -> nat,
    id: ObjectId,
    one: ObjectId,
    other: ObjectId,
)
    requires
        aged(commits, age),
        descends(commits, age, id, one),
        descends(commits, age, id, other),
    ensures
        descends(commits, age, one, other) || descends(commits, age, other, one),
    decreases age(id),
{
    if id != one && id != other {
        let a = choose|below: ObjectId| #[trigger]
            continues(commits, below, id) && age(below) < age(id) && descends(
                commits,
                age,
                below,
                one,
            );
        let b = choose|below: ObjectId| #[trigger]
            continues(commits, below, id) && age(below) < age(id) && descends(
                commits,
                age,
                below,
                other,
            );
        one_below(commits, id, a, b);
        ancestors_are_in_line(commits, age, a, one, other);
    }
}

proof fn siblings_are_apart(
    commits: Seq<CommitNode<Seq<ObjectId>>>,
    age: spec_fn(ObjectId) -> nat,
    below: ObjectId,
    one: ObjectId,
    other: ObjectId,
    id: ObjectId,
)
    requires
        aged(commits, age),
        continues(commits, below, one),
        continues(commits, below, other),
        descends(commits, age, id, one),
        descends(commits, age, id, other),
    ensures
        one == other,
{
    ancestors_are_in_line(commits, age, id, one, other);
    tops_are_newer(commits, age, one, below);
    tops_are_newer(commits, age, other, below);
    if one != other {
        let (x, y) = if descends(commits, age, one, other) {
            (one, other)
        } else {
            (other, one)
        };
        let a = choose|a: ObjectId| #[trigger]
            continues(commits, a, x) && age(a) < age(x) && descends(commits, age, a, y);
        one_below(commits, x, a, below);
        descendants_are_newer(commits, age, below, y);
    }
}

proof fn tops_are_newer(
    commits: Seq<CommitNode<Seq<ObjectId>>>,
    age: spec_fn(ObjectId) -> nat,
    id: ObjectId,
    below: ObjectId,
)
    requires
        aged(commits, age),
        continues(commits, below, id),
    ensures
        age(below) < age(id),
        ids_of(commits).contains(id),
{
    let i = choose|i: int|
        0 <= i < commits.len() && (#[trigger] commits[i]).id == id && commits[i].parents.len() > 0
            && commits[i].parents[0] == below;
    assert(ids_of(commits)[i] == id);
}

proof fn descends_through(
    commits: Seq<CommitNode<Seq<ObjectId>>>,
    age: spec_fn(ObjectId) -> nat,
    id: ObjectId,
    middle: ObjectId,
    from: ObjectId,
)
    requires
        descends(commits, age, id, middle),
        descends(commits, age, middle, from),
    ensures
        descends(commits, age, id, from),
    decreases age(id),
{
    if id != middle {
        let below = choose|below: ObjectId| #[trigger]
            continues(commits, below, id) && age(below) < age(id) && descends(
                commits,
                age,
                below,
                middle,
            );
        descends_through(commits, age, below, middle, from);
    }
}

/// A commit that descends from another without being it descends from one on top of that.
proof fn descends_by_child(
    commits: Seq<CommitNode<Seq<ObjectId>>>,
    age: spec_fn(ObjectId) -> nat,
    id: ObjectId,
    from: ObjectId,
) -> (child: ObjectId)
    requires
        descends(commits, age, id, from),
        id != from,
    ensures
        continues(commits, from, child),
        descends(commits, age, id, child),
    decreases age(id),
{
    let below = choose|below: ObjectId| #[trigger]
        continues(commits, below, id) && age(below) < age(id) && descends(commits, age, below, from);
    if below == from {
        id
    } else {
        let child = descends_by_child(commits, age, below, from);
        child
    }
}

proof fn children_are_on_top(
    commits: Seq<CommitNode<Seq<ObjectId>>>,
    parent: ObjectId,
    end: int,
)
    requires
        ids_of(commits).no_duplicates(),
        0 <= end <= commits.len(),
    ensures
        forall|id: ObjectId| #[trigger]
            children_of(commits, parent, end).contains(id) <==> exists|i: int|
                0 <= i < end && (#[trigger] commits[i]).id == id && commits[i].parents.len() > 0
                    && commits[i].parents[0] == parent,
        children_of(commits, parent, end).no_duplicates(),
    decreases end,
{
    if end > 0 {
        children_are_on_top(commits, parent, end - 1);
        let before = children_of(commits, parent, end - 1);
        let all = children_of(commits, parent, end);
        let last = commits[end - 1];
        if last.parents.len() > 0 && last.parents[0] == parent {
            assert(all == before.push(last.id));
            assert(all[before.len() as int] == last.id);
            if before.contains(last.id) {
                let i = choose|i: int|
                    0 <= i < end - 1 && (#[trigger] commits[i]).id == last.id
                        && commits[i].parents.len() > 0 && commits[i].parents[0] == parent;
                assert(ids_of(commits)[i] == ids_of(commits)[end - 1]);
            }
            assert forall|i: int, j: int|
                0 <= i < all.len() && 0 <= j < all.len() && i != j implies all[i] != all[j] by {
                if i < before.len() {
                    assert(before.contains(before[i]));
                }
                if j < before.len() {
                    assert(before.contains(before[j]));
                }
            }
            assert forall|id: ObjectId| #[trigger] all.contains(id) implies exists|i: int|
                0 <= i < end && (#[trigger] commits[i]).id == id && commits[i].parents.len() > 0
                    && commits[i].parents[0] == parent by {
                let k = all.index_of(id);
                if k < before.len() {
                    assert(before[k] == id);
                    assert(before.contains(id));
                } else {
                    assert(commits[end - 1].id == id);
                }
            }
            assert forall|id: ObjectId|
                (exists|i: int|
                    0 <= i < end && (#[trigger] commits[i]).id == id && commits[i].parents.len() > 0
                        && commits[i].parents[0] == parent) implies #[trigger] all.contains(id) by {
                let i = choose|i: int|
                    0 <= i < end && (#[trigger] commits[i]).id == id && commits[i].parents.len() > 0
                        && commits[i].parents[0] == parent;
                if i < end - 1 {
                    assert(before.contains(id));
                    let k = before.index_of(id);
                    assert(all[k] == id);
                }
            }
        }
    }
}

/// How many of the first `end` commits are newer than the given age.
pub open spec fn newer(
    commits: Seq<CommitNode<Seq<ObjectId>>>,
    age: spec_fn(ObjectId) -> nat,
    than: nat,
    end: int,
) -> nat
    decreases end,
{
    if end <= 0 || end > commits.len() {
        0
    } else {
        newer(commits, age, than, end - 1) + (if age(commits[end - 1].id) > than {
            1nat
        } else {
            0nat
        })
    }
}

proof fn newer_is_fewer(
    commits: Seq<CommitNode<Seq<ObjectId>>>,
    age: spec_fn(ObjectId) -> nat,
    id: ObjectId,
    than: nat,
    end: int,
)
    requires
        0 <= end <= commits.len(),
        age(id) > than,
    ensures
        newer(commits, age, age(id), end) <= newer(commits, age, than, end) <= end,
        (exists|i: int| 0 <= i < end && (#[trigger] commits[i]).id == id) ==> newer(
            commits,
            age,
            age(id),
            end,
        ) < newer(commits, age, than, end),
    decreases end,
{
    if end > 0 {
        newer_is_fewer(commits, age, id, than, end - 1);
        if exists|i: int| 0 <= i < end && (#[trigger] commits[i]).id == id {
            let i = choose|i: int| 0 <= i < end && (#[trigger] commits[i]).id == id;
            if i < end - 1 {
                assert(commits[i].id == id);
            }
        }
    }
}

/// The commits of a stack, and of the forks from it.
pub open spec fn held(stack: Seq<ObjectId>, forks: Seq<Section<Seq<ObjectId>>>) -> Seq<ObjectId> {
    stack + picked(forks, forks.len() as int)
}

proof fn picked_joins(a: Seq<Section<Seq<ObjectId>>>, b: Seq<Section<Seq<ObjectId>>>, end: int)
    requires
        0 <= end <= b.len(),
    ensures
        picked(a + b, a.len() + end) == picked(a, a.len() as int) + picked(b, end),
    decreases end,
{
    if end == 0 {
        picked_first(a, b, a.len() as int);
        assert(picked(a, a.len() as int) + Seq::<ObjectId>::empty() == picked(a, a.len() as int));
    } else {
        picked_joins(a, b, end - 1);
        assert((a + b)[a.len() + end - 1] == b[end - 1]);
        let x = picked(a, a.len() as int);
        let y = picked(b, end - 1);
        let z = b[end - 1].commits;
        assert(x + y + z == x + (y + z));
    }
}

proof fn picked_first(a: Seq<Section<Seq<ObjectId>>>, b: Seq<Section<Seq<ObjectId>>>, end: int)
    requires
        0 <= end <= a.len(),
    ensures
        picked(a + b, end) == picked(a, end),
    decreases end,
{
    if end > 0 {
        picked_first(a, b, end - 1);
        assert((a + b)[end - 1] == a[end - 1]);
    }
}

/// Whether ids are those of all listed commits that descend from a commit, each once.
#[verifier::opaque]
pub open spec fn family(
    commits: Seq<CommitNode<Seq<ObjectId>>>,
    age: spec_fn(ObjectId) -> nat,
    ids: Seq<ObjectId>,
    from: ObjectId,
) -> bool {
    &&& ids.no_duplicates()
    &&& forall|id: ObjectId| #[trigger]
        ids.contains(id) <==> ids_of(commits).contains(id) && descends(commits, age, id, from)
}

/// Whether ids are those of all listed commits that descend from one of the children from `at` on, each
/// once.
#[verifier::opaque]
pub open spec fn families(
    commits: Seq<CommitNode<Seq<ObjectId>>>,
    age: spec_fn(ObjectId) -> nat,
    ids: Seq<ObjectId>,
    children: Seq<ObjectId>,
    at: int,
) -> bool {
    &&& ids.no_duplicates()
    &&& forall|id: ObjectId| #[trigger]
        ids.contains(id) <==> ids_of(commits).contains(id) && exists|j: int|
            at <= j < children.len() && descends(commits, age, id, #[trigger] children[j])
}

/// Whether each fork holds a commit, and its parent is in the stack, or in a fork before it.
#[verifier::opaque]
pub open spec fn rooted(stack: Seq<ObjectId>, forks: Seq<Section<Seq<ObjectId>>>) -> bool {
    forall|i: int|
        0 <= i < forks.len() ==> (#[trigger] forks[i]).commits.len() > 0 && (stack + picked(
            forks,
            i,
        )).contains(forks[i].parent)
}

/// Whether all are commits on top of the same commit, each once.
pub open spec fn siblings(
    commits: Seq<CommitNode<Seq<ObjectId>>>,
    children: Seq<ObjectId>,
    below: ObjectId,
) -> bool {
    &&& children.no_duplicates()
    &&& forall|i: int| 0 <= i < children.len() ==> continues(commits, below, #[trigger] children[i])
}

proof fn families_join(
    commits: Seq<CommitNode<Seq<ObjectId>>>,
    age: spec_fn(ObjectId) -> nat,
    first: Seq<ObjectId>,
    more: Seq<ObjectId>,
    children: Seq<ObjectId>,
    at: int,
    below: ObjectId,
)
    requires
        aged(commits, age),
        siblings(commits, children, below),
        0 <= at < children.len(),
        family(commits, age, first, children[at]),
        families(commits, age, more, children, at + 1),
    ensures
        families(commits, age, first + more, children, at),
{
    reveal(family);
    reveal(families);
    let all = first + more;
    assert forall|i: int, j: int|
        0 <= i < all.len() && 0 <= j < all.len() && i != j implies all[i] != all[j] by {
        let (x, y) = if i < j {
            (i, j)
        } else {
            (j, i)
        };
        if y < first.len() {
            assert(all[x] == first[x] && all[y] == first[y]);
        } else if x >= first.len() {
            assert(all[x] == more[x - first.len()] && all[y] == more[y - first.len()]);
        } else {
            let id = all[x];
            assert(first.contains(first[x]));
            assert(more.contains(more[y - first.len()]));
            if all[y] == id {
                let k = choose|k: int|
                    at + 1 <= k < children.len() && descends(
                        commits,
                        age,
                        id,
                        #[trigger] children[k],
                    );
                siblings_are_apart(commits, age, below, children[at], children[k], id);
            }
        }
    }
    assert forall|id: ObjectId| #[trigger] all.contains(id) <==> ids_of(commits).contains(id)
        && exists|j: int|
        at <= j < children.len() && descends(commits, age, id, #[trigger] children[j]) by {
        if all.contains(id) {
            let k = all.index_of(id);
            if k < first.len() {
                assert(first[k] == id);
                assert(first.contains(id));
                assert(descends(commits, age, id, children[at]));
            } else {
                assert(more[k - first.len()] == id);
                assert(more.contains(id));
            }
        }
        if ids_of(commits).contains(id) && exists|j: int|
            at <= j < children.len() && descends(commits, age, id, #[trigger] children[j]) {
            let j = choose|j: int|
                at <= j < children.len() && descends(commits, age, id, #[trigger] children[j]);
            if j == at {
                assert(first.contains(id));
                assert(all[first.index_of(id)] == id);
            } else {
                assert(more.contains(id));
                assert(all[first.len() + more.index_of(id)] == id);
            }
        }
    }
}

proof fn family_grows(
    commits: Seq<CommitNode<Seq<ObjectId>>>,
    age: spec_fn(ObjectId) -> nat,
    id: ObjectId,
    rest: Seq<ObjectId>,
)
    requires
        aged(commits, age),
        ids_of(commits).contains(id),
        families(
            commits,
            age,
            rest,
            children_of(commits, id, commits.len() as int),
            0,
        ),
    ensures
        family(commits, age, seq![id] + rest, id),
{
    reveal(family);
    reveal(families);
    let children = children_of(commits, id, commits.len() as int);
    children_are_on_top(commits, id, commits.len() as int);
    let all = seq![id] + rest;
    assert forall|k: int| 0 <= k < rest.len() implies #[trigger] rest[k] != id && descends(
        commits,
        age,
        rest[k],
        id,
    ) by {
        assert(rest.contains(rest[k]));
        let j = choose|j: int|
            0 <= j < children.len() && descends(commits, age, rest[k], #[trigger] children[j]);
        assert(children.contains(children[j]));
        assert(continues(commits, id, children[j]));
        tops_are_newer(commits, age, children[j], id);
        descendants_are_newer(commits, age, rest[k], children[j]);
        assert(descends(commits, age, id, id));
        assert(descends(commits, age, children[j], id));
        descends_through(commits, age, rest[k], children[j], id);
    }
    assert forall|i: int, j: int|
        0 <= i < all.len() && 0 <= j < all.len() && i != j implies all[i] != all[j] by {
        if i > 0 {
            assert(all[i] == rest[i - 1]);
        }
        if j > 0 {
            assert(all[j] == rest[j - 1]);
        }
    }
    assert(all[0] == id);
    assert(descends(commits, age, id, id));
    assert forall|x: ObjectId| #[trigger] all.contains(x) <==> ids_of(commits).contains(x)
        && descends(commits, age, x, id) by {
        if all.contains(x) {
            let k = all.index_of(x);
            if k > 0 {
                assert(rest[k - 1] == x);
                assert(rest.contains(x));
            }
        }
        if ids_of(commits).contains(x) && descends(commits, age, x, id) && x != id {
            let child = descends_by_child(commits, age, x, id);
            assert(children.contains(child));
            let j = children.index_of(child);
            assert(descends(commits, age, x, children[j]));
            assert(rest.contains(x));
            assert(all[rest.index_of(x) + 1] == x);
        }
    }
}

proof fn contained(part: Seq<ObjectId>, front: Seq<ObjectId>, back: Seq<ObjectId>, id: ObjectId)
    requires
        part.contains(id),
    ensures
        (front + part + back).contains(id),
{
    let at = part.index_of(id);
    assert((front + part + back)[front.len() + at] == id);
}

proof fn stacks_are_rooted(
    id: ObjectId,
    rest: Seq<ObjectId>,
    nested: Seq<Section<Seq<ObjectId>>>,
    more: Seq<Section<Seq<ObjectId>>>,
)
    requires
        rooted(rest, nested),
        rooted(seq![id], more),
    ensures
        rooted(seq![id] + rest, nested + more),
{
    reveal(rooted);
    let none = Seq::<ObjectId>::empty();
    let stack = seq![id] + rest;
    let all = nested + more;
    assert forall|i: int| 0 <= i < all.len() implies (#[trigger] all[i]).commits.len() > 0 && (stack
        + picked(all, i)).contains(all[i].parent) by {
        if i < nested.len() {
            assert(all[i] == nested[i]);
            picked_first(nested, more, i);
            contained(rest + picked(nested, i), seq![id], none, all[i].parent);
            assert(seq![id] + (rest + picked(nested, i)) + none == stack + picked(all, i));
        } else {
            let k = i - nested.len();
            assert(all[i] == more[k]);
            picked_joins(nested, more, k);
            let one = seq![id];
            let known = one + picked(more, k);
            assert(known.contains(more[k].parent));
            let at = known.index_of(more[k].parent);
            if at == 0 {
                assert((stack + picked(all, i))[0] == more[k].parent);
            } else {
                assert(picked(more, k)[at - 1] == more[k].parent);
                let before = stack + picked(nested, nested.len() as int);
                assert(stack + picked(all, i) == before + picked(more, k) + none);
                contained(picked(more, k), before, none, more[k].parent);
            }
        }
    }
}

proof fn branches_are_rooted(
    parent: ObjectId,
    rest: Seq<ObjectId>,
    nested: Seq<Section<Seq<ObjectId>>>,
    more: Seq<Section<Seq<ObjectId>>>,
)
    requires
        rest.len() > 0,
        rooted(rest, nested),
        rooted(seq![parent], more),
    ensures
        rooted(seq![parent], seq![Section { parent, commits: rest }] + nested + more),
        ({
            let all = seq![Section { parent, commits: rest }] + nested + more;
            picked(all, all.len() as int) == held(rest, nested) + picked(more, more.len() as int)
        }),
{
    reveal(rooted);
    reveal_with_fuel(picked, 2);
    let none = Seq::<ObjectId>::empty();
    let one = seq![parent];
    let first = seq![Section { parent, commits: rest }];
    let front = first + nested;
    let all = front + more;
    assert(first[0].commits == rest);
    assert(picked(first, 1) == none + rest);
    assert(none + rest == rest);
    assert forall|i: int| 0 <= i < all.len() implies (#[trigger] all[i]).commits.len() > 0 && (one
        + picked(all, i)).contains(all[i].parent) by {
        let id = all[i].parent;
        if i == 0 {
            assert(all[0] == first[0]);
            assert((one + picked(all, i))[0] == id);
        } else if i < front.len() {
            let k = i - 1;
            assert(all[i] == nested[k]);
            picked_first(front, more, i);
            picked_joins(first, nested, k);
            contained(rest + picked(nested, k), one, none, id);
            assert(one + (rest + picked(nested, k)) + none == one + picked(all, i));
        } else {
            let k = i - front.len();
            assert(all[i] == more[k]);
            picked_joins(front, more, k);
            let known = one + picked(more, k);
            assert(known.contains(id));
            let at = known.index_of(id);
            if at == 0 {
                assert((one + picked(all, i))[0] == id);
            } else {
                assert(picked(more, k)[at - 1] == id);
                let before = one + picked(front, front.len() as int);
                assert(one + picked(all, i) == before + picked(more, k) + none);
                contained(picked(more, k), before, none, id);
            }
        }
    }
    picked_joins(first, nested, nested.len() as int);
    picked_joins(front, more, more.len() as int);
}

proof fn walks_hold_families(
    commits: Seq<CommitNode<Seq<ObjectId>>>,
    age: spec_fn(ObjectId) -> nat,
    id: ObjectId,
    bound: nat,
)
    requires
        aged(commits, age),
        ids_of(commits).contains(id),
        bound >= newer(commits, age, age(id), commits.len() as int),
    ensures
        ({
            let (stack, forks) = walked(commits, id, bound);
            &&& stack.len() > 0
            &&& family(commits, age, held(stack, forks), id)
            &&& rooted(stack, forks)
        }),
    decreases bound, 0nat,
{
    let n = commits.len() as int;
    let children = children_of(commits, id, n);
    let (stack, forks) = walked(commits, id, bound);
    children_are_on_top(commits, id, n);
    assert(siblings(commits, children, id)) by {
        assert forall|i: int| 0 <= i < children.len() implies continues(
            commits,
            id,
            #[trigger] children[i],
        ) by {
            assert(children.contains(children[i]));
        }
    }
    assert forall|j: int| 0 <= j < children.len() implies newer(
        commits,
        age,
        age(#[trigger] children[j]),
        n,
    ) < newer(commits, age, age(id), n) by {
        tops_are_newer(commits, age, children[j], id);
        newer_is_fewer(commits, age, children[j], age(id), n);
        let k = ids_of(commits).index_of(children[j]);
        assert(commits[k].id == children[j]);
    }
    let none = Seq::<ObjectId>::empty();
    if children.len() == 0 {
        assert(families(commits, age, none, children, 0)) by {
            reveal(families);
        }
        family_grows(commits, age, id, none);
        assert(held(stack, forks) == seq![id] + none);
        assert(rooted(stack, forks)) by {
            reveal(rooted);
        }
    } else {
        assert(newer(commits, age, age(children[0]), n) < newer(commits, age, age(id), n));
        assert(bound > 0);
        let less = (bound - 1) as nat;
        let (rest, nested) = walked(commits, children[0], less);
        tops_are_newer(commits, age, children[0], id);
        walks_hold_families(commits, age, children[0], less);
        branches_hold_families(commits, age, id, id, children, 1, less);
        let more = branches(commits, id, children, 1, less);
        let first = held(rest, nested);
        let others = picked(more, more.len() as int);
        families_join(commits, age, first, others, children, 0, id);
        family_grows(commits, age, id, first + others);
        stacks_are_rooted(id, rest, nested, more);
        picked_joins(nested, more, more.len() as int);
        assert(held(stack, forks) == seq![id] + (first + others));
    }
}

proof fn branches_hold_families(
    commits: Seq<CommitNode<Seq<ObjectId>>>,
    age: spec_fn(ObjectId) -> nat,
    below: ObjectId,
    parent: ObjectId,
    children: Seq<ObjectId>,
    at: int,
    bound: nat,
)
    requires
        aged(commits, age),
        siblings(commits, children, below),
        0 <= at <= children.len(),
        forall|j: int|
            0 <= j < children.len() ==> bound >= newer(
                commits,
                age,
                age(#[trigger] children[j]),
                commits.len() as int,
            ),
    ensures
        ({
            let all = branches(commits, parent, children, at, bound);
            &&& families(commits, age, picked(all, all.len() as int), children, at)
            &&& rooted(seq![parent], all)
        }),
    decreases bound, children.len() - at + 1,
{
    let all = branches(commits, parent, children, at, bound);
    if at < children.len() {
        let (rest, nested) = walked(commits, children[at], bound);
        let more = branches(commits, parent, children, at + 1, bound);
        tops_are_newer(commits, age, children[at], below);
        walks_hold_families(commits, age, children[at], bound);
        branches_hold_families(commits, age, below, parent, children, at + 1, bound);
        families_join(
            commits,
            age,
            held(rest, nested),
            picked(more, more.len() as int),
            children,
            at,
            below,
        );
        branches_are_rooted(parent, rest, nested, more);
        assert(all == seq![Section { parent, commits: rest }] + nested + more);
    } else {
        reveal(families);
        reveal(rooted);
    }
}

/// The forks of a todo hold each of its commits once, and can be picked in their order: the parent of a
/// fork is the commit to rebase onto, or a commit of a fork before it.
pub proof fn forks_are_in_order(
    commits: Seq<CommitNode<Seq<ObjectId>>>,
    base: ObjectId,
    onto: ObjectId,
    age: spec_fn(ObjectId) -> nat,
)
    requires
        aged(commits, age),
        connected(commits, base, 0) is Ok,
        commits.len() <= usize::MAX,
        !ids_of(commits).contains(base),
        !ids_of(commits).contains(onto),
    ensures
        in_order(sections_of(commits, base, onto), ids_of(commits)),
        forall|id: ObjectId| #[trigger]
            ids_of(commits).contains(id) ==> picked(
                sections_of(commits, base, onto),
                sections_of(commits, base, onto).len() as int,
            ).contains(id),
{
    let n = commits.len() as int;
    let scope = ids_of(commits);
    let children = children_of(commits, base, n);
    let sections = sections_of(commits, base, onto);
    let ids = picked(sections, sections.len() as int);
    children_are_on_top(commits, base, n);
    assert(siblings(commits, children, base)) by {
        assert forall|i: int| 0 <= i < children.len() implies continues(
            commits,
            base,
            #[trigger] children[i],
        ) by {
            assert(children.contains(children[i]));
        }
    }
    assert forall|j: int| 0 <= j < children.len() implies n as nat >= newer(
        commits,
        age,
        age(#[trigger] children[j]),
        n,
    ) by {
        tops_are_newer(commits, age, children[j], base);
        newer_is_fewer(commits, age, children[j], age(base), n);
    }
    branches_hold_families(commits, age, base, onto, children, 0, n as nat);
    reveal(families);
    reveal(rooted);
    assert forall|i: int| 0 <= i < ids.len() implies scope.contains(#[trigger] ids[i]) by {
        assert(ids.contains(ids[i]));
    }
    assert forall|id: ObjectId| #[trigger] scope.contains(id) implies ids.contains(id) by {
        let k = scope.index_of(id);
        assert(commits[k].id == id);
        all_descend(commits, age, base, k);
        let child = descends_by_child(commits, age, id, base);
        assert(children.contains(child));
        let j = children.index_of(child);
        assert(descends(commits, age, id, children[j]));
    }
    assert(ids.len() <= scope.len()) by {
        fewer(ids, scope);
    }
    assert forall|i: int| 0 <= i < sections.len() implies (#[trigger] sections[i]).commits.len() > 0
        && (scope.contains(sections[i].parent) ==> picked(sections, i).contains(
        sections[i].parent,
    )) by {
        let id = sections[i].parent;
        let known = seq![onto] + picked(sections, i);
        assert(known.contains(id));
        if scope.contains(id) {
            let at = known.index_of(id);
            assert(picked(sections, i)[at - 1] == id);
        }
    }
}

proof fn all_descend(
    commits: Seq<CommitNode<Seq<ObjectId>>>,
    age: spec_fn(ObjectId) -> nat,
    base: ObjectId,
    at: int,
)
    requires
        aged(commits, age),
        connected(commits, base, 0) is Ok,
        0 <= at < commits.len(),
    ensures
        descends(commits, age, commits[at].id, base),
    decreases age(commits[at].id),
{
    let below = commits[at].parents[0];
    each_is_connected(commits, base, 0, at);
    assert(continues(commits, below, commits[at].id));
    if below == base {
        assert(descends(commits, age, base, base));
    } else {
        let k = ids_of(commits).index_of(below);
        assert(commits[k].id == below);
        all_descend(commits, age, base, k);
    }
}

proof fn each_is_connected(
    commits: Seq<CommitNode<Seq<ObjectId>>>,
    base: ObjectId,
    from: int,
    at: int,
)
    requires
        0 <= from <= at < commits.len(),
        connected(commits, base, from) is Ok,
    ensures
        commits[at].parents.len() > 0,
        commits[at].parents[0] == base || ids_of(commits).contains(commits[at].parents[0]),
    decreases at - from,
{
    if from < at {
        each_is_connected(commits, base, from + 1, at);
    }
}

proof fn fewer(part: Seq<ObjectId>, all: Seq<ObjectId>)
    requires
        part.no_duplicates(),
        forall|i: int| 0 <= i < part.len() ==> all.contains(#[trigger] part[i]),
    ensures
        part.len() <= all.len(),
{
    part.unique_seq_to_set();
    assert(part.to_set().subset_of(all.to_set()));
    vstd::set_lib::lemma_len_subset(part.to_set(), all.to_set());
    all.lemma_cardinality_of_set();
}

} // verus!
