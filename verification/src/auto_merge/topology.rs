//! Orders in which everything comes behind what it depends on.
use vstd::prelude::*;
use crate::plan::viewed;

verus! {

/// Whether everything that something depends on is done.
pub open spec fn ready(dependencies: Seq<usize>, done: Seq<usize>) -> bool {
    forall|i: int| 0 <= i < dependencies.len() ==> done.contains(#[trigger] dependencies[i])
}

/// What is done once the items from `at` on were gone through, each of which is done if it is
/// not yet and what it depends on is.
pub open spec fn pass_from(
    items: Seq<usize>,
    dependencies: Seq<Seq<usize>>,
    at: int,
    done: Seq<usize>,
) -> Seq<usize>
    decreases items.len() - at,
{
    if at < 0 || at >= items.len() {
        done
    } else {
        pass_from(
            items,
            dependencies,
            at + 1,
            if !done.contains(items[at]) && ready(dependencies[at], done) {
                done.push(items[at])
            } else {
                done
            },
        )
    }
}

/// How much of `total` is not done.
pub open spec fn undone(total: int, done: nat) -> int {
    if done < total {
        total - done
    } else {
        0
    }
}

/// What is done once the items were gone through again and again, up to `total` of them; none if
/// going through them does not get any further.
pub open spec fn passes_from(
    items: Seq<usize>,
    dependencies: Seq<Seq<usize>>,
    total: int,
    done: Seq<usize>,
) -> Option<Seq<usize>>
    decreases undone(total, done.len()),
{
    if done.len() >= total {
        Some(done)
    } else {
        let next = pass_from(items, dependencies, 0, done);
        if next.len() <= done.len() {
            None
        } else {
            passes_from(items, dependencies, total, next)
        }
    }
}

/// The order in which items are done; none if they depend on each other.
pub open spec fn order_of(items: Seq<usize>, dependencies: Seq<Seq<usize>>, total: int) -> Option<
    Seq<usize>,
> {
    passes_from(items, dependencies, total, Seq::empty())
}

/// Whether an index is among several.
pub fn contains_index(indices: &Vec<usize>, index: usize) -> (r: bool)
    ensures
        r == indices@.contains(index),
{
    let mut i: usize = 0;
    while i < indices.len()
        invariant
            i <= indices@.len(),
            forall|j: int| 0 <= j < i ==> indices@[j] != index,
        decreases indices.len() - i,
    {
        if indices[i] == index {
            return true;
        }
        i = i + 1;
    }
    false
}

fn is_ready(dependencies: &Vec<usize>, done: &Vec<usize>) -> (r: bool)
    ensures
        r == ready(dependencies@, done@),
{
    let mut i: usize = 0;
    while i < dependencies.len()
        invariant
            i <= dependencies@.len(),
            forall|j: int| 0 <= j < i ==> done@.contains(#[trigger] dependencies@[j]),
        decreases dependencies.len() - i,
    {
        if !contains_index(done, dependencies[i]) {
            return false;
        }
        i = i + 1;
    }
    true
}

fn pass(items: &Vec<usize>, dependencies: &Vec<Vec<usize>>, done: &mut Vec<usize>)
    requires
        items@.len() == dependencies@.len(),
    ensures
        final(done)@ == pass_from(items@, viewed(dependencies@), 0, old(done)@),
{
    let ghost before = done@;
    let mut at: usize = 0;
    while at < items.len()
        invariant
            at <= items@.len(),
            items@.len() == dependencies@.len(),
            pass_from(items@, viewed(dependencies@), 0, before) == pass_from(
                items@,
                viewed(dependencies@),
                at as int,
                done@,
            ),
        decreases items.len() - at,
    {
        if !contains_index(done, items[at]) && is_ready(&dependencies[at], done) {
            done.push(items[at]);
        }
        at = at + 1;
    }
}

/// The order in which items are done, up to `total` of them; none if they depend on each other.
pub fn order(items: &Vec<usize>, dependencies: &Vec<Vec<usize>>, total: usize) -> (r: Option<
    Vec<usize>,
>)
    requires
        items@.len() == dependencies@.len(),
    ensures
        match r {
            Some(order) => order_of(items@, viewed(dependencies@), total as int) == Some(order@),
            None => order_of(items@, viewed(dependencies@), total as int) is None,
        },
{
    let mut done: Vec<usize> = Vec::new();
    while done.len() < total
        invariant
            items@.len() == dependencies@.len(),
            order_of(items@, viewed(dependencies@), total as int) == passes_from(
                items@,
                viewed(dependencies@),
                total as int,
                done@,
            ),
        decreases undone(total as int, done@.len()),
    {
        let before: usize = done.len();
        pass(items, dependencies, &mut done);
        if done.len() <= before {
            return None;
        }
    }
    Some(done)
}

/// Whether items are done in a sound order: each once, and each behind all that it depends on.
pub open spec fn sound(items: Seq<usize>, dependencies: Seq<Seq<usize>>, done: Seq<usize>) -> bool {
    &&& done.no_duplicates()
    &&& forall|p: int|
        0 <= p < done.len() ==> #[trigger] stands(items, dependencies, done, p)
}

/// Whether what is done at `p` is an item, behind all that it depends on.
pub open spec fn stands(
    items: Seq<usize>,
    dependencies: Seq<Seq<usize>>,
    done: Seq<usize>,
    p: int,
) -> bool {
    exists|i: int|
        0 <= i < items.len() && items[i] == done[p] && ready(
            #[trigger] dependencies[i],
            done.take(p),
        )
}

proof fn pass_is_sound(
    items: Seq<usize>,
    dependencies: Seq<Seq<usize>>,
    at: int,
    done: Seq<usize>,
)
    requires
        0 <= at <= items.len(),
        sound(items, dependencies, done),
    ensures
        sound(items, dependencies, pass_from(items, dependencies, at, done)),
        done.len() <= pass_from(items, dependencies, at, done).len(),
        pass_from(items, dependencies, at, done).take(done.len() as int) == done,
        forall|i: int|
            at <= i < items.len() && ready(dependencies[i], done) ==> pass_from(
                items,
                dependencies,
                at,
                done,
            ).contains(#[trigger] items[i]),
    decreases items.len() - at,
{
    let end = pass_from(items, dependencies, at, done);
    if at < items.len() {
        if !done.contains(items[at]) && ready(dependencies[at], done) {
            let next = done.push(items[at]);
            assert forall|p: int| 0 <= p < next.len() implies #[trigger] stands(
                items,
                dependencies,
                next,
                p,
            ) by {
                if p < done.len() {
                    assert(stands(items, dependencies, done, p));
                    assert(next.take(p) == done.take(p));
                } else {
                    assert(next.take(p) == done);
                    assert(ready(dependencies[at], next.take(p)));
                }
            }
            pass_is_sound(items, dependencies, at + 1, next);
            assert(end.take(done.len() as int) == end.take(next.len() as int).take(
                done.len() as int,
            ));
            assert(next.take(done.len() as int) == done);
            assert forall|i: int| at <= i < items.len() && ready(
                dependencies[i],
                done,
            ) implies end.contains(#[trigger] items[i]) by {
                if i > at {
                    assert(ready(dependencies[i], next)) by {
                        assert forall|k: int| 0 <= k < dependencies[i].len() implies next.contains(
                            #[trigger] dependencies[i][k],
                        ) by {
                            let d = dependencies[i][k];
                            assert(done.contains(d));
                            let w = choose|w: int| 0 <= w < done.len() && done[w] == d;
                            assert(next[w] == d);
                        }
                    }
                } else {
                    assert(end.take(next.len() as int)[done.len() as int] == items[at]);
                    assert(end[done.len() as int] == items[at]);
                }
            }
        } else {
            pass_is_sound(items, dependencies, at + 1, done);
            assert forall|i: int| at <= i < items.len() && ready(
                dependencies[i],
                done,
            ) implies end.contains(#[trigger] items[i]) by {
                if i == at {
                    assert(done.contains(items[at]));
                    let w = choose|w: int| 0 <= w < done.len() && done[w] == items[at];
                    assert(end.take(done.len() as int)[w] == done[w]);
                    assert(end[w] == items[at]);
                }
            }
        }
    } else {
        assert(end.take(done.len() as int) == done);
    }
}

proof fn passes_are_sound(
    items: Seq<usize>,
    dependencies: Seq<Seq<usize>>,
    total: int,
    done: Seq<usize>,
)
    requires
        sound(items, dependencies, done),
    ensures
        passes_from(items, dependencies, total, done) matches Some(order) ==> sound(
            items,
            dependencies,
            order,
        ) && order.len() >= total,
    decreases undone(total, done.len()),
{
    if done.len() < total {
        pass_is_sound(items, dependencies, 0, done);
        let next = pass_from(items, dependencies, 0, done);
        if next.len() > done.len() {
            passes_are_sound(items, dependencies, total, next);
        }
    }
}

/// In the order that is found everything comes once, and behind all that it depends on.
pub proof fn orders_are_sound(items: Seq<usize>, dependencies: Seq<Seq<usize>>, total: int)
    ensures
        order_of(items, dependencies, total) matches Some(order) ==> sound(
            items,
            dependencies,
            order,
        ) && order.len() >= total,
{
    passes_are_sound(items, dependencies, total, Seq::empty());
}

/// Items that are what they are the index of.
pub open spec fn counting(items: Seq<usize>) -> bool {
    items.len() <= usize::MAX && forall|i: int| 0 <= i < items.len() ==> #[trigger] items[i] == i
}

/// If each item depends only on items of lower rank, then an order is found.
pub open spec fn ranked(dependencies: Seq<Seq<usize>>, rank: spec_fn(usize) -> nat) -> bool {
    forall|i: int, k: int|
        0 <= i < dependencies.len() && 0 <= k < dependencies[i].len()
            ==> (#[trigger] dependencies[i][k]) < dependencies.len() && rank(dependencies[i][k])
            < rank(i as usize)
}

proof fn lowest(
    items: Seq<usize>,
    dependencies: Seq<Seq<usize>>,
    rank: spec_fn(usize) -> nat,
    done: Seq<usize>,
    item: usize,
) -> (r: usize)
    requires
        counting(items),
        items.len() == dependencies.len(),
        ranked(dependencies, rank),
        item < items.len(),
        !done.contains(item),
    ensures
        r < items.len(),
        !done.contains(r),
        ready(dependencies[r as int], done),
    decreases rank(item),
{
    if ready(dependencies[item as int], done) {
        item
    } else {
        let k = choose|k: int|
            0 <= k < dependencies[item as int].len() && !done.contains(
                #[trigger] dependencies[item as int][k],
            );
        let next = dependencies[item as int][k];
        assert(rank(next) < rank(item));
        lowest(items, dependencies, rank, done, next)
    }
}

proof fn some_item_is_missing(items: Seq<usize>, done: Seq<usize>) -> (r: usize)
    requires
        counting(items),
        done.no_duplicates(),
        done.len() < items.len(),
    ensures
        r < items.len(),
        !done.contains(r),
{
    broadcast use vstd::seq_lib::seq_to_set_is_finite;

    if forall|i: int| 0 <= i < items.len() ==> done.contains(#[trigger] items[i]) {
        assert(items.no_duplicates());
        items.unique_seq_to_set();
        done.unique_seq_to_set();
        assert forall|x: usize| items.to_set().contains(x) implies done.to_set().contains(x) by {
            let i = choose|i: int| 0 <= i < items.len() && items[i] == x;
            assert(done.contains(items[i]));
        }
        vstd::set_lib::lemma_len_subset(items.to_set(), done.to_set());
    }
    let i = choose|i: int| 0 <= i < items.len() && !done.contains(#[trigger] items[i]);
    items[i]
}

proof fn passes_finish(
    items: Seq<usize>,
    dependencies: Seq<Seq<usize>>,
    rank: spec_fn(usize) -> nat,
    done: Seq<usize>,
)
    requires
        counting(items),
        items.len() == dependencies.len(),
        ranked(dependencies, rank),
        sound(items, dependencies, done),
    ensures
        passes_from(items, dependencies, items.len() as int, done) is Some,
    decreases undone(items.len() as int, done.len()),
{
    if done.len() < items.len() {
        let missing = some_item_is_missing(items, done);
        let next_item = lowest(items, dependencies, rank, done, missing);
        let next = pass_from(items, dependencies, 0, done);
        pass_is_sound(items, dependencies, 0, done);
        assert(next.contains(items[next_item as int]));
        assert(next.len() > done.len()) by {
            if next.len() <= done.len() {
                assert(next == next.take(done.len() as int));
            }
        }
        passes_finish(items, dependencies, rank, next);
    }
}

/// If nothing depends on itself, directly or through others, then an order is found.
pub proof fn orders_are_found(
    items: Seq<usize>,
    dependencies: Seq<Seq<usize>>,
    rank: spec_fn(usize) -> nat,
)
    requires
        counting(items),
        items.len() == dependencies.len(),
        ranked(dependencies, rank),
    ensures
        order_of(items, dependencies, items.len() as int) is Some,
{
    passes_finish(items, dependencies, rank, Seq::empty());
}

} // verus!
