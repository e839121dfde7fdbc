//! References: what they hold, and tables of what is known of them.
use vstd::prelude::*;
use crate::bytes::{before, before_irreflexive, before_transitive, is_before};
use crate::ids::ObjectId;
use crate::names::FullName;
use crate::plan::viewed;

verus! {

/// What a reference holds: nothing as it does not exist, an object, or the name of another
/// reference.
#[derive(PartialEq, Eq, Debug)]
pub enum State<N> {
    Missing,
    Object(ObjectId),
    Symbolic(N),
}

impl<N: View> View for State<N> {
    type V = State<N::V>;

    open spec fn view(&self) -> State<N::V> {
        match self {
            State::Missing => State::Missing,
            State::Object(id) => State::Object(*id),
            State::Symbolic(name) => State::Symbolic(name@),
        }
    }
}

impl State<FullName> {
    /// A copy of the state.
    pub fn copy(&self) -> (r: State<FullName>)
        ensures
            r@ == self@,
    {
        match self {
            State::Missing => State::Missing,
            State::Object(id) => State::Object(*id),
            State::Symbolic(name) => State::Symbolic(name.clone()),
        }
    }

    /// Compares two states.
    pub fn same(&self, other: &State<FullName>) -> (r: bool)
        ensures
            r == (self@ == other@),
    {
        match (self, other) {
            (State::Missing, State::Missing) => true,
            (State::Object(a), State::Object(b)) => *a == *b,
            (State::Symbolic(a), State::Symbolic(b)) => a.same(b),
            _ => false,
        }
    }
}

/// A reference and what it holds.
#[derive(PartialEq, Eq, Debug)]
pub struct Reference<N> {
    pub name: N,
    pub state: State<N>,
}

impl<N: View> View for Reference<N> {
    type V = Reference<N::V>;

    open spec fn view(&self) -> Reference<N::V> {
        Reference { name: self.name@, state: self.state@ }
    }
}

/// What the first reference of the given name, at or after `from`, holds.
pub open spec fn state_from(
    references: Seq<Reference<Seq<u8>>>,
    name: Seq<u8>,
    from: int,
) -> State<Seq<u8>>
    decreases references.len() - from,
{
    if from < 0 || from >= references.len() {
        State::Missing
    } else if references[from].name == name {
        references[from].state
    } else {
        state_from(references, name, from + 1)
    }
}

/// What the reference of the given name holds; a name that is not listed does not exist.
pub open spec fn state_of(references: Seq<Reference<Seq<u8>>>, name: Seq<u8>) -> State<Seq<u8>> {
    state_from(references, name, 0)
}

/// What the reference of the given name holds.
pub fn find_state(references: &Vec<Reference<FullName>>, name: &FullName) -> (r: State<FullName>)
    ensures
        r@ == state_of(viewed(references@), name@),
{
    let mut i: usize = 0;
    while i < references.len()
        invariant
            i <= references@.len(),
            state_of(viewed(references@), name@) == state_from(
                viewed(references@),
                name@,
                i as int,
            ),
        decreases references.len() - i,
    {
        if references[i].name.same(name) {
            return references[i].state.copy();
        }
        i = i + 1;
    }
    State::Missing
}

/// Whether a name is among several.
pub fn contains_name(names: &Vec<FullName>, name: &FullName) -> (r: bool)
    ensures
        r == viewed(names@).contains(name@),
{
    let mut i: usize = 0;
    while i < names.len()
        invariant
            i <= names@.len(),
            forall|j: int| 0 <= j < i ==> viewed(names@)[j] != name@,
        decreases names.len() - i,
    {
        if names[i].same(name) {
            assert(viewed(names@)[i as int] == name@);
            return true;
        }
        i = i + 1;
    }
    false
}

/// A name added to sorted names, behind those that are not greater.
pub open spec fn inserted(sorted: Seq<Seq<u8>>, name: Seq<u8>) -> Seq<Seq<u8>>
    decreases sorted.len(),
{
    if sorted.len() == 0 {
        seq![name]
    } else if before(name, sorted[0]) {
        seq![name] + sorted
    } else {
        seq![sorted[0]] + inserted(sorted.skip(1), name)
    }
}

/// Names in lexicographic order.
pub open spec fn sorted_names(names: Seq<Seq<u8>>) -> Seq<Seq<u8>>
    decreases names.len(),
{
    if names.len() == 0 {
        Seq::empty()
    } else {
        inserted(sorted_names(names.drop_last()), names.last())
    }
}

proof fn inserted_at(sorted: Seq<Seq<u8>>, name: Seq<u8>, at: int)
    requires
        0 <= at <= sorted.len(),
        forall|i: int| 0 <= i < at ==> !before(name, #[trigger] sorted[i]),
        at < sorted.len() ==> before(name, sorted[at]),
    ensures
        inserted(sorted, name) == sorted.insert(at, name),
    decreases sorted.len(),
{
    if sorted.len() == 0 || before(name, sorted[0]) {
        assert(at == 0);
        assert(inserted(sorted, name) == sorted.insert(at, name));
    } else {
        assert forall|i: int| 0 <= i < at - 1 implies !before(name, #[trigger] sorted.skip(1)[i]) by {
            assert(sorted.skip(1)[i] == sorted[i + 1]);
        }
        inserted_at(sorted.skip(1), name, at - 1);
        assert(inserted(sorted, name) == sorted.insert(at, name));
    }
}

/// Adds a name to sorted names.
pub fn insert_name(names: &mut Vec<FullName>, name: FullName)
    ensures
        viewed(final(names)@) == inserted(viewed(old(names)@), name@),
{
    let mut i: usize = 0;
    let ghost all = viewed(names@);
    while i < names.len() && !is_before(name.as_bytes(), names[i].as_bytes())
        invariant
            all == viewed(names@),
            names@ == old(names)@,
            i <= names@.len(),
            forall|j: int| 0 <= j < i ==> !before(name@, #[trigger] all[j]),
        decreases names.len() - i,
    {
        i = i + 1;
    }
    proof {
        inserted_at(all, name@, i as int);
    }
    let ghost added = name@;
    names.insert(i, name);
    assert(viewed(names@) == all.insert(i as int, added));
}

/// Adds a text to sorted texts.
pub fn insert_text(texts: &mut Vec<Vec<u8>>, text: Vec<u8>)
    ensures
        viewed(final(texts)@) == inserted(viewed(old(texts)@), text@),
{
    let mut i: usize = 0;
    let ghost all = viewed(texts@);
    while i < texts.len() && !is_before(text.as_slice(), texts[i].as_slice())
        invariant
            all == viewed(texts@),
            texts@ == old(texts)@,
            i <= texts@.len(),
            forall|j: int| 0 <= j < i ==> !before(text@, #[trigger] all[j]),
        decreases texts.len() - i,
    {
        i = i + 1;
    }
    proof {
        inserted_at(all, text@, i as int);
    }
    let ghost added = text@;
    texts.insert(i, text);
    assert(viewed(texts@) == all.insert(i as int, added));
}

/// Whether names are in lexicographic order.
pub open spec fn in_order(names: Seq<Seq<u8>>) -> bool {
    forall|i: int, j: int| 0 <= i < j < names.len() ==> !before(#[trigger] names[j], #[trigger] names[i])
}

proof fn inserted_keeps_order(sorted: Seq<Seq<u8>>, name: Seq<u8>)
    requires
        in_order(sorted),
    ensures
        in_order(inserted(sorted, name)),
        inserted(sorted, name).to_multiset() == sorted.to_multiset().insert(name),
    decreases sorted.len(),
{
    broadcast use vstd::seq_lib::group_to_multiset_ensures;

    if sorted.len() == 0 {
        assert(seq![name] == sorted.push(name));
    } else if before(name, sorted[0]) {
        let all = seq![name] + sorted;
        assert forall|i: int, j: int| 0 <= i < j < all.len() implies !before(
            #[trigger] all[j],
            #[trigger] all[i],
        ) by {
            if i == 0 {
                if before(all[j], name) {
                    before_transitive(all[j], name, sorted[0]);
                    if j == 1 {
                        before_irreflexive(sorted[0]);
                    } else {
                        assert(!before(sorted[j - 1], sorted[0]));
                    }
                }
            } else {
                assert(all[i] == sorted[i - 1] && all[j] == sorted[j - 1]);
            }
        }
        assert(all == sorted.insert(0, name));
        sorted.insert_ensures(0, name);
        vstd::seq_lib::to_multiset_insert(sorted, 0, name);
    } else {
        let rest = sorted.skip(1);
        assert forall|i: int, j: int| 0 <= i < j < rest.len() implies !before(
            #[trigger] rest[j],
            #[trigger] rest[i],
        ) by {
            assert(rest[i] == sorted[i + 1] && rest[j] == sorted[j + 1]);
        }
        inserted_keeps_order(rest, name);
        let tail = inserted(rest, name);
        let all = seq![sorted[0]] + tail;
        assert forall|i: int, j: int| 0 <= i < j < all.len() implies !before(
            #[trigger] all[j],
            #[trigger] all[i],
        ) by {
            if i == 0 {
                assert(all[j] == tail[j - 1]);
                assert(tail.to_multiset().count(tail[j - 1]) > 0);
                if tail[j - 1] != name {
                    assert(rest.to_multiset().count(tail[j - 1]) > 0);
                    assert(rest.contains(tail[j - 1]));
                    let k = choose|k: int| 0 <= k < rest.len() && rest[k] == tail[j - 1];
                    assert(sorted[k + 1] == tail[j - 1]);
                    assert(!before(sorted[k + 1], sorted[0]));
                }
            } else {
                assert(all[i] == tail[i - 1] && all[j] == tail[j - 1]);
            }
        }
        assert(all == tail.insert(0, sorted[0]));
        vstd::seq_lib::to_multiset_insert(tail, 0, sorted[0]);
        assert(sorted == rest.insert(0, sorted[0]));
        vstd::seq_lib::to_multiset_insert(rest, 0, sorted[0]);
        assert(tail.to_multiset().insert(sorted[0]) =~= sorted.to_multiset().insert(name));
    }
}

/// Sorting brings names into order and keeps each of them, as often as it occurs.
pub proof fn sorted_names_are_sorted(names: Seq<Seq<u8>>)
    ensures
        in_order(sorted_names(names)),
        sorted_names(names).to_multiset() == names.to_multiset(),
    decreases names.len(),
{
    broadcast use vstd::seq_lib::group_to_multiset_ensures;

    if names.len() > 0 {
        sorted_names_are_sorted(names.drop_last());
        inserted_keeps_order(sorted_names(names.drop_last()), names.last());
        assert(names == names.drop_last().push(names.last()));
    }
}

/// A reference is in the state that is known of it first, and missing if nothing is.
pub proof fn known_references_are_found(
    references: Seq<Reference<Seq<u8>>>,
    name: Seq<u8>,
    from: int,
)
    requires
        0 <= from,
    ensures
        forall|i: int|
            from <= i < references.len() && (#[trigger] references[i]).name == name && (forall|j: int|
                from <= j < i ==> (#[trigger] references[j]).name != name) ==> state_from(
                references,
                name,
                from,
            ) == references[i].state,
        (forall|i: int| from <= i < references.len() ==> (#[trigger] references[i]).name != name)
            ==> state_from(references, name, from) == State::<Seq<u8>>::Missing,
    decreases references.len() - from,
{
    if from < references.len() && references[from].name != name {
        known_references_are_found(references, name, from + 1);
    }
}

} // verus!
