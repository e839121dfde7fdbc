//! What holds of every move of HEAD, and of the pins that come and go with it.
use vstd::prelude::*;
use vstd::string::StringSliceAdditionalSpecFns;
use crate::auto_merge::definition::Header;
use crate::bytes::has_prefix;
use crate::ids::{hex_of, ObjectId};
use crate::names::{short_name, HEAD_PIN_NAME, PIN_PREFIX, REVIEW_PIN_PREFIX};
use crate::refs::{Reference, State};
use crate::time_travel::attach::{
    attach_error, attachment, moving, remembered, tracking_error,
    RememberedBranch,
};
use crate::time_travel::course::{
    action_of, setting_out, travelled, Leg, TravelAction, TravelEvent, TravelView,
};
use crate::time_travel::journey::{
    advanced, reattachment, reconciling, Event, EventView, Reattached, Reconciling,
};
use crate::time_travel::moves::{
    attaching, checkout_words, direct_from, forsakes_branch, journey_to,
    provisional_pin, there, way_back, Checkout, JourneyView, Request, Stage,
    WorktreeView,
};
use crate::time_travel::pins::{
    best_pin, cleanup, creation, deferred, deletion, head_pin_from, leads_back,
    new_pins_have_names, pin_at, pinned, remembering, removals,
    selected_pins_are_the_best, toggled, Pin, Pinned, Toggle,
};
use crate::time_travel::travel::{
    base_from, replay_base, survivors, Waypoint,
};
use crate::time_travel::TravelError;
use crate::undo::changes::{change_of, RefChange, RefEdit, Target};
use crate::undo::worktrees::HEAD;
use crate::undo::UndoError;

verus! {

/// Whether a pin leads back to a commit by the branch that HEAD left: it is the pin of HEAD, it is at the
/// commit, and it points at a branch that no other worktree is on.
pub open spec fn returns_to_branch(worktree: WorktreeView, pin: Pin<Seq<u8>>, selected: ObjectId) -> bool {
    &&& pin.name == HEAD_PIN_NAME.spec_bytes()
    &&& pin.id == selected
    &&& pin.target matches Target::Symbolic(branch) && has_prefix(branch, "refs/heads/".spec_bytes())
        && !worktree.elsewhere.contains(branch)
}

/// Whether a pin keeps a commit in view and leads back to it: it is neither the pin of HEAD nor one of a
/// review, it is at the commit, and what it points at by name is a branch.
pub open spec fn keeps(pin: Pin<Seq<u8>>, selected: ObjectId) -> bool {
    &&& pin.name != HEAD_PIN_NAME.spec_bytes()
    &&& !has_prefix(pin.name, REVIEW_PIN_PREFIX.spec_bytes())
    &&& pin.id == selected
    &&& pin.target matches Target::Symbolic(branch) ==> has_prefix(branch, "refs/heads/".spec_bytes())
}

proof fn direct_is_first(
    worktree: WorktreeView,
    selected: ObjectId,
    at: int,
)
    requires
        0 <= at,
    ensures
        match direct_from(worktree.pins, selected, worktree.elsewhere, at) {
            Some(i) => at <= i < worktree.pins.len() && returns_to_branch(
                worktree,
                worktree.pins[i],
                selected,
            ),
            None => forall|i: int|
                at <= i < worktree.pins.len() ==> !returns_to_branch(
                    worktree,
                    #[trigger] worktree.pins[i],
                    selected,
                ),
        },
    decreases worktree.pins.len() - at,
{
    if at < worktree.pins.len() {
        direct_is_first(worktree, selected, at + 1);
    }
}

/// Where HEAD ends. Asked for a reference it ends on that. Otherwise it ends on the branch that it left, if
/// the pin of HEAD leads there and no other worktree is on it; or where a pin at the commit points; or at the
/// commit itself if there is no such pin. The checkout is one that leads there: a branch is checked out by
/// name, any other reference is attached to at the commit.
pub proof fn heads_end_where_they_are_sent(worktree: WorktreeView, request: Request<Seq<u8>>)
    requires
        journey_to(worktree, request) is Ok,
        journey_to(worktree, request)->Ok_0 is Some,
    ensures
        ({
            let journey = journey_to(worktree, request)->Ok_0->Some_0.1;
            let pins = worktree.pins;
            &&& journey.stage == Stage::Checkout
            &&& journey.head_before == worktree.head
            &&& request.reference matches Some(name) ==> {
                &&& journey.head_after == State::Symbolic(name)
                &&& has_prefix(name, "refs/heads/".spec_bytes()) ==> journey.checkout
                    == Checkout::Branch(name)
                &&& !has_prefix(name, "refs/heads/".spec_bytes()) ==> journey.checkout
                    == (Checkout::Attach { id: request.selected, reference: name })
            }
            &&& request.reference is None && (exists|i: int|
                0 <= i < pins.len() && returns_to_branch(
                    worktree,
                    #[trigger] pins[i],
                    request.selected,
                )) ==> exists|i: int|
                0 <= i < pins.len() && returns_to_branch(
                    worktree,
                    #[trigger] pins[i],
                    request.selected,
                ) && journey.head_after == State::Symbolic(pins[i].target->Symbolic_0)
                    && journey.checkout == Checkout::Branch(pins[i].target->Symbolic_0)
            &&& request.reference is None && (forall|i: int|
                0 <= i < pins.len() ==> !returns_to_branch(
                    worktree,
                    #[trigger] pins[i],
                    request.selected,
                )) && (exists|i: int|
                0 <= i < pins.len() && keeps(#[trigger] pins[i], request.selected)) ==> exists|
                i: int,
            |
                0 <= i < pins.len() && keeps(#[trigger] pins[i], request.selected)
                    && match pins[i].target {
                    Target::Symbolic(branch) => journey.head_after == State::Symbolic(branch)
                        && journey.checkout == Checkout::Branch(branch),
                    Target::Object(id) => journey.head_after == State::<Seq<u8>>::Object(id)
                        && journey.checkout == Checkout::<Seq<u8>>::Detach(request.selected),
                }
            &&& request.reference is None && (forall|i: int|
                0 <= i < pins.len() ==> !returns_to_branch(
                    worktree,
                    #[trigger] pins[i],
                    request.selected,
                ) && !keeps(pins[i], request.selected)) ==> journey.head_after == State::<
                Seq<u8>,
            >::Object(request.selected) && journey.checkout == Checkout::<Seq<u8>>::Detach(
                request.selected,
            )
        }),
{
    let pins = worktree.pins;
    let selected = request.selected;
    direct_is_first(worktree, selected, 0);
    selected_pins_are_the_best(pins, selected);
    assert(forall|i: int|
        0 <= i < pins.len() ==> (leads_back(#[trigger] pins[i], selected) <==> keeps(
            pins[i],
            selected,
        )));
    if request.reference is None {
        let direct = direct_from(pins, selected, worktree.elsewhere, 0);
        let best = best_pin(pins, selected, 0, None);
        if let Some(i) = direct {
            assert(returns_to_branch(worktree, pins[i], selected));
        } else if let Some(i) = best {
            assert(keeps(pins[i], selected));
        }
    }
}

/// HEAD moves unless it is there already: at the commit, and on the reference that is asked for or on none.
/// It cannot move before there is a commit.
pub proof fn heads_move_if_needed(worktree: WorktreeView, request: Request<Seq<u8>>)
    ensures
        worktree.head_id is None <==> journey_to(worktree, request) == Err::<
            Option<(Option<RefEdit<Seq<u8>>>, JourneyView)>,
            _,
        >(TravelError::UnbornHead),
        journey_to(worktree, request) matches Ok(found) ==> (found is None <==> worktree.head_id
            == Some(request.selected) && match request.reference {
            Some(name) => worktree.head == State::Symbolic(name),
            None => !(worktree.head is Symbolic),
        }),
{
    if worktree.head_id is Some && !there(worktree, request) {
        if !forsakes_branch(worktree, request) {
            if let Err(err) = provisional_pin(worktree, request) {
                new_pins_have_names(request.departure->Some_0, worktree.taken);
            }
        }
    }
}

/// HEAD remembers the branch that it leaves if and only if it is on a branch and ends detached, and then in
/// the pin of HEAD.
pub proof fn left_branches_are_remembered(worktree: WorktreeView, request: Request<Seq<u8>>)
    requires
        journey_to(worktree, request) is Ok,
        journey_to(worktree, request)->Ok_0 is Some,
    ensures
        ({
            let (edit, journey) = journey_to(worktree, request)->Ok_0->Some_0;
            let leaves = (worktree.head matches State::Symbolic(branch) && has_prefix(
                branch,
                "refs/heads/".spec_bytes(),
            )) && journey.head_after is Object;
            &&& leaves ==> (edit matches Some(edit) && change_of(edit) == Ok::<_, UndoError>(
                Some(
                    RefChange {
                        name: HEAD_PIN_NAME.spec_bytes(),
                        before: worktree.head_pin,
                        after: worktree.head,
                    },
                ),
            )) && journey.provisional is None
            &&& !leaves ==> (journey.provisional is Some <==> request.departure is Some
                && request.departure != Some(request.selected) && !request.contained)
            &&& !leaves ==> (edit matches Some(edit) ==> (journey.provisional matches Some(pin)
                && change_of(edit) == Ok::<_, UndoError>(
                Some(
                    RefChange {
                        name: pin.name,
                        before: State::Missing,
                        after: match pin.target {
                            Target::Object(id) => State::Object(id),
                            Target::Symbolic(name) => State::Symbolic(name),
                        },
                    },
                ),
            ) && !worktree.taken.contains(pin.name)))
            &&& !leaves && (journey.provisional matches Some(pin) && !worktree.pins.contains(pin))
                ==> edit is Some
            &&& edit is None ==> journey.changes.len() == 0
            &&& edit matches Some(edit) ==> forall|i: int|
                0 <= i < journey.changes.len() ==> change_of(edit) == Ok::<_, UndoError>(
                    Some(#[trigger] journey.changes[i]),
                )
        }),
{
    let (edit, journey) = journey_to(worktree, request)->Ok_0->Some_0;
    match way_back(worktree, request) {
        Some(pin) => {},
        None => {},
    }
    if !forsakes_branch(worktree, request) {
        if let Some(departure) = request.departure {
            new_pins_have_names(departure, worktree.taken);
            pins_are_used_again(
                worktree.pins,
                worktree.taken,
                match worktree.head {
                    State::Symbolic(name) => Target::Symbolic(name),
                    _ => Target::Object(departure),
                },
                departure,
            );
        }
    }
}

/// The pin by which HEAD comes back to a commit goes with the move unless an automatic merge follows it. It is
/// one that keeps the commit in view, never the pin of HEAD nor one of a review.
pub proof fn used_pins_go(worktree: WorktreeView, request: Request<Seq<u8>>)
    requires
        journey_to(worktree, request) is Ok,
        journey_to(worktree, request)->Ok_0 is Some,
    ensures
        ({
            let journey = journey_to(worktree, request)->Ok_0->Some_0.1;
            &&& journey.destination matches Some(pin) ==> worktree.pins.contains(pin) && keeps(
                pin,
                request.selected,
            ) && !worktree.followed.contains(pin.name)
            &&& journey.destination is None ==> (forall|i: int|
                0 <= i < worktree.pins.len() ==> !keeps(
                    #[trigger] worktree.pins[i],
                    request.selected,
                )) || exists|i: int|
                0 <= i < worktree.pins.len() && keeps(
                    #[trigger] worktree.pins[i],
                    request.selected,
                ) && worktree.followed.contains(worktree.pins[i].name)
            &&& journey.reconciles
        }),
{
    selected_pins_are_the_best(worktree.pins, request.selected);
    assert(forall|i: int|
        0 <= i < worktree.pins.len() ==> (leads_back(#[trigger] worktree.pins[i], request.selected)
            <==> keeps(worktree.pins[i], request.selected)));
    if let Some(i) = best_pin(worktree.pins, request.selected, 0, None) {
        assert(keeps(worktree.pins[i], request.selected));
    }
}

/// What git is told to check out: a branch by its name below `refs/heads/` and without guessing, or else the
/// commit, detached. There is no way to check out another reference as a branch.
pub proof fn checkouts_name_where_they_go(checkout: Checkout<Seq<u8>>)
    ensures
        checkout matches Checkout::Branch(name) ==> {
            &&& checkout_words(checkout) is Some <==> has_prefix(name, "refs/heads/".spec_bytes())
            &&& checkout_words(checkout) matches Some(words) ==> words.len() == 2 && words[0]
                == "--no-guess".spec_bytes() && "refs/heads/".spec_bytes() + words[1] == name
        },
        checkout matches Checkout::Detach(id) ==> checkout_words(checkout) == Some(
            seq!["--detach".spec_bytes(), hex_of(id)],
        ),
        checkout matches Checkout::Attach { id, reference } ==> checkout_words(checkout) == Some(
            seq!["--detach".spec_bytes(), hex_of(id)],
        ),
{
    if let Checkout::Branch(name) = checkout {
        let prefix = "refs/heads/".spec_bytes();
        if has_prefix(name, prefix) {
            assert(prefix + name.skip(prefix.len() as int) == name);
        }
    }
}

/// Pins are made only where there is nothing, and go only while they are as they were. HEAD remembers a branch
/// instead of what its pin held, is attached only from the commit that it is at, and a branch moves only from
/// where it was.
pub proof fn edits_of_pins_are_exact(
    pin: Pin<Seq<u8>>,
    branch: Seq<u8>,
    existing: State<Seq<u8>>,
    old_id: ObjectId,
    new_id: ObjectId,
)
    ensures
        ({
            let held = match pin.target {
                Target::Object(id) => State::Object(id),
                Target::Symbolic(name) => State::Symbolic(name),
            };
            &&& change_of(creation(pin)) == Ok::<_, UndoError>(
                Some(RefChange { name: pin.name, before: State::Missing, after: held }),
            )
            &&& change_of(deletion(pin)) == Ok::<_, UndoError>(
                Some(RefChange { name: pin.name, before: held, after: State::Missing }),
            )
            &&& change_of(remembering(branch, existing)) == Ok::<_, UndoError>(
                Some(
                    RefChange {
                        name: HEAD_PIN_NAME.spec_bytes(),
                        before: existing,
                        after: State::Symbolic(branch),
                    },
                ),
            )
            &&& change_of(attaching(old_id, branch)) == Ok::<_, UndoError>(
                Some(
                    RefChange {
                        name: HEAD.spec_bytes(),
                        before: State::Object(old_id),
                        after: State::Symbolic(branch),
                    },
                ),
            )
            &&& change_of(moving(branch, old_id, new_id)) == Ok::<_, UndoError>(
                Some(
                    RefChange {
                        name: branch,
                        before: State::Object(old_id),
                        after: State::Object(new_id),
                    },
                ),
            )
        }),
{
}

/// Whether a pin keeps a commit in view on its own account: it is neither the pin of HEAD nor one of a review.
pub open spec fn plain_pin(pin: Pin<Seq<u8>>) -> bool {
    pin.name != HEAD_PIN_NAME.spec_bytes() && !has_prefix(
        pin.name,
        REVIEW_PIN_PREFIX.spec_bytes(),
    )
}

proof fn removals_are_exact(pins: Seq<Pin<Seq<u8>>>, selected: ObjectId)
    ensures
        forall|edit: RefEdit<Seq<u8>>| #[trigger]
            removals(pins, selected).contains(edit) <==> exists|i: int|
                0 <= i < pins.len() && plain_pin(#[trigger] pins[i]) && pins[i].id == selected
                    && edit == deletion(pins[i]),
        removals(pins, selected).len() == 0 <==> forall|i: int|
            0 <= i < pins.len() ==> !(plain_pin(#[trigger] pins[i]) && pins[i].id == selected),
    decreases pins.len(),
{
    if pins.len() > 0 {
        let rest = pins.drop_last();
        removals_are_exact(rest, selected);
        let before = removals(rest, selected);
        let all = removals(pins, selected);
        let last = pins.last();
        assert(pins[pins.len() - 1] == last);
        assert(forall|i: int| 0 <= i < rest.len() ==> rest[i] == #[trigger] pins[i]);
        assert forall|edit: RefEdit<Seq<u8>>| #[trigger] all.contains(edit) <==> exists|i: int|
            0 <= i < pins.len() && plain_pin(#[trigger] pins[i]) && pins[i].id == selected && edit
                == deletion(pins[i]) by {
            if before.contains(edit) {
                let k = before.index_of(edit);
                assert(all[k] == edit);
                let i = choose|i: int|
                    0 <= i < rest.len() && plain_pin(#[trigger] rest[i]) && rest[i].id == selected
                        && edit == deletion(rest[i]);
                assert(pins[i] == rest[i]);
            }
            if plain_pin(last) && last.id == selected {
                assert(all[before.len() as int] == deletion(last));
            }
            if exists|i: int|
                0 <= i < pins.len() && plain_pin(#[trigger] pins[i]) && pins[i].id == selected
                    && edit == deletion(pins[i]) {
                let i = choose|i: int|
                    0 <= i < pins.len() && plain_pin(#[trigger] pins[i]) && pins[i].id == selected
                        && edit == deletion(pins[i]);
                if i < rest.len() {
                    assert(plain_pin(rest[i]));
                    assert(before.contains(edit));
                }
            }
        }
        if all.len() == 0 {
            assert forall|i: int| 0 <= i < pins.len() implies !(plain_pin(#[trigger] pins[i])
                && pins[i].id == selected) by {
                if i < rest.len() {
                    assert(rest[i] == pins[i]);
                }
            }
        } else {
            if before.len() > 0 {
                let i = choose|i: int|
                    0 <= i < rest.len() && plain_pin(#[trigger] rest[i]) && rest[i].id == selected;
                assert(plain_pin(pins[i]) && pins[i].id == selected);
            }
        }
    }
}

proof fn pin_is_first(pins: Seq<Pin<Seq<u8>>>, target: Target<Seq<u8>>, at: int)
    requires
        0 <= at,
    ensures
        match pin_at(pins, target, at) {
            Some(i) => at <= i < pins.len() && plain_pin(pins[i]) && pins[i].target == target,
            None => forall|i: int|
                at <= i < pins.len() ==> !(plain_pin(#[trigger] pins[i]) && pins[i].target
                    == target),
        },
    decreases pins.len() - at,
{
    if at < pins.len() {
        pin_is_first(pins, target, at + 1);
    }
}

/// Toggling the pin of a commit removes all plain pins at it if there are any, and leaves the pin of HEAD, those
/// of reviews and those at other commits. Otherwise the commit is pinned; doing it again then removes that pin
/// and no other.
pub proof fn toggling_twice_changes_nothing(
    pins: Seq<Pin<Seq<u8>>>,
    taken: Seq<Seq<u8>>,
    selected: ObjectId,
    later: Seq<Seq<u8>>,
)
    requires
        forall|i: int|
            0 <= i < pins.len() ==> ((#[trigger] pins[i]).target matches Target::Object(id) ==> id
                == pins[i].id),
    ensures
        ({
            let some = exists|i: int|
                0 <= i < pins.len() && plain_pin(#[trigger] pins[i]) && pins[i].id == selected;
            &&& some ==> (toggled(pins, taken, selected) matches Ok(Toggle::Remove(edits)) && forall|
                edit: RefEdit<Seq<u8>>,
            | #[trigger]
                edits.contains(edit) <==> exists|i: int|
                    0 <= i < pins.len() && plain_pin(#[trigger] pins[i]) && pins[i].id == selected
                        && edit == deletion(pins[i]))
            &&& !some ==> (toggled(pins, taken, selected) matches Ok(toggle) ==> (
            toggle matches Toggle::Use(found) && found.created && found.pin.target == Target::<
                Seq<u8>,
            >::Object(selected) && found.pin.id == selected && !taken.contains(found.pin.name) && (
            plain_pin(found.pin) ==> (toggled(pins.push(found.pin), later, selected) matches Ok(
                Toggle::Remove(edits),
            ) && edits == seq![deletion(found.pin)]))))
        }),
{
    removals_are_exact(pins, selected);
    pin_is_first(pins, Target::Object(selected), 0);
    new_pins_have_names(selected, taken);
    if let Ok(Toggle::Use(found)) = toggled(pins, taken, selected) {
        let more = pins.push(found.pin);
        assert(more.drop_last() == pins);
        assert(removals(pins, selected).len() == 0);
        assert(removals(pins, selected) == Seq::<RefEdit<Seq<u8>>>::empty());
        assert(Seq::<RefEdit<Seq<u8>>>::empty().push(deletion(found.pin)) == seq![
            deletion(found.pin),
        ]);
    }
}

/// A pin that points where one is wanted is used as it is; a new one is made only if there is none, under a
/// name that is not in use. Neither the pin of HEAD nor one of a review is used for it.
pub proof fn pins_are_used_again(
    pins: Seq<Pin<Seq<u8>>>,
    taken: Seq<Seq<u8>>,
    target: Target<Seq<u8>>,
    id: ObjectId,
)
    ensures
        ({
            let some = exists|i: int|
                0 <= i < pins.len() && plain_pin(#[trigger] pins[i]) && pins[i].target == target;
            &&& some ==> (pinned(pins, taken, target, id) matches Ok(found) && !found.created
                && pins.contains(found.pin) && found.pin.target == target && plain_pin(found.pin))
            &&& !some ==> (pinned(pins, taken, target, id) matches Ok(found) ==> found.created
                && found.pin.target == target && found.pin.id == id && !taken.contains(
                found.pin.name,
            ) && has_prefix(found.pin.name, PIN_PREFIX.spec_bytes()))
        }),
{
    pin_is_first(pins, target, 0);
    new_pins_have_names(id, taken);
}

/// What is taken back when a move fails are exactly the pins that were made for it.
pub proof fn made_pins_are_taken_back(pins: Seq<Pinned<Pin<Seq<u8>>>>, edit: RefEdit<Seq<u8>>)
    ensures
        cleanup(pins).contains(edit) <==> exists|i: int|
            0 <= i < pins.len() && (#[trigger] pins[i]).created && edit == deletion(pins[i].pin),
    decreases pins.len(),
{
    if pins.len() > 0 {
        let rest = pins.drop_last();
        made_pins_are_taken_back(rest, edit);
        let before = cleanup(rest);
        let all = cleanup(pins);
        assert(pins[pins.len() - 1] == pins.last());
        assert(forall|i: int| 0 <= i < rest.len() ==> rest[i] == #[trigger] pins[i]);
        if before.contains(edit) {
            let k = before.index_of(edit);
            assert(all[k] == edit);
            let i = choose|i: int|
                0 <= i < rest.len() && (#[trigger] rest[i]).created && edit == deletion(rest[i].pin);
            assert(pins[i].created);
        }
        if pins.last().created {
            assert(all[before.len() as int] == deletion(pins.last().pin));
        }
        if exists|i: int|
            0 <= i < pins.len() && (#[trigger] pins[i]).created && edit == deletion(pins[i].pin) {
            let i = choose|i: int|
                0 <= i < pins.len() && (#[trigger] pins[i]).created && edit == deletion(pins[i].pin);
            if i < rest.len() {
                assert(rest[i].created);
            }
        }
    }
}

/// References that go later go only from the commits that they were at.
pub proof fn deferred_deletions_are_exact(refs: Seq<(Seq<u8>, ObjectId)>)
    ensures
        deferred(refs).len() == refs.len(),
        forall|i: int|
            0 <= i < refs.len() ==> change_of(#[trigger] deferred(refs)[i]) == Ok::<_, UndoError>(
                Some(
                    RefChange {
                        name: refs[i].0,
                        before: State::Object(refs[i].1),
                        after: State::Missing,
                    },
                ),
            ),
{
}

proof fn head_pin_is_first(pins: Seq<Pin<Seq<u8>>>, at: int)
    requires
        0 <= at,
    ensures
        match head_pin_from(pins, at) {
            Some(i) => at <= i < pins.len() && pins[i].name == HEAD_PIN_NAME.spec_bytes() && forall|
                j: int,
            |
                at <= j < i ==> (#[trigger] pins[j]).name != HEAD_PIN_NAME.spec_bytes(),
            None => forall|i: int|
                at <= i < pins.len() ==> (#[trigger] pins[i]).name != HEAD_PIN_NAME.spec_bytes(),
        },
    decreases pins.len() - at,
{
    if at < pins.len() {
        head_pin_is_first(pins, at + 1);
    }
}

/// The branch that HEAD left is what the pin of HEAD points at by name, at the commit of the pin. Nothing is
/// remembered without that pin, and anything but a branch is refused.
pub proof fn branches_are_remembered_by_the_pin(pins: Seq<Pin<Seq<u8>>>)
    ensures
        remembered(pins) == Err::<RememberedBranch<Seq<u8>>, _>(TravelError::NoHeadPin) <==> forall|
            i: int,
        |
            0 <= i < pins.len() ==> (#[trigger] pins[i]).name != HEAD_PIN_NAME.spec_bytes(),
        remembered(pins) matches Ok(known) ==> has_prefix(known.branch, "refs/heads/".spec_bytes())
            && exists|i: int|
            0 <= i < pins.len() && (#[trigger] pins[i]).name == HEAD_PIN_NAME.spec_bytes()
                && pins[i].target == Target::Symbolic(known.branch) && pins[i].id
                == known.branch_tip,
        forall|i: int|
            0 <= i < pins.len() && (#[trigger] pins[i]).name == HEAD_PIN_NAME.spec_bytes() && (
            forall|j: int|
                0 <= j < i ==> (#[trigger] pins[j]).name != HEAD_PIN_NAME.spec_bytes()) && (
            pins[i].target matches Target::Symbolic(branch) && has_prefix(
                branch,
                "refs/heads/".spec_bytes(),
            )) ==> remembered(pins) == Ok::<_, TravelError>(
                RememberedBranch {
                    branch: pins[i].target->Symbolic_0,
                    branch_tip: pins[i].id,
                },
            ),
{
    head_pin_is_first(pins, 0);
    assert forall|i: int|
        0 <= i < pins.len() && (#[trigger] pins[i]).name == HEAD_PIN_NAME.spec_bytes() && (forall|
            j: int,
        |
            0 <= j < i ==> (#[trigger] pins[j]).name != HEAD_PIN_NAME.spec_bytes()) implies head_pin_from(
        pins,
        0,
    ) == Some(i) by {
        let k = head_pin_from(pins, 0)->Some_0;
        if k < i {
            assert(pins[k].name != HEAD_PIN_NAME.spec_bytes());
        }
        if i < k {
            assert(pins[i].name != HEAD_PIN_NAME.spec_bytes());
        }
    }
}

/// HEAD is attached if and only if it is still detached where it was, its pin still says what it said, the
/// branch is still where it was and no other worktree is on it.
pub proof fn heads_are_attached_to_what_is_known(
    worktree: WorktreeView,
    head_id: ObjectId,
    known: RememberedBranch<Seq<u8>>,
    branch: State<Seq<u8>>,
)
    ensures
        ({
            let error = attach_error(worktree, head_id, known, branch);
            let there = !(worktree.head is Symbolic) && worktree.head_id == Some(head_id);
            &&& error is None ==> there && branch == State::<Seq<u8>>::Object(known.branch_tip)
                && !worktree.elsewhere.contains(known.branch) && exists|i: int|
                0 <= i < worktree.pins.len() && (#[trigger] worktree.pins[i]).name
                    == HEAD_PIN_NAME.spec_bytes() && worktree.pins[i].target == Target::Symbolic(
                    known.branch,
                ) && worktree.pins[i].id == known.branch_tip
            &&& there && branch == State::<Seq<u8>>::Object(known.branch_tip)
                && !worktree.elsewhere.contains(known.branch) && remembered(worktree.pins) == Ok::<
                _,
                TravelError,
            >(known) ==> error is None
            &&& error == Some(TravelError::HeadChanged) <==> !there
            &&& error == Some(TravelError::BranchElsewhere) ==> worktree.elsewhere.contains(
                known.branch,
            )
        }),
{
    head_pin_is_first(worktree.pins, 0);
    if let Some(i) = head_pin_from(worktree.pins, 0) {
        assert(worktree.pins[i].name == HEAD_PIN_NAME.spec_bytes());
    }
}

/// Attaching moves the branch to HEAD if it is elsewhere, keeps its old tip in view if nothing else does, and
/// makes HEAD end on the branch. It is refused while HEAD is on a reference, before there is a commit, and if
/// the merge at HEAD tracks the branch.
pub proof fn attaching_moves_the_branch(
    worktree: WorktreeView,
    branch: State<Seq<u8>>,
    contained: bool,
    headers: Seq<Header<Seq<u8>>>,
    references: Seq<Reference<Seq<u8>>>,
)
    ensures
        worktree.head is Symbolic ==> attachment(worktree, branch, contained, headers, references)
            is Err,
        worktree.head_id is None ==> attachment(worktree, branch, contained, headers, references)
            is Err,
        remembered(worktree.pins) is Err ==> attachment(
            worktree,
            branch,
            contained,
            headers,
            references,
        ) is Err,
        attachment(worktree, branch, contained, headers, references) matches Ok(found) ==> {
            let known = remembered(worktree.pins)->Ok_0;
            let head_id = worktree.head_id->Some_0;
            &&& tracking_error(references, headers, known.branch) is None
            &&& attach_error(worktree, head_id, known, branch) is None
            &&& found.journey.checkout == Checkout::Branch(known.branch)
            &&& found.journey.head_before == State::<Seq<u8>>::Object(head_id)
            &&& found.journey.head_after == State::Symbolic(known.branch)
            &&& found.pin is Some <==> known.branch_tip != head_id && !contained
            &&& found.edits.len() == if known.branch_tip == head_id {
                1int
            } else {
                2int
            }
            &&& found.edits.last() == attaching(head_id, known.branch)
            &&& known.branch_tip != head_id ==> found.edits[0] == moving(
                known.branch,
                known.branch_tip,
                head_id,
            )
        },
{
}

/// The pin of HEAD goes once HEAD is on a reference again. While HEAD is detached it leads back to the branch
/// if HEAD is at its commit, and stays otherwise.
pub proof fn the_pin_of_head_is_kept_while_needed(
    pins: Seq<Pin<Seq<u8>>>,
    detached: bool,
    head_id: Option<ObjectId>,
)
    ensures
        ({
            let found = reconciling(pins, detached, head_id);
            let none = forall|i: int|
                0 <= i < pins.len() ==> (#[trigger] pins[i]).name != HEAD_PIN_NAME.spec_bytes();
            &&& none ==> found is Nothing
            &&& found matches Reconciling::Forget(pin) ==> !detached && pins.contains(pin)
                && pin.name == HEAD_PIN_NAME.spec_bytes()
            &&& found matches Reconciling::Reattach(pin) ==> detached && pins.contains(pin)
                && pin.name == HEAD_PIN_NAME.spec_bytes() && head_id == Some(pin.id) && pin.target
                is Symbolic
            &&& !none && !detached ==> found is Forget
            &&& !none && detached && found is Nothing ==> exists|i: int|
                0 <= i < pins.len() && (#[trigger] pins[i]).name == HEAD_PIN_NAME.spec_bytes()
                    && head_id != Some(pins[i].id)
            &&& found is NotSymbolic ==> detached && exists|i: int|
                0 <= i < pins.len() && (#[trigger] pins[i]).name == HEAD_PIN_NAME.spec_bytes()
                    && head_id == Some(pins[i].id) && pins[i].target is Object
        }),
{
    head_pin_is_first(pins, 0);
    if let Some(i) = head_pin_from(pins, 0) {
        assert(pins[i].name == HEAD_PIN_NAME.spec_bytes());
    }
}

/// Reattaching reports the change of HEAD if and only if the checkout was made, and what else changed only if
/// the pin went too.
pub proof fn reattaching_reports_what_changed(
    branch: Seq<u8>,
    id: ObjectId,
    result: Reattached<Seq<u8>, Seq<RefChange<Seq<u8>>>>,
)
    ensures
        reattachment(branch, id, result) matches Event::Noted { addition, changes } && {
            let head = RefChange {
                name: HEAD.spec_bytes(),
                before: State::Object(id),
                after: State::Symbolic(branch),
            };
            &&& addition is Some
            &&& result is CheckoutFailed <==> changes.len() == 0
            &&& !(result is CheckoutFailed) ==> changes[0] == head
            &&& result is PinRemains ==> changes.len() == 1
            &&& result matches Reattached::Done(more) ==> changes.skip(1) == more
        },
{
    if let Event::Noted { addition, changes } = reattachment(branch, id, result) {
        if let Reattached::Done(more) = result {
            assert(changes.skip(1) == more);
        }
    }
}

/// How a journey goes on. The checkout decides: if it fails what was prepared is taken back and the journey
/// ends, saying why. Once it is made its change of HEAD is reported, and what comes next is what there is to do:
/// the pin that HEAD came by goes, the pin of HEAD is looked after, and a pin that was made on leaving is looked
/// at, in that order. Failures of those are noted and stop nothing but themselves.
pub proof fn journeys_do_what_there_is_to_do(journey: JourneyView, text: Seq<u8>, made: Seq<RefChange<Seq<u8>>>)
    ensures
        ({
            let done = |j: JourneyView| advanced(j, EventView::Done(made));
            let failed = advanced(journey, EventView::Failed(text));
            let last = if journey.provisional is Some {
                Stage::InspectTips
            } else {
                Stage::Arrived
            };
            let middle = if journey.reconciles {
                Stage::Reconcile
            } else {
                last
            };
            &&& journey.stage == Stage::Checkout ==> {
                &&& done(journey).stage == Stage::Reopen
                &&& journey.head_before != journey.head_after ==> done(journey).changes
                    == journey.changes.push(
                    RefChange {
                        name: HEAD.spec_bytes(),
                        before: journey.head_before,
                        after: journey.head_after,
                    },
                )
                &&& journey.head_before == journey.head_after ==> done(journey).changes
                    == journey.changes
                &&& failed.stage == Stage::Restore && failed.notice == text && failed.changes
                    == journey.changes
            }
            &&& journey.stage == Stage::Restore ==> done(journey).stage == Stage::Stranded
                && failed.stage == Stage::Stranded && done(journey).notice == journey.notice
            &&& journey.stage == Stage::Reopen ==> {
                &&& done(journey).stage == if journey.destination is Some {
                    Stage::RemoveDestination
                } else {
                    middle
                }
                &&& failed.stage == Stage::Arrived
            }
            &&& journey.stage == Stage::RemoveDestination ==> done(journey).stage == middle
                && failed.stage == middle && done(journey).changes == journey.changes + made
            &&& journey.stage == Stage::Reconcile ==> failed.stage == last && advanced(
                journey,
                EventView::Noted { addition: None, changes: made },
            ).stage == last && advanced(
                journey,
                EventView::Noted { addition: Some(text), changes: made },
            ).changes == journey.changes + made
            &&& journey.stage == Stage::InspectTips ==> {
                &&& advanced(journey, EventView::Tips { contain: true }).stage == if journey.stays {
                    Stage::Arrived
                } else {
                    Stage::RemoveProvisional
                }
                &&& advanced(journey, EventView::Tips { contain: false }).stage == Stage::Arrived
                &&& failed.stage == Stage::Arrived
            }
            &&& journey.stage == Stage::RemoveProvisional ==> done(journey).stage == Stage::Arrived
                && failed.stage == Stage::Arrived && done(journey).changes == journey.changes + made
            &&& journey.stage != Stage::Checkout && journey.stage != Stage::Restore
                ==> failed.changes == journey.changes && journey.notice.is_prefix_of(failed.notice)
            &&& done(journey).head_after == journey.head_after && failed.head_after
                == journey.head_after
        }),
{
    let failed = advanced(journey, EventView::Failed(text));
    assert(journey.changes + Seq::<RefChange<Seq<u8>>>::empty() == journey.changes);
    if journey.stage == Stage::Checkout && journey.head_before != journey.head_after {
        let change = RefChange {
            name: HEAD.spec_bytes(),
            before: journey.head_before,
            after: journey.head_after,
        };
        assert(journey.changes + seq![change] == journey.changes.push(change));
    }
    if journey.stage != Stage::Checkout && journey.stage != Stage::Restore {
        assert(journey.notice.is_prefix_of(failed.notice));
    }
}

/// A commit is replayed from the lowest of the pending rebases that it stands on, and from itself if it stands
/// on none but is a merge to be merged again.
pub proof fn replays_start_at_the_lowest_rebase(
    waypoints: Seq<Waypoint>,
    selected: ObjectId,
    remerges: bool,
)
    ensures
        base_from(waypoints, selected, None, waypoints.len()) matches Ok(Some(base))
            ==> replay_base(waypoints, selected, remerges) == Ok::<_, TravelError>(Some(base)),
        base_from(waypoints, selected, None, waypoints.len()) == Ok::<_, TravelError>(
            None::<ObjectId>,
        ) ==> {
            &&& remerges ==> replay_base(waypoints, selected, remerges) == Ok::<_, TravelError>(
                Some(selected),
            )
            &&& !remerges ==> replay_base(waypoints, selected, remerges) == Ok::<_, TravelError>(
                None::<ObjectId>,
            )
        },
        base_from(waypoints, selected, None, waypoints.len()) is Err ==> replay_base(
            waypoints,
            selected,
            remerges,
        ) is Err,
{
}

/// Rebases go on while one is pending below the destination: each starts at the lowest, is about what the one
/// before it left of its commits, and is followed by another look at the way to where the destination went. A
/// merge is merged again only at the first look. If the destination, HEAD or a commit is lost, so is the way.
pub proof fn rebases_follow_each_other(
    travel: TravelView,
    waypoints: Seq<Waypoint>,
    remerges: bool,
    selected: Option<ObjectId>,
    head_id: Option<ObjectId>,
    news: Seq<Option<ObjectId>>,
    changes: Seq<RefChange<Seq<u8>>>,
)
    ensures
        travel.leg matches Leg::Inspect { first } ==> {
            let next = travelled(travel, TravelEvent::Way { waypoints, remerges });
            let base = replay_base(waypoints, travel.replay.selected, first && remerges);
            &&& base is Err ==> next is Err
            &&& base matches Ok(Some(base)) ==> (next matches Ok(next) ==> action_of(next)
                == (TravelAction::Rebase { base, checkout: travel.replay.selected }) && next.replay
                == travel.replay && next.changes == travel.changes && (!first ==> Some(
                next.affected,
            ) == survivors(travel.news)) && (first ==> next.affected == travel.affected))
            &&& base matches Ok(Some(_)) ==> (first ==> next is Ok)
            &&& base == Ok::<_, TravelError>(None::<ObjectId>) ==> (next matches Ok(next)
                && next.replay == travel.replay && !(action_of(next) is Rebase)
                && next.changes == travel.changes)
        },
        travel.leg is Rebase ==> {
            let next = travelled(
                travel,
                TravelEvent::Completed { selected, head_id, news, changes },
            );
            &&& next is Ok <==> selected is Some && head_id is Some && news.len()
                == travel.replay.rebased.len()
            &&& next matches Ok(next) ==> {
                &&& next.leg == (Leg::Inspect { first: false })
                &&& Some(next.replay.selected) == selected
                &&& Some(next.replay.head_id) == head_id
                &&& next.news == news
                &&& next.changes == travel.changes + changes
                &&& next.replay.rebased.len() == 0
                &&& next.source == travel.source && next.destination == travel.destination
            }
        },
{
}

/// HEAD leaves for the commit as it is after all rebases, and keeps in view what it was at only if it was
/// detached. What was changed in the worktree is put aside only on the way from one review to another place.
pub proof fn travels_move_to_the_destination(
    selected: ObjectId,
    head_id: ObjectId,
    head_was_detached: bool,
    source: Option<ObjectId>,
    destination: Option<ObjectId>,
    travel: TravelView,
)
    ensures
        action_of(setting_out(selected, head_id, head_was_detached, source, destination))
            == TravelAction::Inspect(selected),
        travel.leg is Move ==> (action_of(travel) matches TravelAction::Move {
            selected: to,
            departure,
        } && to == travel.replay.selected && departure == if travel.head_was_detached {
            Some(travel.replay.head_id)
        } else {
            None
        }),
        travel.leg is FindCommit ==> action_of(travel) == TravelAction::FindCommit(
            travel.replay.selected,
        ),
        travel.leg is FindReview ==> (travel.destination matches Some(root) ==> action_of(travel)
            == TravelAction::FindReview(root)),
        travel.leg is Keep ==> (travel.source matches Some(root) ==> action_of(travel)
            == TravelAction::Keep(root)),
        travel.leg is InspectWorktree ==> travelled(
            travel,
            TravelEvent::Worktree { dirty: false },
        )->Ok_0.leg is Move,
        travel.leg is Move && !(travel.destination is Some && travel.source != travel.destination)
            ==> travelled(
            travel,
            TravelEvent::Moved { notice: None, changes: Seq::empty() },
        )->Ok_0.leg is FindCommit,
        travel.leg is Move && travel.destination is Some && travel.source != travel.destination
            ==> travelled(
            travel,
            TravelEvent::Moved { notice: None, changes: Seq::empty() },
        )->Ok_0.leg is FindReview,
{
}

/// A pin is used up by coming back by it, unless an automatic merge follows it.
pub proof fn followed_pins_are_not_used_up(worktree: WorktreeView, pin: Option<Pin<Seq<u8>>>)
    ensures
        crate::time_travel::moves::consumed(worktree, pin) is Some <==> pin is Some
            && !worktree.followed.contains(pin->Some_0.name),
        crate::time_travel::moves::consumed(worktree, pin) is Some
            ==> crate::time_travel::moves::consumed(worktree, pin) == pin,
{
}

/// What HEAD is on once a review is left: the branch that a pin points at by name, nothing if the pin is at a
/// commit, and otherwise the reference itself.
pub proof fn pins_return_to_branches(name: Seq<u8>, target: Target<Seq<u8>>)
    ensures
        ({
            let found = crate::time_travel::travel::return_reference(name, target);
            let pin = has_prefix(name, PIN_PREFIX.spec_bytes());
            &&& !pin ==> found == Some(name)
            &&& pin ==> (found is Some <==> target is Symbolic)
            &&& pin ==> (found matches Some(branch) ==> target == Target::Symbolic(branch))
        }),
{
}

/// Where HEAD moves with its branch, the plan leaves everything where it is and only says where the branch is.
pub proof fn following_plans_rebase_nothing(branch: Seq<u8>, id: ObjectId)
    ensures
        ({
            let plan = crate::time_travel::attach::following_plan(branch, id);
            &&& plan.steps.len() == 0 && plan.scope.len() == 0 && plan.checkout is None
            &&& plan.expected_refs.len() == 1 && plan.expected_refs[0].name == branch
            &&& plan.expected_refs[0].source == id && plan.expected_refs[0].destination
                == crate::plan::RefDestination::Existing(id)
        }),
{
}

/// What was kept aside is spoken of only if there was something, and what was said before stays.
pub proof fn kept_worktrees_are_spoken_of(
    notice: Option<Seq<u8>>,
    what: Seq<u8>,
    kept: crate::time_travel::travel::Kept<Seq<u8>>,
    commit: ObjectId,
)
    ensures
        ({
            let after = crate::time_travel::travel::kept_notice(notice, what, kept);
            &&& kept is Nothing ==> after == notice
            &&& !(kept is Nothing) ==> after is Some
            &&& notice matches Some(before) ==> (after matches Some(text) && before.is_prefix_of(
                text,
            ))
            &&& notice matches Some(before) ==> before.is_prefix_of(
                crate::time_travel::travel::conflict_notice(notice, commit),
            )
        }),
{
}

/// What is said once HEAD is where it was sent names the reference that was asked for, the branch that it returned to,
/// the pin that it returned from, or else the commit.
pub proof fn arrivals_name_where_head_is(worktree: WorktreeView, request: Request<Seq<u8>>)
    ensures
        ({
            let said = crate::time_travel::moves::arrival_notice(worktree, request);
            &&& request.reference matches Some(name) ==> said == "checked out ".spec_bytes()
                + crate::text::lossy(short_name(name))
            &&& request.reference is None ==> match direct_from(
                worktree.pins,
                request.selected,
                worktree.elsewhere,
                0,
            ) {
                Some(i) => worktree.pins[i].target matches Target::Symbolic(branch) ==> said
                    == "returned to ".spec_bytes() + crate::text::lossy(short_name(branch)),
                None => match best_pin(worktree.pins, request.selected, 0, None) {
                    Some(i) => said == "returned from ".spec_bytes()
                        + crate::time_travel::pins::label_of(worktree.pins[i].name),
                    None => said == "time-travelled to ".spec_bytes() + hex_of(request.selected).take(7),
                },
            }
        }),
{
}

/// How time travel goes on. Once no rebase is pending, the worktree is looked at if HEAD leaves a review, and HEAD moves
/// otherwise. What was kept aside is brought back if HEAD cannot move, and a failure is always told. What was kept of a
/// review is looked for before what was kept of a commit. Only a move of HEAD changes references.
pub proof fn travels_go_on(
    travel: TravelView,
    waypoints: Seq<Waypoint>,
    remerges: bool,
    warning: Option<Seq<u8>>,
    notice: Option<Seq<u8>>,
    changes: Seq<RefChange<Seq<u8>>>,
    result: Result<Seq<u8>, Seq<u8>>,
    kept: crate::time_travel::travel::Kept<Seq<u8>>,
    text: Seq<u8>,
)
    ensures
        travel.leg matches Leg::Inspect { first } ==> (replay_base(
            waypoints,
            travel.replay.selected,
            first && remerges,
        ) == Ok::<_, TravelError>(None::<ObjectId>) ==> (travelled(
            travel,
            TravelEvent::Way { waypoints, remerges },
        ) matches Ok(next) && if travel.source is Some && travel.source != travel.destination {
            next.leg is InspectWorktree
        } else {
            next.leg is Move
        })),
        travel.leg is Rebase ==> (travelled(travel, TravelEvent::Conflicted) matches Ok(next)
            && next.leg is Conflicted && next.changes == travel.changes),
        travel.leg is Keep ==> (travelled(travel, TravelEvent::PutAside { warning }) matches Ok(next)
            && next.leg is Move && next.kept && next.warning == warning && next.changes
            == travel.changes),
        travel.leg is Move ==> {
            &&& travelled(travel, TravelEvent::Moved { notice, changes }) matches Ok(next)
                && next.changes == travel.changes + changes && (travel.warning is None ==> next.notice
                == notice) && (travel.warning is Some ==> next.notice is Some) && (
            notice matches Some(before) ==> (next.notice matches Some(after) && before.is_prefix_of(
                after,
            )))
            &&& travelled(travel, TravelEvent::Failed(text)) matches Ok(next) && next.notice == Some(
                text,
            ) && next.changes == travel.changes && if travel.kept {
                next.leg is BringBack
            } else {
                next.leg is Failed
            }
        },
        travel.leg is BringBack ==> (travelled(travel, TravelEvent::BroughtBack(result)) matches Ok(
            next,
        ) && next.leg is Failed && next.changes == travel.changes && (travel.notice matches Some(
            error,
        ) ==> (next.notice matches Some(said) && error.is_suffix_of(said)))),
        travel.leg is FindReview ==> (travelled(travel, TravelEvent::Found(kept)) matches Ok(next)
            && next.leg is FindCommit && next.changes == travel.changes),
        travel.leg is FindCommit ==> (travelled(travel, TravelEvent::Found(kept)) matches Ok(next)
            && next.leg is Arrived && next.changes == travel.changes && (
        kept is Nothing ==> next.notice == travel.notice)),
        travel.leg is Inspect || travel.leg is Rebase || travel.leg is InspectWorktree
            || travel.leg is Keep ==> (travelled(travel, TravelEvent::Failed(text)) matches Ok(next)
            && next.leg is Failed && next.notice == Some(text) && next.changes == travel.changes),
{
    if travel.leg is BringBack {
        if let Some(error) = travel.notice {
            let said = travelled(travel, TravelEvent::BroughtBack(result))->Ok_0.notice->Some_0;
            assert(said.skip(said.len() - error.len()) == error);
        }
    }
}

/// HEAD is attached to its branch whenever what is known of that still holds and what the branch leaves is still in
/// view. The pin that was at the commit goes, unless a merge follows it. What changes is told: the pin that was made, HEAD,
/// and the branch if that moves.
pub proof fn attaching_succeeds_if_nothing_changed(
    worktree: WorktreeView,
    branch: State<Seq<u8>>,
    contained: bool,
    headers: Seq<Header<Seq<u8>>>,
    references: Seq<Reference<Seq<u8>>>,
    known: RememberedBranch<Seq<u8>>,
    head_id: ObjectId,
)
    requires
        !(worktree.head is Symbolic),
        worktree.head_id == Some(head_id),
        remembered(worktree.pins) == Ok::<_, TravelError>(known),
        tracking_error(references, headers, known.branch) is None,
        attach_error(worktree, head_id, known, branch) is None,
        crate::names::valid_name(HEAD.spec_bytes()),
    ensures
        ({
            let found = attachment(worktree, branch, contained, headers, references);
            &&& known.branch_tip == head_id || contained ==> found is Ok
            &&& found matches Ok(done) ==> {
                let journey = done.journey;
                &&& journey.destination matches Some(pin) ==> worktree.pins.contains(pin) && keeps(
                    pin,
                    head_id,
                ) && !worktree.followed.contains(pin.name)
                &&& journey.destination is None ==> (forall|i: int|
                    0 <= i < worktree.pins.len() ==> !keeps(#[trigger] worktree.pins[i], head_id))
                    || exists|i: int|
                    0 <= i < worktree.pins.len() && keeps(#[trigger] worktree.pins[i], head_id)
                        && worktree.followed.contains(worktree.pins[i].name)
                &&& journey.stage == if journey.destination is Some {
                    Stage::RemoveDestination
                } else if done.pin is Some {
                    Stage::InspectTips
                } else {
                    Stage::Arrived
                }
                &&& !journey.reconciles
                &&& journey.changes.contains(
                    RefChange {
                        name: HEAD.spec_bytes(),
                        before: State::Object(head_id),
                        after: State::Symbolic(known.branch),
                    },
                )
                &&& known.branch_tip != head_id ==> journey.changes.contains(
                    RefChange {
                        name: known.branch,
                        before: State::Object(known.branch_tip),
                        after: State::Object(head_id),
                    },
                )
                &&& (done.pin matches Some(pin) && pin.created) ==> journey.changes.len() > 0
                    && journey.changes[0].name == done.pin->Some_0.pin.name
                    && journey.changes[0].before == State::<Seq<u8>>::Missing
            }
        }),
{
    selected_pins_are_the_best(worktree.pins, head_id);
    assert(forall|i: int|
        0 <= i < worktree.pins.len() ==> (leads_back(#[trigger] worktree.pins[i], head_id) <==> keeps(
            worktree.pins[i],
            head_id,
        )));
    if let Some(i) = best_pin(worktree.pins, head_id, 0, None) {
        assert(keeps(worktree.pins[i], head_id));
    }
    edits_of_pins_are_exact(
        Pin { name: HEAD.spec_bytes(), target: Target::Object(head_id), id: head_id },
        known.branch,
        State::Missing,
        known.branch_tip,
        head_id,
    );
    edits_of_pins_are_exact(
        Pin { name: HEAD.spec_bytes(), target: Target::Object(head_id), id: head_id },
        known.branch,
        State::Missing,
        head_id,
        head_id,
    );
    if let Ok(done) = attachment(worktree, branch, contained, headers, references) {
        let changes = done.journey.changes;
        let shift = if done.pin matches Some(pin) && pin.created {
            1int
        } else {
            0int
        };
        if let Some(pin) = done.pin {
            edits_of_pins_are_exact(pin.pin, known.branch, State::Missing, head_id, head_id);
        }
        assert(changes[shift].name == HEAD.spec_bytes());
        if known.branch_tip != head_id {
            assert(changes[shift + 1].name == known.branch);
        }
    }
}

} // verus!
