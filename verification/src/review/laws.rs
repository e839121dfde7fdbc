//! What holds of reviews from their start to their end.
use vstd::prelude::*;
use vstd::string::StringSliceAdditionalSpecFns;
use crate::auto_merge::definition::Header;
use crate::bytes::has_prefix;
use crate::ids::{hex_of, ObjectId};
use crate::names::{valid_name, PIN_PREFIX, REVIEW_PIN_PREFIX, REVIEW_PREFIX, REVIEW_STASH_PREFIX};
use crate::refs::{state_of, Reference, State};
use crate::review::finish::{checkout_after, finish_of, return_name, Checkout, Finish, SiteView};
use crate::review::identity::{
    belongings, deleted_with, number_of, numbered, onto_from, return_from, returning, review_of,
    Deletion, HEADER, ONTO, RETURN_TO,
};
use crate::review::start::{checkout_words, departure_pin, reference_words};
use crate::review::ReviewError;
use crate::undo::changes::Target;

verus! {

/// Where git is: what HEAD, the index and the worktree hold, each by the commit that it is of.
pub struct Place {
    pub head: Seq<u8>,
    pub detached: bool,
    pub index: Seq<u8>,
    pub worktree: Seq<u8>,
}

/// Where git is after one of the commands that check a review out: a checkout moves everything, an update of
/// HEAD moves HEAD alone and only from where it is expected, and reading a tree moves the index alone.
pub open spec fn moved(place: Place, words: Seq<Seq<u8>>) -> Option<Place> {
    if words.len() == 4 && words[0] == "checkout".spec_bytes() && words[1] == "--quiet".spec_bytes()
        && words[2] == "--detach".spec_bytes() {
        Some(Place { head: words[3], detached: true, index: words[3], worktree: words[3] })
    } else if words.len() == 5 && words[0] == "update-ref".spec_bytes() && words[1]
        == "--no-deref".spec_bytes() && words[2] == "HEAD".spec_bytes() && words[4] == place.head
        && place.detached {
        Some(Place { head: words[3], ..place })
    } else if words.len() == 2 && words[0] == "read-tree".spec_bytes() {
        Some(Place { index: words[1], ..place })
    } else {
        None
    }
}

proof fn words_differ()
    ensures
        "checkout".spec_bytes() != "update-ref".spec_bytes(),
{
    broadcast use vstd::string::is_ascii_spec_bytes;

    reveal_strlit("checkout");
    assert(vstd::string::is_ascii("checkout"));
    reveal_strlit("update-ref");
    assert(vstd::string::is_ascii("update-ref"));
    assert("checkout".spec_bytes().len() == 8);
    assert("update-ref".spec_bytes().len() == 10);
}

/// A review is checked out with the files of the tip and the index of the review, at which HEAD is detached:
/// so the range shows as changes of the worktree.
pub proof fn reviews_show_the_range(place: Place, tip: ObjectId, review: ObjectId)
    ensures
        ({
            let words = checkout_words(tip, review);
            &&& words.len() == 3
            &&& moved(place, words[0]) matches Some(first) && (moved(first, words[1]) matches Some(
                second,
            ) && (moved(second, words[2]) matches Some(third) && third.head == hex_of(review)
                && third.index == hex_of(review) && third.worktree == hex_of(tip)
                && third.detached))
            &&& reference_words(hex_of(review), tip).last() == hex_of(tip)
        }),
{
    words_differ();
}

/// A review returns to where HEAD was: to the branch that HEAD was on, or to the commit that it was at. There
/// is nothing to return to if HEAD led to no commit.
pub proof fn departures_are_pinned(
    name: Seq<u8>,
    head: State<Seq<u8>>,
    head_id: Option<ObjectId>,
)
    ensures
        departure_pin(name, head, head_id) is Some <==> head_id is Some,
        departure_pin(name, head, head_id) matches Some(pin) ==> {
            &&& pin.name == name
            &&& head_id == Some(pin.id)
            &&& head matches State::Symbolic(branch) ==> pin.target == Target::Symbolic(branch)
            &&& !(head is Symbolic) ==> pin.target == Target::<Seq<u8>>::Object(pin.id)
        },
{
}

proof fn onto_is_first(headers: Seq<Header<Seq<u8>>>, at: int)
    requires
        0 <= at,
    ensures
        onto_from(headers, at) is None <==> forall|i: int|
            at <= i < headers.len() ==> !((#[trigger] headers[i]).name == HEADER.spec_bytes()
                && has_prefix(headers[i].value, ONTO.spec_bytes())),
        onto_from(headers, at) matches Some(name) ==> exists|i: int|
            at <= i < headers.len() && (#[trigger] headers[i]).name == HEADER.spec_bytes()
                && headers[i].value == ONTO.spec_bytes() + name,
    decreases headers.len() - at,
{
    if at < headers.len() {
        onto_is_first(headers, at + 1);
        let value = headers[at].value;
        let prefix = ONTO.spec_bytes();
        if has_prefix(value, prefix) && headers[at].name == HEADER.spec_bytes() {
            assert(value == prefix + value.skip(prefix.len() as int));
        }
    }
}

/// A commit stands for a review if a header of it says so, and then for the one that the header names, which
/// must be a numbered reference of reviews.
pub proof fn headers_tell_reviews(headers: Seq<Header<Seq<u8>>>)
    ensures
        review_of(headers) == Ok::<_, ReviewError>(None::<Seq<u8>>) <==> forall|i: int|
            0 <= i < headers.len() ==> !((#[trigger] headers[i]).name == HEADER.spec_bytes()
                && has_prefix(headers[i].value, ONTO.spec_bytes())),
        review_of(headers) matches Ok(Some(name)) ==> {
            &&& valid_name(name)
            &&& has_prefix(name, REVIEW_PREFIX.spec_bytes())
            &&& number_of(name) is Some
            &&& exists|i: int|
                0 <= i < headers.len() && (#[trigger] headers[i]).name == HEADER.spec_bytes()
                    && headers[i].value == ONTO.spec_bytes() + name
        },
{
    onto_is_first(headers, 0);
}

proof fn return_is_first(headers: Seq<Header<Seq<u8>>>, at: int)
    requires
        0 <= at,
    ensures
        return_from(headers, at) is None <==> forall|i: int|
            at <= i < headers.len() ==> (#[trigger] headers[i]).name != RETURN_TO.spec_bytes(),
        return_from(headers, at) matches Some(name) ==> exists|i: int|
            at <= i < headers.len() && (#[trigger] headers[i]).name == RETURN_TO.spec_bytes()
                && headers[i].value == name && forall|j: int|
                at <= j < i ==> (#[trigger] headers[j]).name != RETURN_TO.spec_bytes(),
    decreases headers.len() - at,
{
    if at < headers.len() && headers[at].name != RETURN_TO.spec_bytes() {
        return_is_first(headers, at + 1);
        if let Some(name) = return_from(headers, at) {
            let i = choose|i: int|
                at + 1 <= i < headers.len() && (#[trigger] headers[i]).name == RETURN_TO.spec_bytes()
                    && headers[i].value == name && forall|j: int|
                    at + 1 <= j < i ==> (#[trigger] headers[j]).name != RETURN_TO.spec_bytes();
            assert(headers[i].value == name);
        }
    } else if at < headers.len() {
        assert(headers[at].value == return_from(headers, at)->Some_0);
    }
}

/// Where a review returns to is what the first header says that is about it; a name that is not valid is
/// refused.
pub proof fn headers_tell_returns(headers: Seq<Header<Seq<u8>>>)
    ensures
        returning(headers) == Ok::<_, ReviewError>(None::<Seq<u8>>) <==> forall|i: int|
            0 <= i < headers.len() ==> (#[trigger] headers[i]).name != RETURN_TO.spec_bytes(),
        forall|i: int|
            0 <= i < headers.len() && (#[trigger] headers[i]).name == RETURN_TO.spec_bytes() && (
            forall|j: int|
                0 <= j < i ==> (#[trigger] headers[j]).name != RETURN_TO.spec_bytes())
                ==> returning(headers) == if valid_name(headers[i].value) {
                Ok::<_, ReviewError>(Some(headers[i].value))
            } else {
                Err(ReviewError::InvalidReturn)
            },
{
    return_is_first(headers, 0);
    assert forall|i: int|
        0 <= i < headers.len() && (#[trigger] headers[i]).name == RETURN_TO.spec_bytes() && (forall|
            j: int,
        |
            0 <= j < i ==> (#[trigger] headers[j]).name != RETURN_TO.spec_bytes()) implies returning(
        headers,
    ) == if valid_name(headers[i].value) {
        Ok::<_, ReviewError>(Some(headers[i].value))
    } else {
        Err(ReviewError::InvalidReturn)
    } by {
        let name = return_from(headers, 0)->Some_0;
        let k = choose|k: int|
            0 <= k < headers.len() && (#[trigger] headers[k]).name == RETURN_TO.spec_bytes()
                && headers[k].value == name && forall|j: int|
                0 <= j < k ==> (#[trigger] headers[j]).name != RETURN_TO.spec_bytes();
        assert(headers[k].name == RETURN_TO.spec_bytes());
        if k < i {
            assert(headers[k].name != RETURN_TO.spec_bytes());
        }
        if i < k {
            assert(headers[i].name != RETURN_TO.spec_bytes());
        }
    }
}

/// Whether a deletion is that of a reference as it is.
pub open spec fn deletes(
    deletion: Deletion<Seq<u8>>,
    references: Seq<Reference<Seq<u8>>>,
    name: Seq<u8>,
) -> bool {
    deletion.name == name && match state_of(references, name) {
        State::Missing => false,
        State::Object(id) => deletion.target == Target::<Seq<u8>>::Object(id),
        State::Symbolic(other) => deletion.target == Target::Symbolic(other),
    }
}

/// What goes with a review are its own reference and that of its stash, as they are, if they are there, and
/// nothing else. A commit that stands for no review takes nothing with it.
pub proof fn reviews_take_their_references(
    references: Seq<Reference<Seq<u8>>>,
    headers: Seq<Header<Seq<u8>>>,
)
    ensures
        review_of(headers) == Ok::<_, ReviewError>(None::<Seq<u8>>) ==> deleted_with(
            references,
            headers,
        ) == Ok::<_, ReviewError>(Seq::<Deletion<Seq<u8>>>::empty()),
        deleted_with(references, headers) matches Ok(deletions) ==> (review_of(
            headers,
        ) matches Ok(Some(review)) ==> {
            let stash = REVIEW_STASH_PREFIX.spec_bytes() + number_of(review)->Some_0;
            &&& forall|deletion: Deletion<Seq<u8>>| #[trigger]
                deletions.contains(deletion) <==> deletes(deletion, references, review) || deletes(
                    deletion,
                    references,
                    stash,
                )
            &&& deletions.len() <= 2
        }),
{
    if let Ok(Some(review)) = review_of(headers) {
        if let Ok(deletions) = deleted_with(references, headers) {
            let stash = REVIEW_STASH_PREFIX.spec_bytes() + number_of(review)->Some_0;
            belongings_are_two(references, review, stash);
        }
    }
}

proof fn belongings_are_two(
    references: Seq<Reference<Seq<u8>>>,
    review: Seq<u8>,
    stash: Seq<u8>,
)
    requires
        belongings(references, review) is Ok,
        numbered(REVIEW_STASH_PREFIX.spec_bytes(), review) == Ok::<_, ReviewError>(stash),
    ensures
        ({
            let deletions = belongings(references, review)->Ok_0;
            &&& forall|deletion: Deletion<Seq<u8>>| #[trigger]
                deletions.contains(deletion) <==> deletes(deletion, references, review) || deletes(
                    deletion,
                    references,
                    stash,
                )
            &&& deletions.len() <= 2
        }),
{
    let deletions = belongings(references, review)->Ok_0;
    assert forall|deletion: Deletion<Seq<u8>>| #[trigger] deletions.contains(deletion) <==> deletes(
        deletion,
        references,
        review,
    ) || deletes(deletion, references, stash) by {
        let first = state_of(references, review) !is Missing;
        if deletes(deletion, references, review) {
            assert(deletions[0] == deletion);
        }
        if deletes(deletion, references, stash) {
            assert(deletions[if first {
                1int
            } else {
                0int
            }] == deletion);
        }
    }
}

/// When a review is finished: HEAD is at it or above, nothing is left to commit, its commit says which review
/// it is and has a parent, the reference of the review is there and leads to a commit, where it returns to can
/// be told, and no rebase is pending. What is applied goes from the parent of the commit to the tip of the
/// review, and takes with it the references of the review, and the pin that it returns by if that was made for
/// it. If where it returns to is not there any more and nothing else is chosen, a place has to be chosen.
pub proof fn reviews_are_finished_when_they_can_be(site: SiteView)
    ensures
        finish_of(site) == Err::<Finish<Seq<u8>, Seq<Deletion<Seq<u8>>>>, _>(
            ReviewError::HeadElsewhere,
        ) <==> !site.head_descends,
        finish_of(site) == Err::<Finish<Seq<u8>, Seq<Deletion<Seq<u8>>>>, _>(ReviewError::Dirty)
            <==> site.head_descends && site.status.len() > 0,
        finish_of(site) is Ok ==> {
            &&& site.head_descends && site.status.len() == 0
            &&& review_of(site.headers) matches Ok(Some(review)) && state_of(
                site.references,
                review,
            ) !is Missing
            &&& site.parent is Some && site.tip is Some
            &&& site.fallback matches Some(fallback) ==> fallback.descends
        },
        finish_of(site) matches Ok(Finish::SelectReturn { tip }) ==> {
            let review = review_of(site.headers)->Ok_0->Some_0;
            &&& site.tip == Some(tip)
            &&& site.fallback is None
            &&& return_name(site.headers, state_of(site.references, review)) matches Ok(Some(name))
                && state_of(site.references, name) is Missing
        },
        finish_of(site) matches Ok(Finish::Apply { review, base, tip, delete_refs, checkout }) ==> {
            let back = return_name(site.headers, state_of(site.references, review))->Ok_0;
            let stash = REVIEW_STASH_PREFIX.spec_bytes() + number_of(review)->Some_0;
            &&& review_of(site.headers) == Ok::<_, ReviewError>(Some(review))
            &&& site.parent == Some(base) && site.tip == Some(tip)
            &&& !site.tip_pending && !site.base_pending
            &&& forall|deletion: Deletion<Seq<u8>>| #[trigger]
                delete_refs.contains(deletion) <==> deletes(deletion, site.references, review)
                    || deletes(deletion, site.references, stash) || (back matches Some(name)
                    && has_prefix(name, REVIEW_PIN_PREFIX.spec_bytes()) && deletes(
                    deletion,
                    site.references,
                    name,
                ))
            &&& site.fallback matches Some(fallback) ==> (checkout matches Some(found) && found.id
                == fallback.id && found.reference is None)
            &&& checkout matches Some(found) ==> (site.fallback is None ==> back is Some && (
            has_prefix(back->Some_0, PIN_PREFIX.spec_bytes()) ==> (found.reference matches Some(
                branch,
            ) ==> state_of(site.references, back->Some_0) == State::Symbolic(branch)))
                && (!has_prefix(back->Some_0, PIN_PREFIX.spec_bytes()) ==> found.reference
                == back))
        },
        ({
            &&& site.head_descends && site.status.len() == 0
            &&& review_of(site.headers) matches Ok(Some(review)) && {
                &&& state_of(site.references, review) !is Missing
                &&& belongings(site.references, review) is Ok
                &&& return_name(site.headers, state_of(site.references, review)) is Ok
            }
            &&& site.parent is Some && site.tip is Some
            &&& site.fallback matches Some(fallback) && fallback.descends
            &&& !site.tip_pending && !site.base_pending
        }) ==> finish_of(site) is Ok,
{
    if let Ok(Finish::Apply { review, base, tip, delete_refs, checkout }) = finish_of(site) {
        let back = return_name(site.headers, state_of(site.references, review))->Ok_0;
        let stash = REVIEW_STASH_PREFIX.spec_bytes() + number_of(review)->Some_0;
        belongings_are_two(site.references, review, stash);
        let own = belongings(site.references, review)->Ok_0;
        assert forall|deletion: Deletion<Seq<u8>>| #[trigger] delete_refs.contains(
            deletion,
        ) <==> deletes(deletion, site.references, review) || deletes(
            deletion,
            site.references,
            stash,
        ) || (back matches Some(name) && has_prefix(name, REVIEW_PIN_PREFIX.spec_bytes()) && deletes(
            deletion,
            site.references,
            name,
        )) by {
            if own.contains(deletion) {
                let i = own.index_of(deletion);
                assert(delete_refs[i] == deletion);
            }
            if let Some(name) = back {
                if has_prefix(name, REVIEW_PIN_PREFIX.spec_bytes()) && deletes(
                    deletion,
                    site.references,
                    name,
                ) {
                    assert(delete_refs[own.len() as int] == deletion);
                }
            }
        }
    }
}

/// A review returns to what its commit names, and only if that names nothing to what its own reference points
/// at by name.
pub proof fn returns_are_named(headers: Seq<Header<Seq<u8>>>, review: State<Seq<u8>>)
    ensures
        returning(headers) matches Ok(Some(name)) ==> return_name(headers, review) == Ok::<
            _,
            ReviewError,
        >(Some(name)),
        returning(headers) == Ok::<_, ReviewError>(None::<Seq<u8>>) ==> {
            &&& review matches State::Symbolic(name) ==> return_name(headers, review) == Ok::<
                _,
                ReviewError,
            >(Some(name))
            &&& !(review is Symbolic) ==> return_name(headers, review) == Ok::<_, ReviewError>(
                None::<Seq<u8>>,
            )
        },
        returning(headers) is Err ==> return_name(headers, review) is Err,
{
}

/// Where a finished review goes. What was chosen comes first; else it returns to what it names, if that is still there
/// and above the commit that the review starts from. It is on the branch then, which a pin remembers by pointing
/// at it. A review that names nothing returns nowhere.
pub proof fn returns_lead_above_the_review(site: SiteView, name: Option<Seq<u8>>)
    ensures
        ({
            let found = checkout_after(site, name);
            let gone = name is None || state_of(site.references, name->Some_0) is Missing;
            &&& site.fallback matches Some(fallback) ==> (fallback.descends <==> found is Ok) && (found
                is Ok ==> found->Ok_0 == Some(Checkout::<Seq<u8>> { id: fallback.id, reference: None }))
            &&& site.fallback is None && gone ==> found == Ok::<_, ReviewError>(
                None::<Checkout<Seq<u8>>>,
            )
            &&& site.fallback is None && !gone ==> {
                &&& found is Ok <==> site.returned is Some && site.returned->Some_0.descends
                &&& found matches Ok(checkout) ==> checkout matches Some(there) && there.id
                    == site.returned->Some_0.id && there.reference == (if !has_prefix(
                    name->Some_0,
                    PIN_PREFIX.spec_bytes(),
                ) {
                    name
                } else {
                    match state_of(site.references, name->Some_0) {
                        State::Symbolic(branch) => Some(branch),
                        _ => None,
                    }
                })
            }
        }),
{
}

/// A review can be finished if and only if HEAD is above it, nothing is left to commit, the commit and the
/// references of the review are in order, it can be told where it goes, and no rebase is pending unless where it
/// goes has to be chosen first.
pub proof fn reviews_can_be_finished(site: SiteView, review: Seq<u8>)
    requires
        review_of(site.headers) == Ok::<_, ReviewError>(Some(review)),
        return_name(site.headers, state_of(site.references, review)) is Ok,
        belongings(site.references, review) is Ok,
    ensures
        ({
            let back = return_name(site.headers, state_of(site.references, review))->Ok_0;
            let way = checkout_after(site, back);
            let chosen_first = back is Some && way == Ok::<_, ReviewError>(None::<Checkout<Seq<u8>>>);
            &&& finish_of(site) is Ok <==> site.head_descends && site.status.len() == 0
                && site.parent is Some && state_of(site.references, review) !is Missing
                && site.tip is Some && way is Ok && (chosen_first || !site.tip_pending
                && !site.base_pending)
            &&& finish_of(site) matches Ok(finish) ==> (finish is SelectReturn <==> chosen_first)
        }),
{
}

/// The number of a review is what is behind the prefix of its name, and has nothing but digits.
pub proof fn numbers_have_digits(name: Seq<u8>, number: Seq<u8>)
    ensures
        number_of(REVIEW_PREFIX.spec_bytes() + number) is Some <==> number.len() > 0 && forall|i: int|
            0 <= i < number.len() ==> 48 <= #[trigger] number[i] <= 57,
        number_of(name) matches Some(found) ==> name == REVIEW_PREFIX.spec_bytes() + found,
{
    let whole = REVIEW_PREFIX.spec_bytes() + number;
    let size = REVIEW_PREFIX.spec_bytes().len() as int;
    assert(whole.take(size) == REVIEW_PREFIX.spec_bytes());
    assert(whole.skip(size) == number);
    assert(has_prefix(whole, REVIEW_PREFIX.spec_bytes()));
    if let Some(found) = number_of(name) {
        assert(has_prefix(name, REVIEW_PREFIX.spec_bytes()));
        assert(name == REVIEW_PREFIX.spec_bytes() + found);
    }
}

} // verus!
