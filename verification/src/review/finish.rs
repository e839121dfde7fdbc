//! Finishing a review.
use vstd::prelude::*;
use vstd::string::StringSliceAdditionalSpecFns;
use crate::auto_merge::definition::Header;
use crate::bytes;
use crate::bytes::has_prefix;
use crate::ids::ObjectId;
use crate::names::{FullName, REVIEW_PIN_PREFIX};
use crate::plan::{viewed, viewed_option};
use crate::refs::{find_state, state_of, Reference, State};
use crate::review::identity::{
    belongings, deletion_of, push_deletion, reference, resources, return_to, returning, review_of,
    Deletion,
};
use crate::review::ReviewError;
use crate::time_travel::travel::{find_return_reference, return_reference};
use crate::undo::changes::Target;

verus! {

/// Whether the index and the worktree differ from HEAD, given what `git status` says in the porcelain
/// format with all files that are not in the index.
pub fn is_dirty(status: &[u8]) -> (r: bool)
    ensures
        r == (status@.len() > 0),
{
    status.len() > 0
}

/// Rejects an index or worktree that differs from HEAD.
pub fn ensure_clean(status: &[u8]) -> (r: Result<(), ReviewError>)
    ensures
        r == (if status@.len() > 0 {
            Err::<(), _>(ReviewError::Dirty)
        } else {
            Ok(())
        }),
{
    if is_dirty(status) {
        Err(ReviewError::Dirty)
    } else {
        Ok(())
    }
}

/// The reference that a review returns to: the one that its commit names, or else what its own reference
/// points at by name.
pub open spec fn return_name(
    headers: Seq<Header<Seq<u8>>>,
    review: State<Seq<u8>>,
) -> Result<Option<Seq<u8>>, ReviewError> {
    match returning(headers) {
        Err(err) => Err(err),
        Ok(Some(name)) => Ok(Some(name)),
        Ok(None) => Ok(
            match review {
                State::Symbolic(name) => Some(name),
                _ => None,
            },
        ),
    }
}

/// The reference that a review returns to, given what its own reference holds.
pub fn find_return_name(headers: &Vec<Header<Vec<u8>>>, review: &State<FullName>) -> (r: Result<
    Option<FullName>,
    ReviewError,
>)
    ensures
        match r {
            Ok(name) => return_name(viewed(headers@), review@) == Ok::<_, ReviewError>(
                viewed_option(name),
            ),
            Err(err) => return_name(viewed(headers@), review@) == Err::<Option<Seq<u8>>, _>(err),
        },
{
    match return_to(headers) {
        Err(err) => Err(err),
        Ok(Some(name)) => Ok(Some(name)),
        Ok(None) => match review {
            State::Symbolic(name) => Ok(Some(name.clone())),
            _ => Ok(None),
        },
    }
}

/// A commit to return to, and whether it descends from the commit that is reviewed.
#[derive(Clone, Copy, PartialEq, Eq, Structural, Debug)]
pub struct Return {
    pub id: ObjectId,
    pub descends: bool,
}

/// What is known of a review that is to be finished: whether HEAD descends from its commit, the status of
/// the worktree, the headers and the first parent of its commit, the commit that its reference leads to,
/// the references, the commit that is chosen to return to, what the reference that it returns to leads
/// to, and whether the ends of its range have a pending rebase.
#[derive(PartialEq, Eq, Debug)]
pub struct Site<T, H, R> {
    pub head_descends: bool,
    pub status: T,
    pub headers: H,
    pub parent: Option<ObjectId>,
    pub tip: Option<ObjectId>,
    pub references: R,
    pub fallback: Option<Return>,
    pub returned: Option<Return>,
    pub tip_pending: bool,
    pub base_pending: bool,
}

/// A review that is to be finished, in memory.
pub type CurrentSite = Site<Vec<u8>, Vec<Header<Vec<u8>>>, Vec<Reference<FullName>>>;

/// A review that is to be finished, in specifications.
pub type SiteView = Site<Seq<u8>, Seq<Header<Seq<u8>>>, Seq<Reference<Seq<u8>>>>;

impl View for Site<Vec<u8>, Vec<Header<Vec<u8>>>, Vec<Reference<FullName>>> {
    type V = SiteView;

    open spec fn view(&self) -> SiteView {
        Site {
            head_descends: self.head_descends,
            status: self.status@,
            headers: viewed(self.headers@),
            parent: self.parent,
            tip: self.tip,
            references: viewed(self.references@),
            fallback: self.fallback,
            returned: self.returned,
            tip_pending: self.tip_pending,
            base_pending: self.base_pending,
        }
    }
}

/// Where HEAD is once a review is finished: at a commit, on a reference if there is one.
#[derive(PartialEq, Eq, Debug)]
pub struct Checkout<N> {
    pub id: ObjectId,
    pub reference: Option<N>,
}

impl<N: View> View for Checkout<N> {
    type V = Checkout<N::V>;

    open spec fn view(&self) -> Checkout<N::V> {
        Checkout { id: self.id, reference: viewed_option(self.reference) }
    }
}

/// How a review is finished: a commit to return to is to be chosen first, or the range goes from the base
/// to the tip and the references go.
#[derive(PartialEq, Eq, Debug)]
pub enum Finish<N, D> {
    SelectReturn { tip: ObjectId },
    Apply {
        review: N,
        base: ObjectId,
        tip: ObjectId,
        delete_refs: D,
        checkout: Option<Checkout<N>>,
    },
}

/// How a review is finished, in specifications.
pub type FinishView = Finish<Seq<u8>, Seq<Deletion<Seq<u8>>>>;

/// Where HEAD is once a review is finished, if that is known.
pub open spec fn checkout_after(site: SiteView, name: Option<Seq<u8>>) -> Result<
    Option<Checkout<Seq<u8>>>,
    ReviewError,
> {
    match site.fallback {
        Some(fallback) => if fallback.descends {
            Ok(Some(Checkout { id: fallback.id, reference: None }))
        } else {
            Err(ReviewError::FallbackElsewhere)
        },
        None => match name {
            None => Ok(None),
            Some(name) => match state_of(site.references, name) {
                State::Missing => Ok(None),
                state => match site.returned {
                    None => Err(ReviewError::UnresolvedReturn),
                    Some(returned) => if returned.descends {
                        Ok(
                            Some(
                                Checkout {
                                    id: returned.id,
                                    reference: return_reference(
                                        name,
                                        match state {
                                            State::Symbolic(other) => Target::Symbolic(other),
                                            State::Object(id) => Target::Object(id),
                                            State::Missing => Target::Object(returned.id),
                                        },
                                    ),
                                },
                            ),
                        )
                    } else {
                        Err(ReviewError::ReturnElsewhere)
                    },
                },
            },
        },
    }
}

/// The references that go with a review: its own, and the pin that it returns to.
pub open spec fn going(
    references: Seq<Reference<Seq<u8>>>,
    belonging: Seq<Deletion<Seq<u8>>>,
    name: Option<Seq<u8>>,
) -> Seq<Deletion<Seq<u8>>> {
    match name {
        Some(name) if has_prefix(name, REVIEW_PIN_PREFIX.spec_bytes()) => belonging + deletion_of(
            name,
            state_of(references, name),
        ),
        _ => belonging,
    }
}

/// How a review is finished whose reference and base are known.
pub open spec fn finished(
    site: SiteView,
    review: Seq<u8>,
    base: ObjectId,
    tip: ObjectId,
) -> Result<FinishView, ReviewError> {
    match belongings(site.references, review) {
        Err(err) => Err(err),
        Ok(belonging) => match return_name(site.headers, state_of(site.references, review)) {
            Err(err) => Err(err),
            Ok(name) => match checkout_after(site, name) {
                Err(err) => Err(err),
                Ok(checkout) => if checkout is None && name is Some {
                    Ok(Finish::SelectReturn { tip })
                } else if site.tip_pending {
                    Err(ReviewError::TipPending)
                } else if site.base_pending {
                    Err(ReviewError::BasePending)
                } else {
                    Ok(
                        Finish::Apply {
                            review,
                            base,
                            tip,
                            delete_refs: going(site.references, belonging, name),
                            checkout,
                        },
                    )
                },
            },
        },
    }
}

/// How a review is finished.
pub open spec fn finish_of(site: SiteView) -> Result<FinishView, ReviewError> {
    if !site.head_descends {
        Err(ReviewError::HeadElsewhere)
    } else if site.status.len() > 0 {
        Err(ReviewError::Dirty)
    } else {
        match review_of(site.headers) {
            Err(err) => Err(err),
            Ok(None) => Err(ReviewError::NotReview),
            Ok(Some(review)) => match site.parent {
                None => Err(ReviewError::NoBase),
                Some(base) => if state_of(site.references, review) is Missing {
                    Err(ReviewError::MissingReview)
                } else {
                    match site.tip {
                        None => Err(ReviewError::UnresolvedReview),
                        Some(tip) => finished(site, review, base, tip),
                    }
                },
            },
        }
    }
}

fn find_checkout(site: &CurrentSite, name: &Option<FullName>) -> (r: Result<
    Option<Checkout<FullName>>,
    ReviewError,
>)
    ensures
        match r {
            Ok(checkout) => checkout_after(site@, viewed_option(*name)) == Ok::<_, ReviewError>(
                viewed_option(checkout),
            ),
            Err(err) => checkout_after(site@, viewed_option(*name)) == Err::<
                Option<Checkout<Seq<u8>>>,
                _,
            >(err),
        },
{
    if let Some(fallback) = site.fallback {
        return if fallback.descends {
            Ok(Some(Checkout { id: fallback.id, reference: None }))
        } else {
            Err(ReviewError::FallbackElsewhere)
        };
    }
    let name = match name {
        None => {
            return Ok(None);
        },
        Some(name) => name,
    };
    let target = match find_state(&site.references, name) {
        State::Missing => {
            return Ok(None);
        },
        State::Object(id) => Target::Object(id),
        State::Symbolic(other) => Target::Symbolic(other),
    };
    match site.returned {
        None => Err(ReviewError::UnresolvedReturn),
        Some(returned) => if returned.descends {
            Ok(
                Some(
                    Checkout {
                        id: returned.id,
                        reference: find_return_reference(name, &target),
                    },
                ),
            )
        } else {
            Err(ReviewError::ReturnElsewhere)
        },
    }
}

/// How a review is finished, in specifications.
pub open spec fn finish_view(finish: Finish<FullName, Vec<Deletion<FullName>>>) -> FinishView {
    match finish {
        Finish::SelectReturn { tip } => Finish::SelectReturn { tip },
        Finish::Apply { review, base, tip, delete_refs, checkout } => Finish::Apply {
            review: review@,
            base,
            tip,
            delete_refs: viewed(delete_refs@),
            checkout: viewed_option(checkout),
        },
    }
}

/// Plans to finish a review.
pub fn plan_finish(site: &CurrentSite) -> (r: Result<
    Finish<FullName, Vec<Deletion<FullName>>>,
    ReviewError,
>)
    ensures
        match r {
            Ok(finish) => finish_of(site@) == Ok::<_, ReviewError>(finish_view(finish)),
            Err(err) => finish_of(site@) == Err::<FinishView, _>(err),
        },
{
    if !site.head_descends {
        return Err(ReviewError::HeadElsewhere);
    }
    if let Err(err) = ensure_clean(site.status.as_slice()) {
        return Err(err);
    }
    let review = match reference(&site.headers) {
        Err(err) => {
            return Err(err);
        },
        Ok(None) => {
            return Err(ReviewError::NotReview);
        },
        Ok(Some(review)) => review,
    };
    let base = match site.parent {
        None => {
            return Err(ReviewError::NoBase);
        },
        Some(base) => base,
    };
    let state = find_state(&site.references, &review);
    if let State::Missing = &state {
        return Err(ReviewError::MissingReview);
    }
    let tip = match site.tip {
        None => {
            return Err(ReviewError::UnresolvedReview);
        },
        Some(tip) => tip,
    };
    let mut delete_refs = match resources(&site.references, &review) {
        Err(err) => {
            return Err(err);
        },
        Ok(belonging) => belonging,
    };
    let name = match find_return_name(&site.headers, &state) {
        Err(err) => {
            return Err(err);
        },
        Ok(name) => name,
    };
    let checkout = match find_checkout(site, &name) {
        Err(err) => {
            return Err(err);
        },
        Ok(checkout) => checkout,
    };
    if checkout.is_none() && name.is_some() {
        return Ok(Finish::SelectReturn { tip });
    }
    if site.tip_pending {
        return Err(ReviewError::TipPending);
    }
    if site.base_pending {
        return Err(ReviewError::BasePending);
    }
    if let Some(name) = name {
        if bytes::starts_with(name.as_bytes(), REVIEW_PIN_PREFIX.as_bytes()) {
            let state = find_state(&site.references, &name);
            push_deletion(&mut delete_refs, name, state);
        }
    }
    Ok(Finish::Apply { review, base, tip, delete_refs, checkout })
}

/// Once a review is finished, HEAD is at a commit that descends from the one that was reviewed, or stays
/// where it is if there is nothing to return to. A review that is to return somewhere never ends up
/// nowhere.
pub proof fn finished_reviews_return(site: SiteView)
    ensures
        finish_of(site) matches Ok(Finish::Apply { review, tip, checkout, .. }) ==> match checkout {
            Some(found) => if site.fallback is Some {
                site.fallback->0.descends && found.id == site.fallback->0.id
            } else {
                site.returned matches Some(returned) && returned.descends && found.id == returned.id
            },
            None => return_name(site.headers, state_of(site.references, review)) == Ok::<
                _,
                ReviewError,
            >(None::<Seq<u8>>),
        },
{
}

} // verus!
