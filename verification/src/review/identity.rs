//! What makes a commit a review, and the references that belong to a review.
use vstd::prelude::*;
use vstd::string::StringSliceAdditionalSpecFns;
use crate::auto_merge::definition::Header;
use crate::bytes;
use crate::bytes::without_prefix;
use crate::names::{
    short_name, valid_name, FullName, REVIEW_PIN_PREFIX, REVIEW_PREFIX, REVIEW_STASH_PREFIX,
};
use crate::plan::{viewed, viewed_option, viewed_push};
use crate::refs::{contains_name, find_state, state_of, Reference, State};
use crate::review::ReviewError;
use crate::text::{decimal, decimal_is_injective, to_decimal};
use crate::undo::changes::Target;

verus! {

/// The header of commits that a rebase is to continue with.
pub const HEADER: &'static str = "tix-rebase";

/// What the header of a review begins with.
pub const ONTO: &'static str = "onto ";

/// The header that names the reference which a review returns to.
pub const RETURN_TO: &'static str = "tix-review-return-to";

/// Whether a text holds digits, and nothing else.
pub open spec fn digits(text: Seq<u8>) -> bool {
    text.len() > 0 && forall|i: int| 0 <= i < text.len() ==> 48 <= #[trigger] text[i] <= 57
}

/// The number of a review: the digits behind the prefix that the references of reviews have.
pub open spec fn number_of(name: Seq<u8>) -> Option<Seq<u8>> {
    match without_prefix(name, REVIEW_PREFIX.spec_bytes()) {
        Some(number) if digits(number) => Some(number),
        _ => None,
    }
}

/// The number of a review.
pub fn review_number(name: &[u8]) -> (r: Option<&[u8]>)
    ensures
        bytes::view_of(r) == number_of(name@),
{
    let number = match bytes::strip_prefix(name, REVIEW_PREFIX.as_bytes()) {
        Some(number) => number,
        None => {
            return None;
        },
    };
    if number.len() == 0 {
        return None;
    }
    let mut at: usize = 0;
    while at < number.len()
        invariant
            at <= number@.len(),
            without_prefix(name@, REVIEW_PREFIX.spec_bytes()) == Some(number@),
            forall|i: int| 0 <= i < at ==> 48 <= #[trigger] number@[i] <= 57,
        decreases number@.len() - at,
    {
        if number[at] < 48 || number[at] > 57 {
            assert(!digits(number@)) by {
                assert(!(48 <= number@[at as int] <= 57));
            }
            return None;
        }
        at = at + 1;
    }
    Some(number)
}

/// What the first header at or after `at` says that names a review.
pub open spec fn onto_from(headers: Seq<Header<Seq<u8>>>, at: int) -> Option<Seq<u8>>
    decreases headers.len() - at,
{
    if at < 0 || at >= headers.len() {
        None
    } else {
        match without_prefix(headers[at].value, ONTO.spec_bytes()) {
            Some(name) if headers[at].name == HEADER.spec_bytes() => Some(name),
            _ => onto_from(headers, at + 1),
        }
    }
}

/// The reference of the review that a commit stands for, if it does.
pub open spec fn review_of(headers: Seq<Header<Seq<u8>>>) -> Result<Option<Seq<u8>>, ReviewError> {
    match onto_from(headers, 0) {
        None => Ok(None),
        Some(name) => if number_of(name) is None {
            Err(ReviewError::InvalidReview)
        } else if !valid_name(name) {
            Err(ReviewError::InvalidName)
        } else {
            Ok(Some(name))
        },
    }
}

fn find_onto(headers: &Vec<Header<Vec<u8>>>) -> (r: Option<&[u8]>)
    ensures
        bytes::view_of(r) == onto_from(viewed(headers@), 0),
{
    let ghost all = viewed(headers@);
    let mut at: usize = 0;
    while at < headers.len()
        invariant
            at <= headers@.len(),
            all == viewed(headers@),
            onto_from(all, 0) == onto_from(all, at as int),
        decreases headers@.len() - at,
    {
        assert(all[at as int] == headers@[at as int]@);
        if bytes::equal(headers[at].name.as_slice(), HEADER.as_bytes()) {
            let value = headers[at].value.as_slice();
            if let Some(name) = bytes::strip_prefix(value, ONTO.as_bytes()) {
                return Some(name);
            }
        }
        at = at + 1;
    }
    None
}

/// The reference of the review that a commit stands for, if it does.
pub fn reference(headers: &Vec<Header<Vec<u8>>>) -> (r: Result<Option<FullName>, ReviewError>)
    ensures
        match r {
            Ok(name) => review_of(viewed(headers@)) == Ok::<_, ReviewError>(viewed_option(name)),
            Err(err) => review_of(viewed(headers@)) == Err::<Option<Seq<u8>>, _>(err),
        },
{
    let name = match find_onto(headers) {
        None => {
            return Ok(None);
        },
        Some(name) => name,
    };
    if review_number(name).is_none() {
        return Err(ReviewError::InvalidReview);
    }
    match FullName::new(name) {
        Some(name) => Ok(Some(name)),
        None => Err(ReviewError::InvalidName),
    }
}

/// Whether a commit stands for a review.
pub fn is_review(headers: &Vec<Header<Vec<u8>>>) -> (r: bool)
    ensures
        r == (review_of(viewed(headers@)) matches Ok(Some(_))),
{
    match reference(headers) {
        Ok(Some(_)) => true,
        _ => false,
    }
}

/// What the first header at or after `at` says that names the reference which a review returns to.
pub open spec fn return_from(headers: Seq<Header<Seq<u8>>>, at: int) -> Option<Seq<u8>>
    decreases headers.len() - at,
{
    if at < 0 || at >= headers.len() {
        None
    } else if headers[at].name == RETURN_TO.spec_bytes() {
        Some(headers[at].value)
    } else {
        return_from(headers, at + 1)
    }
}

/// The reference that a review returns to.
pub open spec fn returning(headers: Seq<Header<Seq<u8>>>) -> Result<Option<Seq<u8>>, ReviewError> {
    match return_from(headers, 0) {
        None => Ok(None),
        Some(name) => if valid_name(name) {
            Ok(Some(name))
        } else {
            Err(ReviewError::InvalidReturn)
        },
    }
}

/// The reference that a review returns to.
pub fn return_to(headers: &Vec<Header<Vec<u8>>>) -> (r: Result<Option<FullName>, ReviewError>)
    ensures
        match r {
            Ok(name) => returning(viewed(headers@)) == Ok::<_, ReviewError>(viewed_option(name)),
            Err(err) => returning(viewed(headers@)) == Err::<Option<Seq<u8>>, _>(err),
        },
{
    let ghost all = viewed(headers@);
    let mut at: usize = 0;
    while at < headers.len()
        invariant
            at <= headers@.len(),
            all == viewed(headers@),
            return_from(all, 0) == return_from(all, at as int),
        decreases headers@.len() - at,
    {
        assert(all[at as int] == headers@[at as int]@);
        if bytes::equal(headers[at].name.as_slice(), RETURN_TO.as_bytes()) {
            return match FullName::new(headers[at].value.as_slice()) {
                Some(name) => Ok(Some(name)),
                None => Err(ReviewError::InvalidReturn),
            };
        }
        at = at + 1;
    }
    Ok(None)
}

/// A reference that belongs to a review, by a prefix and the number of the review.
pub open spec fn numbered(prefix: Seq<u8>, review: Seq<u8>) -> Result<Seq<u8>, ReviewError> {
    match number_of(review) {
        None => Err(ReviewError::NoNumber),
        Some(number) => if valid_name(prefix + number) {
            Ok(prefix + number)
        } else {
            Err(ReviewError::InvalidName)
        },
    }
}

fn numbered_reference(prefix: &[u8], review: &[u8]) -> (r: Result<FullName, ReviewError>)
    ensures
        match r {
            Ok(name) => numbered(prefix@, review@) == Ok::<_, ReviewError>(name@),
            Err(err) => numbered(prefix@, review@) == Err::<Seq<u8>, _>(err),
        },
{
    match review_number(review) {
        None => Err(ReviewError::NoNumber),
        Some(number) => {
            let text = bytes::joined(prefix, number);
            match FullName::new(text.as_slice()) {
                Some(name) => Ok(name),
                None => Err(ReviewError::InvalidName),
            }
        },
    }
}

/// The reference that keeps the worktree of a review.
pub fn stash_reference(review: &[u8]) -> (r: Result<FullName, ReviewError>)
    ensures
        match r {
            Ok(name) => numbered(REVIEW_STASH_PREFIX.spec_bytes(), review@) == Ok::<_, ReviewError>(
                name@,
            ),
            Err(err) => numbered(REVIEW_STASH_PREFIX.spec_bytes(), review@) == Err::<Seq<u8>, _>(
                err,
            ),
        },
{
    numbered_reference(REVIEW_STASH_PREFIX.as_bytes(), review)
}

/// What the kept worktree of a review is described as.
pub fn stash_message(review: &FullName) -> (r: Vec<u8>)
    ensures
        r@ == "tix review ".spec_bytes() + short_name(review@),
{
    let short = review.shorten();
    bytes::joined("tix review ".as_bytes(), short.as_slice())
}

/// The pin that a review returns to.
pub fn return_pin_reference(review: &[u8]) -> (r: Result<FullName, ReviewError>)
    ensures
        match r {
            Ok(name) => numbered(REVIEW_PIN_PREFIX.spec_bytes(), review@) == Ok::<_, ReviewError>(
                name@,
            ),
            Err(err) => numbered(REVIEW_PIN_PREFIX.spec_bytes(), review@) == Err::<Seq<u8>, _>(err),
        },
{
    numbered_reference(REVIEW_PIN_PREFIX.as_bytes(), review)
}

/// A reference to delete, if it still points at its target.
#[derive(PartialEq, Eq, Debug)]
pub struct Deletion<N> {
    pub name: N,
    pub target: Target<N>,
}

impl<N: View> View for Deletion<N> {
    type V = Deletion<N::V>;

    open spec fn view(&self) -> Deletion<N::V> {
        Deletion { name: self.name@, target: self.target@ }
    }
}

/// The deletion of a reference if there is one.
pub open spec fn deletion_of(name: Seq<u8>, state: State<Seq<u8>>) -> Seq<Deletion<Seq<u8>>> {
    match state {
        State::Missing => Seq::empty(),
        State::Object(id) => seq![Deletion { name, target: Target::Object(id) }],
        State::Symbolic(other) => seq![Deletion { name, target: Target::Symbolic(other) }],
    }
}

/// The references of a review, as far as they exist: that of the review and that of its worktree.
pub open spec fn belongings(references: Seq<Reference<Seq<u8>>>, review: Seq<u8>) -> Result<
    Seq<Deletion<Seq<u8>>>,
    ReviewError,
> {
    match numbered(REVIEW_STASH_PREFIX.spec_bytes(), review) {
        Err(err) => Err(err),
        Ok(stash) => Ok(
            deletion_of(review, state_of(references, review)) + deletion_of(
                stash,
                state_of(references, stash),
            ),
        ),
    }
}

/// Adds the deletion of a reference if there is one.
pub fn push_deletion(deletions: &mut Vec<Deletion<FullName>>, name: FullName, state: State<FullName>)
    ensures
        viewed(final(deletions)@) == viewed(old(deletions)@) + deletion_of(name@, state@),
{
    let ghost before = viewed(deletions@);
    let target = match state {
        State::Missing => {
            assert(before + Seq::<Deletion<Seq<u8>>>::empty() == before);
            return ;
        },
        State::Object(id) => Target::Object(id),
        State::Symbolic(other) => Target::Symbolic(other),
    };
    let deletion = Deletion { name, target };
    proof {
        viewed_push(deletions@, deletion);
        assert(before.push(deletion@) == before + seq![deletion@]);
    }
    deletions.push(deletion);
}

/// The references of a review, as far as they exist.
pub fn resources(references: &Vec<Reference<FullName>>, review: &FullName) -> (r: Result<
    Vec<Deletion<FullName>>,
    ReviewError,
>)
    ensures
        match r {
            Ok(deletions) => belongings(viewed(references@), review@) == Ok::<_, ReviewError>(
                viewed(deletions@),
            ),
            Err(err) => belongings(viewed(references@), review@) == Err::<
                Seq<Deletion<Seq<u8>>>,
                _,
            >(err),
        },
{
    let stash = match stash_reference(review.as_bytes()) {
        Ok(stash) => stash,
        Err(err) => {
            return Err(err);
        },
    };
    let mut deletions: Vec<Deletion<FullName>> = Vec::new();
    assert(viewed(deletions@) == Seq::<Deletion<Seq<u8>>>::empty());
    push_deletion(&mut deletions, review.clone(), find_state(references, review));
    assert(viewed(deletions@) == deletion_of(
        review@,
        state_of(viewed(references@), review@),
    ));
    let state = find_state(references, &stash);
    push_deletion(&mut deletions, stash, state);
    Ok(deletions)
}

/// The references to delete with a commit: those of the review that it stands for.
pub open spec fn deleted_with(
    references: Seq<Reference<Seq<u8>>>,
    headers: Seq<Header<Seq<u8>>>,
) -> Result<Seq<Deletion<Seq<u8>>>, ReviewError> {
    match review_of(headers) {
        Err(err) => Err(err),
        Ok(None) => Ok(Seq::empty()),
        Ok(Some(name)) => belongings(references, name),
    }
}

/// The references to delete with a commit.
pub fn deletions(references: &Vec<Reference<FullName>>, headers: &Vec<Header<Vec<u8>>>) -> (r: Result<
    Vec<Deletion<FullName>>,
    ReviewError,
>)
    ensures
        match r {
            Ok(deletions) => deleted_with(viewed(references@), viewed(headers@)) == Ok::<
                _,
                ReviewError,
            >(viewed(deletions@)),
            Err(err) => deleted_with(viewed(references@), viewed(headers@)) == Err::<
                Seq<Deletion<Seq<u8>>>,
                _,
            >(err),
        },
{
    match reference(headers) {
        Err(err) => Err(err),
        Ok(None) => {
            let none: Vec<Deletion<FullName>> = Vec::new();
            assert(viewed(none@) == Seq::<Deletion<Seq<u8>>>::empty());
            Ok(none)
        },
        Ok(Some(name)) => resources(references, &name),
    }
}

/// The reference of the review with a number.
pub open spec fn review_name(number: nat) -> Seq<u8> {
    REVIEW_PREFIX.spec_bytes() + decimal(number)
}

/// The pin that the review with a number returns to.
pub open spec fn pin_name(number: nat) -> Seq<u8> {
    REVIEW_PIN_PREFIX.spec_bytes() + decimal(number)
}

/// The references of the first review, from a number on, that has neither a reference nor a pin yet.
pub open spec fn free_review(taken: Seq<Seq<u8>>, number: nat, left: nat) -> Result<
    (Seq<u8>, Seq<u8>),
    ReviewError,
>
    decreases left,
{
    let name = review_name(number);
    let pin = pin_name(number);
    if !valid_name(name) || !valid_name(pin) {
        Err(ReviewError::InvalidName)
    } else if !taken.contains(name) && !taken.contains(pin) {
        Ok((name, pin))
    } else if left == 0 {
        Err(ReviewError::NoReference)
    } else {
        free_review(taken, number + 1, (left - 1) as nat)
    }
}

fn named(prefix: &[u8], number: usize) -> (r: Option<FullName>)
    ensures
        r is Some == valid_name(prefix@ + decimal(number as nat)),
        r matches Some(name) ==> name@ == prefix@ + decimal(number as nat),
{
    let text = bytes::joined(prefix, to_decimal(number).as_slice());
    FullName::new(text.as_slice())
}

/// The reference of the next review and the pin that it returns to, given the names that are taken.
pub fn next_reference(taken: &Vec<FullName>) -> (r: Result<(FullName, FullName), ReviewError>)
    requires
        taken@.len() < usize::MAX,
    ensures
        match r {
            Ok((name, pin)) => free_review(viewed(taken@), 1, taken@.len()) == Ok::<_, ReviewError>(
                (name@, pin@),
            ),
            Err(err) => free_review(viewed(taken@), 1, taken@.len()) == Err::<
                (Seq<u8>, Seq<u8>),
                _,
            >(err),
        },
{
    let total: usize = taken.len();
    let mut number: usize = 1;
    loop
        invariant
            1 <= number <= total + 1,
            total == taken@.len(),
            total < usize::MAX,
            free_review(viewed(taken@), 1, taken@.len()) == free_review(
                viewed(taken@),
                number as nat,
                (total + 1 - number) as nat,
            ),
        decreases total + 1 - number,
    {
        let name = named(REVIEW_PREFIX.as_bytes(), number);
        let pin = named(REVIEW_PIN_PREFIX.as_bytes(), number);
        match (name, pin) {
            (Some(name), Some(pin)) => {
                if !contains_name(taken, &name) && !contains_name(taken, &pin) {
                    return Ok((name, pin));
                }
            },
            _ => {
                return Err(ReviewError::InvalidName);
            },
        }
        if number == total + 1 {
            return Err(ReviewError::NoReference);
        }
        number = number + 1;
    }
}

proof fn prefixes_differ(a: Seq<u8>, b: Seq<u8>)
    ensures
        REVIEW_PREFIX.spec_bytes() + a != REVIEW_PIN_PREFIX.spec_bytes() + b,
{
    broadcast use vstd::string::is_ascii_spec_bytes;

    reveal_strlit("refs/worktree/tix/review/");
    reveal_strlit("refs/worktree/tix/pins/review/");
    assert(vstd::string::is_ascii(REVIEW_PREFIX));
    assert(vstd::string::is_ascii(REVIEW_PIN_PREFIX));
    assert((REVIEW_PREFIX.spec_bytes() + a)[18] == 114);
    assert((REVIEW_PIN_PREFIX.spec_bytes() + b)[18] == 112);
}

/// What blocks a number: its reference, or else the pin.
spec fn blocker(taken: Seq<Seq<u8>>, number: nat) -> Seq<u8> {
    if taken.contains(review_name(number)) {
        review_name(number)
    } else {
        pin_name(number)
    }
}

proof fn blockers_differ(taken: Seq<Seq<u8>>, a: nat, b: nat)
    requires
        a != b,
    ensures
        blocker(taken, a) != blocker(taken, b),
{
    prefixes_differ(decimal(a), decimal(b));
    prefixes_differ(decimal(b), decimal(a));
    let review = REVIEW_PREFIX.spec_bytes();
    let pin = REVIEW_PIN_PREFIX.spec_bytes();
    if review_name(a) == review_name(b) {
        assert(review_name(a).skip(review.len() as int) == decimal(a));
        assert(review_name(b).skip(review.len() as int) == decimal(b));
        decimal_is_injective(a, b);
    }
    if pin_name(a) == pin_name(b) {
        assert(pin_name(a).skip(pin.len() as int) == decimal(a));
        assert(pin_name(b).skip(pin.len() as int) == decimal(b));
        decimal_is_injective(a, b);
    }
}

proof fn all_are_blocked(taken: Seq<Seq<u8>>, count: nat)
    requires
        forall|n: nat|
            1 <= n <= count ==> taken.contains(#[trigger] review_name(n)) || taken.contains(
                pin_name(n),
            ),
    ensures
        count <= taken.len(),
{
    let names = Seq::new(count, |i: int| blocker(taken, (i + 1) as nat));
    assert(names.no_duplicates()) by {
        assert forall|i: int, j: int|
            0 <= i < names.len() && 0 <= j < names.len() && i != j implies names[i] != names[j] by {
            blockers_differ(taken, (i + 1) as nat, (j + 1) as nat);
        }
    }
    names.unique_seq_to_set();
    taken.lemma_cardinality_of_set();
    assert(names.to_set().subset_of(taken.to_set())) by {
        assert forall|name: Seq<u8>| names.to_set().contains(name) implies taken.to_set().contains(
            name,
        ) by {
            let i = choose|i: int| 0 <= i < names.len() && names[i] == name;
            let n = (i + 1) as nat;
            assert(taken.contains(review_name(n)) || taken.contains(pin_name(n)));
            assert(taken.contains(name));
        }
    }
    broadcast use vstd::seq_lib::seq_to_set_is_finite;

    vstd::set_lib::lemma_len_subset(names.to_set(), taken.to_set());
}

proof fn reviews_are_found(taken: Seq<Seq<u8>>, number: nat, left: nat)
    requires
        1 <= number,
        number + left == taken.len() + 1,
        forall|n: nat|
            1 <= n < number ==> taken.contains(#[trigger] review_name(n)) || taken.contains(
                pin_name(n),
            ),
    ensures
        match free_review(taken, number, left) {
            Ok((name, pin)) => exists|n: nat|
                n >= 1 && name == #[trigger] review_name(n) && pin == pin_name(n)
                    && !taken.contains(name) && !taken.contains(pin) && (forall|k: nat|
                    1 <= k < n ==> taken.contains(#[trigger] review_name(k)) || taken.contains(
                        pin_name(k),
                    )),
            Err(err) => err == ReviewError::InvalidName,
        },
    decreases left,
{
    let name = review_name(number);
    let pin = pin_name(number);
    if valid_name(name) && valid_name(pin) && (taken.contains(name) || taken.contains(pin)) {
        assert forall|n: nat| 1 <= n < number + 1 implies taken.contains(#[trigger] review_name(n))
            || taken.contains(pin_name(n)) by {
            if n == number {
                assert(taken.contains(name) || taken.contains(pin));
            }
        }
        if left == 0 {
            all_are_blocked(taken, number);
        } else {
            reviews_are_found(taken, number + 1, (left - 1) as nat);
        }
    }
}

/// There is always a number for the next review: the lowest one of which neither the reference nor the
/// pin exists.
pub proof fn next_reviews_have_numbers(taken: Seq<Seq<u8>>)
    ensures
        match free_review(taken, 1, taken.len()) {
            Ok((name, pin)) => exists|n: nat|
                n >= 1 && name == #[trigger] review_name(n) && pin == pin_name(n)
                    && !taken.contains(name) && !taken.contains(pin) && (forall|k: nat|
                    1 <= k < n ==> taken.contains(#[trigger] review_name(k)) || taken.contains(
                        pin_name(k),
                    )),
            Err(err) => err == ReviewError::InvalidName,
        },
{
    reviews_are_found(taken, 1, taken.len());
}

proof fn decimals_are_digits(number: nat)
    ensures
        decimal(number).len() > 0,
        forall|i: int| 0 <= i < decimal(number).len() ==> 48 <= #[trigger] decimal(number)[i] <= 57,
    decreases number,
{
    if number >= 10 {
        decimals_are_digits(number / 10);
    }
}

/// The reference of a review has the number of the review, and so has the pin that it returns to.
pub proof fn reviews_are_numbered(number: nat)
    ensures
        number_of(review_name(number)) == Some(decimal(number)),
        valid_name(pin_name(number)) ==> numbered(
            REVIEW_PIN_PREFIX.spec_bytes(),
            review_name(number),
        ) == Ok::<_, ReviewError>(pin_name(number)),
{
    decimals_are_digits(number);
    let prefix = REVIEW_PREFIX.spec_bytes();
    let name = review_name(number);
    assert(name.take(prefix.len() as int) == prefix);
    assert(name.skip(prefix.len() as int) == decimal(number));
}

} // verus!
