//! Forgetting commits, and the transitions of the worktree between trees.
use vstd::prelude::*;
use vstd::string::StringSliceAdditionalSpecFns;
use crate::auto_merge::definition::Header;
use crate::bytes;
use crate::ids::{hex_of, ObjectId};
use crate::names::FullName;
use crate::plan::{viewed, viewed_option};
use crate::refs::{find_state, state_of, Reference, State};
use crate::review::identity::{
    deleted_with, deletions, reference, return_to, returning, review_of, Deletion,
};
use crate::review::ReviewError;

verus! {

/// What goes with a commit that is forgotten: the references of the review that it stands for; and what
/// HEAD returns to if it is at the commit.
#[derive(PartialEq, Eq, Debug)]
pub struct Forget<N, D> {
    pub deletions: D,
    pub review_return: Option<N>,
}

/// What HEAD returns to from a review: what the commit names, or else what the reference of the review
/// points at by name.
pub open spec fn return_of(
    references: Seq<Reference<Seq<u8>>>,
    headers: Seq<Header<Seq<u8>>>,
) -> Result<Option<Seq<u8>>, ReviewError> {
    match returning(headers) {
        Err(err) => Err(err),
        Ok(Some(name)) => Ok(Some(name)),
        Ok(None) => match review_of(headers) {
            Err(err) => Err(err),
            Ok(None) => Err(ReviewError::NotReview),
            Ok(Some(review)) => match state_of(references, review) {
                State::Missing => Err(ReviewError::MissingReview),
                State::Object(_) => Ok(None),
                State::Symbolic(name) => Ok(Some(name)),
            },
        },
    }
}

/// What goes with a commit that is forgotten, in specifications.
pub type ForgetView = Forget<Seq<u8>, Seq<Deletion<Seq<u8>>>>;

/// What goes with a commit that is forgotten.
pub open spec fn forgotten(
    references: Seq<Reference<Seq<u8>>>,
    headers: Seq<Header<Seq<u8>>>,
    at_head: bool,
) -> Result<ForgetView, ReviewError> {
    match deleted_with(references, headers) {
        Err(err) => Err(err),
        Ok(deletions) => if at_head && deletions.len() > 0 {
            match return_of(references, headers) {
                Err(err) => Err(err),
                Ok(review_return) => Ok(Forget { deletions, review_return }),
            }
        } else {
            Ok(Forget { deletions, review_return: None })
        },
    }
}

fn find_return(references: &Vec<Reference<FullName>>, headers: &Vec<Header<Vec<u8>>>) -> (r: Result<
    Option<FullName>,
    ReviewError,
>)
    ensures
        match r {
            Ok(name) => return_of(viewed(references@), viewed(headers@)) == Ok::<_, ReviewError>(
                viewed_option(name),
            ),
            Err(err) => return_of(viewed(references@), viewed(headers@)) == Err::<
                Option<Seq<u8>>,
                _,
            >(err),
        },
{
    match return_to(headers) {
        Err(err) => Err(err),
        Ok(Some(name)) => Ok(Some(name)),
        Ok(None) => match reference(headers) {
            Err(err) => Err(err),
            Ok(None) => Err(ReviewError::NotReview),
            Ok(Some(review)) => match find_state(references, &review) {
                State::Missing => Err(ReviewError::MissingReview),
                State::Object(_) => Ok(None),
                State::Symbolic(name) => Ok(Some(name)),
            },
        },
    }
}

/// Plans to forget a commit. `at_head` is whether HEAD is at it.
pub fn plan_forget(
    references: &Vec<Reference<FullName>>,
    headers: &Vec<Header<Vec<u8>>>,
    at_head: bool,
) -> (r: Result<Forget<FullName, Vec<Deletion<FullName>>>, ReviewError>)
    ensures
        match r {
            Ok(found) => forgotten(viewed(references@), viewed(headers@), at_head) == Ok::<
                _,
                ReviewError,
            >(
                Forget {
                    deletions: viewed(found.deletions@),
                    review_return: viewed_option(found.review_return),
                },
            ),
            Err(err) => forgotten(viewed(references@), viewed(headers@), at_head) == Err::<
                ForgetView,
                _,
            >(err),
        },
{
    let deletions = match deletions(references, headers) {
        Err(err) => {
            return Err(err);
        },
        Ok(deletions) => deletions,
    };
    assert(viewed(deletions@).len() == deletions@.len());
    if !at_head || deletions.len() == 0 {
        return Ok(Forget { deletions, review_return: None });
    }
    match find_return(references, headers) {
        Err(err) => Err(err),
        Ok(review_return) => Ok(Forget { deletions, review_return }),
    }
}

/// Whether a conflict may suspend forgetting a commit: not if HEAD is to return from a review.
pub fn may_suspend(forget: &Forget<FullName, Vec<Deletion<FullName>>>) -> (r: bool)
    ensures
        r == (forget.review_return is None),
{
    forget.review_return.is_none()
}

/// What git is told to bring what it knows of the files in the index up to date.
pub fn refresh_command() -> (r: Vec<Vec<u8>>)
    ensures
        viewed(r@) == seq![
            "update-index".spec_bytes(),
            "-q".spec_bytes(),
            "--refresh".spec_bytes(),
        ],
{
    let mut words: Vec<Vec<u8>> = Vec::new();
    words.push(bytes::copied("update-index".as_bytes()));
    words.push(bytes::copied("-q".as_bytes()));
    words.push(bytes::copied("--refresh".as_bytes()));
    assert(viewed(words@) == seq![
        "update-index".spec_bytes(),
        "-q".spec_bytes(),
        "--refresh".spec_bytes(),
    ]);
    words
}

/// What git is told to move the index and the worktree from one tree to another, or only to try.
pub open spec fn transition_words(dry_run: bool, old_id: ObjectId, new_id: ObjectId) -> Seq<Seq<u8>> {
    let start = if dry_run {
        seq!["read-tree".spec_bytes(), "-n".spec_bytes()]
    } else {
        seq!["read-tree".spec_bytes()]
    };
    start + seq!["-m".spec_bytes(), "-u".spec_bytes(), hex_of(old_id), hex_of(new_id)]
}

/// The arguments of git that move the index and the worktree from one tree to another, or only try.
pub fn read_tree_command(dry_run: bool, old_id: ObjectId, new_id: ObjectId) -> (r: Vec<Vec<u8>>)
    ensures
        viewed(r@) == transition_words(dry_run, old_id, new_id),
{
    let mut words: Vec<Vec<u8>> = Vec::new();
    words.push(bytes::copied("read-tree".as_bytes()));
    if dry_run {
        words.push(bytes::copied("-n".as_bytes()));
    }
    words.push(bytes::copied("-m".as_bytes()));
    words.push(bytes::copied("-u".as_bytes()));
    words.push(old_id.to_hex());
    words.push(new_id.to_hex());
    assert(viewed(words@) == transition_words(dry_run, old_id, new_id));
    words
}

/// A commit that is forgotten takes exactly the references of its review with it. HEAD returns somewhere only
/// if it is at the commit and a review goes with it: to what the commit names, or else to where the review
/// points. A commit that HEAD is not at is forgotten whatever becomes of its return.
pub proof fn heads_return_from_forgotten_reviews(
    references: Seq<Reference<Seq<u8>>>,
    headers: Seq<Header<Seq<u8>>>,
    at_head: bool,
)
    ensures
        ({
            let found = forgotten(references, headers, at_head);
            &&& found matches Ok(forget) ==> deleted_with(references, headers) == Ok::<
                _,
                ReviewError,
            >(forget.deletions)
            &&& found matches Ok(forget) ==> (forget.review_return is Some ==> at_head
                && forget.deletions.len() > 0)
            &&& deleted_with(references, headers) is Err ==> found is Err
            &&& !at_head && deleted_with(references, headers) is Ok ==> found is Ok
            &&& at_head && deleted_with(references, headers) is Ok && (returning(
                headers,
            ) matches Ok(Some(_))) ==> found is Ok
            &&& at_head && deleted_with(references, headers) is Ok && returning(headers) is Ok && (
            review_of(headers) matches Ok(Some(review)) && state_of(references, review) !is Missing)
                ==> found is Ok
            &&& found matches Ok(forget) ==> (at_head && forget.deletions.len() > 0 ==> {
                &&& returning(headers) is Ok
                &&& returning(headers) matches Ok(Some(name)) ==> forget.review_return == Some(name)
                &&& returning(headers) matches Ok(None) ==> {
                    &&& review_of(headers) matches Ok(Some(review)) && match state_of(
                        references,
                        review,
                    ) {
                        State::Symbolic(name) => forget.review_return == Some(name),
                        State::Object(_) => forget.review_return is None,
                        State::Missing => false,
                    }
                }
            })
        }),
{
}

/// The index and the worktree go from the old tree to the new one, and stay as they are if git is only asked
/// to try.
pub proof fn transitions_go_forward(dry_run: bool, old_id: ObjectId, new_id: ObjectId)
    ensures
        ({
            let words = transition_words(dry_run, old_id, new_id);
            &&& words[0] == "read-tree".spec_bytes()
            &&& words.last() == hex_of(new_id)
            &&& words[words.len() - 2] == hex_of(old_id)
            &&& words[words.len() - 3] == "-u".spec_bytes()
            &&& words[words.len() - 4] == "-m".spec_bytes()
            &&& words.len() == if dry_run {
                6int
            } else {
                5int
            }
            &&& dry_run ==> words[1] == "-n".spec_bytes()
        }),
{
}

} // verus!
