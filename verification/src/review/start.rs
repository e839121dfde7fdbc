//! Starting a review.
use vstd::prelude::*;
use vstd::string::StringSliceAdditionalSpecFns;
use crate::auto_merge::definition::Header;
use crate::bytes;
use crate::ids::{hex_of, ObjectId};
use crate::names::{valid_name, FullName};
use crate::plan::{viewed, viewed_option, viewed_push};
use crate::refs::State;
use crate::review::identity::{
    free_review, next_reference, onto_from, return_from, returning, review_name, review_of,
    reviews_are_numbered, next_reviews_have_numbers, HEADER, ONTO, RETURN_TO,
};
use crate::review::ReviewError;
use crate::time_travel::pins::{delete_pin_edit, deletion, Pin};
use crate::undo::changes::{RefEdit, Target};

verus! {

/// Whether a review of a range can start: the base must be another commit that the tip descends from,
/// and neither may have a pending rebase.
pub fn check_range(
    tip: ObjectId,
    base: ObjectId,
    base_is_ancestor: bool,
    tip_pending: bool,
    base_pending: bool,
) -> (r: Result<(), ReviewError>)
    ensures
        r == (if tip == base || !base_is_ancestor {
            Err::<(), _>(ReviewError::BaseNotAncestor)
        } else if tip_pending {
            Err(ReviewError::TipPending)
        } else if base_pending {
            Err(ReviewError::BasePending)
        } else {
            Ok(())
        }),
        r is Ok <==> tip != base && base_is_ancestor && !tip_pending && !base_pending,
{
    if tip == base || !base_is_ancestor {
        Err(ReviewError::BaseNotAncestor)
    } else if tip_pending {
        Err(ReviewError::TipPending)
    } else if base_pending {
        Err(ReviewError::BasePending)
    } else {
        Ok(())
    }
}

/// The message of commits that stand for a review.
pub const MESSAGE: &'static str = "review";

/// What is to be made to start a review: the pin that it returns to, and the commit, which has the tree
/// of the base and the base as its parent.
#[derive(PartialEq, Eq, Debug)]
pub struct Start<N, H> {
    pub name: N,
    pub pin: Option<Pin<N>>,
    pub headers: H,
}

/// The pin that a review returns to: what HEAD is on before, or the commit that it is at. There is none
/// if HEAD leads to no commit.
pub open spec fn departure_pin(
    name: Seq<u8>,
    head: State<Seq<u8>>,
    head_id: Option<ObjectId>,
) -> Option<Pin<Seq<u8>>> {
    match head_id {
        None => None,
        Some(id) => Some(
            Pin {
                name,
                target: match head {
                    State::Symbolic(branch) => Target::Symbolic(branch),
                    _ => Target::Object(id),
                },
                id,
            },
        ),
    }
}

/// The headers of a commit that stands for a review.
pub open spec fn review_headers(name: Seq<u8>, pin: Option<Pin<Seq<u8>>>) -> Seq<Header<Seq<u8>>> {
    let onto = Header { name: HEADER.spec_bytes(), value: ONTO.spec_bytes() + name };
    match pin {
        Some(pin) => seq![onto, Header { name: RETURN_TO.spec_bytes(), value: pin.name }],
        None => seq![onto],
    }
}

/// What is to be made to start a review, given the names that are taken.
pub open spec fn started(
    taken: Seq<Seq<u8>>,
    head: State<Seq<u8>>,
    head_id: Option<ObjectId>,
) -> Result<Start<Seq<u8>, Seq<Header<Seq<u8>>>>, ReviewError> {
    match free_review(taken, 1, taken.len()) {
        Err(err) => Err(err),
        Ok((name, pin_name)) => {
            let pin = departure_pin(pin_name, head, head_id);
            Ok(Start { name, pin, headers: review_headers(name, pin) })
        },
    }
}

fn make_headers(name: &FullName, pin: &Option<Pin<FullName>>) -> (r: Vec<Header<Vec<u8>>>)
    ensures
        viewed(r@) == review_headers(name@, viewed_option(*pin)),
{
    let mut headers: Vec<Header<Vec<u8>>> = Vec::new();
    let onto = Header {
        name: bytes::copied(HEADER.as_bytes()),
        value: bytes::joined(ONTO.as_bytes(), name.as_bytes()),
    };
    headers.push(onto);
    assert(viewed(headers@) == seq![onto@]);
    if let Some(pin) = pin {
        let header = Header {
            name: bytes::copied(RETURN_TO.as_bytes()),
            value: bytes::copied(pin.name.as_bytes()),
        };
        proof {
            viewed_push(headers@, header);
        }
        headers.push(header);
        assert(viewed(headers@) == seq![onto@, header@]);
    }
    headers
}

/// Plans to start a review: its name, the pin that it returns to and the headers of its commit.
pub fn plan_start(taken: &Vec<FullName>, head: &State<FullName>, head_id: Option<ObjectId>) -> (r: Result<
    Start<FullName, Vec<Header<Vec<u8>>>>,
    ReviewError,
>)
    requires
        taken@.len() < usize::MAX,
    ensures
        match r {
            Ok(start) => started(viewed(taken@), head@, head_id) == Ok::<_, ReviewError>(
                Start {
                    name: start.name@,
                    pin: viewed_option(start.pin),
                    headers: viewed(start.headers@),
                },
            ),
            Err(err) => started(viewed(taken@), head@, head_id) == Err::<
                Start<Seq<u8>, Seq<Header<Seq<u8>>>>,
                _,
            >(err),
        },
{
    let (name, pin_name) = match next_reference(taken) {
        Ok(found) => found,
        Err(err) => {
            return Err(err);
        },
    };
    let pin = match head_id {
        None => None,
        Some(id) => {
            let target = match head {
                State::Symbolic(branch) => Target::Symbolic(branch.clone()),
                _ => Target::Object(id),
            };
            Some(Pin { name: pin_name, target, id })
        },
    };
    let headers = make_headers(&name, &pin);
    Ok(Start { name, pin, headers })
}

/// The commit of a review that was started reads back as a review, with its reference and the pin that
/// it returns to.
pub proof fn started_reviews_read_back(
    taken: Seq<Seq<u8>>,
    head: State<Seq<u8>>,
    head_id: Option<ObjectId>,
)
    ensures
        started(taken, head, head_id) matches Ok(start) ==> review_of(start.headers) == Ok::<
            _,
            ReviewError,
        >(Some(start.name)) && returning(start.headers) == Ok::<_, ReviewError>(
            match start.pin {
                Some(pin) => Some(pin.name),
                None => None,
            },
        ) && !taken.contains(start.name) && (start.pin matches Some(pin) ==> !taken.contains(
            pin.name,
        )),
{
    if let Ok(start) = started(taken, head, head_id) {
        free_names_are_valid(taken, 1, taken.len());
        next_reviews_have_numbers(taken);
        let n = choose|n: nat| n >= 1 && start.name == #[trigger] review_name(n);
        reviews_are_numbered(n);
        let onto = start.headers[0];
        let prefix = ONTO.spec_bytes();
        assert(onto.value.take(prefix.len() as int) == prefix);
        assert(onto.value.skip(prefix.len() as int) == start.name);
        header_names_differ();
        reveal_with_fuel(return_from, 3);
        assert(onto_from(start.headers, 0) == Some(start.name));
    }
}

proof fn header_names_differ()
    ensures
        HEADER.spec_bytes() != RETURN_TO.spec_bytes(),
{
    broadcast use vstd::string::is_ascii_spec_bytes;

    reveal_strlit("tix-rebase");
    reveal_strlit("tix-review-return-to");
    assert(vstd::string::is_ascii(HEADER));
    assert(vstd::string::is_ascii(RETURN_TO));
    assert(HEADER.spec_bytes().len() == 10);
    assert(RETURN_TO.spec_bytes().len() == 20);
}

proof fn free_names_are_valid(taken: Seq<Seq<u8>>, number: nat, left: nat)
    ensures
        free_review(taken, number, left) matches Ok((name, pin)) ==> valid_name(name) && valid_name(
            pin,
        ),
    decreases left,
{
    if left > 0 {
        free_names_are_valid(taken, number + 1, (left - 1) as nat);
    }
}

/// The edit that takes back the pin of a review that could not be started, if one was made.
pub fn remove_new_departure_pin(pin: Option<&Pin<FullName>>) -> (r: Option<RefEdit<FullName>>)
    ensures
        viewed_option(r) == (match pin {
            Some(pin) => Some(deletion(pin@)),
            None => None,
        }),
{
    match pin {
        Some(pin) => Some(delete_pin_edit(pin)),
        None => None,
    }
}

/// What git is told to make the reference of a review.
pub open spec fn reference_words(name: Seq<u8>, tip: ObjectId) -> Seq<Seq<u8>> {
    seq!["update-ref".spec_bytes(), name, hex_of(tip)]
}

/// What git is told to check a review out: the files of the tip, HEAD at the commit of the review, and
/// the index of its base, so that the range shows as changes.
pub open spec fn checkout_words(tip: ObjectId, review: ObjectId) -> Seq<Seq<Seq<u8>>> {
    seq![
        seq![
            "checkout".spec_bytes(),
            "--quiet".spec_bytes(),
            "--detach".spec_bytes(),
            hex_of(tip),
        ],
        seq![
            "update-ref".spec_bytes(),
            "--no-deref".spec_bytes(),
            "HEAD".spec_bytes(),
            hex_of(review),
            hex_of(tip),
        ],
        seq!["read-tree".spec_bytes(), hex_of(review)],
    ]
}

/// Arguments in specifications.
pub open spec fn commands_view(commands: Seq<Vec<Vec<u8>>>) -> Seq<Seq<Seq<u8>>> {
    Seq::new(commands.len(), |i: int| viewed(commands[i]@))
}

/// The arguments of git that make the reference of a review.
pub fn reference_command(name: &FullName, tip: ObjectId) -> (r: Vec<Vec<u8>>)
    ensures
        viewed(r@) == reference_words(name@, tip),
{
    let mut words: Vec<Vec<u8>> = Vec::new();
    words.push(bytes::copied("update-ref".as_bytes()));
    words.push(bytes::copied(name.as_bytes()));
    words.push(tip.to_hex());
    assert(viewed(words@) == reference_words(name@, tip));
    words
}

/// The arguments of git that check a review out, one command after the other.
pub fn checkout_commands(tip: ObjectId, review: ObjectId) -> (r: Vec<Vec<Vec<u8>>>)
    ensures
        commands_view(r@) == checkout_words(tip, review),
{
    let mut first: Vec<Vec<u8>> = Vec::new();
    first.push(bytes::copied("checkout".as_bytes()));
    first.push(bytes::copied("--quiet".as_bytes()));
    first.push(bytes::copied("--detach".as_bytes()));
    first.push(tip.to_hex());
    assert(viewed(first@) == checkout_words(tip, review)[0]);
    let mut second: Vec<Vec<u8>> = Vec::new();
    second.push(bytes::copied("update-ref".as_bytes()));
    second.push(bytes::copied("--no-deref".as_bytes()));
    second.push(bytes::copied("HEAD".as_bytes()));
    second.push(review.to_hex());
    second.push(tip.to_hex());
    assert(viewed(second@) == checkout_words(tip, review)[1]);
    let mut third: Vec<Vec<u8>> = Vec::new();
    third.push(bytes::copied("read-tree".as_bytes()));
    third.push(review.to_hex());
    assert(viewed(third@) == checkout_words(tip, review)[2]);
    let mut commands: Vec<Vec<Vec<u8>>> = Vec::new();
    commands.push(first);
    commands.push(second);
    commands.push(third);
    assert(commands_view(commands@) == checkout_words(tip, review));
    commands
}

} // verus!
