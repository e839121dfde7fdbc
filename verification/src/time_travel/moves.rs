//! Moving HEAD to a commit: what is checked out, what is pinned before, and what is said of it.
use vstd::prelude::*;
use vstd::string::StringSliceAdditionalSpecFns;
use crate::bytes;
use crate::bytes::{has_prefix, without_prefix};
use crate::ids::{hex_of, hex_round_trip, ObjectId};
use crate::names::{short_name, valid_name, FullName, HEAD_PIN_NAME};
use crate::plan::{viewed, viewed_option, viewed_push};
use crate::refs::{contains_name, State};
use crate::text::{lossy, to_str_lossy};
use crate::time_travel::pins::{
    best_pin, create_or_reuse_pin, create_pin_edit, creation, head_pin, head_pin_edit, label_of,
    on_branch, pin_label, pinned, remembering, selected_pin, Pin, Pinned, HEADS,
};
use crate::time_travel::TravelError;
use crate::undo::changes::{
    state_of_target, Change, PreviousValue, RefChange, RefEdit, RefLog, Target,
};
use crate::undo::worktrees::HEAD;

verus! {

/// How HEAD gets to a commit: on a local branch, detached, or detached and then attached to another
/// reference.
#[derive(PartialEq, Eq, Debug)]
pub enum Checkout<N> {
    Branch(N),
    Detach(ObjectId),
    Attach { id: ObjectId, reference: N },
}

impl<N: View> View for Checkout<N> {
    type V = Checkout<N::V>;

    open spec fn view(&self) -> Checkout<N::V> {
        match self {
            Checkout::Branch(name) => Checkout::Branch(name@),
            Checkout::Detach(id) => Checkout::Detach(*id),
            Checkout::Attach { id, reference } => Checkout::Attach {
                id: *id,
                reference: reference@,
            },
        }
    }
}

/// What `git checkout` is told, none if the branch is not a local one.
pub open spec fn checkout_words(checkout: Checkout<Seq<u8>>) -> Option<Seq<Seq<u8>>> {
    match checkout {
        Checkout::Branch(name) => match without_prefix(name, HEADS.spec_bytes()) {
            Some(branch) => Some(seq!["--no-guess".spec_bytes(), branch]),
            None => None,
        },
        Checkout::Detach(id) => Some(seq!["--detach".spec_bytes(), hex_of(id)]),
        Checkout::Attach { id, .. } => Some(seq!["--detach".spec_bytes(), hex_of(id)]),
    }
}

fn two_words(first: &[u8], second: &[u8]) -> (r: Vec<Vec<u8>>)
    ensures
        viewed(r@) == seq![first@, second@],
{
    let mut words: Vec<Vec<u8>> = Vec::new();
    let first = bytes::copied(first);
    let second = bytes::copied(second);
    words.push(first);
    words.push(second);
    assert(viewed(words@) == seq![first@, second@]);
    words
}

impl Checkout<FullName> {
    /// The arguments of `git checkout`, none if the branch is not a local one.
    pub fn arguments(&self) -> (r: Option<Vec<Vec<u8>>>)
        ensures
            match r {
                Some(words) => checkout_words(self@) == Some(viewed(words@)),
                None => checkout_words(self@) is None,
            },
    {
        match self {
            Checkout::Branch(name) => match bytes::strip_prefix(name.as_bytes(), HEADS.as_bytes()) {
                Some(branch) => Some(two_words("--no-guess".as_bytes(), branch)),
                None => None,
            },
            Checkout::Detach(id) => Some(
                two_words("--detach".as_bytes(), id.to_hex().as_slice()),
            ),
            Checkout::Attach { id, .. } => Some(
                two_words("--detach".as_bytes(), id.to_hex().as_slice()),
            ),
        }
    }
}

/// The edit of HEAD, detached at a commit, that attaches it to a reference.
pub open spec fn attaching(id: ObjectId, reference: Seq<u8>) -> RefEdit<Seq<u8>> {
    RefEdit {
        name: HEAD.spec_bytes(),
        change: Change::Update {
            expected: PreviousValue::MustExistAndMatch(Target::Object(id)),
            new: Target::Symbolic(reference),
            log: RefLog::AndReference,
        },
    }
}

/// The name of HEAD.
pub fn head_name() -> (r: Result<FullName, TravelError>)
    ensures
        match r {
            Ok(name) => name@ == HEAD.spec_bytes() && valid_name(HEAD.spec_bytes()),
            Err(err) => err == TravelError::InvalidName && !valid_name(HEAD.spec_bytes()),
        },
{
    match FullName::new(HEAD.as_bytes()) {
        Some(name) => Ok(name),
        None => Err(TravelError::InvalidName),
    }
}

/// The edit that attaches HEAD, detached at a commit, to a reference.
pub fn attach_head_edit(id: ObjectId, reference: &FullName) -> (r: Result<
    RefEdit<FullName>,
    TravelError,
>)
    ensures
        match r {
            Ok(edit) => edit@ == attaching(id, reference@) && valid_name(HEAD.spec_bytes()),
            Err(err) => err == TravelError::InvalidName && !valid_name(HEAD.spec_bytes()),
        },
{
    match head_name() {
        Ok(name) => Ok(
            RefEdit {
                name,
                change: Change::Update {
                    expected: PreviousValue::MustExistAndMatch(Target::Object(id)),
                    new: Target::Symbolic(reference.clone()),
                    log: RefLog::AndReference,
                },
            },
        ),
        Err(err) => Err(err),
    }
}

/// What is known of a worktree before its HEAD moves: what HEAD holds and leads to, the pins, what
/// the pin of HEAD holds, the names in use, the branches that other worktrees are on, and the pins that
/// automatic merges follow.
#[derive(PartialEq, Eq, Debug)]
pub struct Worktree<N, P, S> {
    pub head: State<N>,
    pub head_id: Option<ObjectId>,
    pub pins: P,
    pub head_pin: State<N>,
    pub taken: S,
    pub elsewhere: S,
    pub followed: S,
}

/// A worktree in memory.
pub type CurrentWorktree = Worktree<FullName, Vec<Pin<FullName>>, Vec<FullName>>;

/// A worktree in specifications.
pub type WorktreeView = Worktree<Seq<u8>, Seq<Pin<Seq<u8>>>, Seq<Seq<u8>>>;

impl View for Worktree<FullName, Vec<Pin<FullName>>, Vec<FullName>> {
    type V = WorktreeView;

    open spec fn view(&self) -> WorktreeView {
        Worktree {
            head: self.head@,
            head_id: self.head_id,
            pins: viewed(self.pins@),
            head_pin: self.head_pin@,
            taken: viewed(self.taken@),
            elsewhere: viewed(self.elsewhere@),
            followed: viewed(self.followed@),
        }
    }
}

/// Where HEAD is to move: to a commit, on a reference if one is given. `departure` is the commit to
/// keep in view, and `contained` is whether the destination contains it.
#[derive(PartialEq, Eq, Debug)]
pub struct Request<N> {
    pub selected: ObjectId,
    pub reference: Option<N>,
    pub departure: Option<ObjectId>,
    pub contained: bool,
}

impl<N: View> View for Request<N> {
    type V = Request<N::V>;

    open spec fn view(&self) -> Request<N::V> {
        Request {
            selected: self.selected,
            reference: viewed_option(self.reference),
            departure: self.departure,
            contained: self.contained,
        }
    }
}

/// The branch or other reference that HEAD is on.
pub open spec fn referent<N>(head: State<N>) -> Option<N> {
    match head {
        State::Symbolic(name) => Some(name),
        _ => None,
    }
}

/// Whether HEAD is where it is to move.
pub open spec fn there(worktree: WorktreeView, request: Request<Seq<u8>>) -> bool {
    worktree.head_id == Some(request.selected) && referent(worktree.head) == request.reference
}

/// Whether the pin of HEAD leads directly to a commit, on a branch that no other worktree is on.
pub open spec fn returns_directly(
    pin: Pin<Seq<u8>>,
    selected: ObjectId,
    elsewhere: Seq<Seq<u8>>,
) -> bool {
    head_pin(pin) && pin.id == selected && on_branch(pin.target) && !elsewhere.contains(
        pin.target->Symbolic_0,
    )
}

/// The first pin at or after `at` that leads HEAD directly to a commit.
pub open spec fn direct_from(
    pins: Seq<Pin<Seq<u8>>>,
    selected: ObjectId,
    elsewhere: Seq<Seq<u8>>,
    at: int,
) -> Option<int>
    decreases pins.len() - at,
{
    if at < 0 || at >= pins.len() {
        None
    } else if returns_directly(pins[at], selected, elsewhere) {
        Some(at)
    } else {
        direct_from(pins, selected, elsewhere, at + 1)
    }
}

/// Finds the pin of HEAD if it leads directly to a commit.
pub fn direct_pin(
    pins: &Vec<Pin<FullName>>,
    selected: ObjectId,
    elsewhere: &Vec<FullName>,
) -> (r: Option<usize>)
    ensures
        bytes::index_of(r) == direct_from(viewed(pins@), selected, viewed(elsewhere@), 0),
        r matches Some(i) ==> i < pins@.len() && returns_directly(
            pins@[i as int]@,
            selected,
            viewed(elsewhere@),
        ),
{
    let ghost all = viewed(pins@);
    let mut at: usize = 0;
    while at < pins.len()
        invariant
            at <= pins@.len(),
            all == viewed(pins@),
            direct_from(all, selected, viewed(elsewhere@), 0) == direct_from(
                all,
                selected,
                viewed(elsewhere@),
                at as int,
            ),
        decreases pins@.len() - at,
    {
        let pin = &pins[at];
        assert(all[at as int] == pin@);
        if pin.is_head() && pin.id == selected && pin.target.is_on_branch() {
            if let Target::Symbolic(branch) = &pin.target {
                if !contains_name(elsewhere, branch) {
                    return Some(at);
                }
            }
        }
        at = at + 1;
    }
    None
}

/// The pins through which HEAD returns to a commit: the pin of HEAD, which is used first, and another
/// one, which goes then.
pub open spec fn ways_back(worktree: WorktreeView, request: Request<Seq<u8>>) -> (
    Option<Pin<Seq<u8>>>,
    Option<Pin<Seq<u8>>>,
) {
    let direct = if request.reference is Some {
        None
    } else {
        direct_from(worktree.pins, request.selected, worktree.elsewhere, 0)
    };
    (
        match direct {
            Some(i) => Some(worktree.pins[i]),
            None => None,
        },
        match best_pin(worktree.pins, request.selected, 0, None) {
            Some(i) => Some(worktree.pins[i]),
            None => None,
        },
    )
}

/// The pin whose target is checked out.
pub open spec fn way_back(worktree: WorktreeView, request: Request<Seq<u8>>) -> Option<
    Pin<Seq<u8>>,
> {
    let (direct, destination) = ways_back(worktree, request);
    if direct is Some {
        direct
    } else {
        destination
    }
}

/// Whether HEAD leaves its branch for no other one, so that the branch is to be remembered.
pub open spec fn forsakes_branch(worktree: WorktreeView, request: Request<Seq<u8>>) -> bool {
    &&& request.reference is None
    &&& way_back(worktree, request) matches Some(pin) ==> pin.target is Object
    &&& worktree.head matches State::Symbolic(name) && has_prefix(name, HEADS.spec_bytes())
}

/// The commit to keep in view, if nothing else does: one that HEAD leaves, unless it is the
/// destination, is contained in it, or the branch of HEAD is remembered.
pub open spec fn stranded(worktree: WorktreeView, request: Request<Seq<u8>>) -> Option<ObjectId> {
    if forsakes_branch(worktree, request) || request.contained || request.departure == Some(
        request.selected,
    ) {
        None
    } else {
        request.departure
    }
}

/// A pin that goes once HEAD used it, unless an automatic merge follows it.
pub open spec fn consumed(worktree: WorktreeView, pin: Option<Pin<Seq<u8>>>) -> Option<
    Pin<Seq<u8>>,
> {
    match pin {
        Some(pin) => if worktree.followed.contains(pin.name) {
            None
        } else {
            Some(pin)
        },
        None => None,
    }
}

/// Finds the pin that goes once HEAD used it.
pub fn find_consumed(worktree: &CurrentWorktree, pin: Option<usize>) -> (r: Option<Pin<FullName>>)
    requires
        pin matches Some(i) ==> i < worktree.pins@.len(),
    ensures
        viewed_option(r) == consumed(
            worktree@,
            match pin {
                Some(i) => Some(worktree.pins@[i as int]@),
                None => None,
            },
        ),
{
    match pin {
        Some(i) => {
            let pin = &worktree.pins[i];
            if contains_name(&worktree.followed, &pin.name) {
                None
            } else {
                Some(pin.copy())
            }
        },
        None => None,
    }
}

/// The pin that keeps a commit in view which HEAD leaves.
pub open spec fn provisional_pin(worktree: WorktreeView, request: Request<Seq<u8>>) -> Result<
    Option<Pinned<Pin<Seq<u8>>>>,
    TravelError,
> {
    match stranded(worktree, request) {
        None => Ok(None),
        Some(departure) => match pinned(
            worktree.pins,
            worktree.taken,
            match worktree.head {
                State::Symbolic(name) => Target::Symbolic(name),
                _ => Target::Object(departure),
            },
            departure,
        ) {
            Ok(found) => Ok(Some(found)),
            Err(err) => Err(err),
        },
    }
}

/// How HEAD gets to its destination.
pub open spec fn checkout_to(worktree: WorktreeView, request: Request<Seq<u8>>) -> Checkout<Seq<u8>> {
    match request.reference {
        Some(name) => if has_prefix(name, HEADS.spec_bytes()) {
            Checkout::Branch(name)
        } else {
            Checkout::Attach { id: request.selected, reference: name }
        },
        None => match way_back(worktree, request) {
            Some(pin) => match pin.target {
                Target::Symbolic(name) => Checkout::Branch(name),
                Target::Object(_) => Checkout::Detach(pin.id),
            },
            None => Checkout::Detach(request.selected),
        },
    }
}

/// What HEAD holds at its destination.
pub open spec fn head_after(worktree: WorktreeView, request: Request<Seq<u8>>) -> State<Seq<u8>> {
    match request.reference {
        Some(name) => State::Symbolic(name),
        None => match way_back(worktree, request) {
            Some(pin) => state_of_target(pin.target),
            None => State::Object(request.selected),
        },
    }
}

/// What is said once HEAD is at its destination.
pub open spec fn arrival_notice(worktree: WorktreeView, request: Request<Seq<u8>>) -> Seq<u8> {
    let (direct, destination) = ways_back(worktree, request);
    match request.reference {
        Some(name) => "checked out ".spec_bytes() + lossy(short_name(name)),
        None => match direct {
            Some(pin) => "returned to ".spec_bytes() + lossy(
                short_name(pin.target->Symbolic_0),
            ),
            None => match destination {
                Some(pin) => "returned from ".spec_bytes() + label_of(pin.name),
                None => "time-travelled to ".spec_bytes() + hex_of(request.selected).take(7),
            },
        },
    }
}

/// Where a journey of HEAD stands.
#[derive(Clone, Copy, PartialEq, Eq, Structural, Debug)]
pub enum Stage {
    /// HEAD is to be moved.
    Checkout,
    /// HEAD did not move: the changes made before are to be taken back.
    Restore,
    /// HEAD moved: the repository is to be opened again.
    Reopen,
    /// The pin that led to the destination is to be removed.
    RemoveDestination,
    /// The pin of HEAD is to be brought in line with HEAD.
    Reconcile,
    /// It is to be found out whether the commit that HEAD left is still in view.
    InspectTips,
    /// The pin of the commit that HEAD left is to be removed, as the commit is still in view.
    RemoveProvisional,
    /// HEAD arrived.
    Arrived,
    /// HEAD did not move.
    Stranded,
}

/// A journey of HEAD. `stays` is whether the pin of the commit that HEAD left stays in any case, and
/// `reconciles` is whether the pin of HEAD is brought in line with it at the end.
#[derive(PartialEq, Eq, Debug)]
pub struct Journey<N, T, C> {
    pub stage: Stage,
    pub checkout: Checkout<N>,
    pub head_before: State<N>,
    pub head_after: State<N>,
    pub destination: Option<Pin<N>>,
    pub provisional: Option<Pin<N>>,
    pub stays: bool,
    pub reconciles: bool,
    pub changes: C,
    pub notice: T,
}

/// A journey in memory.
pub type CurrentJourney = Journey<FullName, Vec<u8>, Vec<RefChange<FullName>>>;

/// A journey in specifications.
pub type JourneyView = Journey<Seq<u8>, Seq<u8>, Seq<RefChange<Seq<u8>>>>;

impl View for Journey<FullName, Vec<u8>, Vec<RefChange<FullName>>> {
    type V = JourneyView;

    open spec fn view(&self) -> JourneyView {
        Journey {
            stage: self.stage,
            checkout: self.checkout@,
            head_before: self.head_before@,
            head_after: self.head_after@,
            destination: viewed_option(self.destination),
            provisional: viewed_option(self.provisional),
            stays: self.stays,
            reconciles: self.reconciles,
            changes: viewed(self.changes@),
            notice: self.notice@,
        }
    }
}

/// The edit to make before HEAD moves: to remember its branch, or to pin the commit that it leaves.
pub open spec fn edit_before(worktree: WorktreeView, request: Request<Seq<u8>>) -> Result<
    Option<RefEdit<Seq<u8>>>,
    TravelError,
> {
    if forsakes_branch(worktree, request) {
        if valid_name(HEAD_PIN_NAME.spec_bytes()) {
            Ok(Some(remembering(worktree.head->Symbolic_0, worktree.head_pin)))
        } else {
            Err(TravelError::InvalidName)
        }
    } else {
        match provisional_pin(worktree, request) {
            Err(err) => Err(err),
            Ok(None) => Ok(None),
            Ok(Some(found)) => Ok(
                if found.created {
                    Some(creation(found.pin))
                } else {
                    None
                },
            ),
        }
    }
}

/// The change that an edit makes before HEAD moves.
pub open spec fn change_before(edit: RefEdit<Seq<u8>>) -> RefChange<Seq<u8>> {
    crate::undo::changes::change_of(edit)->Ok_0->0
}

/// The changes that an edit before HEAD moves is reported as: none if it leaves the reference as it is.
pub open spec fn reported(edit: RefEdit<Seq<u8>>) -> Seq<RefChange<Seq<u8>>> {
    let change = change_before(edit);
    if change.before == change.after {
        Seq::empty()
    } else {
        seq![change]
    }
}

/// The journey to a destination, none if HEAD is there.
pub open spec fn journey_to(worktree: WorktreeView, request: Request<Seq<u8>>) -> Result<
    Option<(Option<RefEdit<Seq<u8>>>, JourneyView)>,
    TravelError,
> {
    if worktree.head_id is None {
        Err(TravelError::UnbornHead)
    } else if there(worktree, request) {
        Ok(None)
    } else {
        match edit_before(worktree, request) {
            Err(err) => Err(err),
            Ok(edit) => Ok(
                Some(
                    (
                        edit,
                        Journey {
                            stage: Stage::Checkout,
                            checkout: checkout_to(worktree, request),
                            head_before: worktree.head,
                            head_after: head_after(worktree, request),
                            destination: consumed(worktree, ways_back(worktree, request).1),
                            provisional: match provisional_pin(worktree, request) {
                                Ok(Some(found)) => Some(found.pin),
                                _ => None,
                            },
                            stays: provisional_pin(worktree, request) matches Ok(Some(found))
                                && worktree.followed.contains(found.pin.name),
                            reconciles: true,
                            changes: match edit {
                                Some(edit) => reported(edit),
                                None => Seq::empty(),
                            },
                            notice: arrival_notice(worktree, request),
                        },
                    ),
                ),
            ),
        }
    }
}

fn is_there(worktree: &CurrentWorktree, request: &Request<FullName>) -> (r: bool)
    ensures
        r == there(worktree@, request@),
{
    let same_commit = match worktree.head_id {
        Some(id) => id == request.selected,
        None => false,
    };
    same_commit && match (&worktree.head, &request.reference) {
        (State::Symbolic(name), Some(reference)) => name.same(reference),
        (State::Symbolic(_), None) => false,
        (_, Some(_)) => false,
        (_, None) => true,
    }
}

fn find_ways_back(worktree: &CurrentWorktree, request: &Request<FullName>) -> (r: (
    Option<usize>,
    Option<usize>,
))
    ensures
        r.0 matches Some(i) ==> i < worktree.pins@.len() && worktree.pins@[i as int].target
            is Symbolic,
        r.1 matches Some(i) ==> i < worktree.pins@.len(),
        ways_back(worktree@, request@) == (
            match r.0 {
                Some(i) => Some(worktree.pins@[i as int]@),
                None => None,
            },
            match r.1 {
                Some(i) => Some(worktree.pins@[i as int]@),
                None => None,
            },
        ),
{
    let direct = match &request.reference {
        Some(_) => None,
        None => direct_pin(&worktree.pins, request.selected, &worktree.elsewhere),
    };
    let destination = selected_pin(&worktree.pins, request.selected);
    proof {
        if let Some(i) = direct {
            assert(viewed(worktree.pins@)[i as int] == worktree.pins@[i as int]@);
        }
        if let Some(i) = destination {
            assert(viewed(worktree.pins@)[i as int] == worktree.pins@[i as int]@);
        }
    }
    (direct, destination)
}

fn write_notice(
    worktree: &CurrentWorktree,
    request: &Request<FullName>,
    direct: Option<usize>,
    destination: Option<usize>,
) -> (r: Vec<u8>)
    requires
        direct matches Some(i) ==> i < worktree.pins@.len() && worktree.pins@[i as int].target
            is Symbolic,
        destination matches Some(i) ==> i < worktree.pins@.len(),
        ways_back(worktree@, request@) == (
            match direct {
                Some(i) => Some(worktree.pins@[i as int]@),
                None => None,
            },
            match destination {
                Some(i) => Some(worktree.pins@[i as int]@),
                None => None,
            },
        ),
    ensures
        r@ == arrival_notice(worktree@, request@),
{
    if let Some(name) = &request.reference {
        let short = to_str_lossy(name.shorten().as_slice());
        return bytes::joined("checked out ".as_bytes(), short.as_slice());
    }
    if let Some(i) = direct {
        if let Target::Symbolic(name) = &worktree.pins[i].target {
            let short = to_str_lossy(name.shorten().as_slice());
            return bytes::joined("returned to ".as_bytes(), short.as_slice());
        }
    }
    if let Some(i) = destination {
        let label = pin_label(&worktree.pins[i]);
        return bytes::joined("returned from ".as_bytes(), label.as_slice());
    }
    let hex = request.selected.to_hex();
    proof {
        hex_round_trip(request.selected);
    }
    bytes::joined("time-travelled to ".as_bytes(), bytes::head_of(hex.as_slice(), 7))
}

fn find_checkout(
    worktree: &CurrentWorktree,
    request: &Request<FullName>,
    pin: Option<usize>,
) -> (r: (Checkout<FullName>, State<FullName>))
    requires
        pin matches Some(i) ==> i < worktree.pins@.len(),
        way_back(worktree@, request@) == (match pin {
            Some(i) => Some(worktree.pins@[i as int]@),
            None => None,
        }),
    ensures
        r.0@ == checkout_to(worktree@, request@),
        r.1@ == head_after(worktree@, request@),
{
    if let Some(name) = &request.reference {
        let checkout = if bytes::starts_with(name.as_bytes(), HEADS.as_bytes()) {
            Checkout::Branch(name.clone())
        } else {
            Checkout::Attach { id: request.selected, reference: name.clone() }
        };
        return (checkout, State::Symbolic(name.clone()));
    }
    match pin {
        Some(i) => {
            let pin = &worktree.pins[i];
            let checkout = match &pin.target {
                Target::Symbolic(name) => Checkout::Branch(name.clone()),
                Target::Object(_) => Checkout::Detach(pin.id),
            };
            (checkout, pin.target.state())
        },
        None => (Checkout::Detach(request.selected), State::Object(request.selected)),
    }
}

fn find_edit(
    worktree: &CurrentWorktree,
    request: &Request<FullName>,
    detaches: bool,
) -> (r: Result<(Option<RefEdit<FullName>>, Option<Pin<FullName>>), TravelError>)
    requires
        detaches == (request@.reference is None && (way_back(worktree@, request@) matches Some(pin)
            ==> pin.target is Object)),
    ensures
        match r {
            Ok((edit, pin)) => edit_before(worktree@, request@) == Ok::<_, TravelError>(
                viewed_option(edit),
            ) && viewed_option(pin) == (match provisional_pin(worktree@, request@) {
                Ok(Some(found)) => Some(found.pin),
                _ => None,
            }),
            Err(err) => edit_before(worktree@, request@) == Err::<Option<RefEdit<Seq<u8>>>, _>(err),
        },
{
    if detaches {
        if let State::Symbolic(name) = &worktree.head {
            if bytes::starts_with(name.as_bytes(), HEADS.as_bytes()) {
                return match head_pin_edit(name, &worktree.head_pin) {
                    Ok(edit) => Ok((Some(edit), None)),
                    Err(err) => Err(err),
                };
            }
        }
    }
    let departure = match request.departure {
        Some(departure) => departure,
        None => {
            return Ok((None, None));
        },
    };
    if departure == request.selected || request.contained {
        return Ok((None, None));
    }
    let target = match &worktree.head {
        State::Symbolic(name) => Target::Symbolic(name.clone()),
        _ => Target::Object(departure),
    };
    match create_or_reuse_pin(&worktree.pins, &worktree.taken, target, departure) {
        Err(err) => Err(err),
        Ok(found) => if found.created {
            let edit = create_pin_edit(&found.pin);
            Ok((Some(edit), Some(found.pin)))
        } else {
            Ok((None, Some(found.pin)))
        },
    }
}

/// Plans to move HEAD: the edit to make first, and the journey once it is made; none if HEAD is there.
pub fn plan_move(worktree: &CurrentWorktree, request: &Request<FullName>) -> (r: Result<
    Option<(Option<RefEdit<FullName>>, CurrentJourney)>,
    TravelError,
>)
    ensures
        match r {
            Ok(None) => journey_to(worktree@, request@) == Ok::<_, TravelError>(
                None::<(Option<RefEdit<Seq<u8>>>, JourneyView)>,
            ),
            Ok(Some((edit, journey))) => journey_to(worktree@, request@) == Ok::<_, TravelError>(
                Some((viewed_option(edit), journey@)),
            ),
            Err(err) => journey_to(worktree@, request@) == Err::<
                Option<(Option<RefEdit<Seq<u8>>>, JourneyView)>,
                _,
            >(err),
        },
{
    if worktree.head_id.is_none() {
        return Err(TravelError::UnbornHead);
    }
    if is_there(worktree, request) {
        return Ok(None);
    }
    let (direct, destination) = find_ways_back(worktree, request);
    let pin = if direct.is_some() {
        direct
    } else {
        destination
    };
    let detaches = request.reference.is_none() && match pin {
        Some(i) => match &worktree.pins[i].target {
            Target::Symbolic(_) => false,
            Target::Object(_) => true,
        },
        None => true,
    };
    let (edit, provisional) = match find_edit(worktree, request, detaches) {
        Ok(found) => found,
        Err(err) => {
            return Err(err);
        },
    };
    let (checkout, head_after) = find_checkout(worktree, request, pin);
    let notice = write_notice(worktree, request, direct, destination);
    let mut changes: Vec<RefChange<FullName>> = Vec::new();
    assert(viewed(changes@) == Seq::<RefChange<Seq<u8>>>::empty());
    if let Some(edit) = &edit {
        match RefChange::from_edit(edit) {
            Ok(Some(change)) => if !change.before.same(&change.after) {
                proof {
                    viewed_push(changes@, change);
                }
                changes.push(change);
                assert(viewed(changes@) == seq![change_before(edit@)]);
            },
            _ => {
                assert(false);
            },
        }
    }
    let destination = find_consumed(worktree, destination);
    let stays = match &provisional {
        Some(pin) => contains_name(&worktree.followed, &pin.name),
        None => false,
    };
    let journey = Journey {
        stage: Stage::Checkout,
        checkout,
        head_before: worktree.head.copy(),
        head_after,
        destination,
        provisional,
        stays,
        reconciles: true,
        changes,
        notice,
    };
    Ok(Some((edit, journey)))
}

} // verus!
