//! Pins: references that keep commits in view, and the edits that make and remove them.
use vstd::prelude::*;
use vstd::string::StringSliceAdditionalSpecFns;
use vstd::utf8::valid_utf8;
use crate::bytes;
use crate::bytes::{before, before_irreflexive, before_transitive, has_prefix, without_prefix};
use crate::ids::{hex_of, hex_round_trip, ObjectId};
use crate::names::{valid_name, FullName, HEAD_PIN_NAME, PIN_PREFIX, REVIEW_PIN_PREFIX};
use crate::plan::{viewed, viewed_push};
use crate::refs::{contains_name, State};
use crate::text::{decimal, decimal_is_injective, lossy, to_decimal, to_str_lossy};
use crate::time_travel::TravelError;
use crate::undo::changes::{exactly, Change, PreviousValue, RefEdit, RefLog, Target};

verus! {

/// Where local branches are kept.
pub const HEADS: &'static str = "refs/heads/";

/// A pin: what it points at, and the commit that it leads to.
#[derive(PartialEq, Eq, Debug)]
pub struct Pin<N> {
    pub name: N,
    pub target: Target<N>,
    pub id: ObjectId,
}

impl<N: View> View for Pin<N> {
    type V = Pin<N::V>;

    open spec fn view(&self) -> Pin<N::V> {
        Pin { name: self.name@, target: self.target@, id: self.id }
    }
}

/// Whether a pin is the one that remembers the branch which HEAD left.
pub open spec fn head_pin(pin: Pin<Seq<u8>>) -> bool {
    pin.name == HEAD_PIN_NAME.spec_bytes()
}

/// Whether a pin is one that a review returns to.
pub open spec fn review_pin(pin: Pin<Seq<u8>>) -> bool {
    has_prefix(pin.name, REVIEW_PIN_PREFIX.spec_bytes())
}

/// Whether a pin is neither that of HEAD nor that of a review.
pub open spec fn ordinary(pin: Pin<Seq<u8>>) -> bool {
    !head_pin(pin) && !review_pin(pin)
}

/// Whether a target is the name of a local branch.
pub open spec fn on_branch(target: Target<Seq<u8>>) -> bool {
    target matches Target::Symbolic(name) && has_prefix(name, HEADS.spec_bytes())
}

impl Target<FullName> {
    /// A copy of the target.
    pub fn copy(&self) -> (r: Target<FullName>)
        ensures
            r@ == self@,
    {
        match self {
            Target::Object(id) => Target::Object(*id),
            Target::Symbolic(name) => Target::Symbolic(name.clone()),
        }
    }

    /// Compares two targets.
    pub fn same(&self, other: &Target<FullName>) -> (r: bool)
        ensures
            r == (self@ == other@),
    {
        match (self, other) {
            (Target::Object(a), Target::Object(b)) => *a == *b,
            (Target::Symbolic(a), Target::Symbolic(b)) => a.same(b),
            _ => false,
        }
    }

    /// Whether the target is the name of a local branch.
    pub fn is_on_branch(&self) -> (r: bool)
        ensures
            r == on_branch(self@),
    {
        match self {
            Target::Object(_) => false,
            Target::Symbolic(name) => bytes::starts_with(name.as_bytes(), HEADS.as_bytes()),
        }
    }

    /// What a reference holds that points at the target.
    pub fn state(&self) -> (r: State<FullName>)
        ensures
            r@ == crate::undo::changes::state_of_target(self@),
    {
        match self {
            Target::Object(id) => State::Object(*id),
            Target::Symbolic(name) => State::Symbolic(name.clone()),
        }
    }
}

impl Pin<FullName> {
    /// A copy of the pin.
    pub fn copy(&self) -> (r: Pin<FullName>)
        ensures
            r@ == self@,
    {
        Pin { name: self.name.clone(), target: self.target.copy(), id: self.id }
    }

    /// Whether the pin is the one that remembers the branch which HEAD left.
    pub fn is_head(&self) -> (r: bool)
        ensures
            r == head_pin(self@),
    {
        bytes::equal(self.name.as_bytes(), HEAD_PIN_NAME.as_bytes())
    }

    /// Whether the pin is one that a review returns to.
    pub fn is_review_return(&self) -> (r: bool)
        ensures
            r == review_pin(self@),
    {
        bytes::starts_with(self.name.as_bytes(), REVIEW_PIN_PREFIX.as_bytes())
    }

    fn is_ordinary(&self) -> (r: bool)
        ensures
            r == ordinary(self@),
    {
        !self.is_head() && !self.is_review_return()
    }
}

/// The name of a pin without what the names of all pins start with.
pub open spec fn short_pin(name: Seq<u8>) -> Seq<u8> {
    match without_prefix(name, PIN_PREFIX.spec_bytes()) {
        Some(rest) => rest,
        None => name,
    }
}

/// What a pin is called.
pub open spec fn label_of(name: Seq<u8>) -> Seq<u8> {
    "pin:".spec_bytes() + lossy(short_pin(name))
}

/// What a pin is called: by its own part of the name, as it is if that is UTF-8.
pub fn pin_label(pin: &Pin<FullName>) -> (r: Vec<u8>)
    ensures
        r@ == label_of(pin@.name),
        valid_utf8(lossy(short_pin(pin@.name))),
        valid_utf8(short_pin(pin@.name)) ==> r@ == "pin:".spec_bytes() + short_pin(pin@.name),
{
    let name = pin.name.as_bytes();
    let short = match bytes::strip_prefix(name, PIN_PREFIX.as_bytes()) {
        Some(rest) => rest,
        None => name,
    };
    bytes::joined("pin:".as_bytes(), to_str_lossy(short).as_slice())
}

/// Whether HEAD can return through a pin to a commit: an ordinary one that leads there, and that is
/// not a symbolic one of anything but a local branch.
pub open spec fn leads_back(pin: Pin<Seq<u8>>, selected: ObjectId) -> bool {
    ordinary(pin) && pin.id == selected && (pin.target is Symbolic ==> on_branch(pin.target))
}

/// Whether one pin is preferred to another: those of branches come first, then it is by name.
pub open spec fn preferred(a: Pin<Seq<u8>>, b: Pin<Seq<u8>>) -> bool {
    if (a.target is Symbolic) != (b.target is Symbolic) {
        a.target is Symbolic
    } else {
        before(a.name, b.name)
    }
}

/// The pin among those from `at` on, and the best one before, through which HEAD returns.
pub open spec fn best_pin(
    pins: Seq<Pin<Seq<u8>>>,
    selected: ObjectId,
    at: int,
    best: Option<int>,
) -> Option<int>
    decreases pins.len() - at,
{
    if at < 0 || at >= pins.len() {
        best
    } else if leads_back(pins[at], selected) && (best matches Some(found) ==> preferred(
        pins[at],
        pins[found],
    )) {
        best_pin(pins, selected, at + 1, Some(at))
    } else {
        best_pin(pins, selected, at + 1, best)
    }
}

fn is_preferred(a: &Pin<FullName>, b: &Pin<FullName>) -> (r: bool)
    ensures
        r == preferred(a@, b@),
{
    match (&a.target, &b.target) {
        (Target::Symbolic(_), Target::Object(_)) => true,
        (Target::Object(_), Target::Symbolic(_)) => false,
        _ => bytes::is_before(a.name.as_bytes(), b.name.as_bytes()),
    }
}

fn is_way_back(pin: &Pin<FullName>, selected: ObjectId) -> (r: bool)
    ensures
        r == leads_back(pin@, selected),
{
    pin.is_ordinary() && pin.id == selected && match &pin.target {
        Target::Object(_) => true,
        Target::Symbolic(_) => pin.target.is_on_branch(),
    }
}

/// Finds the pin through which HEAD returns to a commit.
pub fn selected_pin(pins: &Vec<Pin<FullName>>, selected: ObjectId) -> (r: Option<usize>)
    ensures
        bytes::index_of(r) == best_pin(viewed(pins@), selected, 0, None),
        r matches Some(i) ==> i < pins@.len(),
{
    let ghost all = viewed(pins@);
    let mut best: Option<usize> = None;
    let mut at: usize = 0;
    while at < pins.len()
        invariant
            at <= pins@.len(),
            all == viewed(pins@),
            best matches Some(found) ==> found < at,
            best_pin(all, selected, 0, None) == best_pin(
                all,
                selected,
                at as int,
                bytes::index_of(best),
            ),
        decreases pins@.len() - at,
    {
        assert(all[at as int] == pins@[at as int]@);
        if is_way_back(&pins[at], selected) {
            let better = match best {
                Some(found) => {
                    assert(all[found as int] == pins@[found as int]@);
                    is_preferred(&pins[at], &pins[found])
                },
                None => true,
            };
            if better {
                best = Some(at);
            }
        }
        at = at + 1;
    }
    best
}

proof fn best_pin_wins(
    pins: Seq<Pin<Seq<u8>>>,
    selected: ObjectId,
    at: int,
    best: Option<int>,
)
    requires
        0 <= at <= pins.len(),
        best matches Some(found) ==> 0 <= found < at && leads_back(pins[found], selected),
        best is None ==> forall|i: int| 0 <= i < at ==> !leads_back(#[trigger] pins[i], selected),
        best matches Some(found) ==> forall|i: int|
            0 <= i < at && leads_back(#[trigger] pins[i], selected) ==> !preferred(
                pins[i],
                pins[found],
            ),
    ensures
        match best_pin(pins, selected, at, best) {
            Some(found) => 0 <= found < pins.len() && leads_back(pins[found], selected) && (forall|
                i: int,
            |
                0 <= i < pins.len() && leads_back(#[trigger] pins[i], selected) ==> !preferred(
                    pins[i],
                    pins[found],
                )),
            None => forall|i: int|
                0 <= i < pins.len() ==> !leads_back(#[trigger] pins[i], selected),
        },
    decreases pins.len() - at,
{
    if at < pins.len() {
        if leads_back(pins[at], selected) && (best matches Some(found) ==> preferred(
            pins[at],
            pins[found],
        )) {
            assert forall|i: int|
                0 <= i < at + 1 && leads_back(#[trigger] pins[i], selected) implies !preferred(
                pins[i],
                pins[at],
            ) by {
                before_irreflexive(pins[at].name);
                if i < at {
                    let found = best->0;
                    if preferred(pins[i], pins[at]) {
                        if before(pins[i].name, pins[at].name) && before(
                            pins[at].name,
                            pins[found].name,
                        ) {
                            before_transitive(pins[i].name, pins[at].name, pins[found].name);
                        }
                        assert(preferred(pins[i], pins[found]));
                    }
                }
            }
            best_pin_wins(pins, selected, at + 1, Some(at));
        } else {
            best_pin_wins(pins, selected, at + 1, best);
        }
    }
}

/// HEAD returns through a pin if one leads to the commit, and no other one is preferred to it.
pub proof fn selected_pins_are_the_best(pins: Seq<Pin<Seq<u8>>>, selected: ObjectId)
    ensures
        match best_pin(pins, selected, 0, None) {
            Some(found) => 0 <= found < pins.len() && leads_back(pins[found], selected) && (forall|
                i: int,
            |
                0 <= i < pins.len() && leads_back(#[trigger] pins[i], selected) ==> !preferred(
                    pins[i],
                    pins[found],
                )),
            None => forall|i: int|
                0 <= i < pins.len() ==> !leads_back(#[trigger] pins[i], selected),
        },
{
    best_pin_wins(pins, selected, 0, None);
}

/// The first ordinary pin at or after `at` that points at a target.
pub open spec fn pin_at(pins: Seq<Pin<Seq<u8>>>, target: Target<Seq<u8>>, at: int) -> Option<int>
    decreases pins.len() - at,
{
    if at < 0 || at >= pins.len() {
        None
    } else if ordinary(pins[at]) && pins[at].target == target {
        Some(at)
    } else {
        pin_at(pins, target, at + 1)
    }
}

/// Finds an ordinary pin that points at a target.
pub fn reusable_pin(pins: &Vec<Pin<FullName>>, target: &Target<FullName>) -> (r: Option<usize>)
    ensures
        bytes::index_of(r) == pin_at(viewed(pins@), target@, 0),
        r matches Some(i) ==> i < pins@.len(),
{
    let ghost all = viewed(pins@);
    let mut at: usize = 0;
    while at < pins.len()
        invariant
            at <= pins@.len(),
            all == viewed(pins@),
            pin_at(all, target@, 0) == pin_at(all, target@, at as int),
        decreases pins@.len() - at,
    {
        assert(all[at as int] == pins@[at as int]@);
        if pins[at].is_ordinary() && pins[at].target.same(target) {
            return Some(at);
        }
        at = at + 1;
    }
    None
}

/// The first pin at or after `at` that remembers the branch which HEAD left.
pub open spec fn head_pin_from(pins: Seq<Pin<Seq<u8>>>, at: int) -> Option<int>
    decreases pins.len() - at,
{
    if at < 0 || at >= pins.len() {
        None
    } else if head_pin(pins[at]) {
        Some(at)
    } else {
        head_pin_from(pins, at + 1)
    }
}

/// Finds the pin that remembers the branch which HEAD left.
pub fn find_head_pin(pins: &Vec<Pin<FullName>>) -> (r: Option<usize>)
    ensures
        bytes::index_of(r) == head_pin_from(viewed(pins@), 0),
        r matches Some(i) ==> i < pins@.len() && head_pin(pins@[i as int]@),
{
    let ghost all = viewed(pins@);
    let mut at: usize = 0;
    while at < pins.len()
        invariant
            at <= pins@.len(),
            all == viewed(pins@),
            head_pin_from(all, 0) == head_pin_from(all, at as int),
        decreases pins@.len() - at,
    {
        assert(all[at as int] == pins@[at as int]@);
        if pins[at].is_head() {
            return Some(at);
        }
        at = at + 1;
    }
    None
}

/// What the name of a pin ends in: as few digits of the commit as it takes from eight on, and then a
/// number from two on behind all of them.
pub open spec fn pin_suffix(id: ObjectId, attempt: nat) -> Seq<u8> {
    if attempt <= 32 {
        hex_of(id).take(8 + attempt as int)
    } else {
        hex_of(id) + decimal((attempt - 31) as nat)
    }
}

/// A name for a pin of a commit.
pub open spec fn pin_name(id: ObjectId, attempt: nat) -> Seq<u8> {
    PIN_PREFIX.spec_bytes() + pin_suffix(id, attempt)
}

/// The first name for a pin that is not taken, among those from an attempt on.
pub open spec fn free_name(
    id: ObjectId,
    taken: Seq<Seq<u8>>,
    attempt: nat,
    left: nat,
) -> Result<Seq<u8>, TravelError>
    decreases left,
{
    let name = pin_name(id, attempt);
    if !valid_name(name) {
        Err(TravelError::InvalidName)
    } else if !taken.contains(name) {
        Ok(name)
    } else if left == 0 {
        Err(TravelError::NoPinName)
    } else {
        free_name(id, taken, attempt + 1, (left - 1) as nat)
    }
}

fn write_pin_name(id: ObjectId, attempt: usize) -> (r: Vec<u8>)
    ensures
        r@ == pin_name(id, attempt as nat),
{
    let hex = id.to_hex();
    proof {
        hex_round_trip(id);
    }
    let mut name = bytes::copied(PIN_PREFIX.as_bytes());
    if attempt <= 32 {
        bytes::append(&mut name, bytes::head_of(hex.as_slice(), 8 + attempt));
    } else {
        bytes::append(&mut name, hex.as_slice());
        let number = to_decimal(attempt - 31);
        bytes::append(&mut name, number.as_slice());
        assert(name@ == PIN_PREFIX.spec_bytes() + pin_suffix(id, attempt as nat));
    }
    name
}

/// The name for a new pin of a commit, given the names that are taken.
pub fn new_pin_name(id: ObjectId, taken: &Vec<FullName>) -> (r: Result<FullName, TravelError>)
    ensures
        match r {
            Ok(name) => free_name(id, viewed(taken@), 0, taken@.len()) == Ok::<_, TravelError>(
                name@,
            ),
            Err(err) => free_name(id, viewed(taken@), 0, taken@.len()) == Err::<Seq<u8>, _>(err),
        },
{
    let total: usize = taken.len();
    let mut attempt: usize = 0;
    loop
        invariant
            attempt <= total,
            total == taken@.len(),
            free_name(id, viewed(taken@), 0, taken@.len()) == free_name(
                id,
                viewed(taken@),
                attempt as nat,
                (total - attempt) as nat,
            ),
        decreases total - attempt,
    {
        let text = write_pin_name(id, attempt);
        let name = match FullName::new(text.as_slice()) {
            Some(name) => name,
            None => {
                return Err(TravelError::InvalidName);
            },
        };
        if !contains_name(taken, &name) {
            return Ok(name);
        }
        if attempt == total {
            return Err(TravelError::NoPinName);
        }
        attempt = attempt + 1;
    }
}

/// Different attempts give different names.
pub proof fn pin_names_differ(id: ObjectId, a: nat, b: nat)
    requires
        a < b,
    ensures
        pin_name(id, a) != pin_name(id, b),
{
    hex_round_trip(id);
    let prefix = PIN_PREFIX.spec_bytes();
    if pin_name(id, a) == pin_name(id, b) {
        assert(pin_suffix(id, a) == pin_name(id, a).skip(prefix.len() as int));
        assert(pin_suffix(id, b) == pin_name(id, b).skip(prefix.len() as int));
        if b > 32 {
            let number = decimal((b - 31) as nat);
            assert(pin_suffix(id, b).skip(40) == number);
            crate::text::decimal_is_not_empty((b - 31) as nat);
            if a > 32 {
                assert(pin_suffix(id, a).skip(40) == decimal((a - 31) as nat));
                decimal_is_injective((a - 31) as nat, (b - 31) as nat);
            }
        }
    }
}

proof fn all_are_taken(id: ObjectId, taken: Seq<Seq<u8>>, attempts: nat)
    requires
        forall|k: nat| k < attempts ==> #[trigger] taken.contains(pin_name(id, k)),
    ensures
        attempts <= taken.len(),
{
    let names = Seq::new(attempts, |k: int| pin_name(id, k as nat));
    assert(names.no_duplicates()) by {
        assert forall|i: int, j: int|
            0 <= i < names.len() && 0 <= j < names.len() && i != j implies names[i] != names[j] by {
            if i < j {
                pin_names_differ(id, i as nat, j as nat);
            } else {
                pin_names_differ(id, j as nat, i as nat);
            }
        }
    }
    names.unique_seq_to_set();
    taken.lemma_cardinality_of_set();
    assert(names.to_set().subset_of(taken.to_set())) by {
        assert forall|name: Seq<u8>| names.to_set().contains(name) implies taken.to_set().contains(
            name,
        ) by {
            let k = choose|k: int| 0 <= k < names.len() && names[k] == name;
            assert(taken.contains(pin_name(id, k as nat)));
        }
    }
    broadcast use vstd::seq_lib::seq_to_set_is_finite;

    vstd::set_lib::lemma_len_subset(names.to_set(), taken.to_set());
}

proof fn names_are_found(id: ObjectId, taken: Seq<Seq<u8>>, attempt: nat, left: nat)
    requires
        attempt + left == taken.len(),
        forall|k: nat| k < attempt ==> #[trigger] taken.contains(pin_name(id, k)),
    ensures
        match free_name(id, taken, attempt, left) {
            Ok(name) => !taken.contains(name) && valid_name(name) && has_prefix(
                name,
                PIN_PREFIX.spec_bytes(),
            ),
            Err(err) => err == TravelError::InvalidName,
        },
    decreases left,
{
    let name = pin_name(id, attempt);
    assert(name.take(PIN_PREFIX.spec_bytes().len() as int) == PIN_PREFIX.spec_bytes());
    if valid_name(name) && taken.contains(name) {
        assert forall|k: nat| k < attempt + 1 implies #[trigger] taken.contains(pin_name(id, k)) by {
        }
        if left == 0 {
            all_are_taken(id, taken, attempt + 1);
        } else {
            names_are_found(id, taken, attempt + 1, (left - 1) as nat);
        }
    }
}

/// There is always a name for a new pin, and no other reference has it.
pub proof fn new_pins_have_names(id: ObjectId, taken: Seq<Seq<u8>>)
    ensures
        match free_name(id, taken, 0, taken.len()) {
            Ok(name) => !taken.contains(name) && valid_name(name) && has_prefix(
                name,
                PIN_PREFIX.spec_bytes(),
            ),
            Err(err) => err == TravelError::InvalidName,
        },
{
    names_are_found(id, taken, 0, taken.len());
}

/// The edit that makes a pin which does not exist.
pub open spec fn creation(pin: Pin<Seq<u8>>) -> RefEdit<Seq<u8>> {
    RefEdit {
        name: pin.name,
        change: Change::Update {
            expected: PreviousValue::MustNotExist,
            new: pin.target,
            log: RefLog::AndReference,
        },
    }
}

/// The edit that removes a pin which still points at its target.
pub open spec fn deletion(pin: Pin<Seq<u8>>) -> RefEdit<Seq<u8>> {
    RefEdit {
        name: pin.name,
        change: Change::Delete {
            expected: PreviousValue::MustExistAndMatch(pin.target),
            log: RefLog::AndReference,
        },
    }
}

/// The edit that makes a pin.
pub fn create_pin_edit(pin: &Pin<FullName>) -> (r: RefEdit<FullName>)
    ensures
        r@ == creation(pin@),
{
    RefEdit {
        name: pin.name.clone(),
        change: Change::Update {
            expected: PreviousValue::MustNotExist,
            new: pin.target.copy(),
            log: RefLog::AndReference,
        },
    }
}

/// The edit that removes a pin.
pub fn delete_pin_edit(pin: &Pin<FullName>) -> (r: RefEdit<FullName>)
    ensures
        r@ == deletion(pin@),
{
    RefEdit {
        name: pin.name.clone(),
        change: Change::Delete {
            expected: PreviousValue::MustExistAndMatch(pin.target.copy()),
            log: RefLog::AndReference,
        },
    }
}

/// A pin to use: one that there is already, or a new one.
#[derive(PartialEq, Eq, Debug)]
pub struct Pinned<P> {
    pub pin: P,
    pub created: bool,
}

/// The pin to use for a target and the commit that it leads to.
pub open spec fn pinned(
    pins: Seq<Pin<Seq<u8>>>,
    taken: Seq<Seq<u8>>,
    target: Target<Seq<u8>>,
    id: ObjectId,
) -> Result<Pinned<Pin<Seq<u8>>>, TravelError> {
    match pin_at(pins, target, 0) {
        Some(found) => Ok(Pinned { pin: pins[found], created: false }),
        None => match free_name(id, taken, 0, taken.len()) {
            Ok(name) => Ok(Pinned { pin: Pin { name, target, id }, created: true }),
            Err(err) => Err(err),
        },
    }
}

/// The pin to use for a target, which is made under a new name if there is none yet.
pub fn create_or_reuse_pin(
    pins: &Vec<Pin<FullName>>,
    taken: &Vec<FullName>,
    target: Target<FullName>,
    id: ObjectId,
) -> (r: Result<Pinned<Pin<FullName>>, TravelError>)
    ensures
        match r {
            Ok(found) => pinned(viewed(pins@), viewed(taken@), target@, id) == Ok::<_, TravelError>(
                Pinned { pin: found.pin@, created: found.created },
            ),
            Err(err) => pinned(viewed(pins@), viewed(taken@), target@, id) == Err::<
                Pinned<Pin<Seq<u8>>>,
                _,
            >(err),
        },
{
    if let Some(found) = reusable_pin(pins, &target) {
        assert(viewed(pins@)[found as int] == pins@[found as int]@);
        return Ok(Pinned { pin: pins[found].copy(), created: false });
    }
    match new_pin_name(id, taken) {
        Ok(name) => Ok(Pinned { pin: Pin { name, target, id }, created: true }),
        Err(err) => Err(err),
    }
}

/// The edit that remembers the branch which HEAD leaves, given what the pin of HEAD holds.
pub open spec fn remembering(branch: Seq<u8>, existing: State<Seq<u8>>) -> RefEdit<Seq<u8>> {
    RefEdit {
        name: HEAD_PIN_NAME.spec_bytes(),
        change: Change::Update {
            expected: exactly(existing),
            new: Target::Symbolic(branch),
            log: RefLog::AndReference,
        },
    }
}

/// The edit that remembers the branch which HEAD leaves.
pub fn head_pin_edit(branch: &FullName, existing: &State<FullName>) -> (r: Result<
    RefEdit<FullName>,
    TravelError,
>)
    ensures
        match r {
            Ok(edit) => edit@ == remembering(branch@, existing@) && valid_name(
                HEAD_PIN_NAME.spec_bytes(),
            ),
            Err(err) => err == TravelError::InvalidName && !valid_name(HEAD_PIN_NAME.spec_bytes()),
        },
{
    let name = match FullName::new(HEAD_PIN_NAME.as_bytes()) {
        Some(name) => name,
        None => {
            return Err(TravelError::InvalidName);
        },
    };
    let expected = match existing {
        State::Missing => PreviousValue::MustNotExist,
        State::Object(id) => PreviousValue::MustExistAndMatch(Target::Object(*id)),
        State::Symbolic(name) => PreviousValue::MustExistAndMatch(Target::Symbolic(name.clone())),
    };
    Ok(
        RefEdit {
            name,
            change: Change::Update {
                expected,
                new: Target::Symbolic(branch.clone()),
                log: RefLog::AndReference,
            },
        },
    )
}

/// The edits that remove the ordinary pins of a commit.
pub open spec fn removals(pins: Seq<Pin<Seq<u8>>>, selected: ObjectId) -> Seq<RefEdit<Seq<u8>>>
    decreases pins.len(),
{
    if pins.len() == 0 {
        Seq::<RefEdit<Seq<u8>>>::empty()
    } else {
        let edits = removals(pins.drop_last(), selected);
        let pin = pins.last();
        if ordinary(pin) && pin.id == selected {
            edits.push(deletion(pin))
        } else {
            edits
        }
    }
}

/// The edits that remove the ordinary pins of a commit, as many as there are pins.
pub fn remove_pins(pins: &Vec<Pin<FullName>>, selected: ObjectId) -> (r: Vec<RefEdit<FullName>>)
    ensures
        viewed(r@) == removals(viewed(pins@), selected),
{
    let ghost all = viewed(pins@);
    let mut edits: Vec<RefEdit<FullName>> = Vec::new();
    let total: usize = pins.len();
    let mut at: usize = 0;
    assert(all.take(0) == Seq::<Pin<Seq<u8>>>::empty());
    assert(viewed(edits@) == removals(all.take(0), selected));
    while at < total
        invariant
            at <= total,
            total == pins@.len(),
            all == viewed(pins@),
            viewed(edits@) == removals(all.take(at as int), selected),
        decreases total - at,
    {
        assert(all.take(at as int + 1).drop_last() == all.take(at as int));
        assert(all[at as int] == pins@[at as int]@);
        if pins[at].is_ordinary() && pins[at].id == selected {
            let edit = delete_pin_edit(&pins[at]);
            proof {
                viewed_push(edits@, edit);
            }
            edits.push(edit);
        }
        at = at + 1;
    }
    assert(all.take(total as int) == all);
    edits
}

/// What toggling the pins of a commit does: it removes those that there are, or makes one.
#[derive(PartialEq, Eq, Debug)]
pub enum Toggle<E, P> {
    Remove(E),
    Use(P),
}

/// What toggling the pins of a commit does.
pub open spec fn toggled(
    pins: Seq<Pin<Seq<u8>>>,
    taken: Seq<Seq<u8>>,
    selected: ObjectId,
) -> Result<Toggle<Seq<RefEdit<Seq<u8>>>, Pinned<Pin<Seq<u8>>>>, TravelError> {
    let edits = removals(pins, selected);
    if edits.len() > 0 {
        Ok(Toggle::Remove(edits))
    } else {
        match pinned(pins, taken, Target::Object(selected), selected) {
            Ok(found) => Ok(Toggle::Use(found)),
            Err(err) => Err(err),
        }
    }
}

/// Toggles the pins of a commit.
pub fn toggle_pin(pins: &Vec<Pin<FullName>>, taken: &Vec<FullName>, selected: ObjectId) -> (r: Result<
    Toggle<Vec<RefEdit<FullName>>, Pinned<Pin<FullName>>>,
    TravelError,
>)
    ensures
        match r {
            Ok(Toggle::Remove(edits)) => toggled(viewed(pins@), viewed(taken@), selected) == Ok::<
                _,
                TravelError,
            >(Toggle::<_, Pinned<Pin<Seq<u8>>>>::Remove(viewed(edits@))),
            Ok(Toggle::Use(found)) => toggled(viewed(pins@), viewed(taken@), selected) == Ok::<
                _,
                TravelError,
            >(
                Toggle::<Seq<RefEdit<Seq<u8>>>, _>::Use(
                    Pinned { pin: found.pin@, created: found.created },
                ),
            ),
            Err(err) => toggled(viewed(pins@), viewed(taken@), selected) == Err::<
                Toggle<Seq<RefEdit<Seq<u8>>>, Pinned<Pin<Seq<u8>>>>,
                _,
            >(err),
        },
{
    let edits = remove_pins(pins, selected);
    assert(viewed(edits@).len() == edits@.len());
    if edits.len() > 0 {
        return Ok(Toggle::Remove(edits));
    }
    match create_or_reuse_pin(pins, taken, Target::Object(selected), selected) {
        Ok(found) => Ok(Toggle::Use(found)),
        Err(err) => Err(err),
    }
}

/// The edits that delete branches which still lead to the commits they led to.
pub open spec fn deferred(refs: Seq<(Seq<u8>, ObjectId)>) -> Seq<RefEdit<Seq<u8>>> {
    Seq::new(
        refs.len(),
        |i: int|
            deletion(Pin { name: refs[i].0, target: Target::Object(refs[i].1), id: refs[i].1 }),
    )
}

/// Deletions in specifications.
pub open spec fn named(refs: Seq<(FullName, ObjectId)>) -> Seq<(Seq<u8>, ObjectId)> {
    Seq::new(refs.len(), |i: int| (refs[i].0@, refs[i].1))
}

/// The edits that delete the branches which HEAD had to leave first.
pub fn deferred_deletions(refs: &Vec<(FullName, ObjectId)>) -> (r: Vec<RefEdit<FullName>>)
    ensures
        viewed(r@) == deferred(named(refs@)),
{
    let ghost all = deferred(named(refs@));
    let mut edits: Vec<RefEdit<FullName>> = Vec::new();
    let mut at: usize = 0;
    assert(viewed(edits@) == all.take(0));
    while at < refs.len()
        invariant
            at <= refs@.len(),
            all == deferred(named(refs@)),
            viewed(edits@) == all.take(at as int),
        decreases refs@.len() - at,
    {
        let (name, id) = &refs[at];
        let edit = RefEdit {
            name: name.clone(),
            change: Change::Delete {
                expected: PreviousValue::MustExistAndMatch(Target::Object(*id)),
                log: RefLog::AndReference,
            },
        };
        proof {
            viewed_push(edits@, edit);
            assert(edit@ == all[at as int]);
            assert(all.take(at as int + 1) == all.take(at as int).push(all[at as int]));
        }
        edits.push(edit);
        at = at + 1;
    }
    assert(all.take(refs@.len() as int) == all);
    edits
}

/// The edits that remove the pins among those given that were made.
pub open spec fn cleanup(pins: Seq<Pinned<Pin<Seq<u8>>>>) -> Seq<RefEdit<Seq<u8>>>
    decreases pins.len(),
{
    if pins.len() == 0 {
        Seq::<RefEdit<Seq<u8>>>::empty()
    } else if pins.last().created {
        cleanup(pins.drop_last()).push(deletion(pins.last().pin))
    } else {
        cleanup(pins.drop_last())
    }
}

/// The edits that take back a pin if it was made.
pub fn cleanup_new_pin(pin: &Pinned<Pin<FullName>>) -> (r: Vec<RefEdit<FullName>>)
    ensures
        viewed(r@) == cleanup(seq![Pinned { pin: pin.pin@, created: pin.created }]),
{
    let mut edits: Vec<RefEdit<FullName>> = Vec::new();
    let ghost one = seq![Pinned { pin: pin.pin@, created: pin.created }];
    proof {
        reveal_with_fuel(cleanup, 2);
        assert(one.drop_last() == Seq::<Pinned<Pin<Seq<u8>>>>::empty());
        assert(viewed(edits@) == Seq::<RefEdit<Seq<u8>>>::empty());
    }
    if pin.created {
        let edit = delete_pin_edit(&pin.pin);
        proof {
            viewed_push(edits@, edit);
        }
        edits.push(edit);
    }
    edits
}

} // verus!
