//! Attaching HEAD to the branch that it left, which moves to where HEAD is.
use vstd::prelude::*;
use vstd::string::StringSliceAdditionalSpecFns;
use crate::auto_merge::choices::{tracks, tracks_reference};
use crate::auto_merge::definition::Header;
use crate::auto_merge::MergeError;
use crate::bytes;
use crate::bytes::{before, has_prefix};
use crate::ids::{hex_of, hex_round_trip, ObjectId};
use crate::names::{short_name, valid_name, FullName};
use crate::plan::{viewed, viewed_push, Plan, PlanRef, PlanView, RefDestination, StepView};
use crate::refs::{contains_name, Reference, State};
use crate::text::{lossy, to_str_lossy};
use crate::time_travel::journey::pin_at_points_there;
use crate::time_travel::moves::{
    attach_head_edit, attaching, change_before, consumed, find_consumed, Checkout, CurrentJourney,
    CurrentWorktree, Journey, JourneyView, Stage, WorktreeView,
};
use crate::time_travel::pins::{
    best_pin, create_or_reuse_pin, create_pin_edit, creation, find_head_pin, head_pin_from, pinned,
    selected_pin, Pin, Pinned, HEADS,
};
use crate::time_travel::TravelError;
use crate::undo::changes::{
    applied, combined, effective, normalized, slot, with_change, Change, PreviousValue, RefChange,
    RefEdit, RefLog, Store, Target,
};
use crate::undo::worktrees::HEAD;
use crate::undo::{queue_ref, UndoError, CURSOR_REF, TIP_REF};

verus! {

/// A branch that HEAD left, and the commit that it leads to.
#[derive(PartialEq, Eq, Debug)]
pub struct RememberedBranch<N> {
    pub branch: N,
    pub branch_tip: ObjectId,
}

impl<N: View> View for RememberedBranch<N> {
    type V = RememberedBranch<N::V>;

    open spec fn view(&self) -> RememberedBranch<N::V> {
        RememberedBranch { branch: self.branch@, branch_tip: self.branch_tip }
    }
}

/// The branch that the pin of HEAD remembers.
pub open spec fn remembered(pins: Seq<Pin<Seq<u8>>>) -> Result<
    RememberedBranch<Seq<u8>>,
    TravelError,
> {
    match head_pin_from(pins, 0) {
        None => Err(TravelError::NoHeadPin),
        Some(i) => match pins[i].target {
            Target::Symbolic(branch) => if has_prefix(branch, HEADS.spec_bytes()) {
                Ok(RememberedBranch { branch, branch_tip: pins[i].id })
            } else {
                Err(TravelError::HeadPinOffBranch)
            },
            Target::Object(_) => Err(TravelError::HeadPinOffBranch),
        },
    }
}

/// The branch that the pin of HEAD remembers.
pub fn remembered_branch(pins: &Vec<Pin<FullName>>) -> (r: Result<
    RememberedBranch<FullName>,
    TravelError,
>)
    ensures
        match r {
            Ok(found) => remembered(viewed(pins@)) == Ok::<_, TravelError>(found@),
            Err(err) => remembered(viewed(pins@)) == Err::<RememberedBranch<Seq<u8>>, _>(err),
        },
{
    match find_head_pin(pins) {
        None => Err(TravelError::NoHeadPin),
        Some(i) => {
            assert(viewed(pins@)[i as int] == pins@[i as int]@);
            match &pins[i].target {
                Target::Symbolic(branch) => if bytes::starts_with(
                    branch.as_bytes(),
                    HEADS.as_bytes(),
                ) {
                    Ok(RememberedBranch { branch: branch.clone(), branch_tip: pins[i].id })
                } else {
                    Err(TravelError::HeadPinOffBranch)
                },
                Target::Object(_) => Err(TravelError::HeadPinOffBranch),
            }
        },
    }
}

/// Whether no other worktree is on a branch.
pub fn is_branch_available(branch: &FullName, elsewhere: &Vec<FullName>) -> (r: bool)
    ensures
        r == !viewed(elsewhere@).contains(branch@),
{
    !contains_name(elsewhere, branch)
}

/// Why HEAD, which was detached at a commit, cannot be attached to the branch that it left, given what
/// the branch holds.
pub open spec fn attach_error(
    worktree: WorktreeView,
    head_id: ObjectId,
    known: RememberedBranch<Seq<u8>>,
    branch: State<Seq<u8>>,
) -> Option<TravelError> {
    if worktree.head is Symbolic || worktree.head_id != Some(head_id) {
        Some(TravelError::HeadChanged)
    } else {
        match head_pin_from(worktree.pins, 0) {
            None => Some(TravelError::HeadPinDisappeared),
            Some(i) => if worktree.pins[i].target != Target::Symbolic(known.branch)
                || worktree.pins[i].id != known.branch_tip {
                Some(TravelError::HeadPinChanged)
            } else {
                match branch {
                    State::Missing => Some(TravelError::BranchDisappeared),
                    State::Symbolic(_) => Some(TravelError::BranchNotDirect),
                    State::Object(id) => if id != known.branch_tip {
                        Some(TravelError::BranchChanged)
                    } else if worktree.elsewhere.contains(known.branch) {
                        Some(TravelError::BranchElsewhere)
                    } else {
                        None
                    },
                }
            },
        }
    }
}

/// Checks that HEAD can be attached to the branch that it left.
pub fn validate_attach(
    worktree: &CurrentWorktree,
    head_id: ObjectId,
    known: &RememberedBranch<FullName>,
    branch: &State<FullName>,
) -> (r: Result<(), TravelError>)
    ensures
        match r {
            Ok(()) => attach_error(worktree@, head_id, known@, branch@) is None,
            Err(err) => attach_error(worktree@, head_id, known@, branch@) == Some(err),
        },
{
    let attached = match &worktree.head {
        State::Symbolic(_) => true,
        _ => false,
    };
    let there = match worktree.head_id {
        Some(id) => id == head_id,
        None => false,
    };
    if attached || !there {
        return Err(TravelError::HeadChanged);
    }
    let i = match find_head_pin(&worktree.pins) {
        None => {
            return Err(TravelError::HeadPinDisappeared);
        },
        Some(i) => i,
    };
    assert(viewed(worktree.pins@)[i as int] == worktree.pins@[i as int]@);
    let pin = &worktree.pins[i];
    let same_branch = match &pin.target {
        Target::Symbolic(name) => name.same(&known.branch),
        Target::Object(_) => false,
    };
    if !same_branch || pin.id != known.branch_tip {
        return Err(TravelError::HeadPinChanged);
    }
    match branch {
        State::Missing => Err(TravelError::BranchDisappeared),
        State::Symbolic(_) => Err(TravelError::BranchNotDirect),
        State::Object(id) => if *id != known.branch_tip {
            Err(TravelError::BranchChanged)
        } else if is_branch_available(&known.branch, &worktree.elsewhere) {
            Ok(())
        } else {
            Err(TravelError::BranchElsewhere)
        },
    }
}

/// The edit that moves a branch.
pub open spec fn moving(name: Seq<u8>, old_id: ObjectId, new_id: ObjectId) -> RefEdit<Seq<u8>> {
    RefEdit {
        name,
        change: Change::Update {
            expected: PreviousValue::MustExistAndMatch(Target::Object(old_id)),
            new: Target::Object(new_id),
            log: RefLog::AndReference,
        },
    }
}

/// The edits that move the branch to where HEAD is, if it is elsewhere, and attach HEAD to it.
pub open spec fn attach_edits(known: RememberedBranch<Seq<u8>>, head_id: ObjectId) -> Seq<
    RefEdit<Seq<u8>>,
> {
    let attach = attaching(head_id, known.branch);
    if known.branch_tip == head_id {
        seq![attach]
    } else {
        seq![moving(known.branch, known.branch_tip, head_id), attach]
    }
}

/// The pin that keeps the old tip of the branch in view, unless HEAD contains it.
pub open spec fn old_tip_pin(
    worktree: WorktreeView,
    known: RememberedBranch<Seq<u8>>,
    head_id: ObjectId,
    contained: bool,
) -> Result<Option<Pinned<Pin<Seq<u8>>>>, TravelError> {
    if known.branch_tip == head_id || contained {
        Ok(None)
    } else {
        match pinned(
            worktree.pins,
            worktree.taken,
            Target::Object(known.branch_tip),
            known.branch_tip,
        ) {
            Ok(found) => Ok(Some(found)),
            Err(err) => Err(err),
        }
    }
}

/// What is to be done to attach HEAD: a pin to make first, the edits to make together, and what is left
/// to do then.
#[derive(PartialEq, Eq, Debug)]
pub struct Attachment<P, E, J> {
    pub pin: Option<P>,
    pub edits: E,
    pub journey: J,
}

/// What is to be done to attach HEAD, in specifications.
pub type AttachmentView = Attachment<Pinned<Pin<Seq<u8>>>, Seq<RefEdit<Seq<u8>>>, JourneyView>;

/// The changes that edits make.
pub open spec fn changes_by(edits: Seq<RefEdit<Seq<u8>>>) -> Seq<RefChange<Seq<u8>>> {
    Seq::new(edits.len(), |i: int| change_before(edits[i]))
}

/// The changes that attaching HEAD is reported as, in the order of the references: that of HEAD, and that
/// of the branch if it moves.
pub open spec fn attach_changes(known: RememberedBranch<Seq<u8>>, head_id: ObjectId) -> Seq<
    RefChange<Seq<u8>>,
> {
    let attach = change_before(attaching(head_id, known.branch));
    if known.branch_tip == head_id {
        seq![attach]
    } else {
        seq![attach, change_before(moving(known.branch, known.branch_tip, head_id))]
    }
}

/// What is left to do once HEAD is attached.
pub open spec fn attached_journey(
    worktree: WorktreeView,
    known: RememberedBranch<Seq<u8>>,
    head_id: ObjectId,
    pin: Option<Pinned<Pin<Seq<u8>>>>,
) -> JourneyView {
    let destination = consumed(
        worktree,
        match best_pin(worktree.pins, head_id, 0, None) {
            Some(i) => Some(worktree.pins[i]),
            None => None,
        },
    );
    let made = match pin {
        Some(found) if found.created => seq![change_before(creation(found.pin))],
        _ => Seq::<RefChange<Seq<u8>>>::empty(),
    };
    Journey {
        stage: if destination is Some {
            Stage::RemoveDestination
        } else if pin is Some {
            Stage::InspectTips
        } else {
            Stage::Arrived
        },
        checkout: Checkout::Branch(known.branch),
        head_before: State::Object(head_id),
        head_after: State::Symbolic(known.branch),
        destination,
        provisional: match pin {
            Some(found) => Some(found.pin),
            None => None,
        },
        stays: pin matches Some(found) && worktree.followed.contains(found.pin.name),
        reconciles: false,
        changes: made + attach_changes(known, head_id),
        notice: "attached ".spec_bytes() + lossy(short_name(known.branch)) + " at ".spec_bytes()
            + hex_of(head_id).take(7),
    }
}

/// Why the branch that HEAD left cannot move to the commit that HEAD is at: that is an automatic merge
/// which follows the branch, and would then track itself.
pub open spec fn tracking_error(
    references: Seq<Reference<Seq<u8>>>,
    headers: Seq<Header<Seq<u8>>>,
    branch: Seq<u8>,
) -> Option<TravelError> {
    match tracks(references, headers, branch) {
        Err(err) => Some(TravelError::Merge(err)),
        Ok(true) => Some(TravelError::TracksItself),
        Ok(false) => None,
    }
}

/// What is to be done to attach HEAD to the branch that it left. `branch` is what that holds, `contained`
/// is whether HEAD contains its tip, and `headers` are those of the commit that HEAD is at.
pub open spec fn attachment(
    worktree: WorktreeView,
    branch: State<Seq<u8>>,
    contained: bool,
    headers: Seq<Header<Seq<u8>>>,
    references: Seq<Reference<Seq<u8>>>,
) -> Result<AttachmentView, TravelError> {
    if worktree.head is Symbolic {
        Err(TravelError::NotDetached)
    } else {
        match worktree.head_id {
            None => Err(TravelError::UnbornHead),
            Some(head_id) => match remembered(worktree.pins) {
                Err(err) => Err(err),
                Ok(known) => match tracking_error(references, headers, known.branch) {
                    Some(err) => Err(err),
                    None => match attach_error(worktree, head_id, known, branch) {
                        Some(err) => Err(err),
                        None => match old_tip_pin(worktree, known, head_id, contained) {
                            Err(err) => Err(err),
                            Ok(pin) => if valid_name(HEAD.spec_bytes()) {
                                Ok(
                                    Attachment {
                                        pin,
                                        edits: attach_edits(known, head_id),
                                        journey: attached_journey(worktree, known, head_id, pin),
                                    },
                                )
                            } else {
                                Err(TravelError::InvalidName)
                            },
                        },
                    },
                },
            },
        }
    }
}

fn make_edits(known: &RememberedBranch<FullName>, head_id: ObjectId) -> (r: Result<
    Vec<RefEdit<FullName>>,
    TravelError,
>)
    ensures
        match r {
            Ok(edits) => viewed(edits@) == attach_edits(known@, head_id) && valid_name(
                HEAD.spec_bytes(),
            ),
            Err(err) => err == TravelError::InvalidName && !valid_name(HEAD.spec_bytes()),
        },
{
    let attach = match attach_head_edit(head_id, &known.branch) {
        Ok(edit) => edit,
        Err(err) => {
            return Err(err);
        },
    };
    let mut edits: Vec<RefEdit<FullName>> = Vec::new();
    if known.branch_tip != head_id {
        let edit = RefEdit {
            name: known.branch.clone(),
            change: Change::Update {
                expected: PreviousValue::MustExistAndMatch(Target::Object(known.branch_tip)),
                new: Target::Object(head_id),
                log: RefLog::AndReference,
            },
        };
        edits.push(edit);
        assert(viewed(edits@) == seq![edit@]);
    }
    proof {
        viewed_push(edits@, attach);
    }
    edits.push(attach);
    assert(viewed(edits@) == attach_edits(known@, head_id));
    Ok(edits)
}

fn push_change(changes: &mut Vec<RefChange<FullName>>, edit: &RefEdit<FullName>)
    requires
        crate::undo::changes::change_of(edit@) matches Ok(Some(_)),
    ensures
        viewed(final(changes)@) == viewed(old(changes)@).push(change_before(edit@)),
{
    if let Ok(Some(change)) = RefChange::from_edit(edit) {
        proof {
            viewed_push(changes@, change);
        }
        changes.push(change);
    } else {
        assert(false);
    }
}

fn describe(
    worktree: &CurrentWorktree,
    known: &RememberedBranch<FullName>,
    head_id: ObjectId,
    pin: &Option<Pinned<Pin<FullName>>>,
    edits: &Vec<RefEdit<FullName>>,
) -> (r: CurrentJourney)
    requires
        viewed(edits@) == attach_edits(known@, head_id),
    ensures
        r@ == attached_journey(
            worktree@,
            known@,
            head_id,
            match pin {
                Some(found) => Some(Pinned { pin: found.pin@, created: found.created }),
                None => None,
            },
        ),
{
    let way = selected_pin(&worktree.pins, head_id);
    proof {
        if let Some(i) = way {
            assert(viewed(worktree.pins@)[i as int] == worktree.pins@[i as int]@);
        }
    }
    let destination = find_consumed(worktree, way);
    let mut changes: Vec<RefChange<FullName>> = Vec::new();
    assert(viewed(changes@) == Seq::<RefChange<Seq<u8>>>::empty());
    let mut provisional: Option<Pin<FullName>> = None;
    let mut stays = false;
    if let Some(found) = pin {
        provisional = Some(found.pin.copy());
        stays = contains_name(&worktree.followed, &found.pin.name);
        if found.created {
            push_change(&mut changes, &create_pin_edit(&found.pin));
        }
    }
    let ghost made = viewed(changes@);
    let mut at: usize = edits.len();
    assert(viewed(edits@).len() == edits@.len());
    assert(viewed(changes@) == made + attach_changes(known@, head_id).take(0));
    while at > 0
        invariant
            at <= edits@.len(),
            viewed(edits@).len() == edits@.len(),
            viewed(edits@) == attach_edits(known@, head_id),
            viewed(changes@) == made + attach_changes(known@, head_id).take(
                edits@.len() - at,
            ),
        decreases at,
    {
        at = at - 1;
        assert(viewed(edits@)[at as int] == edits@[at as int]@);
        push_change(&mut changes, &edits[at]);
        assert(change_before(edits@[at as int]@) == attach_changes(known@, head_id)[edits@.len() - at
            - 1]);
        assert(viewed(changes@) == made + attach_changes(known@, head_id).take(
            edits@.len() - at,
        ));
    }
    assert(attach_changes(known@, head_id).take(edits@.len() as int) == attach_changes(
        known@,
        head_id,
    ));
    let stage = if destination.is_some() {
        Stage::RemoveDestination
    } else if provisional.is_some() {
        Stage::InspectTips
    } else {
        Stage::Arrived
    };
    let short = to_str_lossy(known.branch.shorten().as_slice());
    let hex = head_id.to_hex();
    proof {
        hex_round_trip(head_id);
    }
    let mut notice = bytes::joined("attached ".as_bytes(), short.as_slice());
    bytes::append(&mut notice, " at ".as_bytes());
    bytes::append(&mut notice, bytes::head_of(hex.as_slice(), 7));
    Journey {
        stage,
        checkout: Checkout::Branch(known.branch.clone()),
        head_before: State::Object(head_id),
        head_after: State::Symbolic(known.branch.clone()),
        destination,
        provisional,
        stays,
        reconciles: false,
        changes,
        notice,
    }
}

/// What is to be done to attach HEAD, in memory.
pub type CurrentAttachment = Attachment<
    Pinned<Pin<FullName>>,
    Vec<RefEdit<FullName>>,
    CurrentJourney,
>;

/// Plans to attach HEAD to the branch that it left. `branch` is what that holds, `contained` is whether
/// HEAD contains its tip, and `headers` are those of the commit that HEAD is at. HEAD stays detached if
/// that is an automatic merge which follows the branch, as it would then track itself.
pub fn plan_attach(
    worktree: &CurrentWorktree,
    branch: &State<FullName>,
    contained: bool,
    headers: &Vec<Header<Vec<u8>>>,
    references: &Vec<Reference<FullName>>,
) -> (r: Result<CurrentAttachment, TravelError>)
    ensures
        ({
            let expected = attachment(
                worktree@,
                branch@,
                contained,
                viewed(headers@),
                viewed(references@),
            );
            match r {
                Ok(found) => expected == Ok::<_, TravelError>(
                    Attachment {
                        pin: match found.pin {
                            Some(found) => Some(Pinned { pin: found.pin@, created: found.created }),
                            None => None,
                        },
                        edits: viewed(found.edits@),
                        journey: found.journey@,
                    },
                ),
                Err(err) => expected == Err::<AttachmentView, _>(err),
            }
        }),
        !(worktree.head is Symbolic) && worktree.head_id is Some && (remembered(
            worktree@.pins,
        ) matches Ok(known) && tracks(
            viewed(references@),
            viewed(headers@),
            known.branch,
        ) == Ok::<_, MergeError>(true)) ==> r == Err::<CurrentAttachment, _>(
            TravelError::TracksItself,
        ),
{
    if let State::Symbolic(_) = &worktree.head {
        return Err(TravelError::NotDetached);
    }
    let head_id = match worktree.head_id {
        None => {
            return Err(TravelError::UnbornHead);
        },
        Some(id) => id,
    };
    let known = match remembered_branch(&worktree.pins) {
        Err(err) => {
            return Err(err);
        },
        Ok(known) => known,
    };
    match tracks_reference(references, headers, &known.branch) {
        Err(err) => {
            return Err(TravelError::Merge(err));
        },
        Ok(true) => {
            return Err(TravelError::TracksItself);
        },
        Ok(false) => {},
    }
    if let Err(err) = validate_attach(worktree, head_id, &known, branch) {
        return Err(err);
    }
    let pin = if known.branch_tip == head_id || contained {
        None
    } else {
        match create_or_reuse_pin(
            &worktree.pins,
            &worktree.taken,
            Target::Object(known.branch_tip),
            known.branch_tip,
        ) {
            Ok(found) => Some(found),
            Err(err) => {
                return Err(err);
            },
        }
    };
    let edits = match make_edits(&known, head_id) {
        Ok(edits) => edits,
        Err(err) => {
            return Err(err);
        },
    };
    let journey = describe(worktree, &known, head_id, &pin, &edits);
    Ok(Attachment { pin, edits, journey })
}

/// The plan that has the automatic merges made again which follow a branch that was moved: it has no
/// steps of its own, and leaves the branch where it is.
pub open spec fn following_plan(branch: Seq<u8>, id: ObjectId) -> PlanView<PlanRef<Seq<u8>>> {
    PlanView {
        base: id,
        scope: Seq::empty(),
        steps: Seq::empty(),
        checkout: None,
        expected_refs: seq![
            PlanRef { name: branch, source: id, destination: RefDestination::Existing(id) },
        ],
    }
}

/// Plans to have the automatic merges made again which follow a branch that was moved to a commit.
pub fn plan_following(branch: &FullName, id: ObjectId) -> (r: Plan<PlanRef<FullName>>)
    ensures
        r@ == following_plan(branch@, id),
{
    let reference = PlanRef {
        name: branch.clone(),
        source: id,
        destination: RefDestination::Existing(id),
    };
    let mut expected_refs: Vec<PlanRef<FullName>> = Vec::new();
    expected_refs.push(reference);
    let plan = Plan {
        base: id,
        scope: Vec::new(),
        steps: Vec::new(),
        checkout: None,
        expected_refs,
    };
    assert(viewed(plan.expected_refs@) == seq![reference@]);
    assert(viewed(plan.steps@) == Seq::<StepView>::empty());
    plan
}

/// Attaching HEAD removes no pin that an automatic merge follows.
pub proof fn attaching_keeps_followed_pins(
    worktree: WorktreeView,
    branch: State<Seq<u8>>,
    contained: bool,
    headers: Seq<Header<Seq<u8>>>,
    references: Seq<Reference<Seq<u8>>>,
)
    requires
        attachment(worktree, branch, contained, headers, references) is Ok,
    ensures
        ({
            let journey = attachment(worktree, branch, contained, headers, references)->Ok_0.journey;
            &&& journey.stage != Stage::RemoveProvisional
            &&& journey.destination matches Some(pin) ==> !worktree.followed.contains(pin.name)
            &&& journey.provisional matches Some(pin) ==> journey.stays
                == worktree.followed.contains(pin.name)
        }),
{
}

/// Attaching HEAD keeps the old tip of the branch: HEAD contains it, or there is a pin of it.
pub proof fn old_tips_stay_in_view(
    worktree: WorktreeView,
    branch: State<Seq<u8>>,
    contained: bool,
    headers: Seq<Header<Seq<u8>>>,
    references: Seq<Reference<Seq<u8>>>,
)
    requires
        attachment(worktree, branch, contained, headers, references) is Ok,
        !contained,
        branch != State::<Seq<u8>>::Object(worktree.head_id->0),
    ensures
        attachment(worktree, branch, contained, headers, references)->Ok_0.pin matches Some(found)
            && State::<Seq<u8>>::Object(found.pin.target->Object_0) == branch && found.pin.target
            is Object,
{
    let known = remembered(worktree.pins)->Ok_0;
    pin_at_points_there(worktree.pins, Target::Object(known.branch_tip), 0);
}

/// Once HEAD is attached, it is on the branch, and the branch leads to the commit that HEAD was at. The
/// edits apply wherever HEAD and the branch hold what was found.
pub proof fn attached_branches_lead_to_head(
    worktree: WorktreeView,
    branch: State<Seq<u8>>,
    contained: bool,
    headers: Seq<Header<Seq<u8>>>,
    references: Seq<Reference<Seq<u8>>>,
    store: Store,
)
    requires
        attachment(worktree, branch, contained, headers, references) is Ok,
        store(HEAD.spec_bytes()) == State::<Seq<u8>>::Object(worktree.head_id->0),
        store(remembered(worktree.pins)->Ok_0.branch) == branch,
        remembered(worktree.pins)->Ok_0.branch != HEAD.spec_bytes(),
    ensures
        ({
            let known = remembered(worktree.pins)->Ok_0;
            let edits = attachment(worktree, branch, contained, headers, references)->Ok_0.edits;
            let after = applied(store, changes_by(edits));
            after is Some && (after->0)(HEAD.spec_bytes()) == State::Symbolic(known.branch)
                && (after->0)(known.branch) == State::<Seq<u8>>::Object(worktree.head_id->0)
        }),
{
    reveal_with_fuel(applied, 3);
    let known = remembered(worktree.pins)->Ok_0;
    let head_id = worktree.head_id->0;
    let changes = changes_by(attach_edits(known, head_id));
    if known.branch_tip != head_id {
        assert(changes.skip(1)[0] == changes[1]);
    }
}

/// Attaching HEAD is reported as the changes that its edits make, one for each reference that changes, in
/// the order of the references.
pub proof fn attaching_is_reported_in_order(known: RememberedBranch<Seq<u8>>, head_id: ObjectId)
    requires
        has_prefix(known.branch, HEADS.spec_bytes()),
    ensures
        normalized(changes_by(attach_edits(known, head_id))) == Ok::<_, UndoError>(
            attach_changes(known, head_id),
        ),
{
    broadcast use vstd::string::is_ascii_spec_bytes;

    reveal_strlit("HEAD");
    reveal_strlit("refs/heads/");
    reveal_strlit("refs/worktree/tix/undo");
    reveal_strlit("refs/worktree/tix/undo-cursor");
    assert(vstd::string::is_ascii(HEAD));
    assert(vstd::string::is_ascii(HEADS));
    assert(vstd::string::is_ascii(TIP_REF));
    assert(vstd::string::is_ascii(CURSOR_REF));
    assert(HEAD.spec_bytes() =~= seq![72u8, 69, 65, 68]);
    assert(HEADS.spec_bytes() =~= seq![114u8, 101, 102, 115, 47, 104, 101, 97, 100, 115, 47]);
    assert(TIP_REF.spec_bytes()[5] == 119);
    assert(CURSOR_REF.spec_bytes()[5] == 119);
    let branch = known.branch;
    assert(branch.take(11)[0] == branch[0] && branch.take(11)[5] == branch[5]);
    assert(!queue_ref(branch));
    assert(!queue_ref(HEAD.spec_bytes()));
    assert(before(HEAD.spec_bytes(), branch));
    let changes = changes_by(attach_edits(known, head_id));
    let attach = change_before(attaching(head_id, branch));
    reveal_with_fuel(combined, 3);
    reveal_with_fuel(effective, 3);
    reveal_with_fuel(slot, 3);
    if known.branch_tip != head_id {
        let first = change_before(moving(branch, known.branch_tip, head_id));
        assert(changes == seq![first, attach]);
        assert(Seq::<RefChange<Seq<u8>>>::empty().insert(0, first) == seq![first]);
        assert(with_change(Seq::empty(), first) == Ok::<_, UndoError>(seq![first]));
        assert(seq![first].insert(0, attach) == seq![attach, first]);
        assert(!before(branch, HEAD.spec_bytes()));
        assert(with_change(seq![first], attach) == Ok::<_, UndoError>(seq![attach, first]));
        assert(effective(seq![attach, first], 2) == seq![attach, first]);
    } else {
        assert(changes == seq![attach]);
        assert(Seq::<RefChange<Seq<u8>>>::empty().insert(0, attach) == seq![attach]);
        assert(with_change(Seq::empty(), attach) == Ok::<_, UndoError>(seq![attach]));
        assert(effective(seq![attach], 1) == seq![attach]);
    }
}

} // verus!
