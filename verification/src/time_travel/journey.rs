//! The steps of a journey of HEAD, from the checkout to the pins that remain.
use vstd::prelude::*;
use vstd::string::StringSliceAdditionalSpecFns;
use crate::bytes;
use crate::ids::ObjectId;
use crate::names::{short_name, valid_name, FullName};
use crate::plan::{viewed, viewed_option, viewed_push};
use crate::refs::State;
use crate::text::{lossy, to_str_lossy};
use crate::time_travel::moves::{
    forsakes_branch, head_name, journey_to, stranded, Journey, JourneyView, Request, Stage,
    WorktreeView,
};
use crate::time_travel::pins::{find_head_pin, head_pin_from, label_of, pin_label, Pin};
use crate::time_travel::TravelError;
use crate::undo::changes::{RefChange, Target};
use crate::undo::worktrees::HEAD;

verus! {

/// A notice with an addition.
pub open spec fn noted(notice: Option<Seq<u8>>, addition: Seq<u8>) -> Seq<u8> {
    match notice {
        Some(notice) => notice + "; ".spec_bytes() + addition,
        None => addition,
    }
}

/// Adds to a notice.
pub fn append_notice(notice: &mut Option<Vec<u8>>, addition: Vec<u8>)
    ensures
        viewed_option(*final(notice)) == Some(noted(viewed_option(*old(notice)), addition@)),
{
    let longer = match notice.take() {
        Some(notice) => {
            let mut text = notice;
            bytes::append(&mut text, "; ".as_bytes());
            bytes::append(&mut text, addition.as_slice());
            text
        },
        None => addition,
    };
    *notice = Some(longer);
}

fn extend_notice(notice: &mut Vec<u8>, first: &[u8], second: &[u8], third: &[u8])
    ensures
        final(notice)@ == noted(Some(old(notice)@), first@ + second@ + third@),
{
    let ghost before = notice@;
    bytes::append(notice, "; ".as_bytes());
    bytes::append(notice, first);
    bytes::append(notice, second);
    bytes::append(notice, third);
    assert(notice@ == noted(Some(before), first@ + second@ + third@));
}

/// What came of a step: changes that were made, possibly with a note, whether a commit is in view, or
/// a failure.
#[derive(PartialEq, Eq, Debug)]
pub enum Event<T, C> {
    Done(C),
    Noted { addition: Option<T>, changes: C },
    Tips { contain: bool },
    Failed(T),
}

/// What came of a step, in memory.
pub type CurrentEvent = Event<Vec<u8>, Vec<RefChange<FullName>>>;

/// What came of a step, in specifications.
pub type EventView = Event<Seq<u8>, Seq<RefChange<Seq<u8>>>>;

impl View for Event<Vec<u8>, Vec<RefChange<FullName>>> {
    type V = EventView;

    open spec fn view(&self) -> EventView {
        match self {
            Event::Done(changes) => Event::Done(viewed(changes@)),
            Event::Noted { addition, changes } => Event::Noted {
                addition: viewed_option(*addition),
                changes: viewed(changes@),
            },
            Event::Tips { contain } => Event::Tips { contain: *contain },
            Event::Failed(text) => Event::Failed(text@),
        }
    }
}

/// The change of HEAD that a journey makes, if any.
pub open spec fn head_change(journey: JourneyView) -> Seq<RefChange<Seq<u8>>> {
    if journey.head_before == journey.head_after {
        Seq::empty()
    } else {
        seq![
            RefChange {
                name: HEAD.spec_bytes(),
                before: journey.head_before,
                after: journey.head_after,
            },
        ]
    }
}

/// The stage behind the removal of the pin that led to the destination.
pub open spec fn after_destination(journey: JourneyView) -> Stage {
    if journey.reconciles {
        Stage::Reconcile
    } else {
        after_reconciling(journey)
    }
}

/// The stage once the pin of HEAD is in line with it.
pub open spec fn after_reconciling(journey: JourneyView) -> Stage {
    if journey.provisional is Some {
        Stage::InspectTips
    } else {
        Stage::Arrived
    }
}

/// A journey with another stage, and with something said and changed.
pub open spec fn carried_on(
    journey: JourneyView,
    stage: Stage,
    changes: Seq<RefChange<Seq<u8>>>,
    addition: Option<Seq<u8>>,
) -> JourneyView {
    Journey {
        stage,
        changes: journey.changes + changes,
        notice: match addition {
            Some(addition) => noted(Some(journey.notice), addition),
            None => journey.notice,
        },
        ..journey
    }
}

/// The name of the pin that keeps in view what HEAD left.
pub open spec fn provisional_label(journey: JourneyView) -> Seq<u8> {
    match journey.provisional {
        Some(pin) => label_of(pin.name),
        None => Seq::empty(),
    }
}

/// The journey after a step. What does not belong to the stage of the journey leaves it as it is.
pub open spec fn advanced(journey: JourneyView, event: EventView) -> JourneyView {
    let none = Seq::<RefChange<Seq<u8>>>::empty();
    match (journey.stage, event) {
        (Stage::Checkout, Event::Done(_)) => carried_on(
            journey,
            Stage::Reopen,
            head_change(journey),
            None,
        ),
        (Stage::Checkout, Event::Failed(text)) => Journey {
            stage: Stage::Restore,
            notice: text,
            ..journey
        },
        (Stage::Restore, Event::Done(_)) => Journey { stage: Stage::Stranded, ..journey },
        (Stage::Restore, Event::Failed(text)) => Journey {
            stage: Stage::Stranded,
            notice: "checkout failed and provisional refs remain: ".spec_bytes() + text
                + ": ".spec_bytes() + journey.notice,
            ..journey
        },
        (Stage::Reopen, Event::Done(_)) => carried_on(
            journey,
            if journey.destination is Some {
                Stage::RemoveDestination
            } else {
                after_destination(journey)
            },
            none,
            None,
        ),
        (Stage::Reopen, Event::Failed(text)) => carried_on(
            journey,
            Stage::Arrived,
            none,
            Some("post-checkout cleanup skipped: ".spec_bytes() + text + Seq::<u8>::empty()),
        ),
        (Stage::RemoveDestination, Event::Done(changes)) => carried_on(
            journey,
            after_destination(journey),
            changes,
            None,
        ),
        (Stage::RemoveDestination, Event::Failed(text)) => carried_on(
            journey,
            after_destination(journey),
            none,
            Some("destination pin remains: ".spec_bytes() + text + Seq::<u8>::empty()),
        ),
        (Stage::Reconcile, Event::Noted { addition, changes }) => carried_on(
            journey,
            after_reconciling(journey),
            changes,
            match addition {
                Some(text) => Some(text + Seq::<u8>::empty() + Seq::<u8>::empty()),
                None => None,
            },
        ),
        (Stage::Reconcile, Event::Failed(text)) => carried_on(
            journey,
            after_reconciling(journey),
            none,
            Some("HEAD-pin reconciliation failed: ".spec_bytes() + text + Seq::<u8>::empty()),
        ),
        (Stage::InspectTips, Event::Tips { contain }) => if contain {
            carried_on(
                journey,
                if journey.stays {
                    Stage::Arrived
                } else {
                    Stage::RemoveProvisional
                },
                none,
                None,
            )
        } else {
            carried_on(
                journey,
                Stage::Arrived,
                none,
                Some("saved ".spec_bytes() + provisional_label(journey) + Seq::<u8>::empty()),
            )
        },
        (Stage::InspectTips, Event::Failed(text)) => carried_on(
            journey,
            Stage::Arrived,
            none,
            Some("kept ".spec_bytes() + provisional_label(journey) + (": ".spec_bytes() + text)),
        ),
        (Stage::RemoveProvisional, Event::Done(changes)) => carried_on(
            journey,
            Stage::Arrived,
            changes,
            None,
        ),
        (Stage::RemoveProvisional, Event::Failed(text)) => carried_on(
            journey,
            Stage::Arrived,
            none,
            Some(
                "redundant ".spec_bytes() + provisional_label(journey) + (" remains: ".spec_bytes()
                    + text),
            ),
        ),
        _ => journey,
    }
}

/// Adds changes behind others.
pub fn append_changes(changes: &mut Vec<RefChange<FullName>>, more: Vec<RefChange<FullName>>)
    ensures
        viewed(final(changes)@) == viewed(old(changes)@) + viewed(more@),
{
    let ghost start = viewed(changes@);
    let ghost all = viewed(more@);
    let mut at: usize = 0;
    assert(viewed(changes@) == start + all.take(0));
    while at < more.len()
        invariant
            at <= more@.len(),
            all == viewed(more@),
            viewed(changes@) == start + all.take(at as int),
        decreases more@.len() - at,
    {
        let change = more[at].copy();
        proof {
            viewed_push(changes@, change);
            assert(all.take(at as int + 1) == all.take(at as int).push(all[at as int]));
            assert(start + all.take(at as int + 1) == (start + all.take(at as int)).push(
                all[at as int],
            ));
        }
        changes.push(change);
        at = at + 1;
    }
    assert(all.take(more@.len() as int) == all);
}

impl Journey<FullName, Vec<u8>, Vec<RefChange<FullName>>> {
    fn label(&self) -> (r: Vec<u8>)
        ensures
            r@ == provisional_label(self@),
    {
        match &self.provisional {
            Some(pin) => pin_label(pin),
            None => Vec::new(),
        }
    }

    fn note_head(&mut self) -> (r: Result<(), TravelError>)
        ensures
            match r {
                Ok(()) => final(self)@ == carried_on(
                    old(self)@,
                    Stage::Reopen,
                    head_change(old(self)@),
                    None,
                ),
                Err(err) => err == TravelError::InvalidName && final(self)@ == old(self)@
                    && !valid_name(HEAD.spec_bytes()),
            },
    {
        let ghost before = self@;
        if self.head_before.same(&self.head_after) {
            assert(viewed(self.changes@) + Seq::<RefChange<Seq<u8>>>::empty() == viewed(
                self.changes@,
            ));
        } else {
            let name = match head_name() {
                Ok(name) => name,
                Err(err) => {
                    return Err(err);
                },
            };
            let change = RefChange {
                name,
                before: self.head_before.copy(),
                after: self.head_after.copy(),
            };
            proof {
                viewed_push(self.changes@, change);
                assert(viewed(self.changes@).push(change@) == viewed(self.changes@) + seq![
                    change@,
                ]);
                assert(head_change(before) == seq![change@]);
            }
            self.changes.push(change);
        }
        self.stage = Stage::Reopen;
        Ok(())
    }

    fn carry_on(&mut self, stage: Stage, changes: Vec<RefChange<FullName>>)
        ensures
            final(self)@ == carried_on(old(self)@, stage, viewed(changes@), None),
    {
        append_changes(&mut self.changes, changes);
        self.stage = stage;
    }

    fn report(&mut self, stage: Stage, first: &[u8], second: &[u8], third: &[u8])
        ensures
            final(self)@ == carried_on(
                old(self)@,
                stage,
                Seq::<RefChange<Seq<u8>>>::empty(),
                Some(first@ + second@ + third@),
            ),
    {
        assert(viewed(self.changes@) + Seq::<RefChange<Seq<u8>>>::empty() == viewed(self.changes@));
        extend_notice(&mut self.notice, first, second, third);
        self.stage = stage;
    }

    fn next_stage(&self) -> (r: Stage)
        ensures
            r == after_reconciling(self@),
    {
        if self.provisional.is_some() {
            Stage::InspectTips
        } else {
            Stage::Arrived
        }
    }

    fn stage_behind_destination(&self) -> (r: Stage)
        ensures
            r == after_destination(self@),
    {
        if self.reconciles {
            Stage::Reconcile
        } else {
            self.next_stage()
        }
    }

    /// Carries the journey on by what came of its step.
    pub fn advance(&mut self, event: CurrentEvent) -> (r: Result<(), TravelError>)
        ensures
            match r {
                Ok(()) => final(self)@ == advanced(old(self)@, event@),
                Err(err) => err == TravelError::InvalidName && !valid_name(HEAD.spec_bytes()),
            },
    {
        let ghost start = self@;
        let empty: Vec<RefChange<FullName>> = Vec::new();
        assert(viewed(empty@) == Seq::<RefChange<Seq<u8>>>::empty());
        let nothing: Vec<u8> = Vec::new();
        assert(nothing@ == Seq::<u8>::empty());
        match (self.stage, event) {
            (Stage::Checkout, Event::Done(_)) => {
                return self.note_head();
            },
            (Stage::Checkout, Event::Failed(text)) => {
                self.notice = text;
                self.stage = Stage::Restore;
            },
            (Stage::Restore, Event::Done(_)) => {
                self.stage = Stage::Stranded;
            },
            (Stage::Restore, Event::Failed(text)) => {
                let mut notice = bytes::copied(
                    "checkout failed and provisional refs remain: ".as_bytes(),
                );
                bytes::append(&mut notice, text.as_slice());
                bytes::append(&mut notice, ": ".as_bytes());
                bytes::append(&mut notice, self.notice.as_slice());
                self.notice = notice;
                self.stage = Stage::Stranded;
            },
            (Stage::Reopen, Event::Done(_)) => {
                let stage = if self.destination.is_some() {
                    Stage::RemoveDestination
                } else {
                    self.stage_behind_destination()
                };
                self.carry_on(stage, empty);
            },
            (Stage::Reopen, Event::Failed(text)) => {
                self.report(
                    Stage::Arrived,
                    "post-checkout cleanup skipped: ".as_bytes(),
                    text.as_slice(),
                    nothing.as_slice(),
                );
            },
            (Stage::RemoveDestination, Event::Done(changes)) => {
                let stage = self.stage_behind_destination();
                self.carry_on(stage, changes);
            },
            (Stage::RemoveDestination, Event::Failed(text)) => {
                let stage = self.stage_behind_destination();
                self.report(
                    stage,
                    "destination pin remains: ".as_bytes(),
                    text.as_slice(),
                    nothing.as_slice(),
                );
            },
            (Stage::Reconcile, Event::Noted { addition, changes }) => {
                let stage = self.next_stage();
                self.carry_on(stage, changes);
                if let Some(text) = addition {
                    let ghost carried = self@;
                    self.report(stage, text.as_slice(), nothing.as_slice(), nothing.as_slice());
                    assert(carried.changes + Seq::<RefChange<Seq<u8>>>::empty()
                        == carried.changes);
                }
            },
            (Stage::Reconcile, Event::Failed(text)) => {
                let stage = self.next_stage();
                self.report(
                    stage,
                    "HEAD-pin reconciliation failed: ".as_bytes(),
                    text.as_slice(),
                    nothing.as_slice(),
                );
            },
            (Stage::InspectTips, Event::Tips { contain }) => {
                if contain {
                    let stage = if self.stays {
                        Stage::Arrived
                    } else {
                        Stage::RemoveProvisional
                    };
                    self.carry_on(stage, empty);
                } else {
                    let label = self.label();
                    self.report(
                        Stage::Arrived,
                        "saved ".as_bytes(),
                        label.as_slice(),
                        nothing.as_slice(),
                    );
                }
            },
            (Stage::InspectTips, Event::Failed(text)) => {
                let label = self.label();
                let rest = bytes::joined(": ".as_bytes(), text.as_slice());
                self.report(Stage::Arrived, "kept ".as_bytes(), label.as_slice(), rest.as_slice());
            },
            (Stage::RemoveProvisional, Event::Done(changes)) => {
                self.carry_on(Stage::Arrived, changes);
            },
            (Stage::RemoveProvisional, Event::Failed(text)) => {
                let label = self.label();
                let rest = bytes::joined(" remains: ".as_bytes(), text.as_slice());
                self.report(
                    Stage::Arrived,
                    "redundant ".as_bytes(),
                    label.as_slice(),
                    rest.as_slice(),
                );
            },
            _ => {},
        }
        Ok(())
    }
}

/// How the pin of HEAD is brought in line with HEAD: it stays, it goes as HEAD is on a branch, or HEAD
/// is attached again to the branch that it remembers.
#[derive(PartialEq, Eq, Debug)]
pub enum Reconciling<P> {
    Nothing,
    Forget(P),
    Reattach(P),
    NotSymbolic,
}

/// How the pin of HEAD is brought in line with HEAD.
pub open spec fn reconciling(
    pins: Seq<Pin<Seq<u8>>>,
    detached: bool,
    head_id: Option<ObjectId>,
) -> Reconciling<Pin<Seq<u8>>> {
    match head_pin_from(pins, 0) {
        None => Reconciling::Nothing,
        Some(i) => if !detached {
            Reconciling::Forget(pins[i])
        } else if head_id != Some(pins[i].id) {
            Reconciling::Nothing
        } else if pins[i].target is Symbolic {
            Reconciling::Reattach(pins[i])
        } else {
            Reconciling::NotSymbolic
        },
    }
}

/// Decides how the pin of HEAD is brought in line with HEAD.
pub fn reconcile_head_pin(
    pins: &Vec<Pin<FullName>>,
    detached: bool,
    head_id: Option<ObjectId>,
) -> (r: Reconciling<Pin<FullName>>)
    ensures
        ({
            let expected = reconciling(viewed(pins@), detached, head_id);
            match r {
                Reconciling::Nothing => expected is Nothing,
                Reconciling::Forget(pin) => expected == Reconciling::Forget(pin@),
                Reconciling::Reattach(pin) => expected == Reconciling::Reattach(pin@) && pin.target
                    is Symbolic,
                Reconciling::NotSymbolic => expected is NotSymbolic,
            }
        }),
{
    match find_head_pin(pins) {
        None => Reconciling::Nothing,
        Some(i) => {
            assert(viewed(pins@)[i as int] == pins@[i as int]@);
            let pin = &pins[i];
            if !detached {
                return Reconciling::Forget(pin.copy());
            }
            let there = match head_id {
                Some(id) => id == pin.id,
                None => false,
            };
            if !there {
                return Reconciling::Nothing;
            }
            match &pin.target {
                Target::Symbolic(_) => Reconciling::Reattach(pin.copy()),
                Target::Object(_) => Reconciling::NotSymbolic,
            }
        },
    }
}

/// What is said once the pin of HEAD was to go as HEAD is on a branch.
pub fn pin_forgotten(removed: Result<Vec<RefChange<FullName>>, Vec<u8>>) -> (r: CurrentEvent)
    ensures
        match removed {
            Ok(changes) => r@ == (Event::Noted {
                addition: None::<Seq<u8>>,
                changes: viewed(changes@),
            }),
            Err(text) => r@ == (Event::Noted {
                addition: Some("HEAD pin remains: ".spec_bytes() + text@),
                changes: Seq::<RefChange<Seq<u8>>>::empty(),
            }),
        },
{
    match removed {
        Ok(changes) => Event::Noted { addition: None, changes },
        Err(text) => {
            let changes: Vec<RefChange<FullName>> = Vec::new();
            assert(viewed(changes@) == Seq::<RefChange<Seq<u8>>>::empty());
            Event::Noted {
                addition: Some(bytes::joined("HEAD pin remains: ".as_bytes(), text.as_slice())),
                changes,
            }
        },
    }
}

/// How attaching HEAD to the branch that its pin remembers went: the checkout failed, or the removal
/// of the pin after it did, or neither.
#[derive(PartialEq, Eq, Debug)]
pub enum Reattached<T, C> {
    CheckoutFailed(T),
    PinRemains(T),
    Done(C),
}

/// What is said and changed once HEAD was to be attached to the branch that its pin remembers.
pub open spec fn reattachment(
    branch: Seq<u8>,
    id: ObjectId,
    result: Reattached<Seq<u8>, Seq<RefChange<Seq<u8>>>>,
) -> EventView {
    let short = lossy(short_name(branch));
    let change = RefChange {
        name: HEAD.spec_bytes(),
        before: State::Object(id),
        after: State::Symbolic(branch),
    };
    match result {
        Reattached::CheckoutFailed(text) => Event::Noted {
            addition: Some(
                "could not reattach HEAD to ".spec_bytes() + short + ": ".spec_bytes() + text
                    + "; HEAD pin remains".spec_bytes(),
            ),
            changes: Seq::empty(),
        },
        Reattached::PinRemains(text) => Event::Noted {
            addition: Some(
                "reattached HEAD to ".spec_bytes() + short + "; HEAD pin remains: ".spec_bytes()
                    + text,
            ),
            changes: seq![change],
        },
        Reattached::Done(changes) => Event::Noted {
            addition: Some("reattached HEAD to ".spec_bytes() + short),
            changes: seq![change] + changes,
        },
    }
}

/// How attaching HEAD went, in specifications.
pub open spec fn reattached_view(result: Reattached<Vec<u8>, Vec<RefChange<FullName>>>) -> Reattached<
    Seq<u8>,
    Seq<RefChange<Seq<u8>>>,
> {
    match result {
        Reattached::CheckoutFailed(text) => Reattached::CheckoutFailed(text@),
        Reattached::PinRemains(text) => Reattached::PinRemains(text@),
        Reattached::Done(changes) => Reattached::Done(viewed(changes@)),
    }
}

/// What is said and changed once HEAD was to be attached to the branch that its pin remembers.
pub fn pin_followed(
    branch: &FullName,
    id: ObjectId,
    result: Reattached<Vec<u8>, Vec<RefChange<FullName>>>,
) -> (r: Result<CurrentEvent, TravelError>)
    ensures
        match r {
            Ok(event) => event@ == reattachment(branch@, id, reattached_view(result)),
            Err(err) => err == TravelError::InvalidName && !valid_name(HEAD.spec_bytes()),
        },
{
    let short = to_str_lossy(branch.shorten().as_slice());
    let mut changes: Vec<RefChange<FullName>> = Vec::new();
    assert(viewed(changes@) == Seq::<RefChange<Seq<u8>>>::empty());
    if let Reattached::CheckoutFailed(text) = &result {
        let mut addition = bytes::joined(
            "could not reattach HEAD to ".as_bytes(),
            short.as_slice(),
        );
        bytes::append(&mut addition, ": ".as_bytes());
        bytes::append(&mut addition, text.as_slice());
        bytes::append(&mut addition, "; HEAD pin remains".as_bytes());
        return Ok(Event::Noted { addition: Some(addition), changes });
    }
    let name = match head_name() {
        Ok(name) => name,
        Err(err) => {
            return Err(err);
        },
    };
    let change = RefChange {
        name,
        before: State::Object(id),
        after: State::Symbolic(branch.clone()),
    };
    proof {
        viewed_push(changes@, change);
    }
    changes.push(change);
    assert(viewed(changes@) == seq![change@]);
    let mut addition = bytes::joined("reattached HEAD to ".as_bytes(), short.as_slice());
    match result {
        Reattached::PinRemains(text) => {
            bytes::append(&mut addition, "; HEAD pin remains: ".as_bytes());
            bytes::append(&mut addition, text.as_slice());
        },
        Reattached::Done(more) => {
            append_changes(&mut changes, more);
        },
        Reattached::CheckoutFailed(_) => {},
    }
    Ok(Event::Noted { addition: Some(addition), changes })
}

/// How many steps a journey can still take.
pub open spec fn steps_left(stage: Stage) -> nat {
    match stage {
        Stage::Checkout => 6,
        Stage::Reopen => 5,
        Stage::RemoveDestination => 4,
        Stage::Reconcile => 3,
        Stage::InspectTips => 2,
        Stage::RemoveProvisional => 1,
        Stage::Restore => 1,
        Stage::Arrived => 0,
        Stage::Stranded => 0,
    }
}

/// Each step that belongs to the stage of a journey brings it closer to its end, at which nothing
/// happens any more.
pub proof fn journeys_end(journey: JourneyView, event: EventView)
    ensures
        advanced(journey, event) == journey || steps_left(advanced(journey, event).stage)
            < steps_left(journey.stage),
        journey.stage is Arrived || journey.stage is Stranded ==> advanced(journey, event)
            == journey,
{
}

/// A journey forgets no change: those that were made before a step are those that come first after it.
pub proof fn changes_are_kept(journey: JourneyView, event: EventView)
    ensures
        journey.changes.is_prefix_of(advanced(journey, event).changes),
{
    let after = advanced(journey, event).changes;
    assert(journey.changes =~= after.take(journey.changes.len() as int));
}

/// No journey removes a pin that an automatic merge follows: neither the one that led to the
/// destination, nor the one that keeps in view what HEAD left.
pub proof fn followed_pins_stay(
    worktree: WorktreeView,
    request: Request<Seq<u8>>,
    journey: JourneyView,
    event: EventView,
)
    ensures
        journey_to(worktree, request) matches Ok(Some((_, start))) ==> {
            &&& start.stage == Stage::Checkout
            &&& start.destination matches Some(pin) ==> !worktree.followed.contains(pin.name)
            &&& start.provisional matches Some(pin) ==> start.stays == worktree.followed.contains(
                pin.name,
            )
        },
        journey.stays && journey.stage != Stage::RemoveProvisional ==> advanced(
            journey,
            event,
        ).stage != Stage::RemoveProvisional,
        advanced(journey, event).stays == journey.stays,
        advanced(journey, event).destination == journey.destination,
        advanced(journey, event).provisional == journey.provisional,
{
}

/// The pin that keeps in view what HEAD left goes only if another tip contains that.
pub proof fn pins_go_only_if_redundant(journey: JourneyView, event: EventView)
    requires
        journey.stage != Stage::RemoveProvisional,
        advanced(journey, event).stage == Stage::RemoveProvisional,
    ensures
        journey.stage == Stage::InspectTips,
        event == (EventView::Tips { contain: true }),
{
}

/// What HEAD leaves stays in view. If the commit to keep is neither the destination nor contained in
/// it, then the branch that HEAD leaves is remembered, or there is a pin which points at that branch
/// or at the commit.
pub proof fn departures_stay_in_view(worktree: WorktreeView, request: Request<Seq<u8>>)
    requires
        journey_to(worktree, request) is Ok,
        journey_to(worktree, request)->Ok_0 is Some,
        request.departure is Some,
        request.departure != Some(request.selected),
        !request.contained,
    ensures
        ({
            let (edit, journey) = journey_to(worktree, request)->Ok_0->0;
            let departure = request.departure->0;
            ||| forsakes_branch(worktree, request) && edit is Some && edit->0
                == crate::time_travel::pins::remembering(
                worktree.head->Symbolic_0,
                worktree.head_pin,
            )
            ||| journey.provisional matches Some(pin) && pin.target == (match worktree.head {
                State::Symbolic(name) => Target::Symbolic(name),
                _ => Target::Object(departure),
            })
        }),
{
    if !forsakes_branch(worktree, request) {
        assert(stranded(worktree, request) == request.departure);
        let target = match worktree.head {
            State::Symbolic(name) => Target::Symbolic(name),
            _ => Target::Object(request.departure->0),
        };
        pin_at_points_there(worktree.pins, target, 0);
    }
}

/// A pin that is found for a target points at it.
pub proof fn pin_at_points_there(pins: Seq<Pin<Seq<u8>>>, target: Target<Seq<u8>>, at: int)
    ensures
        crate::time_travel::pins::pin_at(pins, target, at) matches Some(i) ==> pins[i].target
            == target,
    decreases pins.len() - at,
{
    if 0 <= at < pins.len() {
        pin_at_points_there(pins, target, at + 1);
    }
}

} // verus!
