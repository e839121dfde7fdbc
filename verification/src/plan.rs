//! Rebase plans: the commits to produce, in order, and where references end up.
use vstd::prelude::*;
use crate::bytes;
use crate::ids::ObjectId;
use crate::names::FullName;

verus! {

/// The views of several values.
pub open spec fn viewed<T: View>(items: Seq<T>) -> Seq<T::V> {
    Seq::new(items.len(), |i: int| items[i]@)
}

/// The views of several values, one more added.
pub proof fn viewed_push<T: View>(items: Seq<T>, item: T)
    ensures
        viewed(items.push(item)) == viewed(items).push(item@),
{
    assert(viewed(items.push(item)) == viewed(items).push(item@));
}

/// Where a step continues: at a commit that exists, or at the result of an earlier step.
#[derive(Clone, Copy, PartialEq, Eq, Structural, Debug)]
pub enum PlanParent {
    Existing(ObjectId),
    Step(usize),
}

/// What a step produces: a commit replayed, a copy of it that does not take its place, the
/// resolution of a conflict that was materialized, or an empty commit with a title.
#[derive(PartialEq, Eq, Debug)]
pub enum PlanCommit<T> {
    Pick(ObjectId),
    Copy(ObjectId),
    Resolved(ObjectId),
    Empty(T),
}

/// One commit to produce, with the commits that are folded into it.
#[derive(PartialEq, Eq, Debug)]
pub struct PlanStep<T, S> {
    pub parent: PlanParent,
    pub commit: PlanCommit<T>,
    pub squash: S,
}

/// A step as it is executed.
pub type Step = PlanStep<Vec<u8>, Vec<ObjectId>>;

/// A step in specifications.
pub type StepView = PlanStep<Seq<u8>, Seq<ObjectId>>;

/// What is checked out in the end, and the branch that HEAD is attached to.
#[derive(PartialEq, Eq, Debug)]
pub struct PlanCheckout<N> {
    pub target: PlanParent,
    pub reference: Option<N>,
}

/// A reference that the plan may move: what it held, the commit that it logically points
/// at, what it is to hold if it is not placed, whether it follows the tip of its stack,
/// whether it may be edited, and where the plan places it.
#[derive(PartialEq, Eq, Debug)]
pub struct ExpectedRef<N> {
    pub name: N,
    pub old: Option<ObjectId>,
    pub target: ObjectId,
    pub new: Option<ObjectId>,
    pub follows_tip: bool,
    pub editable: bool,
    pub placement: Option<PlanParent>,
}

impl<T: View> View for PlanCommit<T> {
    type V = PlanCommit<T::V>;

    open spec fn view(&self) -> PlanCommit<T::V> {
        match self {
            PlanCommit::Pick(id) => PlanCommit::Pick(*id),
            PlanCommit::Copy(id) => PlanCommit::Copy(*id),
            PlanCommit::Resolved(id) => PlanCommit::Resolved(*id),
            PlanCommit::Empty(title) => PlanCommit::Empty(title@),
        }
    }
}

impl<T: View, S: View> View for PlanStep<T, S> {
    type V = PlanStep<T::V, S::V>;

    open spec fn view(&self) -> PlanStep<T::V, S::V> {
        PlanStep { parent: self.parent, commit: self.commit@, squash: self.squash@ }
    }
}

/// The view of an optional value.
pub open spec fn viewed_option<T: View>(item: Option<T>) -> Option<T::V> {
    match item {
        Some(item) => Some(item@),
        None => None,
    }
}

impl<N: View> View for PlanCheckout<N> {
    type V = PlanCheckout<N::V>;

    open spec fn view(&self) -> PlanCheckout<N::V> {
        PlanCheckout { target: self.target, reference: viewed_option(self.reference) }
    }
}

impl<N: View> View for ExpectedRef<N> {
    type V = ExpectedRef<N::V>;

    open spec fn view(&self) -> ExpectedRef<N::V> {
        ExpectedRef {
            name: self.name@,
            old: self.old,
            target: self.target,
            new: self.new,
            follows_tip: self.follows_tip,
            editable: self.editable,
            placement: self.placement,
        }
    }
}

impl ExpectedRef<FullName> {
    /// A copy of the reference.
    pub fn copy(&self) -> (r: ExpectedRef<FullName>)
        ensures
            r@ == self@,
    {
        ExpectedRef {
            name: self.name.clone(),
            old: self.old,
            target: self.target,
            new: self.new,
            follows_tip: self.follows_tip,
            editable: self.editable,
            placement: self.placement,
        }
    }
}

/// Where a reference ends up: where the commit does that it points at, or the tip of the stack
/// which that is in; at the result of a step; at a commit that exists; or nowhere.
#[derive(Clone, Copy, PartialEq, Eq, Structural, Debug)]
pub enum RefDestination {
    Follow { tip: bool },
    Step(usize),
    Existing(ObjectId),
    Delete,
}

impl RefDestination {
    /// Where the reference is placed, if that is settled and it stays.
    pub open spec fn placed(self) -> Option<PlanParent> {
        match self {
            RefDestination::Step(index) => Some(PlanParent::Step(index)),
            RefDestination::Existing(id) => Some(PlanParent::Existing(id)),
            _ => None,
        }
    }

    /// The destination at a place.
    pub open spec fn at(place: PlanParent) -> RefDestination {
        match place {
            PlanParent::Step(index) => RefDestination::Step(index),
            PlanParent::Existing(id) => RefDestination::Existing(id),
        }
    }

    /// Where the reference is placed, if that is settled and it stays.
    pub fn placement(self) -> (r: Option<PlanParent>)
        ensures
            r == self.placed(),
    {
        match self {
            RefDestination::Step(index) => Some(PlanParent::Step(index)),
            RefDestination::Existing(id) => Some(PlanParent::Existing(id)),
            _ => None,
        }
    }

    /// The destination at a place.
    pub fn from_parent(place: PlanParent) -> (r: RefDestination)
        ensures
            r == RefDestination::at(place),
    {
        match place {
            PlanParent::Step(index) => RefDestination::Step(index),
            PlanParent::Existing(id) => RefDestination::Existing(id),
        }
    }
}

/// A reference that a plan moves: the commit that it points at, and where it ends up.
#[derive(PartialEq, Eq, Debug)]
pub struct PlanRef<N> {
    pub name: N,
    pub source: ObjectId,
    pub destination: RefDestination,
}

impl<N: View> View for PlanRef<N> {
    type V = PlanRef<N::V>;

    open spec fn view(&self) -> PlanRef<N::V> {
        PlanRef { name: self.name@, source: self.source, destination: self.destination }
    }
}

/// A plan: where its base is, the commits that it takes the place of, the commits to produce,
/// what to check out, and the references that it may move.
#[derive(PartialEq, Eq, Debug)]
pub struct Plan<R> {
    pub base: ObjectId,
    pub scope: Vec<ObjectId>,
    pub steps: Vec<Step>,
    pub checkout: Option<PlanCheckout<FullName>>,
    pub expected_refs: Vec<R>,
}

/// A plan in specifications.
pub struct PlanView<R> {
    pub base: ObjectId,
    pub scope: Seq<ObjectId>,
    pub steps: Seq<StepView>,
    pub checkout: Option<PlanCheckout<Seq<u8>>>,
    pub expected_refs: Seq<R>,
}

impl<R: View> View for Plan<R> {
    type V = PlanView<R::V>;

    open spec fn view(&self) -> PlanView<R::V> {
        PlanView {
            base: self.base,
            scope: self.scope@,
            steps: viewed(self.steps@),
            checkout: viewed_option(self.checkout),
            expected_refs: viewed(self.expected_refs@),
        }
    }
}

/// The commit that a step keeps the identity of.
pub open spec fn kept<T>(commit: PlanCommit<T>) -> Option<ObjectId> {
    match commit {
        PlanCommit::Pick(id) => Some(id),
        PlanCommit::Resolved(id) => Some(id),
        _ => None,
    }
}

/// Whether a commit ends up in the result of a step, picked or folded in.
pub open spec fn holds<T>(step: PlanStep<T, Seq<ObjectId>>, id: ObjectId) -> bool {
    kept(step.commit) == Some(id) || step.squash.contains(id)
}

/// The last of the first `end` steps whose result a commit ends up in.
pub open spec fn position<T>(
    steps: Seq<PlanStep<T, Seq<ObjectId>>>,
    id: ObjectId,
    end: int,
) -> Option<usize>
    decreases end,
{
    if end <= 0 || end > steps.len() {
        None
    } else if holds(steps[end - 1], id) {
        Some((end - 1) as usize)
    } else {
        position(steps, id, end - 1)
    }
}

/// A position found is within bounds, holds the commit, and no later one does.
pub proof fn position_bounds<T>(
    steps: Seq<PlanStep<T, Seq<ObjectId>>>,
    id: ObjectId,
    end: int,
)
    requires
        0 <= end <= steps.len() <= usize::MAX,
    ensures
        position(steps, id, end) matches Some(i) ==> i < end && holds(steps[i as int], id) && forall|
            j: int,
        | i < j < end ==> !holds(#[trigger] steps[j], id),
        position(steps, id, end) is None ==> forall|i: int| 0 <= i < end ==> !holds(#[trigger] steps[i], id),
    decreases end,
{
    if end > 0 && !holds(steps[end - 1], id) {
        position_bounds(steps, id, end - 1);
    }
}

/// Finds the step whose result a commit ends up in.
pub fn find_position(steps: &Vec<Step>, id: ObjectId) -> (r: Option<usize>)
    ensures
        r == position(viewed(steps@), id, steps@.len() as int),
        r matches Some(i) ==> i < steps@.len() && holds(viewed(steps@)[i as int], id),
{
    let ghost all = viewed(steps@);
    let mut end: usize = steps.len();
    while end > 0
        invariant
            all == viewed(steps@),
            end <= steps@.len(),
            position(all, id, steps@.len() as int) == position(all, id, end as int),
        decreases end,
    {
        let step = &steps[end - 1];
        let picked = match &step.commit {
            PlanCommit::Pick(kept) => *kept == id,
            PlanCommit::Resolved(kept) => *kept == id,
            _ => false,
        };
        if picked || crate::ids::contains_id(step.squash.as_slice(), id) {
            assert(holds(all[end - 1], id));
            return Some(end - 1);
        }
        assert(!holds(all[end - 1], id));
        end = end - 1;
    }
    None
}

/// A copy of a step.
pub fn copy_step(step: &Step) -> (r: Step)
    ensures
        r@ == step@,
{
    let commit = match &step.commit {
        PlanCommit::Pick(id) => PlanCommit::Pick(*id),
        PlanCommit::Copy(id) => PlanCommit::Copy(*id),
        PlanCommit::Resolved(id) => PlanCommit::Resolved(*id),
        PlanCommit::Empty(title) => PlanCommit::Empty(bytes::copied(title.as_slice())),
    };
    PlanStep { parent: step.parent, commit, squash: copy_ids(step.squash.as_slice()) }
}

/// A copy of several ids.
pub fn copy_ids(ids: &[ObjectId]) -> (r: Vec<ObjectId>)
    ensures
        r@ == ids@,
{
    let mut out: Vec<ObjectId> = Vec::new();
    let mut i: usize = 0;
    while i < ids.len()
        invariant
            i <= ids@.len(),
            out@ == ids@.take(i as int),
        decreases ids.len() - i,
    {
        out.push(ids[i]);
        i = i + 1;
        assert(out@ == ids@.take(i as int));
    }
    assert(ids@.take(i as int) == ids@);
    out
}

} // verus!
