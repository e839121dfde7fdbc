//! The course of time travel: in which order rebases are completed, worktrees are kept aside and brought
//! back, and HEAD moves.
use vstd::prelude::*;
use vstd::string::StringSliceAdditionalSpecFns;
use crate::ids::ObjectId;
use crate::names::FullName;
use crate::plan::{viewed, viewed_option};
use crate::time_travel::journey::{append_changes, append_notice, noted};
use crate::time_travel::travel::{
    affected, apply_review_stash, completed, crosses_review_boundary, explain_failure, failure_text,
    final_notice, find_replay_base, keeps_worktree, kept_notice, note_commit_stash, original_of,
    replay_base, survivors, Kept, Rebased, Replay, ReplayView, Waypoint,
};
use crate::time_travel::TravelError;
use crate::undo::changes::RefChange;

verus! {

/// Where time travel is.
#[derive(Clone, Copy, PartialEq, Eq, Structural, Debug)]
pub enum Leg {
    /// The way to the destination is looked at, for the first time or after a rebase.
    Inspect { first: bool },
    /// A rebase that is pending on the way is completed.
    Rebase { base: ObjectId },
    /// The worktree of the review that HEAD leaves is looked at.
    InspectWorktree,
    /// The worktree of the review that HEAD leaves is kept aside.
    Keep,
    /// HEAD moves.
    Move,
    /// HEAD did not move, and the worktree that was kept aside is brought back.
    BringBack,
    /// What was kept aside of the review that HEAD enters is brought back.
    FindReview,
    /// What was kept aside of the commit that HEAD is at is brought back.
    FindCommit,
    /// HEAD is at the destination.
    Arrived,
    /// A rebase on the way runs into a conflict.
    Conflicted,
    /// Time travel failed.
    Failed,
}

/// What is to be done next.
#[derive(Clone, Copy, PartialEq, Eq, Structural, Debug)]
pub enum TravelAction {
    /// Look at the way down from a commit, as far as rebases are pending.
    Inspect(ObjectId),
    /// Rebase from a commit on, and check out another.
    Rebase { base: ObjectId, checkout: ObjectId },
    /// See whether the worktree is dirty.
    InspectWorktree,
    /// Keep aside the worktree of the review with a root.
    Keep(ObjectId),
    /// Move HEAD to a commit. It leaves the given commit, or else the one that it is at.
    Move { selected: ObjectId, departure: Option<ObjectId> },
    /// Bring back the worktree that was kept aside.
    BringBack,
    /// Bring back what was kept aside of the review with a root.
    FindReview(ObjectId),
    /// Bring back what was kept aside of a commit.
    FindCommit(ObjectId),
    /// Nothing: HEAD is at the destination.
    Arrive,
    /// Nothing: a rebase runs into a conflict.
    Conflict,
    /// Nothing: time travel failed.
    Fail,
}

/// What came of what was done.
#[derive(PartialEq, Eq, Debug)]
pub enum TravelEvent<T, C, W, N> {
    /// The way down, and whether the destination is an automatic merge.
    Way { waypoints: W, remerges: bool },
    /// A rebase was completed: what took the places of the destination, of HEAD and of the commits that
    /// were rebased, and the references that it changed.
    Completed { selected: Option<ObjectId>, head_id: Option<ObjectId>, news: N, changes: C },
    /// A rebase ran into a conflict.
    Conflicted,
    /// Whether the worktree is dirty.
    Worktree { dirty: bool },
    /// The worktree was kept aside, possibly with a warning.
    PutAside { warning: Option<T> },
    /// HEAD moved.
    Moved { notice: Option<T>, changes: C },
    /// The worktree was brought back, or could not be.
    BroughtBack(Result<T, T>),
    /// What came of what was kept aside.
    Found(Kept<T>),
    /// It could not be done.
    Failed(T),
}

/// What came of what was done, in memory.
pub type CurrentTravelEvent = TravelEvent<
    Vec<u8>,
    Vec<RefChange<FullName>>,
    Vec<Waypoint>,
    Vec<Option<ObjectId>>,
>;

/// What came of what was done, in specifications.
pub type TravelEventView = TravelEvent<
    Seq<u8>,
    Seq<RefChange<Seq<u8>>>,
    Seq<Waypoint>,
    Seq<Option<ObjectId>>,
>;

/// A message of one kind or the other, in specifications.
pub open spec fn result_view(result: Result<Vec<u8>, Vec<u8>>) -> Result<Seq<u8>, Seq<u8>> {
    match result {
        Ok(text) => Ok(text@),
        Err(text) => Err(text@),
    }
}

impl View for TravelEvent<
    Vec<u8>,
    Vec<RefChange<FullName>>,
    Vec<Waypoint>,
    Vec<Option<ObjectId>>,
> {
    type V = TravelEventView;

    open spec fn view(&self) -> TravelEventView {
        match self {
            TravelEvent::Way { waypoints, remerges } => TravelEvent::Way {
                waypoints: waypoints@,
                remerges: *remerges,
            },
            TravelEvent::Completed { selected, head_id, news, changes } => TravelEvent::Completed {
                selected: *selected,
                head_id: *head_id,
                news: news@,
                changes: viewed(changes@),
            },
            TravelEvent::Conflicted => TravelEvent::Conflicted,
            TravelEvent::Worktree { dirty } => TravelEvent::Worktree { dirty: *dirty },
            TravelEvent::PutAside { warning } => TravelEvent::PutAside {
                warning: viewed_option(*warning),
            },
            TravelEvent::Moved { notice, changes } => TravelEvent::Moved {
                notice: viewed_option(*notice),
                changes: viewed(changes@),
            },
            TravelEvent::BroughtBack(result) => TravelEvent::BroughtBack(result_view(*result)),
            TravelEvent::Found(kept) => TravelEvent::Found(kept@),
            TravelEvent::Failed(text) => TravelEvent::Failed(text@),
        }
    }
}

/// Time travel: where it is, the rebases that were completed, the roots of the reviews that HEAD leaves and
/// enters, whether HEAD was detached, what took the places of the commits that were rebased last, the
/// commits to look at for the next rebase, whether a worktree was kept aside and the warning about it, the
/// references that changed, and what is said.
#[derive(PartialEq, Eq, Debug)]
pub struct Travel<R, T, C, N, A> {
    pub leg: Leg,
    pub replay: R,
    pub source: Option<ObjectId>,
    pub destination: Option<ObjectId>,
    pub head_was_detached: bool,
    pub news: N,
    pub affected: A,
    pub kept: bool,
    pub warning: Option<T>,
    pub changes: C,
    pub notice: Option<T>,
}

/// Time travel in memory.
pub type CurrentTravel = Travel<
    Replay<Vec<Rebased>>,
    Vec<u8>,
    Vec<RefChange<FullName>>,
    Vec<Option<ObjectId>>,
    Vec<ObjectId>,
>;

/// Time travel in specifications.
pub type TravelView = Travel<
    ReplayView,
    Seq<u8>,
    Seq<RefChange<Seq<u8>>>,
    Seq<Option<ObjectId>>,
    Seq<ObjectId>,
>;

impl View for Travel<
    Replay<Vec<Rebased>>,
    Vec<u8>,
    Vec<RefChange<FullName>>,
    Vec<Option<ObjectId>>,
    Vec<ObjectId>,
> {
    type V = TravelView;

    open spec fn view(&self) -> TravelView {
        Travel {
            leg: self.leg,
            replay: self.replay@,
            source: self.source,
            destination: self.destination,
            head_was_detached: self.head_was_detached,
            news: self.news@,
            affected: self.affected@,
            kept: self.kept,
            warning: viewed_option(self.warning),
            changes: viewed(self.changes@),
            notice: viewed_option(self.notice),
        }
    }
}

/// Where time travel is once no rebase is pending on the way: before the worktree of a review that is
/// left, or before HEAD moves.
pub open spec fn behind_rebases(source: Option<ObjectId>, destination: Option<ObjectId>) -> Leg {
    if source is Some && source != destination {
        Leg::InspectWorktree
    } else {
        Leg::Move
    }
}

/// Where time travel is once HEAD moved.
pub open spec fn behind_move(source: Option<ObjectId>, destination: Option<ObjectId>) -> Leg {
    if destination is Some && source != destination {
        Leg::FindReview
    } else {
        Leg::FindCommit
    }
}

/// A notice with a warning, if there is one.
pub open spec fn warned(notice: Option<Seq<u8>>, warning: Option<Seq<u8>>) -> Option<Seq<u8>> {
    match warning {
        Some(text) => Some(noted(notice, text)),
        None => notice,
    }
}

/// Time travel that failed.
pub open spec fn failed(travel: TravelView, text: Seq<u8>) -> TravelView {
    Travel { leg: Leg::Failed, notice: Some(text), ..travel }
}

/// Time travel after something was done. What does not belong to where it is leaves it as it is.
pub open spec fn travelled(travel: TravelView, event: TravelEventView) -> Result<
    TravelView,
    TravelError,
> {
    match (travel.leg, event) {
        (Leg::Inspect { first }, TravelEvent::Way { waypoints, remerges }) => match replay_base(
            waypoints,
            travel.replay.selected,
            first && remerges,
        ) {
            Err(err) => Err(err),
            Ok(None) => Ok(
                Travel { leg: behind_rebases(travel.source, travel.destination), ..travel },
            ),
            Ok(Some(base)) => if first {
                Ok(Travel { leg: Leg::Rebase { base }, ..travel })
            } else {
                match survivors(travel.news) {
                    None => Err(TravelError::RebasedCommitLost),
                    Some(affected) => Ok(Travel { leg: Leg::Rebase { base }, affected, ..travel }),
                }
            },
        },
        (
            Leg::Rebase { base },
            TravelEvent::Completed { selected, head_id, news, changes },
        ) => if news.len() != travel.replay.rebased.len() {
            Err(TravelError::RebasedCommitLost)
        } else {
            match completed(travel.replay, selected, head_id, news) {
                Err(err) => Err(err),
                Ok(replay) => Ok(
                    Travel {
                        leg: Leg::Inspect { first: false },
                        replay,
                        news,
                        changes: travel.changes + changes,
                        ..travel
                    },
                ),
            }
        },
        (Leg::Rebase { base }, TravelEvent::Conflicted) => Ok(
            Travel { leg: Leg::Conflicted, ..travel },
        ),
        (Leg::InspectWorktree, TravelEvent::Worktree { dirty }) => Ok(
            Travel {
                leg: if travel.source is Some && travel.source != travel.destination && dirty {
                    Leg::Keep
                } else {
                    Leg::Move
                },
                ..travel
            },
        ),
        (Leg::Keep, TravelEvent::PutAside { warning }) => Ok(
            Travel { leg: Leg::Move, kept: true, warning, ..travel },
        ),
        (Leg::Move, TravelEvent::Moved { notice, changes }) => Ok(
            Travel {
                leg: behind_move(travel.source, travel.destination),
                changes: travel.changes + changes,
                notice: warned(notice, travel.warning),
                ..travel
            },
        ),
        (Leg::Move, TravelEvent::Failed(text)) => if travel.kept {
            Ok(Travel { leg: Leg::BringBack, notice: Some(text), ..travel })
        } else {
            Ok(failed(travel, text))
        },
        (Leg::BringBack, TravelEvent::BroughtBack(result)) => Ok(
            failed(
                travel,
                failure_text(
                    match travel.notice {
                        Some(text) => text,
                        None => Seq::empty(),
                    },
                    Some(result),
                ),
            ),
        ),
        (Leg::FindReview, TravelEvent::Found(kept)) => Ok(
            Travel {
                leg: Leg::FindCommit,
                notice: kept_notice(travel.notice, "review".spec_bytes(), kept),
                ..travel
            },
        ),
        (Leg::FindCommit, TravelEvent::Found(kept)) => Ok(
            Travel {
                leg: Leg::Arrived,
                notice: kept_notice(travel.notice, "commit".spec_bytes(), kept),
                ..travel
            },
        ),
        (Leg::Inspect { first }, TravelEvent::Failed(text)) => Ok(failed(travel, text)),
        (Leg::Rebase { base }, TravelEvent::Failed(text)) => Ok(failed(travel, text)),
        (Leg::InspectWorktree, TravelEvent::Failed(text)) => Ok(failed(travel, text)),
        (Leg::Keep, TravelEvent::Failed(text)) => Ok(failed(travel, text)),
        _ => Ok(travel),
    }
}

/// What is to be done where time travel is.
pub open spec fn action_of(travel: TravelView) -> TravelAction {
    match travel.leg {
        Leg::Inspect { first } => TravelAction::Inspect(travel.replay.selected),
        Leg::Rebase { base } => TravelAction::Rebase { base, checkout: travel.replay.selected },
        Leg::InspectWorktree => TravelAction::InspectWorktree,
        Leg::Keep => match travel.source {
            Some(root) => TravelAction::Keep(root),
            None => TravelAction::Fail,
        },
        Leg::Move => TravelAction::Move {
            selected: travel.replay.selected,
            departure: if travel.head_was_detached {
                Some(travel.replay.head_id)
            } else {
                None
            },
        },
        Leg::BringBack => TravelAction::BringBack,
        Leg::FindReview => match travel.destination {
            Some(root) => TravelAction::FindReview(root),
            None => TravelAction::Fail,
        },
        Leg::FindCommit => TravelAction::FindCommit(travel.replay.selected),
        Leg::Arrived => TravelAction::Arrive,
        Leg::Conflicted => TravelAction::Conflict,
        Leg::Failed => TravelAction::Fail,
    }
}

/// Time travel before anything was done.
pub open spec fn setting_out(
    selected: ObjectId,
    head_id: ObjectId,
    head_was_detached: bool,
    source: Option<ObjectId>,
    destination: Option<ObjectId>,
) -> TravelView {
    Travel {
        leg: Leg::Inspect { first: true },
        replay: Replay { selected, head_id, known: Seq::empty(), rebased: Seq::empty() },
        source,
        destination,
        head_was_detached,
        news: Seq::empty(),
        affected: Seq::empty(),
        kept: false,
        warning: None,
        changes: Seq::empty(),
        notice: None,
    }
}

impl Travel<
    Replay<Vec<Rebased>>,
    Vec<u8>,
    Vec<RefChange<FullName>>,
    Vec<Option<ObjectId>>,
    Vec<ObjectId>,
> {
    /// Sets out for a commit. The roots are those of the reviews that HEAD leaves and enters.
    pub fn new(
        selected: ObjectId,
        head_id: ObjectId,
        head_was_detached: bool,
        source: Option<ObjectId>,
        destination: Option<ObjectId>,
    ) -> (r: CurrentTravel)
        ensures
            r@ == setting_out(selected, head_id, head_was_detached, source, destination),
    {
        let travel = Travel {
            leg: Leg::Inspect { first: true },
            replay: Replay::new(selected, head_id),
            source,
            destination,
            head_was_detached,
            news: Vec::new(),
            affected: Vec::new(),
            kept: false,
            warning: None,
            changes: Vec::new(),
            notice: None,
        };
        assert(viewed(travel.changes@) == Seq::<RefChange<Seq<u8>>>::empty());
        travel
    }

    /// Says what is to be done next.
    pub fn action(&self) -> (r: TravelAction)
        ensures
            r == action_of(self@),
    {
        match self.leg {
            Leg::Inspect { first: _ } => TravelAction::Inspect(self.replay.selected),
            Leg::Rebase { base } => TravelAction::Rebase { base, checkout: self.replay.selected },
            Leg::InspectWorktree => TravelAction::InspectWorktree,
            Leg::Keep => match self.source {
                Some(root) => TravelAction::Keep(root),
                None => TravelAction::Fail,
            },
            Leg::Move => TravelAction::Move {
                selected: self.replay.selected,
                departure: if self.head_was_detached {
                    Some(self.replay.head_id)
                } else {
                    None
                },
            },
            Leg::BringBack => TravelAction::BringBack,
            Leg::FindReview => match self.destination {
                Some(root) => TravelAction::FindReview(root),
                None => TravelAction::Fail,
            },
            Leg::FindCommit => TravelAction::FindCommit(self.replay.selected),
            Leg::Arrived => TravelAction::Arrive,
            Leg::Conflicted => TravelAction::Conflict,
            Leg::Failed => TravelAction::Fail,
        }
    }

    /// Notes that a commit is rebased. The result is what it was before all rebases, which is reported
    /// if the commit is on the way to the destination.
    pub fn note(&mut self, id: ObjectId, on_the_way: bool) -> (r: Option<ObjectId>)
        ensures
            final(self)@ == (Travel {
                replay: Replay {
                    rebased: old(self)@.replay.rebased.push(
                        Rebased { id, original: original_of(old(self)@.replay.known, id) },
                    ),
                    ..old(self)@.replay
                },
                ..old(self)@
            }),
            r == (if on_the_way {
                Some(original_of(old(self)@.replay.known, id))
            } else {
                None
            }),
    {
        self.replay.note(id, on_the_way)
    }

    fn look_ahead(&mut self, waypoints: &Vec<Waypoint>, first: bool, remerges: bool) -> (r: Result<
        (),
        TravelError,
    >)
        requires
            old(self)@.leg == (Leg::Inspect { first }),
        ensures
            ({
                let expected = travelled(
                    old(self)@,
                    TravelEvent::Way { waypoints: waypoints@, remerges },
                );
                match r {
                    Ok(()) => expected == Ok::<_, TravelError>(final(self)@),
                    Err(err) => expected == Err::<TravelView, _>(err),
                }
            }),
    {
        match find_replay_base(waypoints, self.replay.selected, first && remerges) {
            Err(err) => Err(err),
            Ok(None) => {
                self.leg = if self.source.is_some() && crosses_review_boundary(
                    self.source,
                    self.destination,
                ) {
                    Leg::InspectWorktree
                } else {
                    Leg::Move
                };
                Ok(())
            },
            Ok(Some(base)) => {
                if !first {
                    match affected(&self.news) {
                        Err(err) => {
                            return Err(err);
                        },
                        Ok(ids) => {
                            self.affected = ids;
                        },
                    }
                }
                self.leg = Leg::Rebase { base };
                Ok(())
            },
        }
    }

    fn complete(
        &mut self,
        selected: Option<ObjectId>,
        head_id: Option<ObjectId>,
        news: Vec<Option<ObjectId>>,
        changes: Vec<RefChange<FullName>>,
    ) -> (r: Result<(), TravelError>)
        requires
            old(self)@.leg is Rebase,
        ensures
            ({
                let expected = travelled(
                    old(self)@,
                    TravelEvent::Completed {
                        selected,
                        head_id,
                        news: news@,
                        changes: viewed(changes@),
                    },
                );
                match r {
                    Ok(()) => expected == Ok::<_, TravelError>(final(self)@),
                    Err(err) => expected == Err::<TravelView, _>(err),
                }
            }),
    {
        if news.len() != self.replay.rebased.len() {
            return Err(TravelError::RebasedCommitLost);
        }
        if let Err(err) = self.replay.complete(selected, head_id, &news) {
            return Err(err);
        }
        append_changes(&mut self.changes, changes);
        self.news = news;
        self.leg = Leg::Inspect { first: false };
        Ok(())
    }

    fn fail(&mut self, text: Vec<u8>)
        ensures
            final(self)@ == failed(old(self)@, text@),
    {
        self.notice = Some(text);
        self.leg = Leg::Failed;
    }

    fn moved(&mut self, notice: Option<Vec<u8>>, changes: Vec<RefChange<FullName>>)
        requires
            old(self)@.leg is Move,
        ensures
            travelled(
                old(self)@,
                TravelEvent::Moved { notice: viewed_option(notice), changes: viewed(changes@) },
            ) == Ok::<_, TravelError>(final(self)@),
    {
        append_changes(&mut self.changes, changes);
        let mut notice = notice;
        if let Some(text) = &self.warning {
            append_notice(&mut notice, crate::bytes::copied(text.as_slice()));
        }
        self.notice = notice;
        self.leg = if self.destination.is_some() && crosses_review_boundary(
            self.source,
            self.destination,
        ) {
            Leg::FindReview
        } else {
            Leg::FindCommit
        };
    }

    fn brought_back(&mut self, result: Result<Vec<u8>, Vec<u8>>)
        requires
            old(self)@.leg is BringBack,
        ensures
            travelled(old(self)@, TravelEvent::BroughtBack(result_view(result))) == Ok::<
                _,
                TravelError,
            >(final(self)@),
    {
        let error: Vec<u8> = match self.notice.take() {
            Some(text) => text,
            None => Vec::new(),
        };
        assert(error@ == match old(self)@.notice {
            Some(text) => text,
            None => Seq::<u8>::empty(),
        });
        let text = explain_failure(error.as_slice(), Some(result));
        self.fail(text);
    }

    /// Carries time travel on by what came of what was to be done, and says what is to be done next. It
    /// cannot be carried on if the way does not end, or if the destination, HEAD or a commit that was
    /// rebased is gone.
    pub fn advance(&mut self, event: CurrentTravelEvent) -> (r: Result<TravelAction, TravelError>)
        ensures
            match r {
                Ok(action) => travelled(old(self)@, event@) == Ok::<_, TravelError>(final(self)@)
                    && action == action_of(final(self)@),
                Err(err) => travelled(old(self)@, event@) == Err::<TravelView, _>(err),
            },
    {
        match (self.leg, event) {
            (Leg::Inspect { first }, TravelEvent::Way { waypoints, remerges }) => {
                if let Err(err) = self.look_ahead(&waypoints, first, remerges) {
                    return Err(err);
                }
            },
            (
                Leg::Rebase { base: _ },
                TravelEvent::Completed { selected, head_id, news, changes },
            ) => {
                if let Err(err) = self.complete(selected, head_id, news, changes) {
                    return Err(err);
                }
            },
            (Leg::Rebase { base: _ }, TravelEvent::Conflicted) => {
                self.leg = Leg::Conflicted;
            },
            (Leg::InspectWorktree, TravelEvent::Worktree { dirty }) => {
                self.leg = if keeps_worktree(self.source, self.destination, dirty) {
                    Leg::Keep
                } else {
                    Leg::Move
                };
            },
            (Leg::Keep, TravelEvent::PutAside { warning }) => {
                self.kept = true;
                self.warning = warning;
                self.leg = Leg::Move;
            },
            (Leg::Move, TravelEvent::Moved { notice, changes }) => {
                self.moved(notice, changes);
            },
            (Leg::Move, TravelEvent::Failed(text)) => {
                if self.kept {
                    self.notice = Some(text);
                    self.leg = Leg::BringBack;
                } else {
                    self.fail(text);
                }
            },
            (Leg::BringBack, TravelEvent::BroughtBack(result)) => {
                self.brought_back(result);
            },
            (Leg::FindReview, TravelEvent::Found(kept)) => {
                apply_review_stash(&mut self.notice, kept);
                self.leg = Leg::FindCommit;
            },
            (Leg::FindCommit, TravelEvent::Found(kept)) => {
                note_commit_stash(&mut self.notice, kept);
                self.leg = Leg::Arrived;
            },
            (Leg::Inspect { first: _ }, TravelEvent::Failed(text)) => {
                self.fail(text);
            },
            (Leg::Rebase { base: _ }, TravelEvent::Failed(text)) => {
                self.fail(text);
            },
            (Leg::InspectWorktree, TravelEvent::Failed(text)) => {
                self.fail(text);
            },
            (Leg::Keep, TravelEvent::Failed(text)) => {
                self.fail(text);
            },
            _ => {},
        }
        Ok(self.action())
    }
}

/// How far time travel is: rebases come first, then the worktree that is left, then HEAD moves, and then
/// what was kept aside is brought back.
pub open spec fn progress_of(leg: Leg) -> int {
    match leg {
        Leg::Inspect { first } => 0,
        Leg::Rebase { base } => 0,
        Leg::InspectWorktree => 1,
        Leg::Keep => 2,
        Leg::Move => 3,
        Leg::BringBack => 4,
        Leg::FindReview => 5,
        Leg::FindCommit => 6,
        Leg::Arrived => 7,
        Leg::Conflicted => 7,
        Leg::Failed => 7,
    }
}

/// Whether time travel is over.
pub open spec fn over(leg: Leg) -> bool {
    leg is Arrived || leg is Conflicted || leg is Failed
}

/// Whether what is kept of time travel belongs to where it is: a worktree is kept aside only of a review
/// that HEAD leaves, never before the rebases are done, and nothing is brought back of a review that HEAD
/// does not enter.
pub open spec fn on_course(travel: TravelView) -> bool {
    &&& travel.kept || travel.leg is InspectWorktree || travel.leg is Keep ==> travel.source is Some
        && travel.source != travel.destination
    &&& travel.kept ==> progress_of(travel.leg) >= 3
    &&& travel.warning is Some ==> travel.kept
    &&& travel.leg is BringBack ==> travel.kept && travel.notice is Some
    &&& travel.leg is FindReview ==> travel.destination is Some && travel.source
        != travel.destination
}

/// Time travel sets out on course, and stays on it whatever happens.
pub proof fn travel_stays_on_course(
    selected: ObjectId,
    head_id: ObjectId,
    head_was_detached: bool,
    source: Option<ObjectId>,
    destination: Option<ObjectId>,
    travel: TravelView,
    event: TravelEventView,
)
    requires
        on_course(travel),
    ensures
        on_course(setting_out(selected, head_id, head_was_detached, source, destination)),
        travelled(travel, event) matches Ok(next) ==> on_course(next),
{
}

/// Time travel never goes back: the worktree is not looked at before the last rebase is completed, HEAD
/// does not move before the worktree was looked at and, if it is dirty, kept aside, and nothing is brought
/// back before HEAD moved or failed to. What is over stays as it is.
pub proof fn travel_goes_on(travel: TravelView, event: TravelEventView)
    requires
        on_course(travel),
    ensures
        travelled(travel, event) matches Ok(next) ==> progress_of(travel.leg) <= progress_of(
            next.leg,
        ),
        over(travel.leg) ==> travelled(travel, event) == Ok::<_, TravelError>(travel),
        travel.leg is InspectWorktree ==> travelled(
            travel,
            TravelEvent::Worktree { dirty: true },
        )->Ok_0.leg is Keep,
        travel.leg is Keep && !(event is Failed) ==> (travelled(travel, event) matches Ok(next)
            && (next == travel || next.kept && next.leg is Move)),
        travelled(travel, event) matches Ok(next) ==> (next.leg is Move && !(travel.leg is Move)
            ==> next.kept || travel.leg is InspectWorktree || travel.source is None || travel.source
            == travel.destination),
{
}

/// The rebases are done only once the way to the destination, as it is after the last one, holds none that
/// is pending: until then time travel looks at the way or rebases, unless a rebase conflicts or something
/// fails.
pub proof fn rebases_come_first(travel: TravelView, event: TravelEventView)
    requires
        progress_of(travel.leg) == 0,
        travelled(travel, event) is Ok,
        progress_of(travelled(travel, event)->Ok_0.leg) > 0,
        !over(travelled(travel, event)->Ok_0.leg),
    ensures
        travel.leg matches Leg::Inspect { first } && (event matches TravelEvent::Way {
            waypoints,
            remerges,
        } && replay_base(waypoints, travel.replay.selected, first && remerges) == Ok::<
            Option<ObjectId>,
            TravelError,
        >(None)),
        travelled(travel, event)->Ok_0.replay == travel.replay,
{
}

/// The action follows from where time travel is: while it stays on course, what is to be done is what that
/// leg is for, and it fails only where it failed.
pub proof fn actions_follow_legs(travel: TravelView)
    requires
        on_course(travel),
    ensures
        action_of(travel) is Fail <==> travel.leg is Failed,
        action_of(travel) is Arrive <==> travel.leg is Arrived,
        action_of(travel) is Conflict <==> travel.leg is Conflicted,
        action_of(travel) is Move <==> travel.leg is Move,
        action_of(travel) is Keep <==> travel.leg is Keep,
{
}

/// If HEAD does not move, the worktree that was kept aside is brought back before time travel fails, and
/// what came of that is said with the reason; if none was kept aside, the reason alone is said.
pub proof fn failures_bring_back(
    travel: TravelView,
    text: Seq<u8>,
    result: Result<Seq<u8>, Seq<u8>>,
)
    requires
        travel.leg is Move,
    ensures
        !travel.kept ==> travelled(travel, TravelEvent::Failed(text)) == Ok::<_, TravelError>(
            Travel { leg: Leg::Failed, notice: Some(failure_text(text, None)), ..travel },
        ),
        travel.kept ==> {
            &&& travelled(travel, TravelEvent::Failed(text)) matches Ok(next)
            &&& action_of(next) is BringBack
            &&& travelled(next, TravelEvent::BroughtBack(result)) == Ok::<_, TravelError>(
                Travel {
                    leg: Leg::Failed,
                    notice: Some(failure_text(text, Some(result))),
                    ..travel
                },
            )
        },
{
}

/// Once HEAD moved, what is said at the end is what the journey said, the warning about what was kept
/// aside, what came of what was kept of the review if HEAD enters another one, and what came of what was
/// kept of the commit. The references that changed are those of the rebases and of the journey.
pub proof fn arrivals_say_everything(
    travel: TravelView,
    notice: Option<Seq<u8>>,
    changes: Seq<RefChange<Seq<u8>>>,
    review: Kept<Seq<u8>>,
    commit: Kept<Seq<u8>>,
)
    requires
        travel.leg is Move,
    ensures
        ({
            let entered = travel.destination is Some && travel.source != travel.destination;
            let moved = travelled(travel, TravelEvent::Moved { notice, changes })->Ok_0;
            let before = if entered {
                travelled(moved, TravelEvent::Found(review))->Ok_0
            } else {
                moved
            };
            let end = travelled(before, TravelEvent::Found(commit))->Ok_0;
            &&& action_of(end) is Arrive
            &&& end.replay == travel.replay
            &&& end.changes == travel.changes + changes
            &&& end.notice == final_notice(
                notice,
                travel.warning,
                if entered {
                    review
                } else {
                    Kept::Nothing
                },
                commit,
            )
        }),
{
}

} // verus!
