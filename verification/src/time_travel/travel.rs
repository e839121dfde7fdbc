//! Time travel: rebases that are pending on the way are completed, and reviews keep their worktree.
use vstd::prelude::*;
use vstd::string::StringSliceAdditionalSpecFns;
use crate::bytes;
use crate::bytes::has_prefix;
use crate::ids::{hex_of, hex_round_trip, ObjectId};
use crate::names::{FullName, PIN_PREFIX, REVIEW_PIN_PREFIX};
use crate::plan::viewed_option;
use crate::time_travel::journey::{append_notice, noted};
use crate::time_travel::pins::Pin;
use crate::time_travel::TravelError;
use crate::undo::changes::Target;

verus! {

/// A commit on the way: whether a rebase of it is pending, and its first parent.
#[derive(Clone, Copy, PartialEq, Eq, Structural, Debug)]
pub struct Waypoint {
    pub id: ObjectId,
    pub pending: bool,
    pub parent: Option<ObjectId>,
}

/// What is known of a commit, among what is known from `at` on.
pub open spec fn waypoint_from(waypoints: Seq<Waypoint>, id: ObjectId, at: int) -> Option<Waypoint>
    decreases waypoints.len() - at,
{
    if at < 0 || at >= waypoints.len() {
        None
    } else if waypoints[at].id == id {
        Some(waypoints[at])
    } else {
        waypoint_from(waypoints, id, at + 1)
    }
}

/// The lowest commit with a pending rebase on the first parents of a commit that has one, where `base`
/// is the lowest one so far.
pub open spec fn base_from(
    waypoints: Seq<Waypoint>,
    current: ObjectId,
    base: Option<ObjectId>,
    left: nat,
) -> Result<Option<ObjectId>, TravelError>
    decreases left,
{
    match waypoint_from(waypoints, current, 0) {
        None => Err(TravelError::UnknownCommit),
        Some(commit) => if !commit.pending {
            Ok(base)
        } else {
            match commit.parent {
                None => Ok(Some(current)),
                Some(parent) => if left == 0 {
                    Err(TravelError::EndlessHistory)
                } else {
                    base_from(waypoints, parent, Some(current), (left - 1) as nat)
                },
            }
        },
    }
}

fn find_waypoint(waypoints: &Vec<Waypoint>, id: ObjectId) -> (r: Option<Waypoint>)
    ensures
        r == waypoint_from(waypoints@, id, 0),
{
    let mut at: usize = 0;
    while at < waypoints.len()
        invariant
            at <= waypoints@.len(),
            waypoint_from(waypoints@, id, 0) == waypoint_from(waypoints@, id, at as int),
        decreases waypoints@.len() - at,
    {
        if waypoints[at].id == id {
            return Some(waypoints[at]);
        }
        at = at + 1;
    }
    None
}

/// The commit at which to start completing the rebase that is pending for a destination, none if there
/// is no such rebase.
pub fn pending_base(waypoints: &Vec<Waypoint>, selected: ObjectId) -> (r: Result<
    Option<ObjectId>,
    TravelError,
>)
    ensures
        r == base_from(waypoints@, selected, None, waypoints@.len()),
{
    let mut current = selected;
    let mut base: Option<ObjectId> = None;
    let mut left: usize = waypoints.len();
    loop
        invariant
            left <= waypoints@.len(),
            base_from(waypoints@, selected, None, waypoints@.len()) == base_from(
                waypoints@,
                current,
                base,
                left as nat,
            ),
        decreases left,
    {
        match find_waypoint(waypoints, current) {
            None => {
                return Err(TravelError::UnknownCommit);
            },
            Some(commit) => {
                if !commit.pending {
                    return Ok(base);
                }
                match commit.parent {
                    None => {
                        return Ok(Some(current));
                    },
                    Some(parent) => {
                        if left == 0 {
                            return Err(TravelError::EndlessHistory);
                        }
                        base = Some(current);
                        current = parent;
                        left = left - 1;
                    },
                }
            },
        }
    }
}

/// Whether a commit is reached from another one by going to the first parents of commits with a pending
/// rebase, in at most `steps` steps.
pub open spec fn pending_line(
    waypoints: Seq<Waypoint>,
    from: ObjectId,
    to: ObjectId,
    steps: nat,
) -> bool
    decreases steps,
{
    waypoint_from(waypoints, from, 0) matches Some(commit) && commit.pending && (from == to || (
    steps > 0 && (commit.parent matches Some(parent) && pending_line(
        waypoints,
        parent,
        to,
        (steps - 1) as nat,
    ))))
}

/// Whether the first parent of a commit has no pending rebase, or there is no first parent.
pub open spec fn lowest(waypoints: Seq<Waypoint>, id: ObjectId) -> bool {
    waypoint_from(waypoints, id, 0) matches Some(commit) && (commit.parent matches Some(parent) ==> (
    waypoint_from(waypoints, parent, 0) matches Some(below) && !below.pending))
}

proof fn base_is_found(
    waypoints: Seq<Waypoint>,
    current: ObjectId,
    base: Option<ObjectId>,
    left: nat,
)
    ensures
        base_from(waypoints, current, base, left) matches Ok(found) ==> {
            if waypoint_from(waypoints, current, 0)->0.pending {
                found matches Some(id) && pending_line(waypoints, current, id, left) && lowest(
                    waypoints,
                    id,
                )
            } else {
                found == base
            }
        },
    decreases left,
{
    if let Some(commit) = waypoint_from(waypoints, current, 0) {
        if commit.pending {
            if let Some(parent) = commit.parent {
                if left > 0 {
                    base_is_found(waypoints, parent, Some(current), (left - 1) as nat);
                    if let Some(below) = waypoint_from(waypoints, parent, 0) {
                        if !below.pending {
                            assert(lowest(waypoints, current));
                        }
                    }
                }
            }
        }
    }
}

/// A pending rebase is completed from its lowest commit: everything from the destination down to that
/// is pending, and what is below is not. A destination without one needs nothing.
pub proof fn pending_bases_are_the_lowest(waypoints: Seq<Waypoint>, selected: ObjectId)
    ensures
        base_from(waypoints, selected, None, waypoints.len()) matches Ok(found) ==> {
            if waypoint_from(waypoints, selected, 0)->0.pending {
                found matches Some(id) && pending_line(waypoints, selected, id, waypoints.len())
                    && lowest(waypoints, id)
            } else {
                found is None
            }
        },
{
    base_is_found(waypoints, selected, None, waypoints.len());
}

/// The commit at which to start rebasing for a destination: where a rebase is pending, or else at the
/// destination if that is an automatic merge to be made again, so that it holds what it follows.
pub open spec fn replay_base(
    waypoints: Seq<Waypoint>,
    selected: ObjectId,
    remerges: bool,
) -> Result<Option<ObjectId>, TravelError> {
    match base_from(waypoints, selected, None, waypoints.len()) {
        Ok(None) => Ok(
            if remerges {
                Some(selected)
            } else {
                None
            },
        ),
        found => found,
    }
}

/// Finds the commit at which to start rebasing for a destination; `remerges` is whether that is an
/// automatic merge which was not made again on the way.
pub fn find_replay_base(waypoints: &Vec<Waypoint>, selected: ObjectId, remerges: bool) -> (r: Result<
    Option<ObjectId>,
    TravelError,
>)
    ensures
        r == replay_base(waypoints@, selected, remerges),
{
    match pending_base(waypoints, selected) {
        Ok(None) => if remerges {
            Ok(Some(selected))
        } else {
            Ok(None)
        },
        found => found,
    }
}

/// A commit that was rebased, and the one that it was before all rebases.
#[derive(Clone, Copy, PartialEq, Eq, Structural, Debug)]
pub struct Rebased {
    pub id: ObjectId,
    pub original: ObjectId,
}

/// What a commit was before all rebases: what is known last of it, or itself.
pub open spec fn original_of(known: Seq<Rebased>, id: ObjectId) -> ObjectId
    decreases known.len(),
{
    if known.len() == 0 {
        id
    } else if known.last().id == id {
        known.last().original
    } else {
        original_of(known.drop_last(), id)
    }
}

/// What a commit was before all rebases.
pub fn find_original(known: &Vec<Rebased>, id: ObjectId) -> (r: ObjectId)
    ensures
        r == original_of(known@, id),
{
    let mut left: usize = known.len();
    assert(known@.take(left as int) == known@);
    while left > 0
        invariant
            left <= known@.len(),
            original_of(known@, id) == original_of(known@.take(left as int), id),
        decreases left,
    {
        let at: usize = left - 1;
        assert(known@.take(left as int).drop_last() == known@.take(at as int));
        assert(known@.take(left as int).last() == known@[at as int]);
        if known[at].id == id {
            return known[at].original;
        }
        left = at;
    }
    id
}

/// Rebases that are completed on the way: where the destination and HEAD are now, what the commits were
/// before, and the commits of the current rebase.
#[derive(PartialEq, Eq, Debug)]
pub struct Replay<C> {
    pub selected: ObjectId,
    pub head_id: ObjectId,
    pub known: C,
    pub rebased: C,
}

/// Rebases in specifications.
pub type ReplayView = Replay<Seq<Rebased>>;

impl View for Replay<Vec<Rebased>> {
    type V = ReplayView;

    open spec fn view(&self) -> ReplayView {
        Replay {
            selected: self.selected,
            head_id: self.head_id,
            known: self.known@,
            rebased: self.rebased@,
        }
    }
}

/// What is known of originals once commits were rebased again; `news` are the commits that took their
/// places, unless they are gone.
pub open spec fn learned(
    known: Seq<Rebased>,
    rebased: Seq<Rebased>,
    news: Seq<Option<ObjectId>>,
) -> Seq<Rebased>
    decreases rebased.len(),
{
    if rebased.len() == 0 || news.len() == 0 {
        known
    } else {
        let before = learned(known, rebased.drop_last(), news.drop_last());
        match news.last() {
            Some(id) => before.push(Rebased { id, original: rebased.last().original }),
            None => before,
        }
    }
}

/// The state behind a completed rebase, with where the destination and HEAD are then.
pub open spec fn completed(
    replay: ReplayView,
    selected: Option<ObjectId>,
    head_id: Option<ObjectId>,
    news: Seq<Option<ObjectId>>,
) -> Result<ReplayView, TravelError> {
    match (selected, head_id) {
        (None, _) => Err(TravelError::DestinationLost),
        (Some(_), None) => Err(TravelError::HeadLost),
        (Some(selected), Some(head_id)) => Ok(
            Replay {
                selected,
                head_id,
                known: learned(replay.known, replay.rebased, news),
                rebased: Seq::empty(),
            },
        ),
    }
}

impl Replay<Vec<Rebased>> {
    /// Starts without any rebase.
    pub fn new(selected: ObjectId, head_id: ObjectId) -> (r: Replay<Vec<Rebased>>)
        ensures
            r@ == (ReplayView {
                selected,
                head_id,
                known: Seq::empty(),
                rebased: Seq::empty(),
            }),
    {
        Replay { selected, head_id, known: Vec::new(), rebased: Vec::new() }
    }

    /// Notes that a commit is rebased. The result is what it was before all rebases, which is reported
    /// if the commit is on the way to the destination.
    pub fn note(&mut self, id: ObjectId, on_the_way: bool) -> (r: Option<ObjectId>)
        ensures
            final(self)@ == (ReplayView {
                rebased: old(self)@.rebased.push(
                    Rebased { id, original: original_of(old(self)@.known, id) },
                ),
                ..old(self)@
            }),
            r == (if on_the_way {
                Some(original_of(old(self)@.known, id))
            } else {
                None
            }),
    {
        let original = find_original(&self.known, id);
        self.rebased.push(Rebased { id, original });
        if on_the_way {
            Some(original)
        } else {
            None
        }
    }

    /// Completes a rebase: `selected`, `head_id` and `news` are what took the places of the destination,
    /// of HEAD and of the commits that were rebased.
    pub fn complete(
        &mut self,
        selected: Option<ObjectId>,
        head_id: Option<ObjectId>,
        news: &Vec<Option<ObjectId>>,
    ) -> (r: Result<(), TravelError>)
        requires
            news@.len() == old(self)@.rebased.len(),
        ensures
            match r {
                Ok(()) => completed(old(self)@, selected, head_id, news@) == Ok::<_, TravelError>(
                    final(self)@,
                ),
                Err(err) => completed(old(self)@, selected, head_id, news@) == Err::<ReplayView, _>(
                    err,
                ),
            },
    {
        let ghost before = self@;
        let ghost rebased = self.rebased@;
        let total: usize = self.rebased.len();
        let mut at: usize = 0;
        assert(rebased.take(0).len() == 0);
        while at < total
            invariant
                at <= total,
                total == rebased.len(),
                total == news@.len(),
                self.rebased@ == rebased,
                self.selected == before.selected,
                self.head_id == before.head_id,
                self.known@ == learned(
                    before.known,
                    rebased.take(at as int),
                    news@.take(at as int),
                ),
            decreases total - at,
        {
            assert(rebased.take(at as int + 1).drop_last() == rebased.take(at as int));
            assert(news@.take(at as int + 1).drop_last() == news@.take(at as int));
            let original = self.rebased[at].original;
            if let Some(id) = news[at] {
                self.known.push(Rebased { id, original });
            }
            at = at + 1;
        }
        assert(rebased.take(total as int) == rebased);
        assert(news@.take(total as int) == news@);
        match selected {
            None => Err(TravelError::DestinationLost),
            Some(selected) => match head_id {
                None => Err(TravelError::HeadLost),
                Some(head_id) => {
                    self.selected = selected;
                    self.head_id = head_id;
                    self.rebased = Vec::new();
                    Ok(())
                },
            },
        }
    }
}

/// The commits to look at if another rebase is pending; all of those rebased before must still be there.
pub open spec fn survivors(news: Seq<Option<ObjectId>>) -> Option<Seq<ObjectId>> {
    if forall|i: int| 0 <= i < news.len() ==> #[trigger] news[i] is Some {
        Some(Seq::new(news.len(), |i: int| news[i]->0))
    } else {
        None
    }
}

/// The commits to look at if another rebase is pending.
pub fn affected(news: &Vec<Option<ObjectId>>) -> (r: Result<Vec<ObjectId>, TravelError>)
    ensures
        match r {
            Ok(ids) => survivors(news@) == Some(ids@),
            Err(err) => survivors(news@) is None && err == TravelError::RebasedCommitLost,
        },
{
    let mut ids: Vec<ObjectId> = Vec::new();
    let mut at: usize = 0;
    while at < news.len()
        invariant
            at <= news@.len(),
            ids@.len() == at,
            forall|i: int| 0 <= i < at ==> #[trigger] news@[i] is Some,
            forall|i: int| 0 <= i < at ==> ids@[i] == (#[trigger] news@[i])->0,
        decreases news@.len() - at,
    {
        match news[at] {
            Some(id) => {
                ids.push(id);
            },
            None => {
                assert(!(news@[at as int] is Some));
                return Err(TravelError::RebasedCommitLost);
            },
        }
        at = at + 1;
    }
    assert(ids@ == Seq::new(news@.len(), |i: int| news@[i]->0));
    Ok(ids)
}

/// What a commit was before all rebases stays known: what took the place of a rebased commit last has
/// the original of that commit.
pub proof fn originals_are_kept(
    known: Seq<Rebased>,
    rebased: Seq<Rebased>,
    news: Seq<Option<ObjectId>>,
    at: int,
)
    requires
        rebased.len() == news.len(),
        0 <= at < news.len(),
        news[at] is Some,
        forall|i: int| at < i < news.len() ==> #[trigger] news[i] != news[at],
    ensures
        original_of(learned(known, rebased, news), news[at]->0) == rebased[at].original,
    decreases rebased.len(),
{
    if at < news.len() - 1 {
        let last = news.len() - 1;
        assert(news[last] != news[at]);
        originals_are_kept(known, rebased.drop_last(), news.drop_last(), at);
        let before = learned(known, rebased.drop_last(), news.drop_last());
        if let Some(id) = news.last() {
            let after = before.push(Rebased { id, original: rebased.last().original });
            assert(after.drop_last() == before);
        }
    } else {
        let before = learned(known, rebased.drop_last(), news.drop_last());
        let after = before.push(Rebased { id: news[at]->0, original: rebased[at].original });
        assert(after.last().id == news[at]->0);
    }
}

/// Why time travel cannot start.
pub fn check_start(head_id: Option<ObjectId>, conflicted: bool) -> (r: Result<ObjectId, TravelError>)
    ensures
        r == (match head_id {
            None => Err(TravelError::UnbornHead),
            Some(id) => if conflicted {
                Err(TravelError::IndexConflicts)
            } else {
                Ok(id)
            },
        }),
        r is Ok <==> head_id is Some && !conflicted,
        r matches Ok(id) ==> head_id == Some(id),
{
    match head_id {
        None => Err(TravelError::UnbornHead),
        Some(id) => if conflicted {
            Err(TravelError::IndexConflicts)
        } else {
            Ok(id)
        },
    }
}

/// Whether HEAD moves from one review to another, or into or out of one. The roots are those of the
/// reviews that it leaves and enters.
pub fn crosses_review_boundary(source: Option<ObjectId>, destination: Option<ObjectId>) -> (r: bool)
    ensures
        r == (source != destination),
{
    match (source, destination) {
        (None, None) => false,
        (Some(a), Some(b)) => a != b,
        _ => true,
    }
}

/// Whether the worktree of a review is kept aside before HEAD leaves the review.
pub fn keeps_worktree(source: Option<ObjectId>, destination: Option<ObjectId>, dirty: bool) -> (r: bool)
    ensures
        r == (source is Some && source != destination && dirty),
        r ==> source is Some && dirty,
        source is Some && source != destination && dirty ==> r,
        source == destination ==> !r,
{
    source.is_some() && crosses_review_boundary(source, destination) && dirty
}

/// What came of looking for a worktree that was kept aside, and of applying it.
#[derive(PartialEq, Eq, Debug)]
pub enum Kept<T> {
    Nothing,
    Applied(T),
    Remains(T),
    Unknown(T),
}

impl<T: View> View for Kept<T> {
    type V = Kept<T::V>;

    open spec fn view(&self) -> Kept<T::V> {
        match self {
            Kept::Nothing => Kept::Nothing,
            Kept::Applied(text) => Kept::Applied(text@),
            Kept::Remains(text) => Kept::Remains(text@),
            Kept::Unknown(text) => Kept::Unknown(text@),
        }
    }
}

/// A notice of what came of a worktree that was kept aside. `what` is what it is called.
pub open spec fn kept_notice(
    notice: Option<Seq<u8>>,
    what: Seq<u8>,
    kept: Kept<Seq<u8>>,
) -> Option<Seq<u8>> {
    match kept {
        Kept::Nothing => notice,
        Kept::Applied(text) => Some(noted(notice, text)),
        Kept::Remains(text) => Some(noted(notice, what + " stash remains: ".spec_bytes() + text)),
        Kept::Unknown(text) => Some(
            noted(
                notice,
                "could not inspect the ".spec_bytes() + what + " stash: ".spec_bytes() + text,
            ),
        ),
    }
}

fn note_kept(notice: &mut Option<Vec<u8>>, what: &[u8], kept: Kept<Vec<u8>>)
    ensures
        viewed_option(*final(notice)) == kept_notice(viewed_option(*old(notice)), what@, kept@),
{
    match kept {
        Kept::Nothing => {},
        Kept::Applied(text) => {
            append_notice(notice, text);
        },
        Kept::Remains(text) => {
            let mut addition = bytes::joined(what, " stash remains: ".as_bytes());
            bytes::append(&mut addition, text.as_slice());
            append_notice(notice, addition);
        },
        Kept::Unknown(text) => {
            let mut addition = bytes::joined("could not inspect the ".as_bytes(), what);
            bytes::append(&mut addition, " stash: ".as_bytes());
            bytes::append(&mut addition, text.as_slice());
            append_notice(notice, addition);
        },
    }
}

/// Notes what came of the worktree of the review that HEAD enters.
pub fn apply_review_stash(notice: &mut Option<Vec<u8>>, kept: Kept<Vec<u8>>)
    ensures
        viewed_option(*final(notice)) == kept_notice(
            viewed_option(*old(notice)),
            "review".spec_bytes(),
            kept@,
        ),
{
    note_kept(notice, "review".as_bytes(), kept);
}

/// Notes what came of the worktree that was kept aside of the commit that HEAD is at.
pub fn note_commit_stash(notice: &mut Option<Vec<u8>>, kept: Kept<Vec<u8>>)
    ensures
        viewed_option(*final(notice)) == kept_notice(
            viewed_option(*old(notice)),
            "commit".spec_bytes(),
            kept@,
        ),
{
    note_kept(notice, "commit".as_bytes(), kept);
}

/// What is said at the end of time travel: what the journey said, a warning about the worktree that was
/// kept aside, and what came of the worktrees kept aside for the review and for the commit.
pub open spec fn final_notice(
    notice: Option<Seq<u8>>,
    warning: Option<Seq<u8>>,
    review: Kept<Seq<u8>>,
    commit: Kept<Seq<u8>>,
) -> Option<Seq<u8>> {
    let warned = match warning {
        Some(text) => Some(noted(notice, text)),
        None => notice,
    };
    kept_notice(
        kept_notice(warned, "review".spec_bytes(), review),
        "commit".spec_bytes(),
        commit,
    )
}

/// Why HEAD did not move, with what came of the worktree that was kept aside for it.
pub open spec fn failure_text(error: Seq<u8>, restored: Option<Result<Seq<u8>, Seq<u8>>>) -> Seq<u8> {
    match restored {
        None => error,
        Some(Ok(text)) => "source review stash restoration: ".spec_bytes() + text
            + ": ".spec_bytes() + error,
        Some(Err(text)) => "source review stash could not be restored: ".spec_bytes() + text
            + ": ".spec_bytes() + error,
    }
}

/// Why HEAD did not move, with what came of the worktree that was kept aside for it.
pub fn explain_failure(error: &[u8], restored: Option<Result<Vec<u8>, Vec<u8>>>) -> (r: Vec<u8>)
    ensures
        r@ == failure_text(
            error@,
            match restored {
                None => None,
                Some(Ok(text)) => Some(Ok(text@)),
                Some(Err(text)) => Some(Err(text@)),
            },
        ),
{
    let (mut text, restored) = match restored {
        None => {
            return bytes::copied(error);
        },
        Some(Ok(text)) => (bytes::copied("source review stash restoration: ".as_bytes()), text),
        Some(Err(text)) => (
            bytes::copied("source review stash could not be restored: ".as_bytes()),
            text,
        ),
    };
    bytes::append(&mut text, restored.as_slice());
    bytes::append(&mut text, ": ".as_bytes());
    bytes::append(&mut text, error);
    text
}

/// What is said once HEAD is at a commit with conflicts.
pub open spec fn conflict_notice(notice: Option<Seq<u8>>, commit: ObjectId) -> Seq<u8> {
    (match notice {
        Some(notice) => notice,
        None => "checked out ".spec_bytes() + hex_of(commit).take(7),
    }) + "; ready to resolve conflicts".spec_bytes()
}

/// What is said once HEAD is at a commit with conflicts.
pub fn accept_conflict(notice: Option<Vec<u8>>, commit: ObjectId) -> (r: Vec<u8>)
    ensures
        r@ == conflict_notice(viewed_option(notice), commit),
{
    let text = match notice {
        Some(notice) => notice,
        None => {
            let hex = commit.to_hex();
            proof {
                hex_round_trip(commit);
            }
            bytes::joined("checked out ".as_bytes(), bytes::head_of(hex.as_slice(), 7))
        },
    };
    bytes::joined(text.as_slice(), "; ready to resolve conflicts".as_bytes())
}

/// What HEAD is on once a review is left, given the reference that the review returns to: that
/// reference, or the branch that it points at if it is a pin.
pub open spec fn return_reference(name: Seq<u8>, target: Target<Seq<u8>>) -> Option<Seq<u8>> {
    if has_prefix(name, PIN_PREFIX.spec_bytes()) {
        match target {
            Target::Symbolic(branch) => Some(branch),
            Target::Object(_) => None,
        }
    } else {
        Some(name)
    }
}

/// What HEAD is on once a review is left.
pub fn find_return_reference(name: &FullName, target: &Target<FullName>) -> (r: Option<FullName>)
    ensures
        viewed_option(r) == return_reference(name@, target@),
{
    if bytes::starts_with(name.as_bytes(), PIN_PREFIX.as_bytes()) {
        match target {
            Target::Symbolic(branch) => Some(branch.clone()),
            Target::Object(_) => None,
        }
    } else {
        Some(name.clone())
    }
}

/// The pin to remove once a review is left: the reference that the review returns to, if that is a pin of
/// reviews.
pub fn return_pin(name: &FullName, target: &Target<FullName>, id: ObjectId) -> (r: Option<
    Pin<FullName>,
>)
    ensures
        viewed_option(r) == (if has_prefix(name@, REVIEW_PIN_PREFIX.spec_bytes()) {
            Some(Pin { name: name@, target: target@, id })
        } else {
            None
        }),
{
    if bytes::starts_with(name.as_bytes(), REVIEW_PIN_PREFIX.as_bytes()) {
        Some(Pin { name: name.clone(), target: target.copy(), id })
    } else {
        None
    }
}

} // verus!
