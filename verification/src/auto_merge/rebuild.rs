//! Making an automatic merge again from its inputs.
use vstd::prelude::*;
use crate::auto_merge::definition::{stored, title_of, Definition, Header, Input};
use crate::auto_merge::resolve::{
    commit_of, find_commit, planned_view, resolved_input, Commit, CommitView, Planned, PlannedView,
    References, ReferencesView, Rewrite, Snapshot, SnapshotView,
};
use crate::auto_merge::MergeError;
use crate::bytes;
use crate::bytes::{find_byte_from, LF};
use crate::ids::{contains_id, ObjectId};
use crate::names::FullName;
use crate::plan::{viewed, viewed_option, viewed_push};

verus! {

/// The inputs from `at` on that still stand for a commit, with that commit, behind `done`.
pub open spec fn live_from(
    refs: ReferencesView,
    snapshot: SnapshotView,
    inputs: Seq<Input<Seq<u8>>>,
    rewritten: Seq<Rewrite>,
    planned: Option<PlannedView>,
    at: int,
    done: Seq<Input<Seq<u8>>>,
) -> Result<(Seq<Input<Seq<u8>>>, ReferencesView), MergeError>
    decreases inputs.len() - at,
{
    if at < 0 || at >= inputs.len() {
        Ok((done, refs))
    } else {
        let (result, ambiguous) = resolved_input(refs, snapshot, inputs[at], rewritten, planned);
        let refs = ReferencesView { ambiguous, ..refs };
        match result {
            Err(err) => Err(err),
            Ok(None) => live_from(refs, snapshot, inputs, rewritten, planned, at + 1, done),
            Ok(Some(commit_id)) => live_from(
                refs,
                snapshot,
                inputs,
                rewritten,
                planned,
                at + 1,
                done.push(Input { commit_id, ..inputs[at] }),
            ),
        }
    }
}

/// The inputs that still stand for a commit, with that commit.
pub fn live_inputs(
    snapshot: &Snapshot,
    definition: &Definition,
    refs: &mut References,
    rewritten: &[Rewrite],
    planned: Option<&Planned<'_>>,
) -> (r: Result<Definition, MergeError>)
    ensures
        ({
            let expected = live_from(
                old(refs)@,
                snapshot@,
                definition@,
                rewritten@,
                planned_view(planned),
                0,
                Seq::empty(),
            );
            match r {
                Ok(live) => expected == Ok::<_, MergeError>((live@, final(refs)@)),
                Err(err) => expected == Err::<(Seq<Input<Seq<u8>>>, ReferencesView), _>(err),
            }
        }),
{
    let mut inputs: Vec<Input<FullName>> = Vec::new();
    let mut at: usize = 0;
    assert(viewed(inputs@) == Seq::<Input<Seq<u8>>>::empty());
    while at < definition.inputs.len()
        invariant
            at <= definition.inputs@.len(),
            live_from(
                old(refs)@,
                snapshot@,
                definition@,
                rewritten@,
                planned_view(planned),
                0,
                Seq::empty(),
            ) == live_from(
                refs@,
                snapshot@,
                definition@,
                rewritten@,
                planned_view(planned),
                at as int,
                viewed(inputs@),
            ),
        decreases definition.inputs.len() - at,
    {
        let input = &definition.inputs[at];
        assert(definition@[at as int] == input@);
        let ghost before = refs@;
        let resolved = refs.resolve_input(snapshot, input, rewritten, planned);
        assert(refs@ == (ReferencesView { ambiguous: refs@.ambiguous, ..before }));
        match resolved {
            Err(err) => return Err(err),
            Ok(None) => {},
            Ok(Some(commit_id)) => {
                let live = Input { source: input.source.copy(), commit_id, muted: input.muted };
                proof {
                    viewed_push(inputs@, live);
                }
                inputs.push(live);
            },
        }
        at = at + 1;
    }
    Ok(Definition { inputs })
}

/// What becomes of an automatic merge: a merge, its only input, or nothing.
#[derive(Clone, Copy, PartialEq, Eq, Structural, Debug)]
pub enum Rebuilt {
    Commit,
    Collapse(ObjectId),
    Empty,
}

/// What becomes of an automatic merge with the given inputs.
pub open spec fn rebuilt_of(inputs: Seq<Input<Seq<u8>>>) -> Rebuilt {
    if inputs.len() == 0 {
        Rebuilt::Empty
    } else if inputs.len() == 1 {
        Rebuilt::Collapse(inputs[0].commit_id)
    } else {
        Rebuilt::Commit
    }
}

/// What becomes of an automatic merge with the given inputs.
pub fn rebuilt(definition: &Definition) -> (r: Rebuilt)
    ensures
        r == rebuilt_of(definition@),
{
    if definition.inputs.len() == 0 {
        Rebuilt::Empty
    } else if definition.inputs.len() == 1 {
        Rebuilt::Collapse(definition.inputs[0].commit_id)
    } else {
        Rebuilt::Commit
    }
}

/// A merge in progress: its inputs, how many of them were looked at, and the commit that holds
/// what was merged so far.
#[derive(PartialEq, Eq, Debug)]
pub struct Merging {
    pub inputs: Vec<Input<FullName>>,
    pub at: usize,
    pub accumulated: Option<ObjectId>,
}

/// A merge in progress, in specifications.
pub struct MergingView {
    pub inputs: Seq<Input<Seq<u8>>>,
    pub at: int,
    pub accumulated: Option<ObjectId>,
}

impl View for Merging {
    type V = MergingView;

    open spec fn view(&self) -> MergingView {
        MergingView {
            inputs: viewed(self.inputs@),
            at: self.at as int,
            accumulated: self.accumulated,
        }
    }
}

/// What is to be merged next: what was merged so far and an input.
#[derive(Clone, Copy, PartialEq, Eq, Structural, Debug)]
pub struct MergeRequest {
    pub ours: ObjectId,
    pub theirs: ObjectId,
}

impl MergingView {
    /// With the current input merged or left out, and on to the next.
    pub open spec fn past(self, muted: bool) -> MergingView {
        MergingView {
            inputs: self.inputs.update(self.at, Input { muted, ..self.inputs[self.at] }),
            at: self.at + 1,
            accumulated: self.accumulated,
        }
    }

    /// The merge up to the next input that has to be merged with what was merged so far. An input in
    /// conflict is left out, the first of the others is where merging begins, and one that is what
    /// was merged so far adds nothing.
    pub open spec fn advanced(self, commits: Seq<CommitView>) -> Result<
        (Option<MergeRequest>, MergingView),
        MergeError,
    >
        decreases self.inputs.len() - self.at,
    {
        if self.at < 0 || self.at >= self.inputs.len() {
            Ok((None, self))
        } else {
            let id = self.inputs[self.at].commit_id;
            match commit_of(commits, id) {
                None => Err(MergeError::UnknownCommit),
                Some(commit) => if commit.pending {
                    self.past(true).advanced(commits)
                } else {
                    match self.accumulated {
                        None => MergingView {
                            accumulated: Some(id),
                            ..self.past(false)
                        }.advanced(commits),
                        Some(ours) => if ours == id {
                            self.past(false).advanced(commits)
                        } else {
                            Ok((Some(MergeRequest { ours, theirs: id }), self))
                        },
                    }
                },
            }
        }
    }

    /// The merge once the current input was merged, into a commit unless there were conflicts,
    /// because of which it is left out.
    pub open spec fn decided(self, merged: Option<ObjectId>) -> MergingView {
        match merged {
            None => self.past(true),
            Some(id) => MergingView { accumulated: Some(id), ..self.past(false) },
        }
    }
}

fn set_muted(inputs: &mut Vec<Input<FullName>>, at: usize, muted: bool)
    requires
        at < old(inputs)@.len(),
    ensures
        viewed(final(inputs)@) == viewed(old(inputs)@).update(
            at as int,
            Input { muted, ..viewed(old(inputs)@)[at as int] },
        ),
{
    let ghost before = viewed(inputs@);
    let input = Input {
        source: inputs[at].source.copy(),
        commit_id: inputs[at].commit_id,
        muted,
    };
    inputs.set(at, input);
    assert(viewed(inputs@) == before.update(at as int, Input { muted, ..before[at as int] }));
}

impl Merging {
    /// A merge of the given inputs.
    pub fn new(definition: Definition) -> (r: Merging)
        ensures
            r@ == (MergingView { inputs: definition@, at: 0, accumulated: None }),
    {
        Merging { inputs: definition.inputs, at: 0, accumulated: None }
    }

    /// Goes on to the next input that has to be merged with what was merged so far.
    pub fn advance(&mut self, commits: &Vec<Commit>) -> (r: Result<
        Option<MergeRequest>,
        MergeError,
    >)
        ensures
            match r {
                Ok(request) => old(self)@.advanced(viewed(commits@)) == Ok::<_, MergeError>(
                    (request, final(self)@),
                ),
                Err(err) => old(self)@.advanced(viewed(commits@)) == Err::<
                    (Option<MergeRequest>, MergingView),
                    _,
                >(err),
            },
            r matches Ok(Some(_)) ==> final(self).at < final(self).inputs@.len(),
    {
        let ghost before = self@;
        while self.at < self.inputs.len()
            invariant
                before == old(self)@,
                before.advanced(viewed(commits@)) == self@.advanced(viewed(commits@)),
            decreases self.inputs.len() - self.at,
        {
            let id = self.inputs[self.at].commit_id;
            assert(self@.inputs[self.at as int].commit_id == id);
            let pending = match find_commit(commits, id) {
                None => return Err(MergeError::UnknownCommit),
                Some(commit) => commit.pending,
            };
            let mut muted = false;
            if pending {
                muted = true;
            } else {
                match self.accumulated {
                    None => {
                        self.accumulated = Some(id);
                    },
                    Some(ours) => {
                        if ours != id {
                            return Ok(Some(MergeRequest { ours, theirs: id }));
                        }
                    },
                }
            }
            let at = self.at;
            set_muted(&mut self.inputs, at, muted);
            self.at = self.at + 1;
        }
        Ok(None)
    }

    /// Takes note of how the current input was merged: into a commit, or not because of conflicts.
    pub fn decide(&mut self, merged: Option<ObjectId>)
        requires
            old(self).at < old(self).inputs@.len(),
        ensures
            final(self)@ == old(self)@.decided(merged),
    {
        let at = self.at;
        let total: usize = self.inputs.len();
        assert(at < total);
        match merged {
            None => {
                set_muted(&mut self.inputs, at, true);
            },
            Some(id) => {
                set_muted(&mut self.inputs, at, false);
                self.accumulated = Some(id);
            },
        }
        self.at = at + 1;
    }
}

/// Whether the inputs that were looked at are left out exactly if they are in conflict themselves
/// or could not be merged, and there is something merged exactly if one is not left out.
pub open spec fn consistent(state: MergingView, conflicted: spec_fn(int) -> bool, commits: Seq<
    CommitView,
>) -> bool {
    &&& 0 <= state.at <= state.inputs.len()
    &&& forall|i: int|
        #![trigger state.inputs[i]]
        0 <= i < state.at ==> (state.inputs[i].muted == (conflicted(i) || (commit_of(
            commits,
            state.inputs[i].commit_id,
        ) matches Some(commit) && commit.pending)))
    &&& (state.accumulated is Some) == (exists|i: int|
        0 <= i < state.at && !(#[trigger] state.inputs[i]).muted)
}

proof fn past_is_consistent(
    state: MergingView,
    conflicted: spec_fn(int) -> bool,
    commits: Seq<CommitView>,
    muted: bool,
    accumulated: Option<ObjectId>,
)
    requires
        consistent(state, conflicted, commits),
        state.at < state.inputs.len(),
        muted == (conflicted(state.at) || (commit_of(
            commits,
            state.inputs[state.at].commit_id,
        ) matches Some(commit) && commit.pending)),
        muted ==> accumulated == state.accumulated,
        !muted ==> accumulated is Some,
    ensures
        consistent(
            MergingView { accumulated, ..state.past(muted) },
            conflicted,
            commits,
        ),
{
    let next = MergingView { accumulated, ..state.past(muted) };
    assert forall|i: int|
        #![trigger next.inputs[i]]
        0 <= i < next.at implies (next.inputs[i].muted == (conflicted(i) || (commit_of(
        commits,
        next.inputs[i].commit_id,
    ) matches Some(commit) && commit.pending))) by {
        if i < state.at {
            assert(next.inputs[i] == state.inputs[i]);
        }
    }
    if !muted {
        assert(!next.inputs[state.at].muted);
    } else {
        if exists|i: int| 0 <= i < state.at && !(#[trigger] state.inputs[i]).muted {
            let i = choose|i: int| 0 <= i < state.at && !(#[trigger] state.inputs[i]).muted;
            assert(!next.inputs[i].muted);
        }
        if exists|i: int| 0 <= i < next.at && !(#[trigger] next.inputs[i]).muted {
            let i = choose|i: int| 0 <= i < next.at && !(#[trigger] next.inputs[i]).muted;
            assert(!state.inputs[i].muted);
        }
    }
}

/// A merge leaves out exactly the inputs that are in conflict themselves or could not be merged,
/// and goes on behind them; if one is not left out, there is a commit that holds what was merged.
pub proof fn merges_leave_out_conflicts(
    state: MergingView,
    conflicted: spec_fn(int) -> bool,
    commits: Seq<CommitView>,
    merged: Option<ObjectId>,
)
    requires
        consistent(state, conflicted, commits),
        state.advanced(commits) matches Ok((_, next)) ==> (forall|i: int|
            state.at <= i < next.at ==> !#[trigger] conflicted(i)),
    ensures
        state.advanced(commits) matches Ok((request, next)) ==> {
            &&& consistent(next, conflicted, commits)
            &&& next.inputs.len() == state.inputs.len()
            &&& request is None ==> next.at == next.inputs.len()
            &&& request is Some && (merged is None) == conflicted(next.at) ==> consistent(
                next.decided(merged),
                conflicted,
                commits,
            )
        },
    decreases state.inputs.len() - state.at,
{
    if state.at < state.inputs.len() {
        let id = state.inputs[state.at].commit_id;
        if let Some(commit) = commit_of(commits, id) {
            if commit.pending {
                advance_is_monotone(state.past(true), commits);
                past_is_consistent(state, conflicted, commits, true, state.accumulated);
                assert(state.past(true) == (MergingView {
                    accumulated: state.accumulated,
                    ..state.past(true)
                }));
                merges_leave_out_conflicts(state.past(true), conflicted, commits, merged);
            } else {
                match state.accumulated {
                    None => {
                        let next = MergingView { accumulated: Some(id), ..state.past(false) };
                        advance_is_monotone(next, commits);
                        if state.advanced(commits) is Ok {
                            assert(!conflicted(state.at));
                            past_is_consistent(state, conflicted, commits, false, Some(id));
                            merges_leave_out_conflicts(next, conflicted, commits, merged);
                        }
                    },
                    Some(ours) => {
                        if ours == id {
                            advance_is_monotone(state.past(false), commits);
                            if state.advanced(commits) is Ok {
                                assert(!conflicted(state.at));
                                past_is_consistent(
                                    state,
                                    conflicted,
                                    commits,
                                    false,
                                    state.accumulated,
                                );
                                assert(state.past(false) == (MergingView {
                                    accumulated: state.accumulated,
                                    ..state.past(false)
                                }));
                                merges_leave_out_conflicts(
                                    state.past(false),
                                    conflicted,
                                    commits,
                                    merged,
                                );
                            }
                        } else {
                            match merged {
                                None => {
                                    if conflicted(state.at) {
                                        past_is_consistent(
                                            state,
                                            conflicted,
                                            commits,
                                            true,
                                            state.accumulated,
                                        );
                                        assert(state.past(true) == (MergingView {
                                            accumulated: state.accumulated,
                                            ..state.past(true)
                                        }));
                                    }
                                },
                                Some(id) => {
                                    if !conflicted(state.at) {
                                        past_is_consistent(
                                            state,
                                            conflicted,
                                            commits,
                                            false,
                                            Some(id),
                                        );
                                    }
                                },
                            }
                        }
                    },
                }
            }
        }
    }
}

proof fn advance_is_monotone(state: MergingView, commits: Seq<CommitView>)
    ensures
        state.advanced(commits) matches Ok((_, next)) ==> next.at >= state.at,
    decreases state.inputs.len() - state.at,
{
    if 0 <= state.at < state.inputs.len() {
        let id = state.inputs[state.at].commit_id;
        advance_is_monotone(state.past(true), commits);
        advance_is_monotone(state.past(false), commits);
        advance_is_monotone(
            MergingView { accumulated: Some(id), ..state.past(false) },
            commits,
        );
    }
}

/// Where the tree of a merge comes from: the commit that holds what was merged, or if all inputs
/// were left out their common base, and the empty tree if they have none.
#[derive(PartialEq, Eq, Debug)]
pub enum TreeSource {
    Commit(ObjectId),
    Empty,
}

/// Where the tree of a merge comes from, given the common base of its inputs.
pub fn tree_source(accumulated: Option<ObjectId>, common_base: Option<ObjectId>) -> (r: TreeSource)
    ensures
        r == match (accumulated, common_base) {
            (Some(id), _) => TreeSource::Commit(id),
            (None, Some(base)) => TreeSource::Commit(base),
            (None, None) => TreeSource::Empty,
        },
        accumulated matches Some(id) ==> r == TreeSource::Commit(id),
        r is Empty <==> accumulated is None && common_base is None,
{
    match (accumulated, common_base) {
        (Some(id), _) => TreeSource::Commit(id),
        (None, Some(base)) => TreeSource::Commit(base),
        (None, None) => TreeSource::Empty,
    }
}

/// The message of a merge: the generated title, and what follows the first line of the message that
/// it had.
pub open spec fn message_with(title: Seq<u8>, message: Seq<u8>) -> Seq<u8> {
    match find_byte_from(message, LF, 0) {
        Some(newline) => title + message.skip(newline),
        None => title.push(LF),
    }
}

/// The message of a merge with a new title.
pub fn rebuilt_message(definition: &Definition, message: &[u8]) -> (r: Vec<u8>)
    ensures
        r@ == message_with(title_of(definition@), message@),
{
    let mut out = definition.title();
    match bytes::find_byte(message, LF) {
        Some(newline) => {
            bytes::append(&mut out, bytes::tail_of(message, newline));
        },
        None => out.push(LF),
    }
    out
}

/// The commits of inputs, each once.
pub open spec fn parents_of(inputs: Seq<Input<Seq<u8>>>) -> Seq<ObjectId>
    decreases inputs.len(),
{
    if inputs.len() == 0 {
        Seq::empty()
    } else {
        let before = parents_of(inputs.drop_last());
        let id = inputs.last().commit_id;
        if before.contains(id) {
            before
        } else {
            before.push(id)
        }
    }
}

/// The parents of a merge: the commits of its inputs, each once.
pub fn rebuilt_parents(definition: &Definition) -> (r: Vec<ObjectId>)
    ensures
        r@ == parents_of(definition@),
{
    let mut out: Vec<ObjectId> = Vec::new();
    let mut i: usize = 0;
    assert(definition@.take(0) == Seq::<Input<Seq<u8>>>::empty());
    while i < definition.inputs.len()
        invariant
            i <= definition.inputs@.len(),
            out@ == parents_of(definition@.take(i as int)),
        decreases definition.inputs.len() - i,
    {
        let id = definition.inputs[i].commit_id;
        assert(definition@.take(i + 1).drop_last() == definition@.take(i as int));
        if !contains_id(out.as_slice(), id) {
            out.push(id);
        }
        i = i + 1;
    }
    assert(definition@.take(i as int) == definition@);
    out
}

/// What changes of a merge that is made again. Its tree stays if it is made again later.
#[derive(PartialEq, Eq, Debug)]
pub struct RebuiltCommit<P, T, H> {
    pub tree: Option<TreeSource>,
    pub parents: P,
    pub message: T,
    pub headers: H,
}

/// What changes of a merge, in specifications.
pub type RebuiltCommitView = RebuiltCommit<Seq<ObjectId>, Seq<u8>, Seq<Header<Seq<u8>>>>;

impl View for RebuiltCommit<Vec<ObjectId>, Vec<u8>, Vec<Header<Vec<u8>>>> {
    type V = RebuiltCommitView;

    open spec fn view(&self) -> RebuiltCommitView {
        RebuiltCommit {
            tree: self.tree,
            parents: self.parents@,
            message: self.message@,
            headers: viewed(self.headers@),
        }
    }
}

/// What changes of a merge that is made again. One whose inputs were merged gets their tree, a new title,
/// and the inputs with those muted that were left out. One that is made again later keeps its tree and
/// its message, and which inputs are muted: only its parents and what the inputs stand for change.
pub open spec fn rebuilt_to(
    live: Seq<Input<Seq<u8>>>,
    merged: Option<MergingView>,
    common_base: Option<ObjectId>,
    message: Seq<u8>,
    headers: Seq<Header<Seq<u8>>>,
) -> RebuiltCommitView {
    match merged {
        Some(merged) => RebuiltCommit {
            tree: Some(
                match (merged.accumulated, common_base) {
                    (Some(id), _) => TreeSource::Commit(id),
                    (None, Some(base)) => TreeSource::Commit(base),
                    (None, None) => TreeSource::Empty,
                },
            ),
            parents: parents_of(merged.inputs),
            message: message_with(title_of(merged.inputs), message),
            headers: stored(merged.inputs, headers),
        },
        None => RebuiltCommit {
            tree: None,
            parents: parents_of(live),
            message,
            headers: stored(live, headers),
        },
    }
}

/// Makes a merge again from its live inputs: at once, with how they were merged and the common base of all
/// of them, or later.
pub fn rebuilt_commit(
    live: Definition,
    merged: Option<Merging>,
    common_base: Option<ObjectId>,
    message: &[u8],
    headers: Vec<Header<Vec<u8>>>,
) -> (r: RebuiltCommit<Vec<ObjectId>, Vec<u8>, Vec<Header<Vec<u8>>>>)
    ensures
        r@ == rebuilt_to(live@, viewed_option(merged), common_base, message@, viewed(headers@)),
{
    match merged {
        Some(merged) => {
            let ghost view = merged@;
            let accumulated = merged.accumulated;
            let definition = Definition { inputs: merged.inputs };
            assert(definition@ == view.inputs);
            RebuiltCommit {
                tree: Some(tree_source(accumulated, common_base)),
                parents: rebuilt_parents(&definition),
                message: rebuilt_message(&definition, message),
                headers: definition.store(headers),
            }
        },
        None => RebuiltCommit {
            tree: None,
            parents: rebuilt_parents(&live),
            message: bytes::copied(message),
            headers: live.store(headers),
        },
    }
}

/// A merge has no parent twice, and the commit of each input among its parents.
pub proof fn parents_are_inputs(inputs: Seq<Input<Seq<u8>>>)
    ensures
        parents_of(inputs).no_duplicates(),
        forall|i: int| 0 <= i < inputs.len() ==> parents_of(inputs).contains((#[trigger] inputs[i]).commit_id),
        forall|k: int|
            0 <= k < parents_of(inputs).len() ==> exists|i: int|
                0 <= i < inputs.len() && (#[trigger] inputs[i]).commit_id == #[trigger] parents_of(
                    inputs,
                )[k],
    decreases inputs.len(),
{
    if inputs.len() > 0 {
        let rest = inputs.drop_last();
        let before = parents_of(rest);
        let all = parents_of(inputs);
        parents_are_inputs(rest);
        assert forall|i: int| 0 <= i < inputs.len() implies all.contains(
            (#[trigger] inputs[i]).commit_id,
        ) by {
            if i < rest.len() {
                assert(before.contains(rest[i].commit_id));
                let w = choose|w: int| 0 <= w < before.len() && before[w] == rest[i].commit_id;
                assert(all[w] == inputs[i].commit_id);
            } else if !before.contains(inputs.last().commit_id) {
                assert(all[before.len() as int] == inputs.last().commit_id);
            }
        }
        assert forall|k: int| 0 <= k < all.len() implies exists|i: int|
            0 <= i < inputs.len() && (#[trigger] inputs[i]).commit_id == #[trigger] all[k] by {
            if k < before.len() {
                let i = choose|i: int|
                    0 <= i < rest.len() && (#[trigger] rest[i]).commit_id == before[k];
                assert(inputs[i].commit_id == all[k]);
            } else {
                assert(inputs[inputs.len() - 1].commit_id == all[k]);
            }
        }
    }
}

} // verus!
