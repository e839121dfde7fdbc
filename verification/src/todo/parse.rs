//! Reading the plan of a rebase todo, from its last line to its first.
use vstd::prelude::*;
use vstd::string::StringSliceAdditionalSpecFns;
use vstd::utf8::valid_utf8;
use crate::bytes;
use crate::history::CommitNode;
use crate::ids::{contains_id, hex_digit, ObjectId, HEX_LEN};
use crate::names::FullName;
use crate::plan::{copy_ids, find_position, position, viewed, viewed_option, viewed_push};
use crate::plan::{ExpectedRef, Plan, PlanCheckout, PlanCommit, PlanParent, PlanStep, PlanView};
use crate::plan::{Step, StepView};
use crate::refs::Reference;
use crate::text::is_utf8;
use crate::todo::lines;
use crate::todo::lines::{command, editable, is_ref_line, is_separator, ref_line, CommandView};
use crate::todo::names::{resolve_ref_name, resolved_name};
use crate::todo::state::{parse_state, state_of, TodoState, TodoStateView};
use crate::todo::TodoError;

verus! {

/// The commit that an abbreviated id names.
#[derive(PartialEq, Eq, Debug)]
pub struct Abbreviation<T> {
    pub text: T,
    pub id: ObjectId,
}

impl<T: View> View for Abbreviation<T> {
    type V = Abbreviation<T::V>;

    open spec fn view(&self) -> Abbreviation<T::V> {
        Abbreviation { text: self.text@, id: self.id }
    }
}

/// What reading a plan asks of the repository: the commits that abbreviated ids name, what
/// references hold, where stashes are kept, HEAD, and whether there is a worktree.
pub struct Lookups {
    pub head: ObjectId,
    pub has_worktree: bool,
    pub stash_prefix: Vec<u8>,
    pub commits: Vec<Abbreviation<Vec<u8>>>,
    pub references: Vec<Reference<FullName>>,
}

/// Those answers in specifications.
pub struct LookupsView {
    pub head: ObjectId,
    pub has_worktree: bool,
    pub stash_prefix: Seq<u8>,
    pub commits: Seq<Abbreviation<Seq<u8>>>,
    pub references: Seq<Reference<Seq<u8>>>,
}

impl View for Lookups {
    type V = LookupsView;

    open spec fn view(&self) -> LookupsView {
        LookupsView {
            head: self.head,
            has_worktree: self.has_worktree,
            stash_prefix: self.stash_prefix@,
            commits: viewed(self.commits@),
            references: viewed(self.references@),
        }
    }
}

/// What is read so far: the steps, where the next step continues, what to check out and the
/// branch to attach HEAD to, whether a command was marked, where references are placed, the
/// captured references, how many forks there are, whether the current one holds anything,
/// and the step that a squash would fold into.
pub struct Progress {
    pub steps: Vec<Step>,
    pub cursor: Option<PlanParent>,
    pub checkout: Option<PlanParent>,
    pub attach: Option<Placed<FullName>>,
    pub marked: bool,
    pub placed: Vec<Placed<FullName>>,
    pub refs: Vec<ExpectedRef<FullName>>,
    pub forks: usize,
    pub fork_filled: bool,
    pub fork_step: Option<usize>,
}

/// Where a reference is placed.
pub struct Placed<N> {
    pub name: N,
    pub target: PlanParent,
}

impl<N: View> View for Placed<N> {
    type V = Placed<N::V>;

    open spec fn view(&self) -> Placed<N::V> {
        Placed { name: self.name@, target: self.target }
    }
}

/// What is read so far, in specifications.
pub struct ProgressView {
    pub steps: Seq<StepView>,
    pub cursor: Option<PlanParent>,
    pub checkout: Option<PlanParent>,
    pub attach: Option<Placed<Seq<u8>>>,
    pub marked: bool,
    pub placed: Seq<Placed<Seq<u8>>>,
    pub refs: Seq<ExpectedRef<Seq<u8>>>,
    pub forks: int,
    pub fork_filled: bool,
    pub fork_step: Option<usize>,
}

impl View for Progress {
    type V = ProgressView;

    open spec fn view(&self) -> ProgressView {
        ProgressView {
            steps: viewed(self.steps@),
            cursor: self.cursor,
            checkout: self.checkout,
            attach: viewed_option(self.attach),
            marked: self.marked,
            placed: viewed(self.placed@),
            refs: viewed(self.refs@),
            forks: self.forks as int,
            fork_filled: self.fork_filled,
            fork_step: self.fork_step,
        }
    }
}

impl Progress {
    /// The step that a squash would fold into is one of the steps.
    spec fn in_bounds(self) -> bool {
        self.fork_step matches Some(index) ==> index < self.steps@.len()
    }
}

/// The commit that the given text abbreviates, among those from `from` on.
pub open spec fn abbreviated_from(
    commits: Seq<Abbreviation<Seq<u8>>>,
    text: Seq<u8>,
    from: int,
) -> Option<ObjectId>
    decreases commits.len() - from,
{
    if from < 0 || from >= commits.len() {
        None
    } else if commits[from].text == text {
        Some(commits[from].id)
    } else {
        abbreviated_from(commits, text, from + 1)
    }
}

/// Whether a text has the form of an abbreviated id: at least four hexadecimal digits.
pub open spec fn id_prefix(text: Seq<u8>) -> bool {
    text.len() >= 4 && forall|i: int| 0 <= i < text.len() ==> hex_digit(#[trigger] text[i]) is Some
}

/// The commit that a text names.
pub open spec fn named_commit(
    commits: Seq<Abbreviation<Seq<u8>>>,
    text: Seq<u8>,
) -> Result<ObjectId, TodoError> {
    if !id_prefix(text) {
        Err(TodoError::NotAnIdPrefix)
    } else {
        match abbreviated_from(commits, text, 0) {
            Some(id) => Ok(id),
            None => Err(TodoError::UnknownCommit),
        }
    }
}

/// Whether a byte is a hexadecimal digit.
pub fn is_hex_digit(byte: u8) -> (r: bool)
    ensures
        r == (hex_digit(byte) is Some),
{
    (48 <= byte && byte <= 57) || (97 <= byte && byte <= 102) || (65 <= byte && byte <= 70)
}

/// Whether a text has the form of an abbreviated id.
pub fn is_id_prefix(text: &[u8]) -> (r: bool)
    ensures
        r == id_prefix(text@),
{
    let mut i: usize = 0;
    while i < text.len()
        invariant
            i <= text@.len(),
            forall|j: int| 0 <= j < i ==> hex_digit(#[trigger] text@[j]) is Some,
        decreases text.len() - i,
    {
        if !is_hex_digit(text[i]) {
            return false;
        }
        i = i + 1;
    }
    text.len() >= 4
}

/// Finds the commit that a text names.
pub fn resolve_commit(commits: &Vec<Abbreviation<Vec<u8>>>, text: &[u8]) -> (r: Result<
    ObjectId,
    TodoError,
>)
    ensures
        r == named_commit(viewed(commits@), text@),
{
    if !is_id_prefix(text) {
        return Err(TodoError::NotAnIdPrefix);
    }
    let mut i: usize = 0;
    while i < commits.len()
        invariant
            i <= commits@.len(),
            id_prefix(text@),
            abbreviated_from(viewed(commits@), text@, 0) == abbreviated_from(
                viewed(commits@),
                text@,
                i as int,
            ),
        decreases commits.len() - i,
    {
        if bytes::equal(commits[i].text.as_slice(), text) {
            return Ok(commits[i].id);
        }
        i = i + 1;
    }
    Err(TodoError::UnknownCommit)
}

/// Where the first entry of the given name, at or after `from`, is placed.
pub open spec fn placement_from(
    placed: Seq<Placed<Seq<u8>>>,
    name: Seq<u8>,
    from: int,
) -> Option<PlanParent>
    decreases placed.len() - from,
{
    if from < 0 || from >= placed.len() {
        None
    } else if placed[from].name == name {
        Some(placed[from].target)
    } else {
        placement_from(placed, name, from + 1)
    }
}

fn find_placement(placed: &Vec<Placed<FullName>>, name: &FullName) -> (r: Option<PlanParent>)
    ensures
        r == placement_from(viewed(placed@), name@, 0),
{
    let mut i: usize = 0;
    while i < placed.len()
        invariant
            i <= placed@.len(),
            placement_from(viewed(placed@), name@, 0) == placement_from(
                viewed(placed@),
                name@,
                i as int,
            ),
        decreases placed.len() - i,
    {
        if placed[i].name.same(name) {
            return Some(placed[i].target);
        }
        i = i + 1;
    }
    None
}

/// Reading goes on after a separator: at the result of the step that its commit ends up in,
/// or at its commit, which then must not be one that the todo is about.
pub open spec fn after_separator(
    progress: ProgressView,
    line: Seq<u8>,
    scope: Seq<ObjectId>,
    lookups: LookupsView,
) -> Result<ProgressView, TodoError> {
    match lines::separator_target(line) {
        None => Err(TodoError::SeparatorWithoutFork),
        Some(target) => if progress.forks > 0 && !progress.fork_filled {
            Err(TodoError::EmptyFork)
        } else {
            match bytes::word(target) {
                None => Err(TodoError::ForkWithoutId),
                Some(text) => match named_commit(lookups.commits, text) {
                    Err(err) => Err(err),
                    Ok(id) => {
                        let picked = position(progress.steps, id, progress.steps.len() as int);
                        if picked is None && scope.contains(id) {
                            Err(TodoError::ForkTargetNotPicked)
                        } else {
                            Ok(
                                ProgressView {
                                    cursor: Some(
                                        match picked {
                                            Some(index) => PlanParent::Step(index),
                                            None => PlanParent::Existing(id),
                                        },
                                    ),
                                    forks: progress.forks + 1,
                                    fork_filled: false,
                                    fork_step: None,
                                    ..progress
                                },
                            )
                        }
                    },
                },
            }
        },
    }
}

fn read_separator(
    progress: &mut Progress,
    line: &[u8],
    scope: &Vec<ObjectId>,
    lookups: &Lookups,
) -> (r: Result<(), TodoError>)
    requires
        old(progress).forks < usize::MAX,
    ensures
        match r {
            Ok(_) => after_separator(old(progress)@, line@, scope@, lookups@) == Ok::<
                _,
                TodoError,
            >(final(progress)@),
            Err(err) => after_separator(old(progress)@, line@, scope@, lookups@) == Err::<
                ProgressView,
                _,
            >(err),
        },
        final(progress).forks <= old(progress).forks + 1,
        r is Ok ==> final(progress).in_bounds(),
{
    let target = match lines::line_target(line) {
        Some(target) => target,
        None => return Err(TodoError::SeparatorWithoutFork),
    };
    if progress.forks > 0 && !progress.fork_filled {
        return Err(TodoError::EmptyFork);
    }
    let text = match bytes::first_word(target) {
        Some(text) => text,
        None => return Err(TodoError::ForkWithoutId),
    };
    let id = match resolve_commit(&lookups.commits, text) {
        Ok(id) => id,
        Err(err) => return Err(err),
    };
    let cursor = match find_position(&progress.steps, id) {
        Some(index) => PlanParent::Step(index),
        None => {
            if contains_id(scope.as_slice(), id) {
                return Err(TodoError::ForkTargetNotPicked);
            }
            PlanParent::Existing(id)
        },
    };
    progress.cursor = Some(cursor);
    progress.forks = progress.forks + 1;
    progress.fork_filled = false;
    progress.fork_step = None;
    Ok(())
}

/// Placing the names from `at` on: each means one reference, which is placed once, and one
/// that is marked is what HEAD is attached to.
pub open spec fn after_names(
    progress: ProgressView,
    found: Seq<(bool, Seq<u8>)>,
    at: int,
    target: PlanParent,
    allowed: bool,
    lookups: LookupsView,
) -> Result<ProgressView, TodoError>
    decreases found.len() - at,
{
    if at >= found.len() {
        Ok(progress)
    } else {
        let (marked, value) = found[at];
        match resolved_name(
            progress.refs,
            value,
            lookups.references,
            lookups.stash_prefix,
            lookups.head,
        ) {
            Err(err) => Err(err),
            Ok((name, refs)) => if placement_from(progress.placed, name, 0) is Some {
                Err(TodoError::RepeatedPlacement)
            } else if marked && !allowed {
                Err(TodoError::CheckoutWithoutWorktree)
            } else if marked && progress.attach is Some {
                Err(TodoError::RepeatedMarkedReference)
            } else {
                let placed = Placed { name, target };
                after_names(
                    ProgressView {
                        refs,
                        placed: progress.placed.push(placed),
                        attach: if marked {
                            Some(placed)
                        } else {
                            progress.attach
                        },
                        ..progress
                    },
                    found,
                    at + 1,
                    target,
                    allowed,
                    lookups,
                )
            },
        }
    }
}

/// Reading goes on after a reference line: its names are placed where reading is.
pub open spec fn after_ref_line(
    progress: ProgressView,
    line: Seq<u8>,
    allowed: bool,
    lookups: LookupsView,
) -> Result<ProgressView, TodoError> {
    match progress.cursor {
        None => Err(TodoError::RefLineWithoutTarget),
        Some(target) => match ref_line(line) {
            Err(err) => Err(err),
            Ok(found) => match after_names(progress, found, 0, target, allowed, lookups) {
                Err(err) => Err(err),
                Ok(progress) => Ok(ProgressView { fork_filled: true, ..progress }),
            },
        },
    }
}

fn read_ref_line(
    progress: &mut Progress,
    line: &[u8],
    allowed: bool,
    lookups: &Lookups,
) -> (r: Result<(), TodoError>)
    ensures
        match r {
            Ok(_) => after_ref_line(old(progress)@, line@, allowed, lookups@) == Ok::<
                _,
                TodoError,
            >(final(progress)@),
            Err(err) => after_ref_line(old(progress)@, line@, allowed, lookups@) == Err::<
                ProgressView,
                _,
            >(err),
        },
        final(progress).forks == old(progress).forks,
        old(progress).in_bounds() ==> final(progress).in_bounds(),
{
    let target = match progress.cursor {
        Some(target) => target,
        None => return Err(TodoError::RefLineWithoutTarget),
    };
    let found = match lines::parse_ref_line(line) {
        Ok(found) => found,
        Err(err) => return Err(err),
    };
    let mut at: usize = 0;
    while at < found.len()
        invariant
            at <= found@.len(),
            progress.forks == old(progress).forks,
            progress.fork_step == old(progress).fork_step,
            progress.steps == old(progress).steps,
            after_names(old(progress)@, viewed(found@), 0, target, allowed, lookups@)
                == after_names(progress@, viewed(found@), at as int, target, allowed, lookups@),
            old(progress)@.cursor == Some(target),
            ref_line(line@) == Ok::<_, TodoError>(viewed(found@)),
        decreases found.len() - at,
    {
        let marked = found[at].0;
        let value = &found[at].1;
        assert(viewed(found@)[at as int] == (marked, value@));
        let name = match resolve_ref_name(
            &mut progress.refs,
            value.as_slice(),
            &lookups.references,
            lookups.stash_prefix.as_slice(),
            lookups.head,
        ) {
            Ok(name) => name,
            Err(err) => return Err(err),
        };
        if find_placement(&progress.placed, &name).is_some() {
            return Err(TodoError::RepeatedPlacement);
        }
        if marked {
            if !allowed {
                return Err(TodoError::CheckoutWithoutWorktree);
            }
            if progress.attach.is_some() {
                return Err(TodoError::RepeatedMarkedReference);
            }
            progress.attach = Some(Placed { name: name.clone(), target });
        }
        let placed = Placed { name, target };
        proof {
            viewed_push(progress.placed@, placed);
        }
        progress.placed.push(placed);
        at = at + 1;
    }
    progress.fork_filled = true;
    Ok(())
}

/// What to check out once a command is marked whose result is that of a step.
pub open spec fn checked_out(
    progress: ProgressView,
    marked: bool,
    index: usize,
) -> Result<Option<PlanParent>, TodoError> {
    if !marked {
        Ok(progress.checkout)
    } else if progress.checkout is Some && progress.checkout != Some(PlanParent::Step(index)) {
        Err(TodoError::ConflictingCheckout)
    } else {
        Ok(Some(PlanParent::Step(index)))
    }
}

/// Reading goes on after a squash: its commit is folded into the step below it.
pub open spec fn after_squash(
    progress: ProgressView,
    command: CommandView,
    scope: Seq<ObjectId>,
    lookups: LookupsView,
) -> Result<ProgressView, TodoError> {
    match progress.fork_step {
        None => Err(TodoError::SquashWithoutCommand),
        Some(index) => match bytes::word(command.value) {
            None => Err(TodoError::SquashWithoutId),
            Some(text) => match named_commit(lookups.commits, text) {
                Err(err) => Err(err),
                Ok(id) => if !scope.contains(id) {
                    Err(TodoError::SquashOutsideScope)
                } else if position(progress.steps, id, progress.steps.len() as int) is Some {
                    Err(TodoError::PickedTwice)
                } else {
                    match checked_out(progress, command.marked, index) {
                        Err(err) => Err(err),
                        Ok(checkout) => {
                            let step = progress.steps[index as int];
                            Ok(
                                ProgressView {
                                    steps: progress.steps.update(
                                        index as int,
                                        PlanStep { squash: step.squash.push(id), ..step },
                                    ),
                                    checkout,
                                    fork_filled: true,
                                    ..progress
                                },
                            )
                        },
                    }
                },
            },
        },
    }
}

/// Whether a text is the null id in full, which stands for the resolved conflict.
pub open spec fn full_null(text: Seq<u8>) -> bool {
    text.len() == HEX_LEN && forall|i: int| 0 <= i < text.len() ==> #[trigger] text[i] == 48
}

/// What a command that is no squash produces.
pub open spec fn produced(
    progress: ProgressView,
    command: CommandView,
    scope: Seq<ObjectId>,
    resolved: Option<ObjectId>,
    lookups: LookupsView,
) -> Result<PlanCommit<Seq<u8>>, TodoError> {
    if command.verb == "pick".spec_bytes() {
        match bytes::word(command.value) {
            None => Err(TodoError::PickWithoutId),
            Some(text) => {
                let null = resolved is Some && full_null(text);
                let id = if null {
                    Ok(resolved->0)
                } else {
                    named_commit(lookups.commits, text)
                };
                match id {
                    Err(err) => Err(err),
                    Ok(id) => if !scope.contains(id) {
                        Err(TodoError::PickOutsideScope)
                    } else if position(progress.steps, id, progress.steps.len() as int) is Some {
                        Err(TodoError::PickedTwice)
                    } else if null {
                        Ok(PlanCommit::Resolved(id))
                    } else {
                        Ok(PlanCommit::Pick(id))
                    },
                }
            },
        }
    } else if command.verb == "empty".spec_bytes() {
        let title = if bytes::trimmed(command.value).len() == 0 {
            command.tail
        } else {
            bytes::trimmed(command.value)
        };
        if title.len() == 0 {
            Err(TodoError::EmptyWithoutTitle)
        } else {
            Ok(PlanCommit::Empty(title))
        }
    } else {
        Err(TodoError::UnsupportedCommand)
    }
}

/// Reading goes on after a command that produces a commit: on top of that commit.
pub open spec fn after_step(
    progress: ProgressView,
    command: CommandView,
    scope: Seq<ObjectId>,
    resolved: Option<ObjectId>,
    lookups: LookupsView,
) -> Result<ProgressView, TodoError> {
    match progress.cursor {
        None => Err(TodoError::CommandWithoutFork),
        Some(parent) => match produced(progress, command, scope, resolved, lookups) {
            Err(err) => Err(err),
            Ok(commit) => {
                let index = progress.steps.len() as usize;
                match checked_out(progress, command.marked, index) {
                    Err(err) => Err(err),
                    Ok(checkout) => Ok(
                        ProgressView {
                            steps: progress.steps.push(
                                PlanStep { parent, commit, squash: Seq::empty() },
                            ),
                            cursor: Some(PlanParent::Step(index)),
                            fork_step: Some(index),
                            checkout,
                            fork_filled: true,
                            ..progress
                        },
                    ),
                }
            },
        },
    }
}

/// Reading goes on after a command. At most one command is marked, and only where there is a
/// worktree to check out.
pub open spec fn after_command(
    progress: ProgressView,
    line: Seq<u8>,
    allowed: bool,
    scope: Seq<ObjectId>,
    resolved: Option<ObjectId>,
    lookups: LookupsView,
) -> Result<ProgressView, TodoError> {
    match command(line) {
        Err(err) => Err(err),
        Ok(command) => if command.marked && progress.marked {
            Err(TodoError::RepeatedMarkedCommand)
        } else if command.marked && !allowed {
            Err(TodoError::CheckoutWithoutWorktree)
        } else {
            let progress = ProgressView { marked: progress.marked || command.marked, ..progress };
            if command.verb == "squash".spec_bytes() {
                after_squash(progress, command, scope, lookups)
            } else {
                after_step(progress, command, scope, resolved, lookups)
            }
        },
    }
}

fn mark(progress: &mut Progress, marked: bool, index: usize) -> (r: Result<(), TodoError>)
    ensures
        match r {
            Ok(_) => checked_out(old(progress)@, marked, index) == Ok::<_, TodoError>(
                final(progress).checkout,
            ),
            Err(err) => checked_out(old(progress)@, marked, index) == Err::<Option<PlanParent>, _>(
                err,
            ),
        },
        *final(progress) == (Progress { checkout: final(progress).checkout, ..*old(progress) }),
{
    if marked {
        if let Some(checkout) = progress.checkout {
            if checkout != PlanParent::Step(index) {
                return Err(TodoError::ConflictingCheckout);
            }
        }
        progress.checkout = Some(PlanParent::Step(index));
    }
    Ok(())
}

fn read_squash(
    progress: &mut Progress,
    command: &lines::Command,
    scope: &Vec<ObjectId>,
    lookups: &Lookups,
) -> (r: Result<(), TodoError>)
    requires
        old(progress).in_bounds(),
    ensures
        match r {
            Ok(_) => after_squash(old(progress)@, command@, scope@, lookups@) == Ok::<
                _,
                TodoError,
            >(final(progress)@),
            Err(err) => after_squash(old(progress)@, command@, scope@, lookups@) == Err::<
                ProgressView,
                _,
            >(err),
        },
        r is Ok ==> final(progress).forks == old(progress).forks && final(progress).in_bounds(),
{
    let index: usize = match progress.fork_step {
        Some(index) => index,
        None => return Err(TodoError::SquashWithoutCommand),
    };
    let text = match bytes::first_word(command.value) {
        Some(text) => text,
        None => return Err(TodoError::SquashWithoutId),
    };
    let id = match resolve_commit(&lookups.commits, text) {
        Ok(id) => id,
        Err(err) => return Err(err),
    };
    if !contains_id(scope.as_slice(), id) {
        return Err(TodoError::SquashOutsideScope);
    }
    if find_position(&progress.steps, id).is_some() {
        return Err(TodoError::PickedTwice);
    }
    match mark(progress, command.marked, index) {
        Ok(_) => {},
        Err(err) => return Err(err),
    }
    let ghost before = progress.steps@;
    progress.steps[index].squash.push(id);
    proof {
        let step = viewed(before)[index as int];
        assert(viewed(progress.steps@) == viewed(before).update(
            index as int,
            PlanStep { squash: step.squash.push(id), ..step },
        ));
    }
    progress.fork_filled = true;
    Ok(())
}

fn is_full_null(text: &[u8]) -> (r: bool)
    ensures
        r == full_null(text@),
{
    if text.len() != HEX_LEN {
        return false;
    }
    let mut i: usize = 0;
    while i < text.len()
        invariant
            i <= text@.len(),
            forall|j: int| 0 <= j < i ==> #[trigger] text@[j] == 48,
        decreases text.len() - i,
    {
        if text[i] != 48 {
            return false;
        }
        i = i + 1;
    }
    true
}

fn read_produced(
    progress: &Progress,
    command: &lines::Command,
    scope: &Vec<ObjectId>,
    resolved: Option<ObjectId>,
    lookups: &Lookups,
) -> (r: Result<PlanCommit<Vec<u8>>, TodoError>)
    ensures
        match r {
            Ok(commit) => produced(progress@, command@, scope@, resolved, lookups@) == Ok::<
                _,
                TodoError,
            >(commit@),
            Err(err) => produced(progress@, command@, scope@, resolved, lookups@) == Err::<
                PlanCommit<Seq<u8>>,
                _,
            >(err),
        },
{
    if bytes::equal(command.verb, "pick".as_bytes()) {
        let text = match bytes::first_word(command.value) {
            Some(text) => text,
            None => return Err(TodoError::PickWithoutId),
        };
        let null = match resolved {
            Some(id) if is_full_null(text) => Some(id),
            _ => None,
        };
        let id = match null {
            Some(id) => id,
            None => match resolve_commit(&lookups.commits, text) {
                Ok(id) => id,
                Err(err) => return Err(err),
            },
        };
        if !contains_id(scope.as_slice(), id) {
            Err(TodoError::PickOutsideScope)
        } else if find_position(&progress.steps, id).is_some() {
            Err(TodoError::PickedTwice)
        } else if null.is_some() {
            Ok(PlanCommit::Resolved(id))
        } else {
            Ok(PlanCommit::Pick(id))
        }
    } else if bytes::equal(command.verb, "empty".as_bytes()) {
        let trimmed = bytes::trim(command.value);
        let title = if trimmed.len() == 0 {
            command.tail
        } else {
            trimmed
        };
        if title.len() == 0 {
            Err(TodoError::EmptyWithoutTitle)
        } else {
            Ok(PlanCommit::Empty(bytes::copied(title)))
        }
    } else {
        Err(TodoError::UnsupportedCommand)
    }
}

fn read_step(
    progress: &mut Progress,
    command: &lines::Command,
    scope: &Vec<ObjectId>,
    resolved: Option<ObjectId>,
    lookups: &Lookups,
) -> (r: Result<(), TodoError>)
    ensures
        match r {
            Ok(_) => after_step(old(progress)@, command@, scope@, resolved, lookups@) == Ok::<
                _,
                TodoError,
            >(final(progress)@),
            Err(err) => after_step(old(progress)@, command@, scope@, resolved, lookups@) == Err::<
                ProgressView,
                _,
            >(err),
        },
        r is Ok ==> final(progress).forks == old(progress).forks && final(progress).in_bounds(),
{
    let parent = match progress.cursor {
        Some(parent) => parent,
        None => return Err(TodoError::CommandWithoutFork),
    };
    let commit = match read_produced(progress, command, scope, resolved, lookups) {
        Ok(commit) => commit,
        Err(err) => return Err(err),
    };
    let index: usize = progress.steps.len();
    match mark(progress, command.marked, index) {
        Ok(_) => {},
        Err(err) => return Err(err),
    }
    let step = PlanStep { parent, commit, squash: Vec::new() };
    proof {
        viewed_push(progress.steps@, step);
    }
    progress.steps.push(step);
    progress.cursor = Some(PlanParent::Step(index));
    progress.fork_step = Some(index);
    progress.fork_filled = true;
    Ok(())
}

fn read_command(
    progress: &mut Progress,
    line: &[u8],
    allowed: bool,
    scope: &Vec<ObjectId>,
    resolved: Option<ObjectId>,
    lookups: &Lookups,
) -> (r: Result<(), TodoError>)
    requires
        old(progress).in_bounds(),
    ensures
        match r {
            Ok(_) => after_command(old(progress)@, line@, allowed, scope@, resolved, lookups@)
                == Ok::<_, TodoError>(final(progress)@),
            Err(err) => after_command(old(progress)@, line@, allowed, scope@, resolved, lookups@)
                == Err::<ProgressView, _>(err),
        },
        r is Ok ==> final(progress).forks == old(progress).forks && final(progress).in_bounds(),
{
    let command = match lines::parse_command(line) {
        Ok(command) => command,
        Err(err) => return Err(err),
    };
    if command.marked {
        if progress.marked {
            return Err(TodoError::RepeatedMarkedCommand);
        }
        if !allowed {
            return Err(TodoError::CheckoutWithoutWorktree);
        }
        progress.marked = true;
    }
    if bytes::equal(command.verb, "squash".as_bytes()) {
        read_squash(progress, &command, scope, lookups)
    } else {
        read_step(progress, &command, scope, resolved, lookups)
    }
}

/// Reading goes on after a line of a todo.
pub open spec fn after_line(
    progress: ProgressView,
    line: Seq<u8>,
    state: TodoStateView,
    lookups: LookupsView,
) -> Result<ProgressView, TodoError> {
    let allowed = state.checkout_allowed && lookups.has_worktree;
    if is_separator(line) {
        after_separator(progress, line, state.scope, lookups)
    } else if is_ref_line(line) {
        after_ref_line(progress, line, allowed, lookups)
    } else {
        after_command(progress, line, allowed, state.scope, state.resolved, lookups)
    }
}

fn read_line(
    progress: &mut Progress,
    line: &[u8],
    state: &TodoState,
    lookups: &Lookups,
) -> (r: Result<(), TodoError>)
    requires
        old(progress).in_bounds(),
        old(progress).forks < usize::MAX,
    ensures
        match r {
            Ok(_) => after_line(old(progress)@, line@, state@, lookups@) == Ok::<_, TodoError>(
                final(progress)@,
            ),
            Err(err) => after_line(old(progress)@, line@, state@, lookups@) == Err::<
                ProgressView,
                _,
            >(err),
        },
        r is Ok ==> final(progress).forks <= old(progress).forks + 1,
        r is Ok ==> final(progress).in_bounds(),
{
    let allowed = state.checkout_allowed && lookups.has_worktree;
    if lines::line_is_separator(line) {
        read_separator(progress, line, &state.scope, lookups)
    } else if lines::line_is_ref_line(line) {
        read_ref_line(progress, line, allowed, lookups)
    } else {
        read_command(progress, line, allowed, &state.scope, state.resolved, lookups)
    }
}

/// Reading the first `left` lines, from the last of them to the first.
pub open spec fn after_lines(
    progress: ProgressView,
    all: Seq<Seq<u8>>,
    left: int,
    state: TodoStateView,
    lookups: LookupsView,
) -> Result<ProgressView, TodoError>
    decreases left,
{
    if left <= 0 || left > all.len() {
        Ok(progress)
    } else {
        match after_line(progress, all[left - 1], state, lookups) {
            Err(err) => Err(err),
            Ok(progress) => after_lines(progress, all, left - 1, state, lookups),
        }
    }
}

/// Nothing read yet.
pub open spec fn unread(refs: Seq<ExpectedRef<Seq<u8>>>) -> ProgressView {
    ProgressView {
        steps: Seq::empty(),
        cursor: None,
        checkout: None,
        attach: None,
        marked: false,
        placed: Seq::empty(),
        refs,
        forks: 0,
        fork_filled: false,
        fork_step: None,
    }
}

/// A captured reference once the todo is read: an editable one is placed where the todo lists
/// it, and goes if it does not.
pub open spec fn placed_ref(
    reference: ExpectedRef<Seq<u8>>,
    placed: Seq<Placed<Seq<u8>>>,
) -> ExpectedRef<Seq<u8>> {
    if reference.editable {
        ExpectedRef {
            new: None,
            placement: placement_from(placed, reference.name, 0),
            ..reference
        }
    } else {
        reference
    }
}

/// The captured references once the todo is read.
pub open spec fn placed_refs(progress: ProgressView, edit_refs: bool) -> Seq<
    ExpectedRef<Seq<u8>>,
> {
    if edit_refs {
        Seq::new(progress.refs.len(), |i: int| placed_ref(progress.refs[i], progress.placed))
    } else {
        progress.refs
    }
}

/// The branch to attach HEAD to: the one that is marked, which must be where the marked command
/// is; without one the branch that HEAD was on, if it stays there.
pub open spec fn attached(
    progress: ProgressView,
    head_ref: Option<Seq<u8>>,
) -> Result<Option<Seq<u8>>, TodoError> {
    match (progress.checkout, progress.attach) {
        (Some(target), Some(attach)) => if target != attach.target {
            Err(TodoError::ConflictingCheckout)
        } else {
            Ok(Some(attach.name))
        },
        (None, Some(_)) => Err(TodoError::ReferenceWithoutCommand),
        (Some(target), None) => Ok(
            match head_ref {
                Some(name) => if placement_from(progress.placed, name, 0) == Some(target) {
                    Some(name)
                } else {
                    None
                },
                None => None,
            },
        ),
        (None, None) => Ok(None),
    }
}

/// The plan once all lines are read.
pub open spec fn planned(progress: ProgressView, state: TodoStateView) -> Result<
    PlanView<ExpectedRef<Seq<u8>>>,
    TodoError,
> {
    if progress.forks == 0 {
        Err(TodoError::NoFork)
    } else if progress.forks > 1 && !progress.fork_filled {
        Err(TodoError::LastForkEmpty)
    } else if state.marker_required && progress.checkout is None {
        Err(TodoError::MarkerNotRetained)
    } else {
        match attached(progress, state.head_ref) {
            Err(err) => Err(err),
            Ok(reference) => Ok(
                PlanView {
                    base: state.onto,
                    scope: state.scope,
                    steps: progress.steps,
                    checkout: match progress.checkout {
                        Some(target) => Some(PlanCheckout { target, reference }),
                        None => None,
                    },
                    expected_refs: placed_refs(progress, state.edit_refs),
                },
            ),
        }
    }
}

/// The plan that the lines of a todo describe, given its state.
pub open spec fn plan_of(input: Seq<u8>, state: TodoStateView, lookups: LookupsView) -> Result<
    PlanView<ExpectedRef<Seq<u8>>>,
    TodoError,
> {
    let all = editable(bytes::lines(input), 0, false, Seq::empty());
    match after_lines(unread(state.expected_refs), all, all.len() as int, state, lookups) {
        Err(err) => Err(err),
        Ok(progress) => planned(progress, state),
    }
}

fn place_refs(refs: &mut Vec<ExpectedRef<FullName>>, placed: &Vec<Placed<FullName>>)
    ensures
        viewed(final(refs)@) == Seq::new(
            old(refs)@.len(),
            |i: int| placed_ref(viewed(old(refs)@)[i], viewed(placed@)),
        ),
{
    let ghost all = viewed(refs@);
    let mut i: usize = 0;
    let total: usize = refs.len();
    while i < total
        invariant
            all == viewed(old(refs)@),
            total == all.len(),
            refs@.len() == total,
            i <= total,
            forall|j: int| i <= j < total ==> (#[trigger] refs@[j])@ == all[j],
            forall|j: int|
                0 <= j < i ==> (#[trigger] refs@[j])@ == placed_ref(all[j], viewed(placed@)),
        decreases total - i,
    {
        assert(refs@[i as int]@ == all[i as int]);
        if refs[i].editable {
            let placement = find_placement(placed, &refs[i].name);
            refs[i].new = None;
            refs[i].placement = placement;
        }
        assert(refs@[i as int]@ == placed_ref(all[i as int], viewed(placed@)));
        i = i + 1;
    }
}

/// Reads the plan that the lines of a todo describe, given its state.
pub fn read_plan(input: &[u8], state: TodoState, lookups: &Lookups) -> (r: Result<
    Plan<ExpectedRef<FullName>>,
    TodoError,
>)
    ensures
        match r {
            Ok(plan) => plan_of(input@, state@, lookups@) == Ok::<_, TodoError>(plan@),
            Err(err) => plan_of(input@, state@, lookups@) == Err::<
                PlanView<ExpectedRef<Seq<u8>>>,
                _,
            >(err),
        },
{
    let all = lines::editable_lines(input);
    let refs = copy_refs(&state.expected_refs);
    let mut progress = Progress {
        steps: Vec::new(),
        cursor: None,
        checkout: None,
        attach: None,
        marked: false,
        placed: Vec::new(),
        refs,
        forks: 0,
        fork_filled: false,
        fork_step: None,
    };
    let total: usize = all.len();
    let mut left: usize = total;
    proof {
        assert(viewed(progress.steps@) == Seq::<StepView>::empty());
        assert(viewed(progress.placed@) == Seq::<Placed<Seq<u8>>>::empty());
        assert(progress@ == unread(state@.expected_refs));
    }
    while left > 0
        invariant
            left <= total,
            total == all@.len(),
            progress.forks <= total - left,
            progress.in_bounds(),
            after_lines(
                unread(state@.expected_refs),
                bytes::views(all@),
                total as int,
                state@,
                lookups@,
            ) == after_lines(progress@, bytes::views(all@), left as int, state@, lookups@),
            bytes::views(all@) == editable(bytes::lines(input@), 0, false, Seq::empty()),
        decreases left,
    {
        let line = all[left - 1];
        assert(line@ == bytes::views(all@)[left - 1]);
        match read_line(&mut progress, line, &state, lookups) {
            Ok(_) => {},
            Err(err) => return Err(err),
        }
        left = left - 1;
    }
    finish(progress, state)
}

/// A copy of several references.
pub fn copy_refs(refs: &Vec<ExpectedRef<FullName>>) -> (r: Vec<ExpectedRef<FullName>>)
    ensures
        viewed(r@) == viewed(refs@),
{
    let mut out: Vec<ExpectedRef<FullName>> = Vec::new();
    let mut i: usize = 0;
    assert(viewed(out@) == viewed(refs@).take(0));
    while i < refs.len()
        invariant
            i <= refs@.len(),
            viewed(out@) == viewed(refs@).take(i as int),
        decreases refs.len() - i,
    {
        let reference = refs[i].copy();
        proof {
            viewed_push(out@, reference);
            assert(viewed(refs@).take(i + 1) == viewed(refs@).take(i as int).push(
                viewed(refs@)[i as int],
            ));
        }
        out.push(reference);
        i = i + 1;
    }
    assert(viewed(refs@).take(i as int) == viewed(refs@));
    out
}

fn finish(progress: Progress, state: TodoState) -> (r: Result<
    Plan<ExpectedRef<FullName>>,
    TodoError,
>)
    ensures
        match r {
            Ok(plan) => planned(progress@, state@) == Ok::<_, TodoError>(plan@),
            Err(err) => planned(progress@, state@) == Err::<
                PlanView<ExpectedRef<Seq<u8>>>,
                _,
            >(err),
        },
{
    let ghost last = progress@;
    let TodoState { onto, scope, marker_required, head_ref, edit_refs, .. } = state;
    if progress.forks == 0 {
        return Err(TodoError::NoFork);
    }
    if progress.forks > 1 && !progress.fork_filled {
        return Err(TodoError::LastForkEmpty);
    }
    if marker_required && progress.checkout.is_none() {
        return Err(TodoError::MarkerNotRetained);
    }
    let Progress { steps, checkout, attach, placed, refs, .. } = progress;
    let reference = match (checkout, attach) {
        (Some(target), Some(attach)) => {
            if target != attach.target {
                return Err(TodoError::ConflictingCheckout);
            }
            Some(attach.name)
        },
        (None, Some(_)) => return Err(TodoError::ReferenceWithoutCommand),
        (Some(target), None) => match head_ref {
            Some(name) => {
                if find_placement(&placed, &name) == Some(target) {
                    Some(name)
                } else {
                    None
                }
            },
            None => None,
        },
        (None, None) => None,
    };
    let mut refs = refs;
    if edit_refs {
        place_refs(&mut refs, &placed);
    }
    proof {
        assert(viewed(refs@) == placed_refs(last, edit_refs));
    }
    let checkout = match checkout {
        Some(target) => Some(PlanCheckout { target, reference }),
        None => None,
    };
    Ok(Plan { base: onto, scope, steps, checkout, expected_refs: refs })
}

/// What a todo says: the plan, and the tips of the history that it is about.
#[derive(PartialEq, Eq, Debug)]
pub struct Parsed {
    pub plan: Plan<ExpectedRef<FullName>>,
    pub tips: Vec<ObjectId>,
}

/// What a todo says, in specifications.
pub struct ParsedView {
    pub plan: PlanView<ExpectedRef<Seq<u8>>>,
    pub tips: Seq<ObjectId>,
}

impl View for Parsed {
    type V = ParsedView;

    open spec fn view(&self) -> ParsedView {
        ParsedView { plan: self.plan@, tips: self.tips@ }
    }
}

/// What a todo says: nothing if it carries no state, which cancels it.
pub open spec fn parsed(
    edited: Seq<u8>,
    commits: Seq<CommitNode<Seq<ObjectId>>>,
    lookups: Option<LookupsView>,
) -> Result<Option<ParsedView>, TodoError> {
    match lookups {
        None => Err(TodoError::UnbornHead),
        Some(lookups) => if !valid_utf8(edited) {
            Err(TodoError::NotUtf8)
        } else {
            match state_of(edited, commits) {
                Err(err) => Err(err),
                Ok(None) => Ok(None),
                Ok(Some(state)) => match plan_of(edited, state, lookups) {
                    Err(err) => Err(err),
                    Ok(plan) => Ok(Some(ParsedView { plan, tips: state.tips })),
                },
            }
        },
    }
}

/// Reads an edited todo. Without lookups HEAD is unborn, and no todo can be read.
pub fn parse(
    edited: &[u8],
    commits: &Vec<CommitNode<Vec<ObjectId>>>,
    lookups: Option<&Lookups>,
) -> (r: Result<Option<Parsed>, TodoError>)
    ensures
        ({
            let expected = parsed(
                edited@,
                viewed(commits@),
                match lookups {
                    Some(lookups) => Some(lookups@),
                    None => None,
                },
            );
            match r {
                Ok(found) => expected == Ok::<_, TodoError>(viewed_option(found)),
                Err(err) => expected == Err::<Option<ParsedView>, _>(err),
            }
        }),
{
    let lookups = match lookups {
        Some(lookups) => lookups,
        None => return Err(TodoError::UnbornHead),
    };
    if !is_utf8(edited) {
        return Err(TodoError::NotUtf8);
    }
    let state = match parse_state(edited, commits) {
        Ok(Some(state)) => state,
        Ok(None) => return Ok(None),
        Err(err) => return Err(err),
    };
    let tips = copy_ids(state.tips.as_slice());
    match read_plan(edited, state, lookups) {
        Ok(plan) => Ok(Some(Parsed { plan, tips })),
        Err(err) => Err(err),
    }
}

} // verus!
