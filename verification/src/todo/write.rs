//! Writing rebase todos: the plan from its tip down to its base, with what explains it and the
//! state that it carries.
use vstd::prelude::*;
use vstd::string::StringSliceAdditionalSpecFns;
use vstd::utf8::valid_utf8;
use crate::auto_merge::definition::Header;
use crate::bytes;
use crate::bytes::{has_prefix, lines, LF};
use crate::ids::{contains_id, hex_of, ChangeId, ObjectId};
use crate::names;
use crate::names::{quoted, FullName};
use crate::plan::{copy_ids, viewed, ExpectedRef, PlanParent};
use crate::refs::{insert_name, sorted_names};
use crate::text;
use crate::text::{columns, lossy, summary_of};
use crate::todo::lines::RAIL;
use crate::todo::names::{display_name, ref_display_name};
use crate::todo::outline::{Outline, Section};
use crate::todo::parse::copy_refs;
use crate::todo::record::{write_state, written};
use crate::todo::state::{TodoState, TodoStateView};
use crate::todo::TodoError;

verus! {

/// What explains how a todo is edited.
pub const HELP: &'static str = r#"

<!--
# Rebase todo help

- Read the editable plan from bottom to top. Each fork separator is the base of the stack above it. Blank lines are ignored.
- `pick <id>` keeps a commit. Delete its line to drop it, or move the line to reorder it. Each listed commit may be picked only once.
- `squash <id>` folds a commit into the following command below it in the same fork. Its full message is retained with a source heading, and additional authors become `Co-authored-by` trailers.
- A centered `fork <id>` separator starts the stack above it at an existing commit or a commit picked below it. The selected hidden boundary is labelled `(base)` with its title; a newer hidden tip used by rebase-update is `(updated-base)`, and an explicit command-line target is `(onto)`. Other fork separators stay terse. Delete a separator to continue its commits on the stack below; add one to create a fork. A listed commit must be picked below before it can be a fork target.
- `empty <title>` creates an empty commit with the text after the command as its title.
- Commands may be plain text or enclosed in backticks. Text after a backticked command and text after a fork ID is display-only context.
- Prefix `pick`, `squash`, or `empty` with `@` to choose the post-rebase checkout. Reference lines like `(main, topic)` point refs at the following separator or command below them; moving, adding, or removing names moves, creates, or deletes refs, including existing editable refs outside the generated todo. The current attached ref stays attached while it remains at the `@` command. Prefix one editable ref with `@` to attach HEAD to it explicitly; it must point to the `@` command.
- Saving an unchanged document in the history-view editor is a no-op unless the ancestry ending at `@` has a pending rebase. Explicit `tix rebase apply` and `--edit-and-apply` apply valid unchanged plans. Unchanged picks whose parent stays unchanged retain their IDs; replay starts at the first pending or structurally changed commit. Changed commits through `@` are cherry-picked and re-signed, while descendants and other stacks remain lazily rebased with invalidated signatures until time travel reaches them.
- Tix pins, stashes, and review refs, tags, remote-tracking refs, and symbolic refs stay unchanged and hidden. A ref checked out by another worktree may be moved but not deleted. New unreferenced leaves are pinned.
- A todo conflict changes nothing unless explicitly accepted. The TUI offers `<enter>` to materialize it; command-line apply requires `--materialize-conflicts [CONTINUE]` and writes a continuation todo. Resolve the ordinary unmerged index, then apply that todo. Concurrent ref changes still abort the update.
- Commit states are display-only and editing them has no effect: `🚧` means the commit is a todo, `📝` it has a note, `✔️` its tree passed checks, `↻` a lazy rebase is pending, `◌` an empty signature awaits signing, `◐` a signature is present but unverified, `○` means unsigned, and `🎁` means worktree state is stashed for that commit. Stashes follow rewritten commits automatically; dropping a stashed commit or combining multiple stashes into one result is rejected.
-->
"#;

/// What saving a todo unchanged does, if nothing is pending and the base stays.
pub const NOTHING_TO_DO: &'static str =
    "<!-- Rebase help follows. Saving unchanged is a no-op; empty this file or remove the tix-rebase-state-v2 comment to cancel. -->";

/// What saving a todo unchanged does, if commits are pending and the base stays.
pub const PENDING_COMMITS: &'static str =
    "<!-- Rebase help follows. Pending commits on the @ ancestry make saving unchanged apply this todo: that ancestry is replayed now and other forks stay lazy. Empty this file or remove the tix-rebase-state-v2 comment to cancel. -->";

/// What saving a todo unchanged does, if nothing is pending and the base moves.
pub const UPDATED_BASE: &'static str =
    "<!-- Rebase help follows. Saving unchanged rebases onto the updated base; empty this file or remove the tix-rebase-state-v2 comment to cancel. -->";

/// What saving a todo unchanged does, if commits are pending and the base moves.
pub const UPDATED_BASE_AND_PENDING_COMMITS: &'static str =
    "<!-- Rebase help follows. Saving unchanged rebases onto the updated base and applies pending commits on the @ ancestry: that ancestry is replayed now and other forks stay lazy. Empty this file or remove the tix-rebase-state-v2 comment to cancel. -->";

/// How the todo of a continuation starts.
pub const CONTINUATION: &'static str =
    "<!-- Rebase help follows. Saving unchanged continues the materialized rebase; empty this file or remove the tix-rebase-state-v2 comment to cancel. -->\n# Continue materialized rebase\n\n";

/// What a todo says about saving it unchanged.
pub open spec fn notice(base_updated: bool, has_pending: bool) -> Seq<char> {
    match (base_updated, has_pending) {
        (false, false) => NOTHING_TO_DO@,
        (false, true) => PENDING_COMMITS@,
        (true, false) => UPDATED_BASE@,
        (true, true) => UPDATED_BASE_AND_PENDING_COMMITS@,
    }
}

/// What a todo says about saving it unchanged.
pub fn unchanged_notice(base_updated: bool, has_pending: bool) -> (r: &'static str)
    ensures
        r@ == notice(base_updated, has_pending),
{
    match (base_updated, has_pending) {
        (false, false) => NOTHING_TO_DO,
        (false, true) => PENDING_COMMITS,
        (true, false) => UPDATED_BASE,
        (true, true) => UPDATED_BASE_AND_PENDING_COMMITS,
    }
}

/// The names of the editable references that logically point at a commit, of the first `end`.
pub open spec fn names_at(
    refs: Seq<ExpectedRef<Seq<u8>>>,
    target: ObjectId,
    end: int,
) -> Seq<Seq<u8>>
    decreases end,
{
    if end <= 0 || end > refs.len() {
        Seq::empty()
    } else if refs[end - 1].editable && refs[end - 1].target == target {
        names_at(refs, target, end - 1).push(refs[end - 1].name)
    } else {
        names_at(refs, target, end - 1)
    }
}

/// The names of the references that are placed somewhere, of the first `end`.
pub open spec fn names_placed_at(
    refs: Seq<ExpectedRef<Seq<u8>>>,
    target: PlanParent,
    end: int,
) -> Seq<Seq<u8>>
    decreases end,
{
    if end <= 0 || end > refs.len() {
        Seq::empty()
    } else if refs[end - 1].placement == Some(target) {
        names_placed_at(refs, target, end - 1).push(refs[end - 1].name)
    } else {
        names_placed_at(refs, target, end - 1)
    }
}

/// The first `end` names as a reference line shows them.
pub open spec fn listed_names(
    names: Seq<Seq<u8>>,
    refs: Seq<ExpectedRef<Seq<u8>>>,
    end: int,
) -> Seq<u8>
    decreases end,
{
    if end <= 0 || end > names.len() {
        Seq::empty()
    } else {
        listed_names(names, refs, end - 1) + (if end > 1 {
            ", ".spec_bytes()
        } else {
            Seq::empty()
        }) + quoted(display_name(names[end - 1], refs))
    }
}

/// The reference line for some names, in order; nothing for none.
pub open spec fn ref_line_text(names: Seq<Seq<u8>>, refs: Seq<ExpectedRef<Seq<u8>>>) -> Seq<u8> {
    let sorted = sorted_names(names);
    if sorted.len() == 0 {
        Seq::empty()
    } else {
        "(".spec_bytes() + listed_names(sorted, refs, sorted.len() as int) + ")\n".spec_bytes()
    }
}

fn write_ref_line(
    out: &mut Vec<u8>,
    refs: &Vec<ExpectedRef<FullName>>,
    sorted: &Vec<FullName>,
    Ghost(names): Ghost<Seq<Seq<u8>>>,
)
    requires
        viewed(sorted@) == sorted_names(names),
    ensures
        final(out)@ == old(out)@ + ref_line_text(names, viewed(refs@)),
{
    assert(viewed(sorted@).len() == sorted@.len());
    if sorted.len() == 0 {
        assert(out@ == old(out)@ + ref_line_text(names, viewed(refs@)));
        return;
    }
    bytes::append(out, "(".as_bytes());
    let ghost start = out@;
    let mut i: usize = 0;
    assert(out@ == start + listed_names(viewed(sorted@), viewed(refs@), 0));
    while i < sorted.len()
        invariant
            i <= sorted@.len(),
            out@ == start + listed_names(viewed(sorted@), viewed(refs@), i as int),
        decreases sorted.len() - i,
    {
        let ghost before = out@;
        if i > 0 {
            bytes::append(out, ", ".as_bytes());
        }
        let shown = ref_display_name(&sorted[i], refs);
        let quoted_name = names::quote(shown.as_slice());
        bytes::append(out, quoted_name.as_slice());
        i = i + 1;
        assert(out@ == start + listed_names(viewed(sorted@), viewed(refs@), i as int));
    }
    bytes::append(out, ")\n".as_bytes());
    assert(out@ == old(out)@ + ref_line_text(names, viewed(refs@)));
}

/// Writes the reference line of a commit.
pub fn write_refs_at(out: &mut Vec<u8>, refs: &Vec<ExpectedRef<FullName>>, target: ObjectId)
    ensures
        final(out)@ == old(out)@ + ref_line_text(
            names_at(viewed(refs@), target, refs@.len() as int),
            viewed(refs@),
        ),
{
    let mut sorted: Vec<FullName> = Vec::new();
    let mut i: usize = 0;
    assert(viewed(sorted@) == sorted_names(names_at(viewed(refs@), target, 0)));
    while i < refs.len()
        invariant
            i <= refs@.len(),
            viewed(sorted@) == sorted_names(names_at(viewed(refs@), target, i as int)),
        decreases refs.len() - i,
    {
        if refs[i].editable && refs[i].target == target {
            let ghost before = names_at(viewed(refs@), target, i as int);
            assert(before.push(refs@[i as int].name@).drop_last() == before);
            insert_name(&mut sorted, refs[i].name.clone());
        }
        i = i + 1;
    }
    let ghost names = names_at(viewed(refs@), target, refs@.len() as int);
    write_ref_line(out, refs, &sorted, Ghost(names));
}

/// Writes the reference line of what a plan produces, or of a commit that it builds on.
pub fn write_plan_refs_at(
    out: &mut Vec<u8>,
    refs: &Vec<ExpectedRef<FullName>>,
    target: PlanParent,
)
    ensures
        final(out)@ == old(out)@ + ref_line_text(
            names_placed_at(viewed(refs@), target, refs@.len() as int),
            viewed(refs@),
        ),
{
    let mut sorted: Vec<FullName> = Vec::new();
    let mut i: usize = 0;
    assert(viewed(sorted@) == sorted_names(names_placed_at(viewed(refs@), target, 0)));
    while i < refs.len()
        invariant
            i <= refs@.len(),
            viewed(sorted@) == sorted_names(names_placed_at(viewed(refs@), target, i as int)),
        decreases refs.len() - i,
    {
        let placed = match refs[i].placement {
            Some(placement) => placement == target,
            None => false,
        };
        if placed {
            let ghost before = names_placed_at(viewed(refs@), target, i as int);
            assert(before.push(refs@[i as int].name@).drop_last() == before);
            insert_name(&mut sorted, refs[i].name.clone());
        }
        i = i + 1;
    }
    let ghost names = names_placed_at(viewed(refs@), target, refs@.len() as int);
    write_ref_line(out, refs, &sorted, Ghost(names));
}

/// Whether one of the headers has the given name.
pub open spec fn has_header(headers: Seq<Header<Seq<u8>>>, name: Seq<u8>) -> bool {
    exists|i: int| 0 <= i < headers.len() && (#[trigger] headers[i]).name == name
}

/// Whether a header is a signature.
pub open spec fn is_signature(header: Header<Seq<u8>>) -> bool {
    header.name == "gpgsig".spec_bytes() || header.name == "gpgsig-sha256".spec_bytes()
}

/// Whether one of the headers is a signature that awaits signing.
pub open spec fn awaits_signing(headers: Seq<Header<Seq<u8>>>) -> bool {
    exists|i: int|
        0 <= i < headers.len() && is_signature(#[trigger] headers[i]) && headers[i].value.len()
            == 0
}

/// Whether one of the headers is a signature.
pub open spec fn is_signed(headers: Seq<Header<Seq<u8>>>) -> bool {
    exists|i: int|
        0 <= i < headers.len() && is_signature(#[trigger] headers[i]) && headers[i].value.len() > 0
}

/// A mark and a space behind it, if it applies.
pub open spec fn mark_if(applies: bool, mark: Seq<u8>) -> Seq<u8> {
    if applies {
        mark + seq![32u8]
    } else {
        Seq::empty()
    }
}

/// The marks of a commit's states, each with a space behind it.
pub open spec fn states_text(
    marker: Seq<u8>,
    headers: Seq<Header<Seq<u8>>>,
    stashed: bool,
) -> Seq<u8> {
    mark_if(marker.len() > 0, marker) + mark_if(
        has_header(headers, "tix-rebase-parent".spec_bytes()),
        "↻".spec_bytes(),
    ) + mark_if(awaits_signing(headers), "◌".spec_bytes()) + mark_if(
        is_signed(headers),
        "◐".spec_bytes(),
    ) + mark_if(!awaits_signing(headers) && !is_signed(headers), "○".spec_bytes()) + mark_if(
        stashed,
        "🎁".spec_bytes(),
    )
}

fn append_mark(out: &mut Vec<u8>, applies: bool, mark: &[u8])
    ensures
        final(out)@ == old(out)@ + mark_if(applies, mark@),
{
    if applies {
        bytes::append(out, mark);
        out.push(32);
    }
    assert(out@ == old(out)@ + mark_if(applies, mark@));
}

/// The marks of a commit's states: what enriches it, a pending rebase, its signature, and
/// whether worktree state is stashed for it.
pub fn commit_states(marker: &[u8], headers: &Vec<Header<Vec<u8>>>, stashed: bool) -> (r: Vec<u8>)
    ensures
        r@ == states_text(marker@, viewed(headers@), stashed),
{
    let ghost all = viewed(headers@);
    let mut pending = false;
    let mut empty_signature = false;
    let mut signature = false;
    let mut i: usize = 0;
    while i < headers.len()
        invariant
            all == viewed(headers@),
            i <= headers@.len(),
            pending == (exists|j: int|
                0 <= j < i && (#[trigger] all[j]).name == "tix-rebase-parent".spec_bytes()),
            empty_signature == (exists|j: int|
                0 <= j < i && is_signature(#[trigger] all[j]) && all[j].value.len() == 0),
            signature == (exists|j: int|
                0 <= j < i && is_signature(#[trigger] all[j]) && all[j].value.len() > 0),
        decreases headers.len() - i,
    {
        let header = &headers[i];
        assert(all[i as int] == header@);
        if bytes::equal(header.name.as_slice(), "tix-rebase-parent".as_bytes()) {
            pending = true;
        }
        if bytes::equal(header.name.as_slice(), "gpgsig".as_bytes()) || bytes::equal(
            header.name.as_slice(),
            "gpgsig-sha256".as_bytes(),
        ) {
            assert(is_signature(all[i as int]));
            if header.value.len() == 0 {
                empty_signature = true;
            } else {
                signature = true;
            }
        }
        i = i + 1;
    }
    assert(pending == has_header(all, "tix-rebase-parent".spec_bytes()));
    assert(empty_signature == awaits_signing(all));
    assert(signature == is_signed(all));
    let mut out: Vec<u8> = Vec::new();
    append_mark(&mut out, marker.len() > 0, marker);
    append_mark(&mut out, pending, "↻".as_bytes());
    append_mark(&mut out, empty_signature, "◌".as_bytes());
    append_mark(&mut out, signature, "◐".as_bytes());
    append_mark(&mut out, !empty_signature && !signature, "○".as_bytes());
    append_mark(&mut out, stashed, "🎁".as_bytes());
    assert(out@ == states_text(marker@, all, stashed));
    out
}

/// The title of a commit that a fork is anchored at.
pub open spec fn anchor_text(message: Seq<u8>, agent: bool, has_notes: bool) -> Seq<u8> {
    (if agent {
        "[A] ".spec_bytes()
    } else {
        Seq::empty()
    }) + (if has_notes {
        "[N] ".spec_bytes()
    } else {
        Seq::empty()
    }) + lossy(summary_of(message))
}

/// The title of a commit, marked if an agent took part in it and if it has notes.
pub fn anchor_title(message: &[u8], agent: bool, has_notes: bool) -> (r: Vec<u8>)
    ensures
        r@ == anchor_text(message@, agent, has_notes),
{
    let mut out: Vec<u8> = Vec::new();
    if agent {
        bytes::append(&mut out, "[A] ".as_bytes());
    }
    if has_notes {
        bytes::append(&mut out, "[N] ".as_bytes());
    }
    let summary = text::message_summary(message);
    let shown = text::to_str_lossy(summary.as_slice());
    bytes::append(&mut out, shown.as_slice());
    assert(out@ == anchor_text(message@, agent, has_notes));
    out
}

/// How a commit is shown: its abbreviated id, the marks of its states, its title or other
/// information, and its change id where the null id stands for it.
#[derive(PartialEq, Eq, Debug)]
pub struct Label<T> {
    pub id: ObjectId,
    pub short: T,
    pub states: T,
    pub info: T,
    pub change_id: Option<ChangeId>,
}

impl<T: View> View for Label<T> {
    type V = Label<T::V>;

    open spec fn view(&self) -> Label<T::V> {
        Label {
            id: self.id,
            short: self.short@,
            states: self.states@,
            info: self.info@,
            change_id: self.change_id,
        }
    }
}

/// How a commit is shown: by the given id, with the marks of its states and with some information.
pub fn commit_label(
    id: ObjectId,
    short: &[u8],
    marker: &[u8],
    headers: &Vec<Header<Vec<u8>>>,
    stashed: bool,
    info: &[u8],
    change_id: Option<ChangeId>,
) -> (r: Label<Vec<u8>>)
    ensures
        r@ == (Label {
            id,
            short: short@,
            states: states_text(marker@, viewed(headers@), stashed),
            info: info@,
            change_id,
        }),
{
    Label {
        id,
        short: bytes::copied(short),
        states: commit_states(marker, headers, stashed),
        info: bytes::copied(info),
        change_id,
    }
}

/// How a commit is shown if nothing says so: by its full id.
pub open spec fn unlabelled(id: ObjectId) -> Label<Seq<u8>> {
    Label {
        id,
        short: hex_of(id),
        states: Seq::empty(),
        info: Seq::empty(),
        change_id: None,
    }
}

/// How a commit is shown, by the labels from `from` on.
pub open spec fn label_from(labels: Seq<Label<Seq<u8>>>, id: ObjectId, from: int) -> Label<
    Seq<u8>,
>
    decreases labels.len() - from,
{
    if from < 0 || from >= labels.len() {
        unlabelled(id)
    } else if labels[from].id == id {
        labels[from]
    } else {
        label_from(labels, id, from + 1)
    }
}

pub(crate) fn find_label(labels: &Vec<Label<Vec<u8>>>, id: ObjectId) -> (r: Label<Vec<u8>>)
    ensures
        r@ == label_from(viewed(labels@), id, 0),
{
    let mut i: usize = 0;
    while i < labels.len()
        invariant
            i <= labels@.len(),
            label_from(viewed(labels@), id, 0) == label_from(viewed(labels@), id, i as int),
        decreases labels.len() - i,
    {
        if labels[i].id == id {
            let label = &labels[i];
            return Label {
                id,
                short: bytes::copied(label.short.as_slice()),
                states: bytes::copied(label.states.as_slice()),
                info: bytes::copied(label.info.as_slice()),
                change_id: label.change_id,
            };
        }
        i = i + 1;
    }
    let r = Label {
        id,
        short: id.to_hex(),
        states: Vec::new(),
        info: Vec::new(),
        change_id: None,
    };
    assert(r@ == unlabelled(id));
    r
}

/// The heading of a fork, with the kind and the title of its anchor.
pub open spec fn heading(
    short: Seq<u8>,
    annotation: Option<(Seq<u8>, Seq<u8>)>,
) -> Seq<u8> {
    "fork ".spec_bytes() + short + (match annotation {
        Some((kind, title)) => " (".spec_bytes() + kind + ") ".spec_bytes() + title,
        None => Seq::empty(),
    }) + seq![LF]
}

pub(crate) fn write_fork_heading(
    out: &mut Vec<u8>,
    labels: &Vec<Label<Vec<u8>>>,
    id: ObjectId,
    annotation: Option<(&[u8], &[u8])>,
)
    ensures
        final(out)@ == old(out)@ + heading(
            label_from(viewed(labels@), id, 0).short,
            bytes::view_of_pair(annotation),
        ),
{
    let label = find_label(labels, id);
    bytes::append(out, "fork ".as_bytes());
    bytes::append(out, label.short.as_slice());
    if let Some((kind, title)) = annotation {
        bytes::append(out, " (".as_bytes());
        bytes::append(out, kind);
        bytes::append(out, ") ".as_bytes());
        bytes::append(out, title);
    }
    out.push(LF);
    assert(out@ == old(out)@ + heading(label@.short, bytes::view_of_pair(annotation)));
}

/// The line of a command: in backticks, with what explains it behind them.
pub open spec fn command_line(verb: Seq<u8>, value: Seq<u8>, context: Seq<u8>) -> Seq<u8> {
    "`".spec_bytes() + verb + seq![32u8] + value + "` ".spec_bytes() + context + seq![LF]
}

pub(crate) fn write_command(out: &mut Vec<u8>, verb: &[u8], value: &[u8], states: &[u8], info: &[u8])
    ensures
        final(out)@ == old(out)@ + command_line(verb@, value@, states@ + info@),
{
    bytes::append(out, "`".as_bytes());
    bytes::append(out, verb);
    out.push(32);
    bytes::append(out, value);
    bytes::append(out, "` ".as_bytes());
    bytes::append(out, states);
    bytes::append(out, info);
    out.push(LF);
    assert(out@ == old(out)@ + command_line(verb@, value@, states@ + info@));
}

/// The line that picks a commit, with its reference line below.
pub open spec fn pick_text(
    labels: Seq<Label<Seq<u8>>>,
    refs: Seq<ExpectedRef<Seq<u8>>>,
    id: ObjectId,
    marked: bool,
) -> Seq<u8> {
    let label = label_from(labels, id, 0);
    command_line(
        if marked {
            "@pick".spec_bytes()
        } else {
            "pick".spec_bytes()
        },
        label.short,
        label.states + label.info,
    ) + ref_line_text(names_at(refs, id, refs.len() as int), refs)
}

/// The lines that pick the first `end` of several commits.
pub open spec fn picks_text(
    labels: Seq<Label<Seq<u8>>>,
    refs: Seq<ExpectedRef<Seq<u8>>>,
    commits: Seq<ObjectId>,
    marker: Option<ObjectId>,
    end: int,
) -> Seq<u8>
    decreases end,
{
    if end <= 0 || end > commits.len() {
        Seq::empty()
    } else {
        picks_text(labels, refs, commits, marker, end - 1) + pick_text(
            labels,
            refs,
            commits[end - 1],
            marker == Some(commits[end - 1]),
        )
    }
}

/// What is shown of the commit that a todo rebases onto: its kind and its title.
pub struct Anchor<'a> {
    pub onto: ObjectId,
    pub kind: &'a [u8],
    pub title: &'a [u8],
}

/// That, in specifications.
pub struct AnchorView {
    pub onto: ObjectId,
    pub kind: Seq<u8>,
    pub title: Seq<u8>,
}

impl<'a> View for Anchor<'a> {
    type V = AnchorView;

    open spec fn view(&self) -> AnchorView {
        AnchorView { onto: self.onto, kind: self.kind@, title: self.title@ }
    }
}

/// What the heading of a fork says of its anchor.
pub open spec fn annotation(anchor: AnchorView, parent: ObjectId) -> Option<(Seq<u8>, Seq<u8>)> {
    if parent == anchor.onto {
        Some((anchor.kind, anchor.title))
    } else {
        None
    }
}

/// Whether one of the first `end` forks has the given parent.
pub open spec fn shown_before(
    sections: Seq<Section<Seq<ObjectId>>>,
    parent: ObjectId,
    end: int,
) -> bool {
    exists|i: int| 0 <= i < end && (#[trigger] sections[i]).parent == parent
}

/// A fork from its base up: its heading, the references of a parent that is not listed where it
/// is shown first, and the commits.
pub open spec fn section_text(
    sections: Seq<Section<Seq<ObjectId>>>,
    scope: Seq<ObjectId>,
    labels: Seq<Label<Seq<u8>>>,
    refs: Seq<ExpectedRef<Seq<u8>>>,
    marker: Option<ObjectId>,
    anchor: AnchorView,
    index: int,
) -> Seq<u8> {
    let section = sections[index];
    let parent = section.parent;
    (if index > 0 {
        seq![LF]
    } else {
        Seq::empty()
    }) + heading(label_from(labels, parent, 0).short, annotation(anchor, parent)) + (if !scope.contains(
        parent,
    ) && !shown_before(sections, parent, index) {
        ref_line_text(names_at(refs, parent, refs.len() as int), refs)
    } else {
        Seq::empty()
    }) + picks_text(labels, refs, section.commits, marker, section.commits.len() as int)
}

/// The first `end` forks from the base up.
pub open spec fn sections_text(
    sections: Seq<Section<Seq<ObjectId>>>,
    scope: Seq<ObjectId>,
    labels: Seq<Label<Seq<u8>>>,
    refs: Seq<ExpectedRef<Seq<u8>>>,
    marker: Option<ObjectId>,
    anchor: AnchorView,
    end: int,
) -> Seq<u8>
    decreases end,
{
    if end <= 0 || end > sections.len() {
        Seq::empty()
    } else {
        sections_text(sections, scope, labels, refs, marker, anchor, end - 1) + section_text(
            sections,
            scope,
            labels,
            refs,
            marker,
            anchor,
            end - 1,
        )
    }
}

/// What a todo without forks shows: where it rebases onto, and the references there and at the
/// base.
pub open spec fn empty_text(
    labels: Seq<Label<Seq<u8>>>,
    refs: Seq<ExpectedRef<Seq<u8>>>,
    base: ObjectId,
    anchor: AnchorView,
) -> Seq<u8> {
    heading(label_from(labels, anchor.onto, 0).short, annotation(anchor, anchor.onto))
        + ref_line_text(names_at(refs, anchor.onto, refs.len() as int), refs) + (if base
        != anchor.onto {
        ref_line_text(names_at(refs, base, refs.len() as int), refs)
    } else {
        Seq::empty()
    })
}

fn write_picks(
    out: &mut Vec<u8>,
    commits: &Vec<ObjectId>,
    labels: &Vec<Label<Vec<u8>>>,
    refs: &Vec<ExpectedRef<FullName>>,
    marker: Option<ObjectId>,
)
    ensures
        final(out)@ == old(out)@ + picks_text(
            viewed(labels@),
            viewed(refs@),
            commits@,
            marker,
            commits@.len() as int,
        ),
{
    let mut i: usize = 0;
    assert(out@ == old(out)@ + picks_text(viewed(labels@), viewed(refs@), commits@, marker, 0));
    while i < commits.len()
        invariant
            i <= commits@.len(),
            out@ == old(out)@ + picks_text(
                viewed(labels@),
                viewed(refs@),
                commits@,
                marker,
                i as int,
            ),
        decreases commits.len() - i,
    {
        let ghost earlier = out@;
        let id = commits[i];
        let label = find_label(labels, id);
        let marked = match marker {
            Some(marker) => marker == id,
            None => false,
        };
        let verb = if marked {
            "@pick".as_bytes()
        } else {
            "pick".as_bytes()
        };
        write_command(
            out,
            verb,
            label.short.as_slice(),
            label.states.as_slice(),
            label.info.as_slice(),
        );
        write_refs_at(out, refs, id);
        assert(out@ == earlier + pick_text(viewed(labels@), viewed(refs@), id, marked));
        i = i + 1;
        assert(out@ == old(out)@ + picks_text(
            viewed(labels@),
            viewed(refs@),
            commits@,
            marker,
            i as int,
        ));
    }
}

fn is_shown_before(
    sections: &Vec<Section<Vec<ObjectId>>>,
    parent: ObjectId,
    index: usize,
) -> (r: bool)
    requires
        index <= sections@.len(),
    ensures
        r == shown_before(viewed(sections@), parent, index as int),
{
    let mut i: usize = 0;
    while i < index
        invariant
            i <= index <= sections@.len(),
            !shown_before(viewed(sections@), parent, i as int),
        decreases index - i,
    {
        assert(viewed(sections@)[i as int].parent == sections@[i as int].parent);
        if sections[i].parent == parent {
            return true;
        }
        i = i + 1;
    }
    false
}

fn write_section(
    out: &mut Vec<u8>,
    sections: &Vec<Section<Vec<ObjectId>>>,
    index: usize,
    scope: &Vec<ObjectId>,
    labels: &Vec<Label<Vec<u8>>>,
    refs: &Vec<ExpectedRef<FullName>>,
    marker: Option<ObjectId>,
    anchor: &Anchor,
)
    requires
        index < sections@.len(),
    ensures
        final(out)@ == old(out)@ + section_text(
            viewed(sections@),
            scope@,
            viewed(labels@),
            viewed(refs@),
            marker,
            anchor@,
            index as int,
        ),
{
    let section = &sections[index];
    assert(viewed(sections@)[index as int] == section@);
    let parent = section.parent;
    if index > 0 {
        out.push(LF);
    }
    let note = if parent == anchor.onto {
        Some((anchor.kind, anchor.title))
    } else {
        None
    };
    write_fork_heading(out, labels, parent, note);
    if !contains_id(scope.as_slice(), parent) && !is_shown_before(sections, parent, index) {
        write_refs_at(out, refs, parent);
    }
    write_picks(out, &section.commits, labels, refs, marker);
    assert(out@ == old(out)@ + section_text(
        viewed(sections@),
        scope@,
        viewed(labels@),
        viewed(refs@),
        marker,
        anchor@,
        index as int,
    ));
}

/// How wide the first `end` lines are, headings with room for rails.
pub open spec fn widest(all: Seq<Seq<u8>>, end: int) -> nat
    decreases end,
{
    if end <= 0 || end > all.len() {
        0
    } else {
        let line = all[end - 1];
        let width = if has_prefix(line, "fork ".spec_bytes()) {
            saturated(columns(line) + 10)
        } else {
            columns(line)
        };
        let before = widest(all, end - 1);
        if width > before {
            width
        } else {
            before
        }
    }
}

/// A width, as far as it can be represented.
pub open spec fn saturated(width: nat) -> nat {
    if width > usize::MAX {
        usize::MAX as nat
    } else {
        width
    }
}

/// Several rails.
pub open spec fn rails(count: nat) -> Seq<u8>
    decreases count,
{
    if count == 0 {
        Seq::empty()
    } else {
        rails((count - 1) as nat) + RAIL.spec_bytes()
    }
}

/// How many rails a heading gets, so that it fills the width.
pub open spec fn rail_count(line: Seq<u8>, width: nat) -> nat {
    let label = saturated(columns(line) + 2);
    if width >= label + 8 {
        (width - label) as nat
    } else {
        8
    }
}

/// A line as it is shown: a heading between rails, any other as it is.
pub open spec fn shown_line(line: Seq<u8>, width: nat) -> Seq<u8> {
    if has_prefix(line, "fork ".spec_bytes()) {
        let count = rail_count(line, width);
        rails(count / 2) + seq![32u8] + line + seq![32u8] + rails((count - count / 2) as nat)
            + seq![LF]
    } else {
        line + seq![LF]
    }
}

/// The first `left` lines as they are shown, from the last of them to the first.
pub open spec fn bottom_up(all: Seq<Seq<u8>>, left: int, width: nat) -> Seq<u8>
    decreases left,
{
    if left <= 0 || left > all.len() {
        Seq::empty()
    } else {
        shown_line(all[left - 1], width) + bottom_up(all, left - 1, width)
    }
}

fn write_rails(out: &mut Vec<u8>, count: usize)
    ensures
        final(out)@ == old(out)@ + rails(count as nat),
{
    let mut i: usize = 0;
    assert(out@ == old(out)@ + rails(0));
    while i < count
        invariant
            i <= count,
            out@ == old(out)@ + rails(i as nat),
        decreases count - i,
    {
        bytes::append(out, RAIL.as_bytes());
        i = i + 1;
        assert(out@ == old(out)@ + rails(i as nat));
    }
}

/// Writes lines from the last to the first, headings between rails that make them as wide as the
/// widest line.
pub fn write_bottom_up(out: &mut Vec<u8>, body: &[u8]) -> (r: Result<(), TodoError>)
    ensures
        r is Ok == valid_utf8(body@),
        r matches Err(err) ==> err == TodoError::NotUtf8 && final(out)@ == old(out)@,
        r is Ok ==> final(out)@ == old(out)@ + bottom_up(
            lines(body@),
            lines(body@).len() as int,
            widest(lines(body@), lines(body@).len() as int),
        ),
{
    if !text::is_utf8(body) {
        return Err(TodoError::NotUtf8);
    }
    let all = bytes::split_lines(body);
    assert(bytes::views(all@).len() == all@.len());
    let mut width: usize = 0;
    let mut i: usize = 0;
    while i < all.len()
        invariant
            bytes::views(all@) == lines(body@),
            i <= all@.len(),
            width == widest(lines(body@), i as int),
            lines(body@).len() == all@.len(),
        decreases all.len() - i,
    {
        let line = all[i];
        assert(line@ == bytes::views(all@)[i as int]);
        let mut own: usize = text::line_width(line);
        if bytes::starts_with(line, "fork ".as_bytes()) {
            own = own.saturating_add(10);
        }
        if own > width {
            width = own;
        }
        i = i + 1;
    }
    let mut left: usize = all.len();
    assert(out@ + bottom_up(lines(body@), left as int, width as nat) == old(out)@ + bottom_up(
        lines(body@),
        left as int,
        width as nat,
    ));
    while left > 0
        invariant
            bytes::views(all@) == lines(body@),
            lines(body@).len() == all@.len(),
            left <= all@.len(),
            width == widest(lines(body@), all@.len() as int),
            old(out)@ + bottom_up(lines(body@), all@.len() as int, width as nat) == out@
                + bottom_up(lines(body@), left as int, width as nat),
        decreases left,
    {
        let line = all[left - 1];
        let ghost before = out@;
        assert(line@ == bytes::views(all@)[left - 1]);
        if bytes::starts_with(line, "fork ".as_bytes()) {
            let label: usize = text::line_width(line).saturating_add(2);
            let free: usize = width.saturating_sub(label);
            let count: usize = if free > 8 {
                free
            } else {
                8
            };
            let first: usize = count / 2;
            write_rails(out, first);
            out.push(32);
            bytes::append(out, line);
            out.push(32);
            write_rails(out, count - first);
            out.push(LF);
        } else {
            bytes::append(out, line);
            out.push(LF);
        }
        assert(out@ == before + shown_line(line@, width as nat));
        left = left - 1;
        assert(old(out)@ + bottom_up(lines(body@), all@.len() as int, width as nat) == out@
            + bottom_up(lines(body@), left as int, width as nat));
    }
    assert(out@ == out@ + bottom_up(lines(body@), 0, width as nat));
    Ok(())
}

/// Why the commit to rebase onto differs from the base.
#[derive(Clone, Copy, PartialEq, Eq, Structural, Debug)]
pub enum OntoKind {
    UpdatedBase,
    Onto,
}

/// A todo, and whether it is applied even if it is saved unchanged.
#[derive(PartialEq, Eq, Debug)]
pub struct Prepared {
    pub document: Vec<u8>,
    pub apply_unchanged: bool,
}

/// What is shown of the commit that a todo rebases onto.
pub open spec fn anchor_kind(base: ObjectId, onto: ObjectId, kind: OntoKind) -> Seq<u8> {
    if base == onto {
        "base".spec_bytes()
    } else {
        match kind {
            OntoKind::UpdatedBase => "updated-base".spec_bytes(),
            OntoKind::Onto => "onto".spec_bytes(),
        }
    }
}

/// The heading of a todo.
pub open spec fn title_text(
    labels: Seq<Label<Seq<u8>>>,
    base: ObjectId,
    onto: ObjectId,
) -> Seq<u8> {
    "# Rebase from `".spec_bytes() + label_from(labels, base, 0).short + (if base == onto {
        "`".spec_bytes()
    } else {
        "` onto `".spec_bytes() + label_from(labels, onto, 0).short + "`".spec_bytes()
    })
}

/// The body of a todo, from its base up.
pub open spec fn body_text(
    outline: Outline,
    base: ObjectId,
    labels: Seq<Label<Seq<u8>>>,
    refs: Seq<ExpectedRef<Seq<u8>>>,
    anchor: AnchorView,
) -> Seq<u8> {
    let sections = viewed(outline.sections@);
    if sections.len() == 0 {
        empty_text(labels, refs, base, anchor)
    } else {
        sections_text(
            sections,
            outline.scope@,
            labels,
            refs,
            outline.marker,
            anchor,
            sections.len() as int,
        )
    }
}

/// The state of a todo that is not edited yet.
pub open spec fn initial_state(
    outline: Outline,
    base: ObjectId,
    onto: ObjectId,
    resolved_tips: Seq<ObjectId>,
    has_worktree: bool,
    head_ref: Option<Seq<u8>>,
    refs: Seq<ExpectedRef<Seq<u8>>>,
) -> TodoStateView {
    TodoStateView {
        base,
        onto,
        tips: if resolved_tips.len() == 0 {
            outline.tips@
        } else {
            resolved_tips
        },
        scope: outline.scope@,
        marker_required: outline.marker is Some,
        checkout_allowed: has_worktree,
        head_ref: if has_worktree {
            head_ref
        } else {
            None
        },
        edit_refs: true,
        expected_refs: refs,
        resolved: None,
        continuation_sources: Seq::empty(),
    }
}

/// What a todo says, above its state: the notice, the heading, the body from its tip down, and
/// the help.
pub open spec fn document_text(
    notice: Seq<u8>,
    title: Seq<u8>,
    body: Seq<u8>,
) -> Seq<u8> {
    notice + seq![LF] + title + seq![LF, LF] + bottom_up(
        lines(body),
        lines(body).len() as int,
        widest(lines(body), lines(body).len() as int),
    ) + HELP.spec_bytes()
}

#[verifier::loop_isolation(false)]
fn write_body(
    outline: &Outline,
    base: ObjectId,
    labels: &Vec<Label<Vec<u8>>>,
    refs: &Vec<ExpectedRef<FullName>>,
    anchor: &Anchor,
) -> (r: Vec<u8>)
    ensures
        r@ == body_text(*outline, base, viewed(labels@), viewed(refs@), anchor@),
{
    let mut body: Vec<u8> = Vec::new();
    assert(viewed(outline.sections@).len() == outline.sections@.len());
    let mut i: usize = 0;
    let ghost none = Seq::<u8>::empty();
    assert(body@ == none + sections_text(
        viewed(outline.sections@),
        outline.scope@,
        viewed(labels@),
        viewed(refs@),
        outline.marker,
        anchor@,
        0,
    ));
    while i < outline.sections.len()
        invariant
            i <= outline.sections@.len(),
            body@ == none + sections_text(
                viewed(outline.sections@),
                outline.scope@,
                viewed(labels@),
                viewed(refs@),
                outline.marker,
                anchor@,
                i as int,
            ),
        decreases outline.sections.len() - i,
    {
        write_section(
            &mut body,
            &outline.sections,
            i,
            &outline.scope,
            labels,
            refs,
            outline.marker,
            anchor,
        );
        i = i + 1;
        assert(body@ == none + sections_text(
            viewed(outline.sections@),
            outline.scope@,
            viewed(labels@),
            viewed(refs@),
            outline.marker,
            anchor@,
            i as int,
        ));
    }
    if outline.sections.len() == 0 {
        assert(body@ == none);
        write_fork_heading(&mut body, labels, anchor.onto, Some((anchor.kind, anchor.title)));
        write_refs_at(&mut body, refs, anchor.onto);
        if base != anchor.onto {
            write_refs_at(&mut body, refs, base);
        }
    }
    assert(body@ == body_text(*outline, base, viewed(labels@), viewed(refs@), anchor@));
    body
}

fn finish_document(
    notice: &[u8],
    title: &[u8],
    body: &[u8],
) -> (r: Result<Vec<u8>, TodoError>)
    ensures
        r is Ok == valid_utf8(body@),
        r matches Err(err) ==> err == TodoError::NotUtf8,
        r matches Ok(document) ==> document@ == document_text(notice@, title@, body@),
{
    let mut document = bytes::copied(notice);
    document.push(LF);
    bytes::append(&mut document, title);
    document.push(LF);
    document.push(LF);
    let ghost head = document@;
    assert(head == notice@ + seq![LF] + title@ + seq![LF, LF]);
    match write_bottom_up(&mut document, body) {
        Ok(_) => {},
        Err(err) => return Err(err),
    }
    bytes::append(&mut document, HELP.as_bytes());
    Ok(document)
}

/// Prepares the todo of an outline for editing. The references of the outline's points are
/// `expected_refs`, and `head_ref` is the branch that HEAD is on.
pub fn prepare(
    outline: &Outline,
    base: ObjectId,
    onto: ObjectId,
    resolved_tips: &Vec<ObjectId>,
    onto_kind: OntoKind,
    has_worktree: bool,
    head_ref: Option<&FullName>,
    expected_refs: &Vec<ExpectedRef<FullName>>,
    labels: &Vec<Label<Vec<u8>>>,
    anchor_title: &[u8],
) -> (r: Result<Prepared, TodoError>)
    ensures
        ({
            let anchor = AnchorView {
                onto,
                kind: anchor_kind(base, onto, onto_kind),
                title: anchor_title@,
            };
            let body = body_text(
                *outline,
                base,
                viewed(labels@),
                viewed(expected_refs@),
                anchor,
            );
            let state = initial_state(
                *outline,
                base,
                onto,
                resolved_tips@,
                has_worktree,
                match head_ref {
                    Some(name) => Some(name@),
                    None => None,
                },
                viewed(expected_refs@),
            );
            &&& r is Ok == valid_utf8(body)
            &&& r matches Err(err) ==> err == TodoError::NotUtf8
            &&& r matches Ok(prepared) ==> prepared.document@ == document_text(
                vstd::utf8::encode_utf8(notice(base != onto, outline.has_pending)),
                title_text(viewed(labels@), base, onto),
                body,
            ) + written(state)
            &&& r matches Ok(prepared) ==> prepared.apply_unchanged == (base != onto
                || outline.has_pending)
        }),
{
    let source = find_label(labels, base);
    let mut title = bytes::copied("# Rebase from `".as_bytes());
    bytes::append(&mut title, source.short.as_slice());
    if base == onto {
        bytes::append(&mut title, "`".as_bytes());
    } else {
        let target = find_label(labels, onto);
        bytes::append(&mut title, "` onto `".as_bytes());
        bytes::append(&mut title, target.short.as_slice());
        bytes::append(&mut title, "`".as_bytes());
    }
    assert(title@ == title_text(viewed(labels@), base, onto));
    let kind = if base == onto {
        "base".as_bytes()
    } else {
        match onto_kind {
            OntoKind::UpdatedBase => "updated-base".as_bytes(),
            OntoKind::Onto => "onto".as_bytes(),
        }
    };
    let anchor = Anchor { onto, kind, title: anchor_title };
    let body = write_body(outline, base, labels, expected_refs, &anchor);
    let explained = unchanged_notice(base != onto, outline.has_pending);
    let mut document = match finish_document(
        explained.as_bytes(),
        title.as_slice(),
        body.as_slice(),
    ) {
        Ok(document) => document,
        Err(err) => return Err(err),
    };
    let tips = if resolved_tips.len() == 0 {
        copy_ids(outline.tips.as_slice())
    } else {
        copy_ids(resolved_tips.as_slice())
    };
    let head_ref = match head_ref {
        Some(name) if has_worktree => Some(name.clone()),
        _ => None,
    };
    let state = TodoState {
        base,
        onto,
        tips,
        scope: copy_ids(outline.scope.as_slice()),
        marker_required: outline.marker.is_some(),
        checkout_allowed: has_worktree,
        head_ref,
        edit_refs: true,
        expected_refs: copy_refs(expected_refs),
        resolved: None,
        continuation_sources: Vec::new(),
    };
    write_state(&mut document, &state);
    Ok(Prepared { document, apply_unchanged: base != onto || outline.has_pending })
}

} // verus!
