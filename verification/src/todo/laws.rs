//! A todo that is not edited reads as the plan that it was written of.
use vstd::prelude::*;
use vstd::string::StringSliceAdditionalSpecFns;
use vstd::utf8::{encode_utf8, encode_utf8_valid_utf8, valid_utf8, valid_utf8_concat};
use crate::bytes::{fits_line, has_prefix, lines, trimmed, unbroken, word, LF};
use crate::history::CommitNode;
use crate::ids::{hex_digit, ObjectId};
use crate::names::{quoted, quoted_is_printable};
use crate::plan::{holds, position, position_bounds, viewed, ExpectedRef, PlanCommit};
use crate::plan::{PlanCheckout, PlanParent, PlanStep, PlanView, StepView};
use crate::todo::encoded::{
    ascii_bytes_are_utf8, ascii_is_utf8, literals_are_utf8, todos_are_utf8,
};
use crate::todo::lines::{command, is_ref_line, is_separator, separator_target};
use crate::todo::names::display_name;
use crate::todo::outline::{Outline, Section};
use crate::todo::parse::{
    after_line, id_prefix, named_commit, parsed, placed_refs, placement_from, plan_of, planned,
    unread, LookupsView, ParsedView, Placed, ProgressView,
};
use crate::todo::quiet::{
    blanks_are_silent, help_is_silent, notices_are_silent, silent_join, states_are_silent,
    stays_in_comment, titles_are_silent,
};
use crate::todo::record::{
    as_captured, fields, names_read_back, starts_behind, state_reads_back, written,
};
use crate::todo::shown::{
    bodies_are_read, can_edit, commands_are_read, editable_at, ends_line, first_words,
    headings_name_their_commit, line_then, lines_join, names_are_editable, names_are_placed,
    names_of, placed_at, railed, read_up, readable, readable_names, ref_lines_are_read, ref_text,
    shown_apart, silent, speaking, speaks, unplaced, visible,
};
use crate::todo::state::{state_of, valid, TodoStateView};
use crate::todo::write::{
    annotation, body_text, bottom_up, document_text, empty_text, heading, initial_state, label_from,
    listed_names, names_at, notice, pick_text, picks_text, ref_line_text, section_text,
    sections_text, shown_before, title_text, widest, AnchorView, Label, HELP,
};
use crate::todo::TodoError;

verus! {

proof fn read_first(
    progress: ProgressView,
    a: Seq<Seq<u8>>,
    b: Seq<Seq<u8>>,
    width: nat,
    end: int,
    state: TodoStateView,
    lookups: LookupsView,
)
    requires
        0 <= end <= a.len(),
    ensures
        read_up(progress, a + b, width, end, state, lookups) == read_up(
            progress,
            a,
            width,
            end,
            state,
            lookups,
        ),
    decreases end,
{
    if end > 0 {
        read_first(progress, a, b, width, end - 1, state, lookups);
        assert((a + b)[end - 1] == a[end - 1]);
    }
}

pub(crate) proof fn read_in_turn(
    progress: ProgressView,
    a: Seq<Seq<u8>>,
    b: Seq<Seq<u8>>,
    width: nat,
    end: int,
    state: TodoStateView,
    lookups: LookupsView,
)
    requires
        0 <= end <= b.len(),
    ensures
        read_up(progress, a + b, width, a.len() + end, state, lookups) == (match read_up(
            progress,
            a,
            width,
            a.len() as int,
            state,
            lookups,
        ) {
            Err(err) => Err(err),
            Ok(next) => read_up(next, b, width, end, state, lookups),
        }),
    decreases end,
{
    if end > 0 {
        read_in_turn(progress, a, b, width, end - 1, state, lookups);
        assert((a + b)[a.len() + end - 1] == b[end - 1]);
    } else {
        read_first(progress, a, b, width, a.len() as int, state, lookups);
    }
}

pub(crate) proof fn both_speak(a: Seq<Seq<u8>>, b: Seq<Seq<u8>>, width: nat)
    requires
        speaking(a, width),
        speaking(b, width),
    ensures
        speaking(a + b, width),
{
    let all = a + b;
    assert forall|i: int| 0 <= i < all.len() implies all[i] == (if i < a.len() {
        a[i]
    } else {
        b[i - a.len()]
    }) by {}
}

pub(crate) proof fn ends_join(a: Seq<u8>, b: Seq<u8>)
    requires
        ends_line(a),
        ends_line(b),
    ensures
        ends_line(a + b),
{
    if b.len() > 0 {
        assert((a + b).last() == b.last());
    } else {
        assert(a + b == a);
    }
}

/// Whether all references that can be edited are read back as they are shown.
pub open spec fn readable_refs(refs: Seq<ExpectedRef<Seq<u8>>>) -> bool {
    &&& shown_apart(refs)
    &&& forall|i: int|
        0 <= i < refs.len() && (#[trigger] refs[i]).editable ==> readable(
            display_name(refs[i].name, refs),
        )
}

/// The reference line of a commit, if there is one.
pub open spec fn ref_lines(refs: Seq<ExpectedRef<Seq<u8>>>, id: ObjectId) -> Seq<Seq<u8>> {
    if names_of(refs, id).len() == 0 {
        Seq::empty()
    } else {
        seq![ref_text(names_of(refs, id), refs)]
    }
}

pub(crate) proof fn listed_is_printable(names: Seq<Seq<u8>>, refs: Seq<ExpectedRef<Seq<u8>>>, end: int)
    requires
        0 <= end <= names.len(),
    ensures
        forall|i: int|
            0 <= i < listed_names(names, refs, end).len() ==> 32 <= #[trigger] listed_names(
                names,
                refs,
                end,
            )[i] <= 126,
    decreases end,
{
    broadcast use vstd::string::is_ascii_spec_bytes;

    reveal_strlit(", ");
    assert(vstd::string::is_ascii(", "));
    assert(", ".spec_bytes() =~= seq![44u8, 32]);
    if end > 0 {
        listed_is_printable(names, refs, end - 1);
        let shown = quoted(display_name(names[end - 1], refs));
        quoted_is_printable(display_name(names[end - 1], refs));
        let part = listed_names(names, refs, end - 1);
        let gap = if end > 1 {
            seq![44u8, 32]
        } else {
            Seq::empty()
        };
        let all = listed_names(names, refs, end);
        assert(all == part + gap + shown);
        assert forall|i: int| 0 <= i < all.len() implies 32 <= #[trigger] all[i] <= 126 by {
            if i < part.len() {
                assert(all[i] == part[i]);
            } else if i < part.len() + gap.len() {
                assert(all[i] == gap[i - part.len()]);
            } else {
                assert(all[i] == shown[i - part.len() - gap.len()]);
            }
        }
    }
}

proof fn readable_at(refs: Seq<ExpectedRef<Seq<u8>>>, id: ObjectId)
    requires
        readable_refs(refs),
    ensures
        readable_names(names_of(refs, id), refs),
{
    names_are_editable(refs, id);
    let names = names_of(refs, id);
    assert forall|i: int| 0 <= i < names.len() implies readable(
        display_name(#[trigger] names[i], refs),
    ) by {
        assert(editable_at(refs, names[i], id));
    }
}

proof fn ref_lines_are_lines(refs: Seq<ExpectedRef<Seq<u8>>>, id: ObjectId, width: nat)
    requires
        readable_refs(refs),
    ensures
        ({
            let text = ref_line_text(names_at(refs, id, refs.len() as int), refs);
            &&& ends_line(text)
            &&& lines(text) == ref_lines(refs, id)
            &&& speaking(ref_lines(refs, id), width)
        }),
{
    broadcast use vstd::string::is_ascii_spec_bytes;

    reveal_strlit("(");
    assert(vstd::string::is_ascii("("));
    assert("(".spec_bytes() =~= seq![40u8]);
    reveal_strlit(")\n");
    assert(vstd::string::is_ascii(")\n"));
    assert(")\n".spec_bytes() =~= seq![41u8, LF]);
    let names = names_of(refs, id);
    let text = ref_line_text(names_at(refs, id, refs.len() as int), refs);
    if names.len() > 0 {
        readable_at(refs, id);
        ref_lines_are_read(names, refs);
        listed_is_printable(names, refs, names.len() as int);
        let line = ref_text(names, refs);
        let body = listed_names(names, refs, names.len() as int);
        assert forall|i: int| 0 <= i < line.len() implies line[i] != LF by {
            if 0 < i < line.len() - 1 {
                assert(line[i] == body[i - 1]);
            }
        }
        assert(line.last() == 41);
        line_then(line, Seq::empty());
        assert(text == line + (seq![LF] + Seq::<u8>::empty()));
        assert(lines(text) == seq![line] + lines(Seq::<u8>::empty()));
        assert(railed(line, width) == line);
    }
}

proof fn refs_are_read(
    progress: ProgressView,
    id: ObjectId,
    target: PlanParent,
    width: nat,
    state: TodoStateView,
    lookups: LookupsView,
)
    requires
        readable_refs(progress.refs),
        progress.cursor == Some(target),
        forall|i: int|
            0 <= i < names_of(progress.refs, id).len() ==> unplaced(
                progress.placed,
                #[trigger] names_of(progress.refs, id)[i],
            ),
    ensures
        read_up(
            progress,
            ref_lines(progress.refs, id),
            width,
            ref_lines(progress.refs, id).len() as int,
            state,
            lookups,
        ) == Ok::<_, TodoError>(
            ProgressView {
                placed: progress.placed + placed_at(names_of(progress.refs, id), target),
                fork_filled: progress.fork_filled || names_of(progress.refs, id).len() > 0,
                ..progress
            },
        ),
{
    let refs = progress.refs;
    let names = names_of(refs, id);
    let all = ref_lines(refs, id);
    names_are_editable(refs, id);
    reveal_with_fuel(read_up, 2);
    if names.len() == 0 {
        assert(progress.placed + placed_at(names, target) == progress.placed);
    } else {
        readable_at(refs, id);
        ref_lines_are_read(names, refs);
        let line = ref_text(names, refs);
        assert(railed(all[0], width) == line);
        let allowed = state.checkout_allowed && lookups.has_worktree;
        assert forall|i: int| 0 <= i < names.len() implies can_edit(refs, #[trigger] names[i]) by {
            assert(editable_at(refs, names[i], id));
        }
        names_are_placed(progress, names, 0, target, allowed, lookups);
        assert(names.skip(0) == names);
    }
}

/// Whether a commit is shown so that what is shown names it.
pub open spec fn labelled(
    labels: Seq<Label<Seq<u8>>>,
    lookups: LookupsView,
    id: ObjectId,
) -> bool {
    let label = label_from(labels, id, 0);
    &&& named_commit(lookups.commits, label.short) == Ok::<_, TodoError>(id)
    &&& fits_line(label.states + label.info)
}

/// The line that picks a commit, without what ends it.
pub open spec fn pick_line(
    labels: Seq<Label<Seq<u8>>>,
    id: ObjectId,
    marked: bool,
) -> Seq<u8> {
    let label = label_from(labels, id, 0);
    "`".spec_bytes() + (if marked {
        "@pick".spec_bytes()
    } else {
        "pick".spec_bytes()
    }) + seq![32u8] + label.short + "` ".spec_bytes() + (label.states + label.info)
}

/// The lines of a commit: the one that picks it, and its reference line.
pub open spec fn commit_lines(
    labels: Seq<Label<Seq<u8>>>,
    refs: Seq<ExpectedRef<Seq<u8>>>,
    id: ObjectId,
    marked: bool,
) -> Seq<Seq<u8>> {
    seq![pick_line(labels, id, marked)] + ref_lines(refs, id)
}

pub(crate) proof fn prefixes_are_visible(text: Seq<u8>)
    requires
        id_prefix(text),
    ensures
        visible(text),
        forall|i: int| 0 <= i < text.len() ==> text[i] != 96,
{
    assert forall|i: int| 0 <= i < text.len() implies 33 <= #[trigger] text[i] <= 126 && text[i]
        != 96 by {
        assert(hex_digit(text[i]) is Some);
    }
}

proof fn verbs_are_visible()
    ensures
        "pick".spec_bytes() == seq![112u8, 105, 99, 107],
        "@pick".spec_bytes() == seq![64u8, 112, 105, 99, 107],
        "@pick".spec_bytes().skip(1) == "pick".spec_bytes(),
        "squash".spec_bytes() != "pick".spec_bytes(),
{
    broadcast use vstd::string::is_ascii_spec_bytes;

    reveal_strlit("pick");
    assert(vstd::string::is_ascii("pick"));
    assert("pick".spec_bytes() =~= seq![112u8, 105, 99, 107]);
    reveal_strlit("@pick");
    assert(vstd::string::is_ascii("@pick"));
    assert("@pick".spec_bytes() =~= seq![64u8, 112, 105, 99, 107]);
    assert("@pick".spec_bytes().skip(1) =~= "pick".spec_bytes());
    reveal_strlit("squash");
    assert(vstd::string::is_ascii("squash"));
    assert("squash".spec_bytes().len() == 6);
}

pub(crate) proof fn backticks_are_bytes()
    ensures
        "`".spec_bytes() == seq![96u8],
        "` ".spec_bytes() == seq![96u8, 32],
        "`\n".spec_bytes() == seq![96u8, LF],
{
    broadcast use vstd::string::is_ascii_spec_bytes;

    reveal_strlit("`");
    assert(vstd::string::is_ascii("`"));
    assert("`".spec_bytes() =~= seq![96u8]);
    reveal_strlit("` ");
    assert(vstd::string::is_ascii("` "));
    assert("` ".spec_bytes() =~= seq![96u8, 32]);
    reveal_strlit("`\n");
    assert(vstd::string::is_ascii("`\n"));
    assert("`\n".spec_bytes() =~= seq![96u8, LF]);
}

proof fn pick_lines_are_read(
    labels: Seq<Label<Seq<u8>>>,
    lookups: LookupsView,
    id: ObjectId,
    marked: bool,
)
    requires
        labelled(labels, lookups, id),
    ensures
        ({
            let line = pick_line(labels, id, marked);
            let text = trimmed(line);
            &&& fits_line(line)
            &&& speaks(line)
            &&& !has_prefix(line, "fork ".spec_bytes())
            &&& text.len() > 0
            &&& !is_separator(text)
            &&& !is_ref_line(text)
            &&& command(text) matches Ok(command) && command.marked == marked && command.verb
                == "pick".spec_bytes() && word(command.value) == Some(
                label_from(labels, id, 0).short,
            )
        }),
{
    let label = label_from(labels, id, 0);
    verbs_are_visible();
    prefixes_are_visible(label.short);
    let verb = if marked {
        "@pick".spec_bytes()
    } else {
        "pick".spec_bytes()
    };
    assert(verb[0] == 64 || verb[0] == 112);
    assert(visible(verb));
    backticks_are_bytes();
    let context = label.states + label.info;
    commands_are_read(verb, label.short, seq![32u8] + context);
    assert(pick_line(labels, id, marked) == "`".spec_bytes() + verb + seq![32u8] + label.short
        + "`".spec_bytes() + (seq![32u8] + context));
    first_words(label.short, Seq::empty());
    assert(label.short + Seq::<u8>::empty() == label.short);
}

/// What is read once the lines of a commit are.
pub open spec fn with_commit(progress: ProgressView, id: ObjectId, marked: bool) -> ProgressView {
    let at = PlanParent::Step(progress.steps.len() as usize);
    ProgressView {
        steps: progress.steps.push(
            PlanStep {
                parent: progress.cursor->0,
                commit: PlanCommit::Pick(id),
                squash: Seq::empty(),
            },
        ),
        cursor: Some(at),
        checkout: if marked {
            Some(at)
        } else {
            progress.checkout
        },
        marked: progress.marked || marked,
        placed: progress.placed + placed_at(names_of(progress.refs, id), at),
        fork_filled: true,
        fork_step: Some(progress.steps.len() as usize),
        ..progress
    }
}

proof fn commits_are_read(
    progress: ProgressView,
    labels: Seq<Label<Seq<u8>>>,
    id: ObjectId,
    marked: bool,
    width: nat,
    state: TodoStateView,
    lookups: LookupsView,
)
    requires
        labelled(labels, lookups, id),
        readable_refs(progress.refs),
        progress.cursor is Some,
        state.scope.contains(id),
        state.resolved is None,
        position(progress.steps, id, progress.steps.len() as int) is None,
        marked ==> !progress.marked && progress.checkout is None && state.checkout_allowed
            && lookups.has_worktree,
        forall|i: int|
            0 <= i < names_of(progress.refs, id).len() ==> unplaced(
                progress.placed,
                #[trigger] names_of(progress.refs, id)[i],
            ),
    ensures
        read_up(
            progress,
            commit_lines(labels, progress.refs, id, marked),
            width,
            commit_lines(labels, progress.refs, id, marked).len() as int,
            state,
            lookups,
        ) == Ok::<_, TodoError>(with_commit(progress, id, marked)),
{
    let refs = progress.refs;
    let line = pick_line(labels, id, marked);
    let first = seq![line];
    let rest = ref_lines(refs, id);
    let at = PlanParent::Step(progress.steps.len() as usize);
    pick_lines_are_read(labels, lookups, id, marked);
    verbs_are_visible();
    read_in_turn(progress, first, rest, width, rest.len() as int, state, lookups);
    reveal_with_fuel(read_up, 2);
    assert(railed(first[0], width) == line);
    let next = ProgressView { placed: progress.placed, ..with_commit(progress, id, marked) };
    assert(after_line(progress, trimmed(line), state, lookups) == Ok::<_, TodoError>(next));
    assert(read_up(progress, first, width, 1, state, lookups) == Ok::<_, TodoError>(next));
    refs_are_read(next, id, at, width, state, lookups);
}

proof fn commit_lines_are_lines(
    labels: Seq<Label<Seq<u8>>>,
    refs: Seq<ExpectedRef<Seq<u8>>>,
    lookups: LookupsView,
    id: ObjectId,
    marked: bool,
    width: nat,
)
    requires
        labelled(labels, lookups, id),
        readable_refs(refs),
    ensures
        ends_line(pick_text(labels, refs, id, marked)),
        lines(pick_text(labels, refs, id, marked)) == commit_lines(labels, refs, id, marked),
        speaking(commit_lines(labels, refs, id, marked), width),
{
    let line = pick_line(labels, id, marked);
    let below = ref_line_text(names_at(refs, id, refs.len() as int), refs);
    pick_lines_are_read(labels, lookups, id, marked);
    ref_lines_are_lines(refs, id, width);
    line_then(line, below);
    let first = line + seq![LF];
    assert(pick_text(labels, refs, id, marked) == first + below);
    assert(first + below == line + (seq![LF] + below));
    ends_join(first, below);
    assert(railed(line, width) == line);
    assert(speaking(seq![line], width));
    both_speak(seq![line], ref_lines(refs, id), width);
}

/// Whether steps pick the given commits, one each.
pub open spec fn picks(steps: Seq<StepView>, ids: Seq<ObjectId>) -> bool {
    &&& steps.len() == ids.len()
    &&& forall|i: int|
        0 <= i < steps.len() ==> (#[trigger] steps[i]).commit == PlanCommit::<Seq<u8>>::Pick(ids[i])
            && steps[i].squash == Seq::<ObjectId>::empty()
}

proof fn picks_are_found(steps: Seq<StepView>, ids: Seq<ObjectId>, id: ObjectId)
    requires
        picks(steps, ids),
        ids.no_duplicates(),
        ids.len() <= usize::MAX,
    ensures
        position(steps, id, steps.len() as int) == (if ids.contains(id) {
            Some(ids.index_of(id) as usize)
        } else {
            None
        }),
{
    position_bounds(steps, id, steps.len() as int);
    assert forall|i: int| 0 <= i < steps.len() implies holds(#[trigger] steps[i], id) == (ids[i]
        == id) by {
        assert(steps[i].commit == PlanCommit::<Seq<u8>>::Pick(ids[i]));
        assert(!steps[i].squash.contains(id));
    }
    if ids.contains(id) {
        let at = ids.index_of(id);
        assert(holds(steps[at], id));
    }
}

/// The step that picks the commit to check out.
pub open spec fn chosen(ids: Seq<ObjectId>, marker: Option<ObjectId>) -> Option<PlanParent> {
    match marker {
        Some(id) => if ids.contains(id) {
            Some(PlanParent::Step(ids.index_of(id) as usize))
        } else {
            None
        },
        None => None,
    }
}

proof fn chosen_grows(ids: Seq<ObjectId>, marker: Option<ObjectId>, id: ObjectId)
    requires
        ids.no_duplicates(),
        !ids.contains(id),
    ensures
        chosen(ids.push(id), marker) == (if marker == Some(id) {
            Some(PlanParent::Step(ids.len() as usize))
        } else {
            chosen(ids, marker)
        }),
{
    let all = ids.push(id);
    assert(all[ids.len() as int] == id);
    assert forall|i: int, j: int| 0 <= i < all.len() && 0 <= j < all.len() && i != j implies all[i]
        != all[j] by {
        if i < ids.len() {
            assert(ids.contains(ids[i]));
        }
        if j < ids.len() {
            assert(ids.contains(ids[j]));
        }
    }
    if let Some(m) = marker {
        if ids.contains(m) {
            let at = ids.index_of(m);
            assert(all[at] == m);
            assert(all.contains(m));
            assert(all.index_of(m) == at);
        } else if all.contains(m) {
            let at = all.index_of(m);
            if at < ids.len() {
                assert(ids[at] == m);
            }
        }
    }
}

/// The commits that references were listed at so far, and where those commits ended up.
pub open spec fn placements(
    refs: Seq<ExpectedRef<Seq<u8>>>,
    visited: Seq<(ObjectId, PlanParent)>,
) -> Seq<Placed<Seq<u8>>>
    decreases visited.len(),
{
    if visited.len() == 0 {
        Seq::empty()
    } else {
        placements(refs, visited.drop_last()) + placed_at(
            names_of(refs, visited.last().0),
            visited.last().1,
        )
    }
}

/// Whether references were not listed at a commit.
pub open spec fn unvisited(visited: Seq<(ObjectId, PlanParent)>, id: ObjectId) -> bool {
    forall|i: int| 0 <= i < visited.len() ==> (#[trigger] visited[i]).0 != id
}

proof fn places_differ(
    refs: Seq<ExpectedRef<Seq<u8>>>,
    name: Seq<u8>,
    one: ObjectId,
    other: ObjectId,
)
    requires
        shown_apart(refs),
        editable_at(refs, name, one),
        editable_at(refs, name, other),
    ensures
        one == other,
{
    let i = choose|i: int|
        0 <= i < refs.len() && (#[trigger] refs[i]).editable && refs[i].name == name
            && refs[i].target == one;
    let j = choose|j: int|
        0 <= j < refs.len() && (#[trigger] refs[j]).editable && refs[j].name == name
            && refs[j].target == other;
    if i < j {
        assert(display_name(refs[i].name, refs) != display_name(refs[j].name, refs));
    } else if j < i {
        assert(display_name(refs[j].name, refs) != display_name(refs[i].name, refs));
    }
}

proof fn unvisited_is_unplaced(
    refs: Seq<ExpectedRef<Seq<u8>>>,
    visited: Seq<(ObjectId, PlanParent)>,
    id: ObjectId,
    name: Seq<u8>,
)
    requires
        shown_apart(refs),
        unvisited(visited, id),
        editable_at(refs, name, id),
    ensures
        unplaced(placements(refs, visited), name),
    decreases visited.len(),
{
    if visited.len() > 0 {
        let less = visited.drop_last();
        let (last, target) = visited.last();
        assert(visited[visited.len() - 1].0 != id);
        assert(unvisited(less, id)) by {
            assert forall|i: int| 0 <= i < less.len() implies (#[trigger] less[i]).0 != id by {
                assert(visited[i].0 != id);
            }
        }
        unvisited_is_unplaced(refs, less, id, name);
        names_are_editable(refs, last);
        let before = placements(refs, less);
        let more = placed_at(names_of(refs, last), target);
        let all = placements(refs, visited);
        assert(all == before + more);
        assert forall|i: int| 0 <= i < all.len() implies (#[trigger] all[i]).name != name by {
            if i < before.len() {
                assert(all[i] == before[i]);
            } else {
                let at = names_of(refs, last)[i - before.len()];
                assert(all[i].name == at);
                assert(editable_at(refs, at, last));
                if at == name {
                    places_differ(refs, name, id, last);
                }
            }
        }
    }
}

proof fn unvisited_are_unplaced(
    refs: Seq<ExpectedRef<Seq<u8>>>,
    visited: Seq<(ObjectId, PlanParent)>,
    id: ObjectId,
)
    requires
        shown_apart(refs),
        unvisited(visited, id),
    ensures
        forall|i: int|
            0 <= i < names_of(refs, id).len() ==> unplaced(
                placements(refs, visited),
                #[trigger] names_of(refs, id)[i],
            ),
{
    names_are_editable(refs, id);
    let names = names_of(refs, id);
    assert forall|i: int| 0 <= i < names.len() implies unplaced(
        placements(refs, visited),
        #[trigger] names[i],
    ) by {
        assert(editable_at(refs, names[i], id));
        unvisited_is_unplaced(refs, visited, id, names[i]);
    }
}

/// Whether reading has come to the given steps, with references listed at the given commits.
#[verifier::opaque]
pub open spec fn reached(
    progress: ProgressView,
    refs: Seq<ExpectedRef<Seq<u8>>>,
    ids: Seq<ObjectId>,
    steps: Seq<StepView>,
    visited: Seq<(ObjectId, PlanParent)>,
    marker: Option<ObjectId>,
    forks: int,
) -> bool {
    &&& progress.steps == steps
    &&& picks(steps, ids)
    &&& progress.placed == placements(refs, visited)
    &&& progress.refs == refs
    &&& progress.attach is None
    &&& progress.forks == forks
    &&& progress.checkout == chosen(ids, marker)
    &&& progress.marked == (progress.checkout is Some)
}

/// The steps that pick the commits of a fork: each on top of the one before it.
pub open spec fn stack_steps(before: nat, base: PlanParent, commits: Seq<ObjectId>) -> Seq<
    StepView,
> {
    Seq::new(
        commits.len(),
        |i: int|
            PlanStep {
                parent: if i == 0 {
                    base
                } else {
                    PlanParent::Step((before + i - 1) as usize)
                },
                commit: PlanCommit::Pick(commits[i]),
                squash: Seq::empty(),
            },
    )
}

/// Where the commits of a fork end up.
pub open spec fn stack_visits(before: nat, commits: Seq<ObjectId>) -> Seq<(ObjectId, PlanParent)> {
    Seq::new(commits.len(), |i: int| (commits[i], PlanParent::Step((before + i) as usize)))
}

/// The lines of the first `end` commits of a fork.
pub open spec fn stack_lines(
    labels: Seq<Label<Seq<u8>>>,
    refs: Seq<ExpectedRef<Seq<u8>>>,
    commits: Seq<ObjectId>,
    marker: Option<ObjectId>,
    end: int,
) -> Seq<Seq<u8>>
    decreases end,
{
    if end <= 0 || end > commits.len() {
        Seq::empty()
    } else {
        stack_lines(labels, refs, commits, marker, end - 1) + commit_lines(
            labels,
            refs,
            commits[end - 1],
            marker == Some(commits[end - 1]),
        )
    }
}

#[verifier::spinoff_prover]
#[verifier::rlimit(40)]
proof fn stack_grows(
    before: ProgressView,
    labels: Seq<Label<Seq<u8>>>,
    refs: Seq<ExpectedRef<Seq<u8>>>,
    known: Seq<ObjectId>,
    places: Seq<(ObjectId, PlanParent)>,
    id: ObjectId,
    marker: Option<ObjectId>,
    width: nat,
    state: TodoStateView,
    lookups: LookupsView,
) -> (next: ProgressView)
    requires
        reached(before, refs, known, before.steps, places, marker, before.forks),
        before.cursor is Some,
        readable_refs(refs),
        state.resolved is None,
        marker is Some ==> state.checkout_allowed && lookups.has_worktree,
        known.no_duplicates(),
        !known.contains(id),
        known.len() < usize::MAX,
        state.scope.contains(id),
        labelled(labels, lookups, id),
        unvisited(places, id),
    ensures
        read_up(
            before,
            commit_lines(labels, refs, id, marker == Some(id)),
            width,
            commit_lines(labels, refs, id, marker == Some(id)).len() as int,
            state,
            lookups,
        ) == Ok::<_, TodoError>(next),
        reached(
            next,
            refs,
            known.push(id),
            before.steps.push(
                PlanStep {
                    parent: before.cursor->0,
                    commit: PlanCommit::Pick(id),
                    squash: Seq::empty(),
                },
            ),
            places.push((id, PlanParent::Step(known.len() as usize))),
            marker,
            before.forks,
        ),
        next.cursor == Some(PlanParent::Step(known.len() as usize)),
        next.fork_filled,
{
    reveal(reached);
    let marked = marker == Some(id);
    let visit = (id, PlanParent::Step(known.len() as usize));
    picks_are_found(before.steps, known, id);
    unvisited_are_unplaced(refs, places, id);
    chosen_grows(known, marker, id);
    commits_are_read(before, labels, id, marked, width, state, lookups);
    let next = with_commit(before, id, marked);
    assert(places.push(visit).drop_last() == places);
    assert(next.placed == placements(refs, places.push(visit)));
    let all = known.push(id);
    assert forall|i: int| 0 <= i < next.steps.len() implies (#[trigger] next.steps[i]).commit
        == PlanCommit::<Seq<u8>>::Pick(all[i]) && next.steps[i].squash == Seq::<
        ObjectId,
    >::empty() by {
        if i < known.len() {
            assert(next.steps[i] == before.steps[i]);
        }
    }
    next
}

/// Whether the commits of a fork can be picked on top of those picked so far.
#[verifier::opaque]
pub open spec fn stackable(
    labels: Seq<Label<Seq<u8>>>,
    ids: Seq<ObjectId>,
    visited: Seq<(ObjectId, PlanParent)>,
    commits: Seq<ObjectId>,
    state: TodoStateView,
    lookups: LookupsView,
) -> bool {
    &&& (ids + commits).no_duplicates()
    &&& ids.len() + commits.len() <= usize::MAX
    &&& forall|i: int|
        0 <= i < commits.len() ==> state.scope.contains(#[trigger] commits[i]) && labelled(
            labels,
            lookups,
            commits[i],
        ) && unvisited(visited, commits[i])
}

proof fn stack_parts(
    labels: Seq<Label<Seq<u8>>>,
    ids: Seq<ObjectId>,
    visited: Seq<(ObjectId, PlanParent)>,
    base: PlanParent,
    commits: Seq<ObjectId>,
    end: int,
    state: TodoStateView,
    lookups: LookupsView,
)
    requires
        0 < end <= commits.len(),
        stackable(labels, ids, visited, commits, state, lookups),
    ensures
        ({
            let id = commits[end - 1];
            let steps = stack_steps(ids.len(), base, commits);
            let visits = stack_visits(ids.len(), commits);
            let known = ids + commits.take(end - 1);
            let places = visited + visits.take(end - 1);
            &&& known.no_duplicates()
            &&& !known.contains(id)
            &&& known.len() == ids.len() + end - 1
            &&& known.len() < usize::MAX
            &&& state.scope.contains(id)
            &&& labelled(labels, lookups, id)
            &&& ids + commits.take(end) == known.push(id)
            &&& steps.take(end) == steps.take(end - 1).push(steps[end - 1])
            &&& visited + visits.take(end) == places.push(
                (id, PlanParent::Step(known.len() as usize)),
            )
            &&& unvisited(places, id)
        }),
{
    reveal(stackable);
    let id = commits[end - 1];
    let steps = stack_steps(ids.len(), base, commits);
    let visits = stack_visits(ids.len(), commits);
    let known = ids + commits.take(end - 1);
    let places = visited + visits.take(end - 1);
    let all = ids + commits;
    assert(known == all.take(ids.len() + end - 1));
    assert(all[ids.len() + end - 1] == id);
    assert forall|i: int, j: int|
        0 <= i < known.len() && 0 <= j < known.len() && i != j implies known[i] != known[j] by {
        assert(known[i] == all[i] && known[j] == all[j]);
    }
    if known.contains(id) {
        let at = known.index_of(id);
        assert(all[at] == id);
    }
    assert(ids + commits.take(end) == known.push(id));
    assert(steps.take(end) == steps.take(end - 1).push(steps[end - 1]));
    assert(visited + visits.take(end) == places.push(visits[end - 1]));
    assert forall|i: int| 0 <= i < places.len() implies (#[trigger] places[i]).0 != id by {
        if i < visited.len() {
            assert(unvisited(visited, id));
            assert(places[i] == visited[i]);
        } else {
            let at = i - visited.len();
            assert(places[i].0 == commits[at]);
            assert(all[ids.len() + at] == commits[at]);
        }
    }
}

#[verifier::spinoff_prover]
#[verifier::rlimit(40)]
proof fn stacks_are_read(
    progress: ProgressView,
    labels: Seq<Label<Seq<u8>>>,
    refs: Seq<ExpectedRef<Seq<u8>>>,
    ids: Seq<ObjectId>,
    visited: Seq<(ObjectId, PlanParent)>,
    base: PlanParent,
    commits: Seq<ObjectId>,
    marker: Option<ObjectId>,
    end: int,
    width: nat,
    state: TodoStateView,
    lookups: LookupsView,
) -> (next: ProgressView)
    requires
        0 <= end <= commits.len(),
        reached(progress, refs, ids, progress.steps, visited, marker, progress.forks),
        progress.cursor == Some(base),
        readable_refs(refs),
        state.resolved is None,
        marker is Some ==> state.checkout_allowed && lookups.has_worktree,
        stackable(labels, ids, visited, commits, state, lookups),
    ensures
        read_up(
            progress,
            stack_lines(labels, refs, commits, marker, end),
            width,
            stack_lines(labels, refs, commits, marker, end).len() as int,
            state,
            lookups,
        ) == Ok::<_, TodoError>(next),
        reached(
            next,
            refs,
            ids + commits.take(end),
            progress.steps + stack_steps(ids.len(), base, commits).take(end),
            visited + stack_visits(ids.len(), commits).take(end),
            marker,
            progress.forks,
        ),
        next.cursor == Some(
            if end == 0 {
                base
            } else {
                PlanParent::Step((ids.len() + end - 1) as usize)
            },
        ),
        end > 0 ==> next.fork_filled,
    decreases end,
{
    let steps = stack_steps(ids.len(), base, commits);
    let visits = stack_visits(ids.len(), commits);
    if end == 0 {
        assert(ids + commits.take(0) == ids);
        assert(progress.steps + steps.take(0) == progress.steps);
        assert(visited + visits.take(0) == visited);
        progress
    } else {
        let before = stacks_are_read(
            progress,
            labels,
            refs,
            ids,
            visited,
            base,
            commits,
            marker,
            end - 1,
            width,
            state,
            lookups,
        );
        let id = commits[end - 1];
        let marked = marker == Some(id);
        let known = ids + commits.take(end - 1);
        let places = visited + visits.take(end - 1);
        stack_parts(labels, ids, visited, base, commits, end, state, lookups);
        assert(before.steps == progress.steps + steps.take(end - 1) && before.forks
            == progress.forks) by {
            reveal(reached);
        }
        let next = stack_grows(
            before,
            labels,
            refs,
            known,
            places,
            id,
            marker,
            width,
            state,
            lookups,
        );
        let a = stack_lines(labels, refs, commits, marker, end - 1);
        let b = commit_lines(labels, refs, id, marked);
        read_in_turn(progress, a, b, width, b.len() as int, state, lookups);
        assert((progress.steps + steps.take(end - 1)).push(steps[end - 1]) == progress.steps
            + steps.take(end));
        next
    }
}

/// The commits of the first `end` forks, in the order in which they are read.
pub open spec fn picked(sections: Seq<Section<Seq<ObjectId>>>, end: int) -> Seq<ObjectId>
    decreases end,
{
    if end <= 0 || end > sections.len() {
        Seq::empty()
    } else {
        picked(sections, end - 1) + sections[end - 1].commits
    }
}

/// Where a commit is once the given commits are picked: at the step that picks it, or where it was.
pub open spec fn landed(ids: Seq<ObjectId>, id: ObjectId) -> PlanParent {
    if ids.contains(id) {
        PlanParent::Step(ids.index_of(id) as usize)
    } else {
        PlanParent::Existing(id)
    }
}

/// The steps that pick the commits of the first `end` forks.
pub open spec fn replay(sections: Seq<Section<Seq<ObjectId>>>, end: int) -> Seq<StepView>
    decreases end,
{
    if end <= 0 || end > sections.len() {
        Seq::empty()
    } else {
        let ids = picked(sections, end - 1);
        replay(sections, end - 1) + stack_steps(
            ids.len(),
            landed(ids, sections[end - 1].parent),
            sections[end - 1].commits,
        )
    }
}

/// Whether references are listed at the parent of a fork: it is not picked, and no fork before has it.
pub open spec fn shown_first(
    sections: Seq<Section<Seq<ObjectId>>>,
    scope: Seq<ObjectId>,
    index: int,
) -> bool {
    !scope.contains(sections[index].parent) && !shown_before(
        sections,
        sections[index].parent,
        index,
    )
}

/// The parent of a fork, if references are listed at it.
pub open spec fn parent_visit(
    sections: Seq<Section<Seq<ObjectId>>>,
    scope: Seq<ObjectId>,
    index: int,
) -> Seq<(ObjectId, PlanParent)> {
    if shown_first(sections, scope, index) {
        seq![(sections[index].parent, PlanParent::Existing(sections[index].parent))]
    } else {
        Seq::empty()
    }
}

/// Where references are listed in the first `end` forks.
pub open spec fn visits(
    sections: Seq<Section<Seq<ObjectId>>>,
    scope: Seq<ObjectId>,
    end: int,
) -> Seq<(ObjectId, PlanParent)>
    decreases end,
{
    if end <= 0 || end > sections.len() {
        Seq::empty()
    } else {
        visits(sections, scope, end - 1) + parent_visit(sections, scope, end - 1) + stack_visits(
            picked(sections, end - 1).len(),
            sections[end - 1].commits,
        )
    }
}

/// Whether the forks of a todo can be picked in their order: each holds a commit, no commit is in two
/// places, all are commits of the todo, and a parent that is one too is picked before.
pub open spec fn in_order(sections: Seq<Section<Seq<ObjectId>>>, scope: Seq<ObjectId>) -> bool {
    let ids = picked(sections, sections.len() as int);
    &&& ids.no_duplicates()
    &&& ids.len() <= usize::MAX
    &&& forall|i: int| 0 <= i < ids.len() ==> scope.contains(#[trigger] ids[i])
    &&& forall|i: int|
        0 <= i < sections.len() ==> (#[trigger] sections[i]).commits.len() > 0 && (scope.contains(
            sections[i].parent,
        ) ==> picked(sections, i).contains(sections[i].parent))
}

proof fn picked_is_prefix(sections: Seq<Section<Seq<ObjectId>>>, at: int, end: int)
    requires
        0 <= at <= end <= sections.len(),
    ensures
        picked(sections, at).len() <= picked(sections, end).len(),
        picked(sections, end).take(picked(sections, at).len() as int) == picked(sections, at),
    decreases end - at,
{
    let part = picked(sections, at);
    let all = picked(sections, end);
    if at < end {
        picked_is_prefix(sections, at, end - 1);
        let less = picked(sections, end - 1);
        assert(all.take(part.len() as int) == less.take(part.len() as int));
    } else {
        assert(all.take(part.len() as int) == part);
    }
}

proof fn picked_in_order(
    sections: Seq<Section<Seq<ObjectId>>>,
    scope: Seq<ObjectId>,
    end: int,
)
    requires
        in_order(sections, scope),
        0 <= end <= sections.len(),
    ensures
        picked(sections, end).no_duplicates(),
        picked(sections, end).len() <= usize::MAX,
        forall|i: int|
            0 <= i < picked(sections, end).len() ==> scope.contains(
                #[trigger] picked(sections, end)[i],
            ),
{
    let n = sections.len() as int;
    let all = picked(sections, n);
    let ids = picked(sections, end);
    picked_is_prefix(sections, end, n);
    assert forall|i: int| 0 <= i < ids.len() implies ids[i] == all[i] by {
        assert(all.take(ids.len() as int)[i] == all[i]);
    }
}

proof fn visits_are_known(
    sections: Seq<Section<Seq<ObjectId>>>,
    scope: Seq<ObjectId>,
    end: int,
)
    requires
        0 <= end <= sections.len(),
    ensures
        forall|i: int|
            0 <= i < visits(sections, scope, end).len() ==> {
                let id = (#[trigger] visits(sections, scope, end)[i]).0;
                picked(sections, end).contains(id) || !scope.contains(id) && shown_before(
                    sections,
                    id,
                    end,
                )
            },
    decreases end,
{
    if end > 0 {
        visits_are_known(sections, scope, end - 1);
        let before = visits(sections, scope, end - 1);
        let parent = parent_visit(sections, scope, end - 1);
        let commits = sections[end - 1].commits;
        let ids = picked(sections, end - 1);
        let all = visits(sections, scope, end);
        assert forall|i: int| 0 <= i < all.len() implies ({
            let id = (#[trigger] all[i]).0;
            picked(sections, end).contains(id) || !scope.contains(id) && shown_before(
                sections,
                id,
                end,
            )
        }) by {
            let id = all[i].0;
            if i < before.len() {
                assert(all[i] == before[i]);
                if ids.contains(id) {
                    let at = ids.index_of(id);
                    assert(picked(sections, end)[at] == id);
                }
            } else if i < before.len() + parent.len() {
                assert(all[i] == parent[i - before.len()]);
                assert(sections[end - 1].parent == id);
            } else {
                let at = i - before.len() - parent.len();
                assert(id == commits[at]);
                assert(picked(sections, end)[ids.len() + at] == id);
            }
        }
    }
}

proof fn forks_are_stackable(
    sections: Seq<Section<Seq<ObjectId>>>,
    labels: Seq<Label<Seq<u8>>>,
    index: int,
    state: TodoStateView,
    lookups: LookupsView,
)
    requires
        0 <= index < sections.len(),
        in_order(sections, state.scope),
        forall|i: int|
            0 <= i < state.scope.len() ==> labelled(labels, lookups, #[trigger] state.scope[i]),
    ensures
        stackable(
            labels,
            picked(sections, index),
            visits(sections, state.scope, index) + parent_visit(sections, state.scope, index),
            sections[index].commits,
            state,
            lookups,
        ),
        shown_first(sections, state.scope, index) ==> unvisited(
            visits(sections, state.scope, index),
            sections[index].parent,
        ),
{
    let scope = state.scope;
    let ids = picked(sections, index);
    let commits = sections[index].commits;
    let before = visits(sections, scope, index);
    let parent = parent_visit(sections, scope, index);
    let places = before + parent;
    let all = picked(sections, index + 1);
    assert(all == ids + commits);
    picked_in_order(sections, scope, index);
    picked_in_order(sections, scope, index + 1);
    visits_are_known(sections, scope, index);
    if shown_first(sections, scope, index) {
        let id = sections[index].parent;
        assert forall|i: int| 0 <= i < before.len() implies (#[trigger] before[i]).0 != id by {
            if ids.contains(before[i].0) {
                let at = ids.index_of(before[i].0);
                assert(scope.contains(ids[at]));
            }
        }
    }
    assert forall|i: int| 0 <= i < commits.len() implies scope.contains(#[trigger] commits[i])
        && labelled(labels, lookups, commits[i]) && unvisited(places, commits[i]) by {
        let id = commits[i];
        assert(all[ids.len() + i] == id);
        assert(scope.contains(id));
        assert(labelled(labels, lookups, scope[scope.index_of(id)]));
        assert forall|k: int| 0 <= k < places.len() implies (#[trigger] places[k]).0 != id by {
            if k < before.len() {
                assert(places[k] == before[k]);
                if ids.contains(before[k].0) {
                    let at = ids.index_of(before[k].0);
                    assert(all[at] == before[k].0);
                }
            } else {
                assert(places[k] == parent[k - before.len()]);
            }
        }
    }
    reveal(stackable);
}

/// What the heading of a fork says behind the commit that it names.
pub open spec fn heading_rest(anchor: AnchorView, parent: ObjectId) -> Seq<u8> {
    match annotation(anchor, parent) {
        Some((kind, title)) => " (".spec_bytes() + kind + ") ".spec_bytes() + title,
        None => Seq::empty(),
    }
}

/// The heading of a fork, without what ends it.
pub open spec fn heading_line(
    labels: Seq<Label<Seq<u8>>>,
    anchor: AnchorView,
    parent: ObjectId,
) -> Seq<u8> {
    "fork ".spec_bytes() + label_from(labels, parent, 0).short + heading_rest(anchor, parent)
}

/// Whether what is shown of the commit that a todo rebases onto is part of a line.
pub open spec fn fitting(anchor: AnchorView) -> bool {
    unbroken(anchor.kind) && fits_line(anchor.title)
}

proof fn rests_fit(anchor: AnchorView, parent: ObjectId)
    requires
        fitting(anchor),
    ensures
        fits_line(heading_rest(anchor, parent)),
        heading_rest(anchor, parent).len() == 0 || heading_rest(anchor, parent)[0] == 32,
{
    broadcast use vstd::string::is_ascii_spec_bytes;

    reveal_strlit(" (");
    assert(vstd::string::is_ascii(" ("));
    assert(" (".spec_bytes() =~= seq![32u8, 40]);
    reveal_strlit(") ");
    assert(vstd::string::is_ascii(") "));
    assert(") ".spec_bytes() =~= seq![41u8, 32]);
    let rest = heading_rest(anchor, parent);
    if parent == anchor.onto {
        let front = seq![32u8, 40] + anchor.kind;
        assert(rest == front + seq![41u8, 32] + anchor.title);
        assert forall|i: int| 0 <= i < rest.len() implies rest[i] != LF by {
            if 2 <= i < front.len() {
                assert(rest[i] == anchor.kind[i - 2]);
            } else if i >= front.len() + 2 {
                assert(rest[i] == anchor.title[i - front.len() - 2]);
            }
        }
        if anchor.title.len() > 0 {
            assert(rest.last() == anchor.title.last());
        } else {
            assert(rest.last() == 32);
        }
    }
}

pub(crate) proof fn headings_fit(short: Seq<u8>, rest: Seq<u8>)
    requires
        visible(short),
        fits_line(rest),
    ensures
        fits_line("fork ".spec_bytes() + short + rest),
{
    broadcast use vstd::string::is_ascii_spec_bytes;

    reveal_strlit("fork ");
    assert(vstd::string::is_ascii("fork "));
    assert("fork ".spec_bytes() =~= seq![102u8, 111, 114, 107, 32]);
    let known = seq![102u8, 111, 114, 107, 32] + short;
    let line = known + rest;
    assert forall|i: int| 0 <= i < line.len() implies line[i] != LF by {
        if 5 <= i < known.len() {
            assert(line[i] == short[i - 5]);
        } else if i >= known.len() {
            assert(line[i] == rest[i - known.len()]);
        }
    }
    if rest.len() > 0 {
        assert(line.last() == rest.last());
    } else {
        assert(line.last() == short.last());
    }
}

proof fn headings_are_read(
    labels: Seq<Label<Seq<u8>>>,
    anchor: AnchorView,
    parent: ObjectId,
    width: nat,
    lookups: LookupsView,
)
    requires
        fitting(anchor),
        labelled(labels, lookups, parent),
    ensures
        ({
            let line = heading_line(labels, anchor, parent);
            let text = railed(line, width);
            &&& fits_line(line)
            &&& fits_line(text)
            &&& trimmed(text) == text
            &&& text.len() > 0
            &&& speaks(text)
            &&& is_separator(text)
            &&& separator_target(text) matches Some(target) && word(target) == Some(
                label_from(labels, parent, 0).short,
            )
        }),
{
    let short = label_from(labels, parent, 0).short;
    let rest = heading_rest(anchor, parent);
    prefixes_are_visible(short);
    rests_fit(anchor, parent);
    headings_name_their_commit(short, rest, width);
    headings_fit(short, rest);
}

proof fn forks_start(
    progress: ProgressView,
    labels: Seq<Label<Seq<u8>>>,
    refs: Seq<ExpectedRef<Seq<u8>>>,
    ids: Seq<ObjectId>,
    visited: Seq<(ObjectId, PlanParent)>,
    marker: Option<ObjectId>,
    anchor: AnchorView,
    parent: ObjectId,
    width: nat,
    state: TodoStateView,
    lookups: LookupsView,
) -> (next: ProgressView)
    requires
        fitting(anchor),
        labelled(labels, lookups, parent),
        reached(progress, refs, ids, progress.steps, visited, marker, progress.forks),
        progress.forks > 0 ==> progress.fork_filled,
        ids.no_duplicates(),
        ids.len() <= usize::MAX,
        state.scope.contains(parent) ==> ids.contains(parent),
    ensures
        read_up(
            progress,
            seq![heading_line(labels, anchor, parent)],
            width,
            1,
            state,
            lookups,
        ) == Ok::<_, TodoError>(next),
        reached(next, refs, ids, progress.steps, visited, marker, progress.forks + 1),
        next.cursor == Some(landed(ids, parent)),
        next.steps == progress.steps,
        next.forks == progress.forks + 1,
{
    reveal(reached);
    let line = heading_line(labels, anchor, parent);
    headings_are_read(labels, anchor, parent, width, lookups);
    picks_are_found(progress.steps, ids, parent);
    reveal_with_fuel(read_up, 2);
    assert(seq![line][0] == line);
    let next = ProgressView {
        cursor: Some(landed(ids, parent)),
        forks: progress.forks + 1,
        fork_filled: false,
        fork_step: None,
        ..progress
    };
    assert(after_line(progress, railed(line, width), state, lookups) == Ok::<_, TodoError>(next));
    next
}

#[verifier::spinoff_prover]
#[verifier::rlimit(40)]
proof fn parents_are_read(
    progress: ProgressView,
    sections: Seq<Section<Seq<ObjectId>>>,
    refs: Seq<ExpectedRef<Seq<u8>>>,
    ids: Seq<ObjectId>,
    visited: Seq<(ObjectId, PlanParent)>,
    marker: Option<ObjectId>,
    index: int,
    width: nat,
    state: TodoStateView,
    lookups: LookupsView,
) -> (next: ProgressView)
    requires
        readable_refs(refs),
        reached(progress, refs, ids, progress.steps, visited, marker, progress.forks),
        progress.cursor == Some(landed(ids, sections[index].parent)),
        shown_first(sections, state.scope, index) ==> !ids.contains(sections[index].parent)
            && unvisited(visited, sections[index].parent),
    ensures
        read_up(
            progress,
            parent_lines(sections, refs, state.scope, index),
            width,
            parent_lines(sections, refs, state.scope, index).len() as int,
            state,
            lookups,
        ) == Ok::<_, TodoError>(next),
        reached(
            next,
            refs,
            ids,
            progress.steps,
            visited + parent_visit(sections, state.scope, index),
            marker,
            progress.forks,
        ),
        next.cursor == progress.cursor,
        next.steps == progress.steps,
        next.forks == progress.forks,
{
    let parent = sections[index].parent;
    if shown_first(sections, state.scope, index) {
        let target = PlanParent::Existing(parent);
        assert(progress.refs == refs && progress.placed == placements(refs, visited)) by {
            reveal(reached);
        }
        unvisited_are_unplaced(refs, visited, parent);
        refs_are_read(progress, parent, target, width, state, lookups);
        let places = visited.push((parent, target));
        assert(places.drop_last() == visited);
        assert(visited + parent_visit(sections, state.scope, index) == places);
        let next = ProgressView {
            placed: progress.placed + placed_at(names_of(refs, parent), target),
            fork_filled: progress.fork_filled || names_of(refs, parent).len() > 0,
            ..progress
        };
        assert(next.placed == placements(refs, places));
        reveal(reached);
        next
    } else {
        assert(visited + parent_visit(sections, state.scope, index) == visited);
        progress
    }
}

/// The reference line of a fork's parent, if it is shown there.
pub open spec fn parent_lines(
    sections: Seq<Section<Seq<ObjectId>>>,
    refs: Seq<ExpectedRef<Seq<u8>>>,
    scope: Seq<ObjectId>,
    index: int,
) -> Seq<Seq<u8>> {
    if shown_first(sections, scope, index) {
        ref_lines(refs, sections[index].parent)
    } else {
        Seq::empty()
    }
}

/// What stands between two forks.
pub open spec fn gap(index: int) -> Seq<Seq<u8>> {
    if index > 0 {
        seq![Seq::empty()]
    } else {
        Seq::empty()
    }
}

/// The lines of a fork, from its base up.
pub open spec fn fork_lines(
    sections: Seq<Section<Seq<ObjectId>>>,
    scope: Seq<ObjectId>,
    labels: Seq<Label<Seq<u8>>>,
    refs: Seq<ExpectedRef<Seq<u8>>>,
    marker: Option<ObjectId>,
    anchor: AnchorView,
    index: int,
) -> Seq<Seq<u8>> {
    let commits = sections[index].commits;
    gap(index) + (seq![heading_line(labels, anchor, sections[index].parent)] + (parent_lines(
        sections,
        refs,
        scope,
        index,
    ) + stack_lines(labels, refs, commits, marker, commits.len() as int)))
}

/// The lines of the first `end` forks, from the base up.
pub open spec fn forks_lines(
    sections: Seq<Section<Seq<ObjectId>>>,
    scope: Seq<ObjectId>,
    labels: Seq<Label<Seq<u8>>>,
    refs: Seq<ExpectedRef<Seq<u8>>>,
    marker: Option<ObjectId>,
    anchor: AnchorView,
    end: int,
) -> Seq<Seq<u8>>
    decreases end,
{
    if end <= 0 || end > sections.len() {
        Seq::empty()
    } else {
        forks_lines(sections, scope, labels, refs, marker, anchor, end - 1) + fork_lines(
            sections,
            scope,
            labels,
            refs,
            marker,
            anchor,
            end - 1,
        )
    }
}

/// Whether what a todo shows of its forks can be read back.
#[verifier::opaque]
pub open spec fn replayable(
    sections: Seq<Section<Seq<ObjectId>>>,
    labels: Seq<Label<Seq<u8>>>,
    refs: Seq<ExpectedRef<Seq<u8>>>,
    marker: Option<ObjectId>,
    anchor: AnchorView,
    state: TodoStateView,
    lookups: LookupsView,
) -> bool {
    &&& in_order(sections, state.scope)
    &&& readable_refs(refs)
    &&& fitting(anchor)
    &&& state.resolved is None
    &&& marker is Some ==> state.checkout_allowed && lookups.has_worktree
    &&& forall|i: int|
        0 <= i < state.scope.len() ==> labelled(labels, lookups, #[trigger] state.scope[i])
    &&& forall|i: int|
        0 <= i < sections.len() ==> labelled(labels, lookups, (#[trigger] sections[i]).parent)
}

/// Whether reading has come behind the first `end` forks.
#[verifier::opaque]
pub open spec fn replayed(
    progress: ProgressView,
    sections: Seq<Section<Seq<ObjectId>>>,
    scope: Seq<ObjectId>,
    refs: Seq<ExpectedRef<Seq<u8>>>,
    marker: Option<ObjectId>,
    end: int,
) -> bool {
    &&& reached(
        progress,
        refs,
        picked(sections, end),
        replay(sections, end),
        visits(sections, scope, end),
        marker,
        end,
    )
    &&& end > 0 ==> progress.fork_filled
}

pub(crate) proof fn gaps_are_read(
    progress: ProgressView,
    index: int,
    width: nat,
    state: TodoStateView,
    lookups: LookupsView,
)
    ensures
        read_up(progress, gap(index), width, gap(index).len() as int, state, lookups) == Ok::<
            _,
            TodoError,
        >(progress),
        speaking(gap(index), width),
{
    broadcast use vstd::string::is_ascii_spec_bytes;

    reveal_strlit("fork ");
    assert(vstd::string::is_ascii("fork "));
    assert("fork ".spec_bytes().len() == 5);
    reveal_strlit("# ");
    assert(vstd::string::is_ascii("# "));
    assert("# ".spec_bytes().len() == 2);
    reveal_strlit("<!--");
    assert(vstd::string::is_ascii("<!--"));
    assert("<!--".spec_bytes().len() == 4);
    reveal_with_fuel(read_up, 2);
    let none = Seq::<u8>::empty();
    assert(trimmed(none).len() == 0);
    assert(railed(none, width) == none);
    if index > 0 {
        assert(gap(index)[0] == none);
    }
}

proof fn four_reads(
    progress: ProgressView,
    first: ProgressView,
    second: ProgressView,
    last: ProgressView,
    a: Seq<Seq<u8>>,
    b: Seq<Seq<u8>>,
    c: Seq<Seq<u8>>,
    d: Seq<Seq<u8>>,
    width: nat,
    state: TodoStateView,
    lookups: LookupsView,
)
    requires
        read_up(progress, a, width, a.len() as int, state, lookups) == Ok::<_, TodoError>(progress),
        read_up(progress, b, width, b.len() as int, state, lookups) == Ok::<_, TodoError>(first),
        read_up(first, c, width, c.len() as int, state, lookups) == Ok::<_, TodoError>(second),
        read_up(second, d, width, d.len() as int, state, lookups) == Ok::<_, TodoError>(last),
    ensures
        read_up(
            progress,
            a + (b + (c + d)),
            width,
            (a + (b + (c + d))).len() as int,
            state,
            lookups,
        ) == Ok::<_, TodoError>(last),
{
    read_in_turn(first, c, d, width, d.len() as int, state, lookups);
    read_in_turn(progress, b, c + d, width, (c + d).len() as int, state, lookups);
    read_in_turn(progress, a, b + (c + d), width, (b + (c + d)).len() as int, state, lookups);
}

#[verifier::spinoff_prover]
#[verifier::rlimit(40)]
proof fn forks_are_read(
    progress: ProgressView,
    sections: Seq<Section<Seq<ObjectId>>>,
    labels: Seq<Label<Seq<u8>>>,
    refs: Seq<ExpectedRef<Seq<u8>>>,
    marker: Option<ObjectId>,
    anchor: AnchorView,
    index: int,
    width: nat,
    state: TodoStateView,
    lookups: LookupsView,
) -> (next: ProgressView)
    requires
        0 <= index < sections.len(),
        replayable(sections, labels, refs, marker, anchor, state, lookups),
        replayed(progress, sections, state.scope, refs, marker, index),
    ensures
        read_up(
            progress,
            fork_lines(sections, state.scope, labels, refs, marker, anchor, index),
            width,
            fork_lines(sections, state.scope, labels, refs, marker, anchor, index).len() as int,
            state,
            lookups,
        ) == Ok::<_, TodoError>(next),
        replayed(next, sections, state.scope, refs, marker, index + 1),
{
    let scope = state.scope;
    let ids = picked(sections, index);
    let places = visits(sections, scope, index);
    let parent = sections[index].parent;
    let commits = sections[index].commits;
    assert(in_order(sections, scope) && readable_refs(refs) && fitting(anchor) && labelled(
        labels,
        lookups,
        parent,
    ) && state.resolved is None && (marker is Some ==> state.checkout_allowed
        && lookups.has_worktree)) by {
        reveal(replayable);
    }
    assert(forall|i: int|
        0 <= i < scope.len() ==> labelled(labels, lookups, #[trigger] scope[i])) by {
        reveal(replayable);
    }
    assert(progress.steps == replay(sections, index) && progress.forks == index && (index > 0
        ==> progress.fork_filled) && reached(
        progress,
        refs,
        ids,
        progress.steps,
        places,
        marker,
        progress.forks,
    )) by {
        reveal(replayed);
        reveal(reached);
    }
    picked_in_order(sections, scope, index);
    forks_are_stackable(sections, labels, index, state, lookups);
    if ids.contains(parent) {
        assert(scope.contains(ids[ids.index_of(parent)]));
    }
    gaps_are_read(progress, index, width, state, lookups);
    let first = forks_start(
        progress,
        labels,
        refs,
        ids,
        places,
        marker,
        anchor,
        parent,
        width,
        state,
        lookups,
    );
    let second = parents_are_read(
        first,
        sections,
        refs,
        ids,
        places,
        marker,
        index,
        width,
        state,
        lookups,
    );
    let next = stacks_are_read(
        second,
        labels,
        refs,
        ids,
        places + parent_visit(sections, scope, index),
        landed(ids, parent),
        commits,
        marker,
        commits.len() as int,
        width,
        state,
        lookups,
    );
    let a = gap(index);
    let b = seq![heading_line(labels, anchor, parent)];
    let c = parent_lines(sections, refs, scope, index);
    let d = stack_lines(labels, refs, commits, marker, commits.len() as int);
    four_reads(progress, first, second, next, a, b, c, d, width, state, lookups);
    assert(replayed(next, sections, scope, refs, marker, index + 1)) by {
        assert(commits.take(commits.len() as int) == commits);
        let steps = stack_steps(ids.len(), landed(ids, parent), commits);
        assert(steps.take(commits.len() as int) == steps);
        let more = stack_visits(ids.len(), commits);
        assert(more.take(commits.len() as int) == more);
        reveal(replayed);
    }
    next
}

proof fn all_forks_are_read(
    sections: Seq<Section<Seq<ObjectId>>>,
    labels: Seq<Label<Seq<u8>>>,
    refs: Seq<ExpectedRef<Seq<u8>>>,
    marker: Option<ObjectId>,
    anchor: AnchorView,
    end: int,
    width: nat,
    state: TodoStateView,
    lookups: LookupsView,
) -> (next: ProgressView)
    requires
        0 <= end <= sections.len(),
        replayable(sections, labels, refs, marker, anchor, state, lookups),
    ensures
        read_up(
            unread(refs),
            forks_lines(sections, state.scope, labels, refs, marker, anchor, end),
            width,
            forks_lines(sections, state.scope, labels, refs, marker, anchor, end).len() as int,
            state,
            lookups,
        ) == Ok::<_, TodoError>(next),
        replayed(next, sections, state.scope, refs, marker, end),
    decreases end,
{
    if end == 0 {
        reveal(reached);
        reveal(replayed);
        unread(refs)
    } else {
        let before = all_forks_are_read(
            sections,
            labels,
            refs,
            marker,
            anchor,
            end - 1,
            width,
            state,
            lookups,
        );
        let next = forks_are_read(
            before,
            sections,
            labels,
            refs,
            marker,
            anchor,
            end - 1,
            width,
            state,
            lookups,
        );
        let a = forks_lines(sections, state.scope, labels, refs, marker, anchor, end - 1);
        let b = fork_lines(sections, state.scope, labels, refs, marker, anchor, end - 1);
        read_in_turn(unread(refs), a, b, width, b.len() as int, state, lookups);
        next
    }
}

proof fn stack_lines_are_lines(
    labels: Seq<Label<Seq<u8>>>,
    refs: Seq<ExpectedRef<Seq<u8>>>,
    commits: Seq<ObjectId>,
    marker: Option<ObjectId>,
    end: int,
    width: nat,
    lookups: LookupsView,
)
    requires
        0 <= end <= commits.len(),
        readable_refs(refs),
        forall|i: int| 0 <= i < commits.len() ==> labelled(labels, lookups, #[trigger] commits[i]),
    ensures
        ends_line(picks_text(labels, refs, commits, marker, end)),
        lines(picks_text(labels, refs, commits, marker, end)) == stack_lines(
            labels,
            refs,
            commits,
            marker,
            end,
        ),
        speaking(stack_lines(labels, refs, commits, marker, end), width),
    decreases end,
{
    if end > 0 {
        stack_lines_are_lines(labels, refs, commits, marker, end - 1, width, lookups);
        let id = commits[end - 1];
        let marked = marker == Some(id);
        assert(labelled(labels, lookups, commits[end - 1]));
        commit_lines_are_lines(labels, refs, lookups, id, marked, width);
        let a = picks_text(labels, refs, commits, marker, end - 1);
        let b = pick_text(labels, refs, id, marked);
        lines_join(a, b);
        ends_join(a, b);
        both_speak(
            stack_lines(labels, refs, commits, marker, end - 1),
            commit_lines(labels, refs, id, marked),
            width,
        );
    }
}

proof fn forks_are_labelled(
    sections: Seq<Section<Seq<ObjectId>>>,
    labels: Seq<Label<Seq<u8>>>,
    refs: Seq<ExpectedRef<Seq<u8>>>,
    marker: Option<ObjectId>,
    anchor: AnchorView,
    index: int,
    state: TodoStateView,
    lookups: LookupsView,
)
    requires
        0 <= index < sections.len(),
        replayable(sections, labels, refs, marker, anchor, state, lookups),
    ensures
        readable_refs(refs),
        fitting(anchor),
        labelled(labels, lookups, sections[index].parent),
        forall|i: int|
            0 <= i < sections[index].commits.len() ==> labelled(
                labels,
                lookups,
                #[trigger] sections[index].commits[i],
            ),
{
    reveal(replayable);
    reveal(stackable);
    forks_are_stackable(sections, labels, index, state, lookups);
}

/// The reference line of a fork's parent, if it is shown there, as it is written.
pub open spec fn parent_text(
    sections: Seq<Section<Seq<ObjectId>>>,
    refs: Seq<ExpectedRef<Seq<u8>>>,
    scope: Seq<ObjectId>,
    index: int,
) -> Seq<u8> {
    if shown_first(sections, scope, index) {
        ref_line_text(names_at(refs, sections[index].parent, refs.len() as int), refs)
    } else {
        Seq::empty()
    }
}

proof fn lines_below_are_lines(
    sections: Seq<Section<Seq<ObjectId>>>,
    labels: Seq<Label<Seq<u8>>>,
    refs: Seq<ExpectedRef<Seq<u8>>>,
    scope: Seq<ObjectId>,
    marker: Option<ObjectId>,
    index: int,
    width: nat,
    lookups: LookupsView,
)
    requires
        0 <= index < sections.len(),
        readable_refs(refs),
        forall|i: int|
            0 <= i < sections[index].commits.len() ==> labelled(
                labels,
                lookups,
                #[trigger] sections[index].commits[i],
            ),
    ensures
        ({
            let commits = sections[index].commits;
            let text = parent_text(sections, refs, scope, index) + picks_text(
                labels,
                refs,
                commits,
                marker,
                commits.len() as int,
            );
            let all = parent_lines(sections, refs, scope, index) + stack_lines(
                labels,
                refs,
                commits,
                marker,
                commits.len() as int,
            );
            &&& ends_line(text)
            &&& lines(text) == all
            &&& speaking(all, width)
        }),
{
    let parent = sections[index].parent;
    let commits = sections[index].commits;
    let n = commits.len() as int;
    ref_lines_are_lines(refs, parent, width);
    stack_lines_are_lines(labels, refs, commits, marker, n, width, lookups);
    assert(lines(Seq::<u8>::empty()) == Seq::<Seq<u8>>::empty());
    let a = parent_text(sections, refs, scope, index);
    let b = picks_text(labels, refs, commits, marker, n);
    assert(lines(a) == parent_lines(sections, refs, scope, index));
    lines_join(a, b);
    ends_join(a, b);
    both_speak(
        parent_lines(sections, refs, scope, index),
        stack_lines(labels, refs, commits, marker, n),
        width,
    );
}

#[verifier::spinoff_prover]
#[verifier::rlimit(40)]
proof fn headed_lines(line: Seq<u8>, below: Seq<u8>, index: int, width: nat)
    requires
        fits_line(line),
        fits_line(railed(line, width)),
        speaks(railed(line, width)),
        ends_line(below),
        speaking(lines(below), width),
        speaking(gap(index), width),
    ensures
        ({
            let text = (if index > 0 {
                seq![LF]
            } else {
                Seq::empty()
            }) + (line + seq![LF] + below);
            let all = gap(index) + (seq![line] + lines(below));
            &&& ends_line(text)
            &&& lines(text) == all
            &&& speaking(all, width)
        }),
{
    let named = line + seq![LF] + below;
    line_then(line, below);
    assert(named == line + (seq![LF] + below));
    ends_join(line + seq![LF], below);
    assert(speaking(seq![line], width));
    both_speak(seq![line], lines(below), width);
    both_speak(gap(index), seq![line] + lines(below), width);
    let none = Seq::<u8>::empty();
    if index > 0 {
        line_then(none, named);
        assert(seq![LF] + named == none + (seq![LF] + named));
        ends_join(seq![LF], named);
    } else {
        assert(none + named == named);
        assert(gap(index) + (seq![line] + lines(below)) == seq![line] + lines(below));
    }
}

#[verifier::spinoff_prover]
#[verifier::rlimit(40)]
proof fn fork_lines_are_lines(
    sections: Seq<Section<Seq<ObjectId>>>,
    labels: Seq<Label<Seq<u8>>>,
    refs: Seq<ExpectedRef<Seq<u8>>>,
    marker: Option<ObjectId>,
    anchor: AnchorView,
    index: int,
    width: nat,
    state: TodoStateView,
    lookups: LookupsView,
)
    requires
        0 <= index < sections.len(),
        replayable(sections, labels, refs, marker, anchor, state, lookups),
    ensures
        ({
            let text = section_text(sections, state.scope, labels, refs, marker, anchor, index);
            let all = fork_lines(sections, state.scope, labels, refs, marker, anchor, index);
            &&& ends_line(text)
            &&& lines(text) == all
            &&& speaking(all, width)
        }),
{
    let scope = state.scope;
    let parent = sections[index].parent;
    let commits = sections[index].commits;
    forks_are_labelled(sections, labels, refs, marker, anchor, index, state, lookups);
    lines_below_are_lines(sections, labels, refs, scope, marker, index, width, lookups);
    headings_are_read(labels, anchor, parent, width, lookups);
    gaps_are_read(unread(refs), index, width, state, lookups);
    let line = heading_line(labels, anchor, parent);
    let title = heading(label_from(labels, parent, 0).short, annotation(anchor, parent));
    assert(title == line + seq![LF]);
    let refs_text = parent_text(sections, refs, scope, index);
    let stack_text = picks_text(labels, refs, commits, marker, commits.len() as int);
    let below = refs_text + stack_text;
    headed_lines(line, below, index, width);
    let blank = if index > 0 {
        seq![LF]
    } else {
        Seq::<u8>::empty()
    };
    let text = section_text(sections, scope, labels, refs, marker, anchor, index);
    assert(text == blank + title + refs_text + stack_text);
    assert(text == blank + (line + seq![LF] + below));
}

proof fn body_lines_are_lines(
    sections: Seq<Section<Seq<ObjectId>>>,
    labels: Seq<Label<Seq<u8>>>,
    refs: Seq<ExpectedRef<Seq<u8>>>,
    marker: Option<ObjectId>,
    anchor: AnchorView,
    end: int,
    width: nat,
    state: TodoStateView,
    lookups: LookupsView,
)
    requires
        0 <= end <= sections.len(),
        replayable(sections, labels, refs, marker, anchor, state, lookups),
    ensures
        ({
            let text = sections_text(sections, state.scope, labels, refs, marker, anchor, end);
            let all = forks_lines(sections, state.scope, labels, refs, marker, anchor, end);
            &&& ends_line(text)
            &&& lines(text) == all
            &&& speaking(all, width)
        }),
    decreases end,
{
    if end > 0 {
        body_lines_are_lines(
            sections,
            labels,
            refs,
            marker,
            anchor,
            end - 1,
            width,
            state,
            lookups,
        );
        fork_lines_are_lines(
            sections,
            labels,
            refs,
            marker,
            anchor,
            end - 1,
            width,
            state,
            lookups,
        );
        let a = sections_text(sections, state.scope, labels, refs, marker, anchor, end - 1);
        let b = section_text(sections, state.scope, labels, refs, marker, anchor, end - 1);
        lines_join(a, b);
        ends_join(a, b);
        both_speak(lines(a), lines(b), width);
    }
}

/// Where a commit is once a todo is replayed, if the todo shows it.
pub open spec fn lies(sections: Seq<Section<Seq<ObjectId>>>, id: ObjectId) -> Option<PlanParent> {
    let ids = picked(sections, sections.len() as int);
    if ids.contains(id) || shown_before(sections, id, sections.len() as int) {
        Some(landed(ids, id))
    } else {
        None
    }
}

proof fn visits_lie(sections: Seq<Section<Seq<ObjectId>>>, scope: Seq<ObjectId>, end: int)
    requires
        0 <= end <= sections.len(),
        in_order(sections, scope),
    ensures
        forall|i: int|
            0 <= i < visits(sections, scope, end).len() ==> (#[trigger] visits(
                sections,
                scope,
                end,
            )[i]).1 == landed(picked(sections, end), visits(sections, scope, end)[i].0),
    decreases end,
{
    if end > 0 {
        visits_lie(sections, scope, end - 1);
        visits_are_known(sections, scope, end - 1);
        picked_in_order(sections, scope, end);
        let before = visits(sections, scope, end - 1);
        let parent = parent_visit(sections, scope, end - 1);
        let commits = sections[end - 1].commits;
        let ids = picked(sections, end - 1);
        let now = picked(sections, end);
        let all = visits(sections, scope, end);
        assert forall|i: int| 0 <= i < all.len() implies (#[trigger] all[i]).1 == landed(
            now,
            all[i].0,
        ) by {
            let id = all[i].0;
            if i < before.len() {
                assert(all[i] == before[i]);
                if ids.contains(id) {
                    let at = ids.index_of(id);
                    assert(now[at] == id);
                    assert(now.index_of(id) == at);
                } else if now.contains(id) {
                    assert(scope.contains(now[now.index_of(id)]));
                }
            } else if i < before.len() + parent.len() {
                assert(all[i] == parent[i - before.len()]);
                if now.contains(id) {
                    assert(scope.contains(now[now.index_of(id)]));
                }
            } else {
                let at = i - before.len() - parent.len();
                assert(id == commits[at]);
                assert(now[ids.len() + at] == id);
                assert(now.index_of(id) == ids.len() + at);
            }
        }
    }
}

proof fn visits_are_all(
    sections: Seq<Section<Seq<ObjectId>>>,
    scope: Seq<ObjectId>,
    end: int,
    id: ObjectId,
)
    requires
        0 <= end <= sections.len(),
        picked(sections, end).contains(id) || !scope.contains(id) && shown_before(
            sections,
            id,
            end,
        ),
    ensures
        !unvisited(visits(sections, scope, end), id),
    decreases end,
{
    if end > 0 {
        let before = visits(sections, scope, end - 1);
        let parent = parent_visit(sections, scope, end - 1);
        let commits = sections[end - 1].commits;
        let ids = picked(sections, end - 1);
        let all = visits(sections, scope, end);
        if ids.contains(id) || !scope.contains(id) && shown_before(sections, id, end - 1) {
            visits_are_all(sections, scope, end - 1, id);
            let i = choose|i: int| 0 <= i < before.len() && (#[trigger] before[i]).0 == id;
            assert(all[i].0 == id);
        } else if picked(sections, end).contains(id) {
            let at = picked(sections, end).index_of(id);
            if at < ids.len() {
                assert(ids[at] == id);
            }
            let k = before.len() + parent.len() + (at - ids.len());
            assert(commits[at - ids.len()] == id);
            assert(all[k].0 == id);
        } else {
            assert(sections[end - 1].parent == id);
            assert(all[before.len() as int] == parent[0]);
        }
    }
}

pub(crate) proof fn placement_in_parts(a: Seq<Placed<Seq<u8>>>, b: Seq<Placed<Seq<u8>>>, name: Seq<u8>, from: int)
    requires
        0 <= from <= a.len(),
    ensures
        placement_from(a + b, name, from) == (if placement_from(a, name, from) is Some {
            placement_from(a, name, from)
        } else {
            placement_from(b, name, 0)
        }),
    decreases a.len() - from,
{
    if from < a.len() {
        assert((a + b)[from] == a[from]);
        placement_in_parts(a, b, name, from + 1);
    } else {
        placement_behind(a, b, name, 0);
    }
}

proof fn placement_behind(a: Seq<Placed<Seq<u8>>>, b: Seq<Placed<Seq<u8>>>, name: Seq<u8>, from: int)
    requires
        0 <= from <= b.len(),
    ensures
        placement_from(a + b, name, a.len() + from) == placement_from(b, name, from),
    decreases b.len() - from,
{
    if from < b.len() {
        assert((a + b)[a.len() + from] == b[from]);
        placement_behind(a, b, name, from + 1);
    }
}

pub(crate) proof fn placed_is_found(names: Seq<Seq<u8>>, target: PlanParent, name: Seq<u8>, from: int)
    requires
        0 <= from <= names.len(),
    ensures
        placement_from(placed_at(names, target), name, from) == (if names.skip(from).contains(
            name,
        ) {
            Some(target)
        } else {
            None
        }),
    decreases names.len() - from,
{
    let rest = names.skip(from);
    if from < names.len() {
        placed_is_found(names, target, name, from + 1);
        let more = names.skip(from + 1);
        assert(rest[0] == names[from]);
        if more.contains(name) {
            let at = more.index_of(name);
            assert(rest[at + 1] == name);
        }
        if rest.contains(name) && names[from] != name {
            let at = rest.index_of(name);
            assert(more[at - 1] == name);
        }
    }
}

proof fn placements_are_found(
    refs: Seq<ExpectedRef<Seq<u8>>>,
    visited: Seq<(ObjectId, PlanParent)>,
    at: int,
    target: PlanParent,
)
    requires
        shown_apart(refs),
        0 <= at < refs.len(),
        refs[at].editable,
        forall|i: int|
            0 <= i < visited.len() && (#[trigger] visited[i]).0 == refs[at].target ==> visited[i].1
                == target,
    ensures
        placement_from(placements(refs, visited), refs[at].name, 0) == (if unvisited(
            visited,
            refs[at].target,
        ) {
            None
        } else {
            Some(target)
        }),
    decreases visited.len(),
{
    let name = refs[at].name;
    let id = refs[at].target;
    assert(editable_at(refs, name, id));
    if visited.len() > 0 {
        let less = visited.drop_last();
        let (last, place) = visited.last();
        assert(visited[visited.len() - 1] == visited.last());
        assert forall|i: int| 0 <= i < less.len() && (#[trigger] less[i]).0 == id implies less[i].1
            == target by {
            assert(visited[i].0 == id);
        }
        placements_are_found(refs, less, at, target);
        placement_in_parts(
            placements(refs, less),
            placed_at(names_of(refs, last), place),
            name,
            0,
        );
        placed_is_found(names_of(refs, last), place, name, 0);
        assert(names_of(refs, last).skip(0) == names_of(refs, last));
        names_are_editable(refs, last);
        if names_of(refs, last).contains(name) {
            let k = names_of(refs, last).index_of(name);
            assert(editable_at(refs, names_of(refs, last)[k], last));
            places_differ(refs, name, id, last);
        }
        if last == id {
            assert(!unvisited(visited, id));
        } else if unvisited(less, id) {
            assert forall|i: int| 0 <= i < visited.len() implies (#[trigger] visited[i]).0
                != id by {
                if i < less.len() {
                    assert(less[i].0 != id);
                }
            }
        } else {
            let i = choose|i: int| 0 <= i < less.len() && (#[trigger] less[i]).0 == id;
            assert(visited[i].0 == id);
        }
    }
}

proof fn others_are_not_placed(
    refs: Seq<ExpectedRef<Seq<u8>>>,
    visited: Seq<(ObjectId, PlanParent)>,
    name: Seq<u8>,
)
    requires
        shown_apart(refs),
        forall|i: int| 0 <= i < refs.len() && (#[trigger] refs[i]).editable ==> refs[i].name != name,
    ensures
        placement_from(placements(refs, visited), name, 0) is None,
    decreases visited.len(),
{
    if visited.len() > 0 {
        let less = visited.drop_last();
        let (last, place) = visited.last();
        others_are_not_placed(refs, less, name);
        placement_in_parts(
            placements(refs, less),
            placed_at(names_of(refs, last), place),
            name,
            0,
        );
        placed_is_found(names_of(refs, last), place, name, 0);
        assert(names_of(refs, last).skip(0) == names_of(refs, last));
        names_are_editable(refs, last);
        if names_of(refs, last).contains(name) {
            let k = names_of(refs, last).index_of(name);
            assert(editable_at(refs, names_of(refs, last)[k], last));
        }
    }
}

/// Whether a branch is among the references of a todo, and ends up at the given place.
pub open spec fn stays_at(
    sections: Seq<Section<Seq<ObjectId>>>,
    refs: Seq<ExpectedRef<Seq<u8>>>,
    name: Seq<u8>,
    target: PlanParent,
) -> bool {
    exists|i: int|
        0 <= i < refs.len() && (#[trigger] refs[i]).editable && refs[i].name == name && lies(
            sections,
            refs[i].target,
        ) == Some(target)
}

/// What to check out once a todo is replayed: the marked commit, with HEAD on its branch if that is
/// there too.
pub open spec fn replayed_checkout(
    sections: Seq<Section<Seq<ObjectId>>>,
    refs: Seq<ExpectedRef<Seq<u8>>>,
    marker: Option<ObjectId>,
    head_ref: Option<Seq<u8>>,
) -> Option<PlanCheckout<Seq<u8>>> {
    match chosen(picked(sections, sections.len() as int), marker) {
        Some(target) => Some(
            PlanCheckout {
                target,
                reference: match head_ref {
                    Some(name) => if stays_at(sections, refs, name, target) {
                        Some(name)
                    } else {
                        None
                    },
                    None => None,
                },
            },
        ),
        None => None,
    }
}

/// The references once a todo is replayed: each that can be edited stays at the commit that it was at.
pub open spec fn replayed_refs(
    sections: Seq<Section<Seq<ObjectId>>>,
    refs: Seq<ExpectedRef<Seq<u8>>>,
) -> Seq<ExpectedRef<Seq<u8>>> {
    Seq::new(
        refs.len(),
        |i: int|
            if refs[i].editable {
                ExpectedRef { new: None, placement: lies(sections, refs[i].target), ..refs[i] }
            } else {
                refs[i]
            },
    )
}

/// The plan that picks the commits of all forks as they are.
pub open spec fn replayed_plan(
    sections: Seq<Section<Seq<ObjectId>>>,
    marker: Option<ObjectId>,
    state: TodoStateView,
) -> PlanView<ExpectedRef<Seq<u8>>> {
    PlanView {
        base: state.onto,
        scope: state.scope,
        steps: replay(sections, sections.len() as int),
        checkout: replayed_checkout(sections, state.expected_refs, marker, state.head_ref),
        expected_refs: replayed_refs(sections, state.expected_refs),
    }
}

proof fn refs_lie(
    sections: Seq<Section<Seq<ObjectId>>>,
    scope: Seq<ObjectId>,
    refs: Seq<ExpectedRef<Seq<u8>>>,
    at: int,
)
    requires
        in_order(sections, scope),
        shown_apart(refs),
        0 <= at < refs.len(),
        refs[at].editable,
    ensures
        placement_from(
            placements(refs, visits(sections, scope, sections.len() as int)),
            refs[at].name,
            0,
        ) == lies(sections, refs[at].target),
{
    let n = sections.len() as int;
    let id = refs[at].target;
    let ids = picked(sections, n);
    let all = visits(sections, scope, n);
    visits_lie(sections, scope, n);
    visits_are_known(sections, scope, n);
    placements_are_found(refs, all, at, landed(ids, id));
    if ids.contains(id) {
        visits_are_all(sections, scope, n, id);
    } else if shown_before(sections, id, n) {
        if scope.contains(id) {
            let i = choose|i: int| 0 <= i < n && (#[trigger] sections[i]).parent == id;
            assert(picked(sections, i).contains(id));
            picked_is_prefix(sections, i, n);
            let k = picked(sections, i).index_of(id);
            assert(ids.take(picked(sections, i).len() as int)[k] == id);
            assert(ids[k] == id);
        }
        visits_are_all(sections, scope, n, id);
    } else {
        assert(unvisited(all, id));
    }
}

#[verifier::spinoff_prover]
#[verifier::rlimit(40)]
proof fn replays_are_planned(
    progress: ProgressView,
    sections: Seq<Section<Seq<ObjectId>>>,
    marker: Option<ObjectId>,
    state: TodoStateView,
)
    requires
        sections.len() > 0,
        in_order(sections, state.scope),
        shown_apart(state.expected_refs),
        state.edit_refs,
        state.marker_required ==> chosen(picked(sections, sections.len() as int), marker) is Some,
        replayed(
            progress,
            sections,
            state.scope,
            state.expected_refs,
            marker,
            sections.len() as int,
        ),
    ensures
        planned(progress, state) == Ok::<_, TodoError>(replayed_plan(sections, marker, state)),
{
    reveal(replayed);
    reveal(reached);
    let n = sections.len() as int;
    let refs = state.expected_refs;
    let visited = visits(sections, state.scope, n);
    assert forall|i: int| 0 <= i < refs.len() implies #[trigger] placed_refs(progress, true)[i]
        == replayed_refs(sections, refs)[i] by {
        if refs[i].editable {
            refs_lie(sections, state.scope, refs, i);
        }
    }
    assert(placed_refs(progress, true) == replayed_refs(sections, refs));
    if let Some(name) = state.head_ref {
        if exists|i: int| 0 <= i < refs.len() && (#[trigger] refs[i]).editable && refs[i].name == name {
            let i = choose|i: int|
                0 <= i < refs.len() && (#[trigger] refs[i]).editable && refs[i].name == name;
            refs_lie(sections, state.scope, refs, i);
            if let Some(target) = progress.checkout {
                if stays_at(sections, refs, name, target) {
                    let j = choose|j: int|
                        0 <= j < refs.len() && (#[trigger] refs[j]).editable && refs[j].name == name
                            && lies(sections, refs[j].target) == Some(target);
                    refs_lie(sections, state.scope, refs, j);
                }
            }
        } else {
            others_are_not_placed(refs, visited, name);
        }
    }
}

/// The body of a todo that is not edited reads as the plan that picks the commits of all its forks as they
/// are, keeps its references where they are, and checks out the marked commit.
pub proof fn unedited_bodies_are_replayed(
    before: Seq<u8>,
    sections: Seq<Section<Seq<ObjectId>>>,
    labels: Seq<Label<Seq<u8>>>,
    marker: Option<ObjectId>,
    anchor: AnchorView,
    width: nat,
    after: Seq<u8>,
    state: TodoStateView,
    lookups: LookupsView,
)
    requires
        silent(before),
        silent(after),
        sections.len() > 0,
        replayable(sections, labels, state.expected_refs, marker, anchor, state, lookups),
        state.edit_refs,
        state.marker_required ==> chosen(picked(sections, sections.len() as int), marker) is Some,
    ensures
        ({
            let body = lines(
                sections_text(
                    sections,
                    state.scope,
                    labels,
                    state.expected_refs,
                    marker,
                    anchor,
                    sections.len() as int,
                ),
            );
            plan_of(before + bottom_up(body, body.len() as int, width) + after, state, lookups)
                == Ok::<_, TodoError>(replayed_plan(sections, marker, state))
        }),
{
    let n = sections.len() as int;
    let refs = state.expected_refs;
    body_lines_are_lines(sections, labels, refs, marker, anchor, n, width, state, lookups);
    let progress = all_forks_are_read(
        sections,
        labels,
        refs,
        marker,
        anchor,
        n,
        width,
        state,
        lookups,
    );
    let all = forks_lines(sections, state.scope, labels, refs, marker, anchor, n);
    bodies_are_read(before, all, width, after, state, lookups);
    assert(in_order(sections, state.scope) && shown_apart(refs)) by {
        reveal(replayable);
    }
    replays_are_planned(progress, sections, marker, state);
}

proof fn heads_are_silent(labels: Seq<Label<Seq<u8>>>, base: ObjectId, onto: ObjectId)
    requires
        visible(label_from(labels, base, 0).short),
        visible(label_from(labels, onto, 0).short),
    ensures
        silent(title_text(labels, base, onto) + seq![LF]),
{
    broadcast use vstd::string::is_ascii_spec_bytes;

    reveal_strlit("# Rebase from `");
    assert(vstd::string::is_ascii("# Rebase from `"));
    reveal_strlit("`");
    assert(vstd::string::is_ascii("`"));
    reveal_strlit("` onto `");
    assert(vstd::string::is_ascii("` onto `"));
    reveal_strlit("# ");
    assert(vstd::string::is_ascii("# "));
    let front = "# Rebase from `".spec_bytes();
    let short = label_from(labels, base, 0).short;
    let other = label_from(labels, onto, 0).short;
    let gap = "` onto `".spec_bytes();
    let end = "`".spec_bytes();
    let back = if base == onto {
        end
    } else {
        gap + other + end
    };
    let line = title_text(labels, base, onto);
    assert(front.len() == 15 && gap.len() == 8);
    assert(end =~= seq![96u8]);
    assert(line == front + short + back);
    assert(back.last() == 96);
    assert(line.last() == back.last());
    assert(line.take(2) =~= "# ".spec_bytes()) by {
        assert(line[0] == front[0] && line[1] == front[1]);
    }
    assert(unbroken(back)) by {
        assert forall|i: int| 0 <= i < back.len() implies back[i] != LF by {
            if base != onto {
                if i < 8 {
                    assert(back[i] == gap[i]);
                } else if i < 8 + other.len() {
                    assert(back[i] == other[i - 8]);
                }
            }
        }
    }
    assert forall|i: int| 0 <= i < line.len() implies line[i] != LF by {
        if i < 15 {
            assert(line[i] == front[i]);
        } else if i < 15 + short.len() {
            assert(line[i] == short[i - 15]);
        } else {
            assert(line[i] == back[i - 15 - short.len()]);
        }
    }
    titles_are_silent(line);
}

/// The todo of an outline as it is prepared for editing.
pub open spec fn prepared_text(
    outline: Outline,
    base: ObjectId,
    labels: Seq<Label<Seq<u8>>>,
    anchor: AnchorView,
    state: TodoStateView,
) -> Seq<u8> {
    document_text(
        encode_utf8(notice(base != anchor.onto, outline.has_pending)),
        title_text(labels, base, anchor.onto),
        body_text(outline, base, labels, state.expected_refs, anchor),
    )
}

/// Whether the state of a todo is read back from it: it starts behind what the todo shows, no field of it
/// ends the comment that it is in, and the names in it are read back from their quotation.
pub open spec fn carried(text: Seq<u8>, state: TodoStateView) -> bool {
    &&& starts_behind(text)
    &&& stays_in_comment(state)
    &&& forall|i: int| 0 <= i < fields(state).len() ==> names_read_back(#[trigger] fields(state)[i])
    &&& as_captured(state) == state
}

proof fn heads_are_utf8(
    said: Seq<u8>,
    labels: Seq<Label<Seq<u8>>>,
    base: ObjectId,
    onto: ObjectId,
)
    requires
        valid_utf8(said),
        visible(label_from(labels, base, 0).short),
        visible(label_from(labels, onto, 0).short),
    ensures
        valid_utf8(said + seq![LF] + (title_text(labels, base, onto) + seq![LF] + seq![LF])),
{
    let first = label_from(labels, base, 0).short;
    let second = label_from(labels, onto, 0).short;
    let title = title_text(labels, base, onto);
    ascii_bytes_are_utf8(LF);
    ascii_is_utf8(first);
    ascii_is_utf8(second);
    literals_are_utf8("# Rebase from `");
    literals_are_utf8("`");
    literals_are_utf8("` onto `");
    let start = "# Rebase from `".spec_bytes() + first;
    valid_utf8_concat("# Rebase from `".spec_bytes(), first);
    if base == onto {
        valid_utf8_concat(start, "`".spec_bytes());
    } else {
        let end = "` onto `".spec_bytes() + second;
        valid_utf8_concat("` onto `".spec_bytes(), second);
        valid_utf8_concat(end, "`".spec_bytes());
        valid_utf8_concat(start, end + "`".spec_bytes());
    }
    assert(valid_utf8(title));
    valid_utf8_concat(title, seq![LF]);
    valid_utf8_concat(title + seq![LF], seq![LF]);
    valid_utf8_concat(said, seq![LF]);
    valid_utf8_concat(said + seq![LF], title + seq![LF] + seq![LF]);
}

proof fn prepared_parts(
    outline: Outline,
    base: ObjectId,
    labels: Seq<Label<Seq<u8>>>,
    anchor: AnchorView,
    state: TodoStateView,
    commits: Seq<CommitNode<Seq<ObjectId>>>,
    lookups: LookupsView,
) -> (parts: (Seq<u8>, Seq<u8>))
    requires
        labelled(labels, lookups, base),
        labelled(labels, lookups, anchor.onto),
        carried(prepared_text(outline, base, labels, anchor, state), state),
        valid(state, commits) is Ok,
        valid_utf8(body_text(outline, base, labels, state.expected_refs, anchor)),
    ensures
        silent(parts.0),
        silent(parts.1),
        ({
            let text = prepared_text(outline, base, labels, anchor, state) + written(state);
            let body = lines(body_text(outline, base, labels, state.expected_refs, anchor));
            let n = body.len() as int;
            &&& text == parts.0 + bottom_up(body, n, widest(body, n)) + parts.1
            &&& valid_utf8(text)
            &&& state_of(text, commits) == Ok::<_, TodoError>(Some(state))
        }),
{
    let onto = anchor.onto;
    let text = prepared_text(outline, base, labels, anchor, state);
    let said = encode_utf8(notice(base != onto, outline.has_pending));
    encode_utf8_valid_utf8(notice(base != onto, outline.has_pending));
    let title = title_text(labels, base, onto);
    let body = lines(body_text(outline, base, labels, state.expected_refs, anchor));
    let width = widest(body, body.len() as int);
    let before = said + seq![LF] + (title + seq![LF] + seq![LF]);
    let shown = bottom_up(body, body.len() as int, width);
    let after = HELP.spec_bytes() + written(state);
    prefixes_are_visible(label_from(labels, base, 0).short);
    prefixes_are_visible(label_from(labels, onto, 0).short);
    notices_are_silent(base != onto, outline.has_pending);
    heads_are_silent(labels, base, onto);
    blanks_are_silent();
    silent_join(title + seq![LF], seq![LF]);
    silent_join(said + seq![LF], title + seq![LF] + seq![LF]);
    help_is_silent();
    states_are_silent(state);
    silent_join(HELP.spec_bytes(), written(state));
    assert(seq![LF] + seq![LF] =~= seq![LF, LF]);
    assert(text + written(state) == before + shown + after);
    heads_are_utf8(said, labels, base, onto);
    todos_are_utf8(
        before,
        body_text(outline, base, labels, state.expected_refs, anchor),
        width,
        HELP,
        state,
    );
    assert(before + shown + after == before + shown + HELP.spec_bytes() + written(state));
    state_reads_back(text, state);
    (before, after)
}

/// A todo that is saved as it was prepared reads as the plan that picks the commits of all its forks as
/// they are, keeps its references where they are, and checks out the marked commit.
#[verifier::spinoff_prover]
#[verifier::rlimit(40)]
pub proof fn unedited_todos_are_replayed(
    outline: Outline,
    base: ObjectId,
    labels: Seq<Label<Seq<u8>>>,
    anchor: AnchorView,
    resolved_tips: Seq<ObjectId>,
    has_worktree: bool,
    head_ref: Option<Seq<u8>>,
    refs: Seq<ExpectedRef<Seq<u8>>>,
    commits: Seq<CommitNode<Seq<ObjectId>>>,
    lookups: LookupsView,
)
    requires
        ({
            let sections = viewed(outline.sections@);
            let state = initial_state(
                outline,
                base,
                anchor.onto,
                resolved_tips,
                has_worktree,
                head_ref,
                refs,
            );
            let text = prepared_text(outline, base, labels, anchor, state);
            &&& sections.len() > 0
            &&& replayable(sections, labels, refs, outline.marker, anchor, state, lookups)
            &&& outline.marker matches Some(id) ==> picked(
                sections,
                sections.len() as int,
            ).contains(id)
            &&& labelled(labels, lookups, base)
            &&& labelled(labels, lookups, anchor.onto)
            &&& carried(text, state)
            &&& valid(state, commits) is Ok
            &&& valid_utf8(body_text(outline, base, labels, refs, anchor))
        }),
    ensures
        ({
            let state = initial_state(
                outline,
                base,
                anchor.onto,
                resolved_tips,
                has_worktree,
                head_ref,
                refs,
            );
            parsed(
                prepared_text(outline, base, labels, anchor, state) + written(state),
                commits,
                Some(lookups),
            ) == Ok::<_, TodoError>(
                Some(
                    ParsedView {
                        plan: replayed_plan(viewed(outline.sections@), outline.marker, state),
                        tips: state.tips,
                    },
                ),
            )
        }),
{
    let sections = viewed(outline.sections@);
    let state = initial_state(
        outline,
        base,
        anchor.onto,
        resolved_tips,
        has_worktree,
        head_ref,
        refs,
    );
    let body = lines(body_text(outline, base, labels, refs, anchor));
    let (before, after) = prepared_parts(outline, base, labels, anchor, state, commits, lookups);
    unedited_bodies_are_replayed(
        before,
        sections,
        labels,
        outline.marker,
        anchor,
        widest(body, body.len() as int),
        after,
        state,
        lookups,
    );
}

/// Where a reference is once a todo without commits is applied: at the commit to rebase onto, if it was
/// there or at the base.
pub open spec fn moved(base: ObjectId, onto: ObjectId, id: ObjectId) -> Option<PlanParent> {
    if id == base || id == onto {
        Some(PlanParent::Existing(onto))
    } else {
        None
    }
}

/// The plan of a todo without commits: no steps, and the references at the commit to rebase onto.
pub open spec fn moving_plan(state: TodoStateView) -> PlanView<ExpectedRef<Seq<u8>>> {
    let refs = state.expected_refs;
    PlanView {
        base: state.onto,
        scope: state.scope,
        steps: Seq::empty(),
        checkout: None,
        expected_refs: Seq::new(
            refs.len(),
            |i: int|
                if refs[i].editable {
                    ExpectedRef {
                        new: None,
                        placement: moved(state.base, state.onto, refs[i].target),
                        ..refs[i]
                    }
                } else {
                    refs[i]
                },
        ),
    }
}

/// The lines of a todo without commits.
pub open spec fn empty_lines(
    labels: Seq<Label<Seq<u8>>>,
    refs: Seq<ExpectedRef<Seq<u8>>>,
    base: ObjectId,
    anchor: AnchorView,
) -> Seq<Seq<u8>> {
    seq![heading_line(labels, anchor, anchor.onto)] + (ref_lines(refs, anchor.onto) + (if base
        != anchor.onto {
        ref_lines(refs, base)
    } else {
        Seq::empty()
    }))
}

proof fn empty_lines_are_lines(
    labels: Seq<Label<Seq<u8>>>,
    refs: Seq<ExpectedRef<Seq<u8>>>,
    base: ObjectId,
    anchor: AnchorView,
    width: nat,
    lookups: LookupsView,
)
    requires
        labelled(labels, lookups, anchor.onto),
        readable_refs(refs),
        fitting(anchor),
    ensures
        lines(empty_text(labels, refs, base, anchor)) == empty_lines(labels, refs, base, anchor),
        speaking(empty_lines(labels, refs, base, anchor), width),
{
    let onto = anchor.onto;
    let line = heading_line(labels, anchor, onto);
    let title = heading(label_from(labels, onto, 0).short, annotation(anchor, onto));
    let a = ref_line_text(names_at(refs, onto, refs.len() as int), refs);
    let b = if base != onto {
        ref_line_text(names_at(refs, base, refs.len() as int), refs)
    } else {
        Seq::empty()
    };
    let b_lines = if base != onto {
        ref_lines(refs, base)
    } else {
        Seq::empty()
    };
    headings_are_read(labels, anchor, onto, width, lookups);
    ref_lines_are_lines(refs, onto, width);
    ref_lines_are_lines(refs, base, width);
    assert(lines(Seq::<u8>::empty()) == Seq::<Seq<u8>>::empty());
    assert(lines(b) == b_lines && ends_line(b) && speaking(b_lines, width));
    lines_join(a, b);
    ends_join(a, b);
    both_speak(ref_lines(refs, onto), b_lines, width);
    assert(title == line + seq![LF]);
    assert(speaking(gap(0), width));
    headed_lines(line, a + b, 0, width);
    let none = Seq::<u8>::empty();
    assert(none + (line + seq![LF] + (a + b)) == empty_text(labels, refs, base, anchor));
    assert(gap(0) + (seq![line] + lines(a + b)) == seq![line] + lines(a + b));
}

#[verifier::spinoff_prover]
#[verifier::rlimit(40)]
proof fn empty_lines_are_read(
    labels: Seq<Label<Seq<u8>>>,
    anchor: AnchorView,
    width: nat,
    state: TodoStateView,
    lookups: LookupsView,
)
    requires
        labelled(labels, lookups, anchor.onto),
        readable_refs(state.expected_refs),
        fitting(anchor),
        state.onto == anchor.onto,
        !state.scope.contains(anchor.onto),
        state.edit_refs,
        !state.marker_required,
    ensures
        ({
            let all = empty_lines(labels, state.expected_refs, state.base, anchor);
            read_up(
                unread(state.expected_refs),
                all,
                width,
                all.len() as int,
                state,
                lookups,
            ) matches Ok(progress) && planned(progress, state) == Ok::<_, TodoError>(
                moving_plan(state),
            )
        }),
{
    let refs = state.expected_refs;
    let onto = anchor.onto;
    let base = state.base;
    let target = PlanParent::Existing(onto);
    let none = Seq::<(ObjectId, PlanParent)>::empty();
    let start = unread(refs);
    let no_ids = Seq::<ObjectId>::empty();
    let first = seq![(onto, target)];
    reveal(reached);
    assert(start.placed == placements(refs, none));
    let begun = forks_start(
        start,
        labels,
        refs,
        no_ids,
        none,
        None,
        anchor,
        onto,
        width,
        state,
        lookups,
    );
    unvisited_are_unplaced(refs, none, onto);
    refs_are_read(begun, onto, target, width, state, lookups);
    let once = ProgressView {
        placed: begun.placed + placed_at(names_of(refs, onto), target),
        fork_filled: begun.fork_filled || names_of(refs, onto).len() > 0,
        ..begun
    };
    assert(first.drop_last() == none);
    assert(once.placed == placements(refs, first));
    let a = seq![heading_line(labels, anchor, onto)];
    let b = ref_lines(refs, onto);
    if base == onto {
        let c = Seq::<Seq<u8>>::empty();
        assert(b + c == b);
        read_in_turn(start, a, b, width, b.len() as int, state, lookups);
        empty_is_planned(once, first, state);
    } else {
        let c = ref_lines(refs, base);
        unvisited_are_unplaced(refs, first, base);
        refs_are_read(once, base, target, width, state, lookups);
        let both = first.push((base, target));
        let twice = ProgressView {
            placed: once.placed + placed_at(names_of(refs, base), target),
            fork_filled: once.fork_filled || names_of(refs, base).len() > 0,
            ..once
        };
        assert(both.drop_last() == first);
        assert(twice.placed == placements(refs, both));
        read_in_turn(begun, b, c, width, c.len() as int, state, lookups);
        read_in_turn(start, a, b + c, width, (b + c).len() as int, state, lookups);
        empty_is_planned(twice, both, state);
    }
}

proof fn empty_is_planned(
    progress: ProgressView,
    visited: Seq<(ObjectId, PlanParent)>,
    state: TodoStateView,
)
    requires
        shown_apart(state.expected_refs),
        reached(
            progress,
            state.expected_refs,
            Seq::empty(),
            Seq::empty(),
            visited,
            None,
            1,
        ),
        state.edit_refs,
        !state.marker_required,
        forall|i: int|
            0 <= i < visited.len() ==> (#[trigger] visited[i]).1 == PlanParent::Existing(state.onto)
                && (visited[i].0 == state.base || visited[i].0 == state.onto),
        !unvisited(visited, state.base),
        !unvisited(visited, state.onto),
    ensures
        planned(progress, state) == Ok::<_, TodoError>(moving_plan(state)),
{
    reveal(reached);
    let refs = state.expected_refs;
    assert forall|i: int| 0 <= i < refs.len() implies #[trigger] placed_refs(progress, true)[i]
        == moving_plan(state).expected_refs[i] by {
        if refs[i].editable {
            placements_are_found(refs, visited, i, PlanParent::Existing(state.onto));
            if refs[i].target != state.base && refs[i].target != state.onto {
                assert(unvisited(visited, refs[i].target));
            }
        }
    }
    assert(placed_refs(progress, true) == moving_plan(state).expected_refs);
}

/// A todo without commits that is saved as it was prepared reads as the plan that only moves references:
/// those at the base go to the commit to rebase onto.
pub proof fn unedited_empty_todos_move_references(
    outline: Outline,
    base: ObjectId,
    labels: Seq<Label<Seq<u8>>>,
    anchor: AnchorView,
    resolved_tips: Seq<ObjectId>,
    has_worktree: bool,
    head_ref: Option<Seq<u8>>,
    refs: Seq<ExpectedRef<Seq<u8>>>,
    commits: Seq<CommitNode<Seq<ObjectId>>>,
    lookups: LookupsView,
)
    requires
        ({
            let state = initial_state(
                outline,
                base,
                anchor.onto,
                resolved_tips,
                has_worktree,
                head_ref,
                refs,
            );
            let text = prepared_text(outline, base, labels, anchor, state);
            &&& viewed(outline.sections@).len() == 0
            &&& outline.marker is None
            &&& !outline.scope@.contains(anchor.onto)
            &&& readable_refs(refs)
            &&& fitting(anchor)
            &&& labelled(labels, lookups, base)
            &&& labelled(labels, lookups, anchor.onto)
            &&& carried(text, state)
            &&& valid(state, commits) is Ok
            &&& valid_utf8(body_text(outline, base, labels, refs, anchor))
        }),
    ensures
        ({
            let state = initial_state(
                outline,
                base,
                anchor.onto,
                resolved_tips,
                has_worktree,
                head_ref,
                refs,
            );
            parsed(
                prepared_text(outline, base, labels, anchor, state) + written(state),
                commits,
                Some(lookups),
            ) == Ok::<_, TodoError>(
                Some(ParsedView { plan: moving_plan(state), tips: state.tips }),
            )
        }),
{
    let state = initial_state(
        outline,
        base,
        anchor.onto,
        resolved_tips,
        has_worktree,
        head_ref,
        refs,
    );
    let body = lines(body_text(outline, base, labels, refs, anchor));
    let width = widest(body, body.len() as int);
    let (before, after) = prepared_parts(outline, base, labels, anchor, state, commits, lookups);
    empty_lines_are_lines(labels, refs, base, anchor, width, lookups);
    empty_lines_are_read(labels, anchor, width, state, lookups);
    bodies_are_read(before, body, width, after, state, lookups);
}

} // verus!
