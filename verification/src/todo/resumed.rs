//! A continuation that is not edited reads as the plan that it was written of.
use vstd::prelude::*;
use vstd::string::StringSliceAdditionalSpecFns;
use vstd::utf8::valid_utf8;
use crate::bytes::{fits_line, has_prefix, lines, trimmed, unbroken, word, LF};
use crate::history::{parents_of, CommitNode};
use crate::ids::{hex_of, null_is_zeros, reverse_hex_of, reverse_hex_round_trip, ObjectId};
use crate::plan::{holds, kept, position, ExpectedRef, PlanCommit, PlanParent};
use crate::plan::{PlanCheckout, PlanStep, PlanView, StepView};
use crate::refs::sorted_names;
use crate::text::lossy;
use crate::todo::continuation::{
    continuation_state, continuation_text, continues, fork_point, fork_text,
    produced_text, resolved_of, shown_id, sources_of, squash_text, step_text, steps_text, verb_text,
};
use crate::todo::encoded::{literals_are_utf8, todos_are_utf8};
use crate::todo::laws::{
    backticks_are_bytes, both_speak, ends_join, gap, gaps_are_read, headings_fit, labelled,
    listed_is_printable, placed_is_found, placement_in_parts, prefixes_are_visible, read_in_turn,
};
use crate::todo::lines::{command, is_ref_line, is_separator, separator_target};
use crate::todo::names::{display_name, sharing};
use crate::todo::parse::{
    after_line, full_null, parsed, placed_refs, placement_from, planned, unread, LookupsView,
    ParsedView, Placed, ProgressView,
};
use crate::todo::quiet::{
    continuation_is_silent, help_is_silent, silent_join, states_are_silent, stays_in_comment,
};
use crate::todo::record::{
    as_captured, fields, head_fields, name_reads_back, names_read_back, ref_field, starts_behind,
    state_reads_back, written,
};
use crate::todo::shown::{
    bodies_are_read, can_edit, commands_are_read, ends_line, first_words,
    headings_name_their_commit, line_then, lines_join, names_are_placed, placed_at, railed, read_up,
    readable, readable_names, ref_lines_are_read, ref_text, shown_apart, sorted_holds, speaking,
    speaks, unplaced, visible,
};
use crate::todo::state::{refs_valid, scope_valid, valid, TodoStateView};
use crate::todo::write::{
    bottom_up, command_line, heading, label_from, listed_names, names_placed_at, ref_line_text, widest,
    Label, CONTINUATION, HELP,
};
use crate::todo::TodoError;

verus! {

/// References as a todo carries them: as they were captured.
pub open spec fn captured(refs: Seq<ExpectedRef<Seq<u8>>>) -> Seq<ExpectedRef<Seq<u8>>> {
    Seq::new(
        refs.len(),
        |i: int| ExpectedRef { new: refs[i].old, placement: None, ..refs[i] },
    )
}

proof fn shared_alike(refs: Seq<ExpectedRef<Seq<u8>>>, short: Seq<u8>, end: int)
    requires
        0 <= end <= refs.len(),
    ensures
        sharing(captured(refs), short, end) == sharing(refs, short, end),
    decreases end,
{
    if end > 0 {
        shared_alike(refs, short, end - 1);
    }
}

proof fn shown_alike(refs: Seq<ExpectedRef<Seq<u8>>>)
    ensures
        forall|name: Seq<u8>| #[trigger]
            display_name(name, captured(refs)) == display_name(name, refs),
{
    assert forall|name: Seq<u8>| #[trigger]
        display_name(name, captured(refs)) == display_name(name, refs) by {
        shared_alike(refs, crate::names::short_name(name), refs.len() as int);
    }
}

proof fn listed_alike(names: Seq<Seq<u8>>, refs: Seq<ExpectedRef<Seq<u8>>>, end: int)
    requires
        0 <= end <= names.len(),
    ensures
        listed_names(names, captured(refs), end) == listed_names(names, refs, end),
    decreases end,
{
    if end > 0 {
        listed_alike(names, refs, end - 1);
        shown_alike(refs);
    }
}

/// The names of the references that a plan places somewhere, in order.
pub open spec fn placed_names(refs: Seq<ExpectedRef<Seq<u8>>>, place: PlanParent) -> Seq<Seq<u8>> {
    sorted_names(names_placed_at(refs, place, refs.len() as int))
}

/// Whether a plan can list its references: they are shown apart, and only those that may be edited and that
/// are read as they are shown are placed.
pub open spec fn listable(refs: Seq<ExpectedRef<Seq<u8>>>) -> bool {
    &&& shown_apart(refs)
    &&& forall|i: int|
        0 <= i < refs.len() && (#[trigger] refs[i]).placement is Some ==> refs[i].editable
            && readable(display_name(refs[i].name, refs))
}

proof fn names_differ(refs: Seq<ExpectedRef<Seq<u8>>>, i: int, j: int)
    requires
        shown_apart(refs),
        0 <= i < refs.len(),
        0 <= j < refs.len(),
        refs[i].editable,
        refs[j].editable,
        refs[i].name == refs[j].name,
    ensures
        i == j,
{
    if i < j {
        assert(display_name(refs[i].name, refs) != display_name(refs[j].name, refs));
    } else if j < i {
        assert(display_name(refs[j].name, refs) != display_name(refs[i].name, refs));
    }
}

/// Whether one of the first `end` references is placed somewhere under the given name.
pub open spec fn placed_as(
    refs: Seq<ExpectedRef<Seq<u8>>>,
    name: Seq<u8>,
    place: PlanParent,
    end: int,
) -> bool {
    exists|i: int|
        0 <= i < end && (#[trigger] refs[i]).name == name && refs[i].placement == Some(place)
}

proof fn placed_are_named(refs: Seq<ExpectedRef<Seq<u8>>>, place: PlanParent, end: int)
    requires
        0 <= end <= refs.len(),
        listable(refs),
    ensures
        forall|x: Seq<u8>| #[trigger]
            names_placed_at(refs, place, end).contains(x) <==> placed_as(refs, x, place, end),
        names_placed_at(refs, place, end).no_duplicates(),
    decreases end,
{
    let all = names_placed_at(refs, place, end);
    if end > 0 {
        placed_are_named(refs, place, end - 1);
        let before = names_placed_at(refs, place, end - 1);
        let one = refs[end - 1];
        if one.placement == Some(place) {
            assert(!before.contains(one.name)) by {
                if before.contains(one.name) {
                    assert(placed_as(refs, one.name, place, end - 1));
                    let i = choose|i: int|
                        0 <= i < end - 1 && (#[trigger] refs[i]).name == one.name
                            && refs[i].placement == Some(place);
                    names_differ(refs, i, end - 1);
                }
            }
            assert(all == before.push(one.name));
            assert(all[before.len() as int] == one.name);
            assert forall|i: int, j: int|
                0 <= i < all.len() && 0 <= j < all.len() && i != j implies all[i] != all[j] by {
                if i < before.len() {
                    assert(before.contains(before[i]));
                }
                if j < before.len() {
                    assert(before.contains(before[j]));
                }
            }
        }
        assert forall|x: Seq<u8>| #[trigger] all.contains(x) <==> placed_as(refs, x, place, end) by {
            if all.contains(x) {
                let k = all.index_of(x);
                if k < before.len() {
                    assert(before[k] == x);
                    assert(before.contains(x));
                    assert(placed_as(refs, x, place, end - 1));
                } else {
                    assert(refs[end - 1].name == x);
                }
            }
            if placed_as(refs, x, place, end) {
                let i = choose|i: int|
                    0 <= i < end && (#[trigger] refs[i]).name == x && refs[i].placement == Some(place);
                if i < end - 1 {
                    assert(placed_as(refs, x, place, end - 1));
                    assert(before.contains(x));
                    let k = before.index_of(x);
                    assert(all[k] == x);
                }
            }
        }
    }
}

proof fn placed_names_hold(refs: Seq<ExpectedRef<Seq<u8>>>, place: PlanParent)
    requires
        listable(refs),
    ensures
        placed_names(refs, place).no_duplicates(),
        forall|x: Seq<u8>| #[trigger]
            placed_names(refs, place).contains(x) <==> placed_as(refs, x, place, refs.len() as int),
        readable_names(placed_names(refs, place), refs),
        forall|i: int|
            0 <= i < placed_names(refs, place).len() ==> can_edit(
                captured(refs),
                #[trigger] placed_names(refs, place)[i],
            ),
{
    let names = placed_names(refs, place);
    let n = refs.len() as int;
    placed_are_named(refs, place, n);
    sorted_holds(names_placed_at(refs, place, n));
    assert forall|i: int| 0 <= i < names.len() implies can_edit(captured(refs), #[trigger] names[i])
        && readable(display_name(names[i], refs)) by {
        assert(names.contains(names[i]));
        assert(placed_as(refs, names[i], place, n));
        let k = choose|k: int|
            0 <= k < n && (#[trigger] refs[k]).name == names[i] && refs[k].placement == Some(place);
        assert(captured(refs)[k].editable && captured(refs)[k].name == names[i]);
    }
}

/// Whether a text shows the given lines, which say something.
pub open spec fn shows(text: Seq<u8>, all: Seq<Seq<u8>>, width: nat) -> bool {
    ends_line(text) && lines(text) == all && speaking(all, width)
}

proof fn shows_both(a: Seq<u8>, all: Seq<Seq<u8>>, b: Seq<u8>, more: Seq<Seq<u8>>, width: nat)
    requires
        shows(a, all, width),
        shows(b, more, width),
    ensures
        shows(a + b, all + more, width),
{
    lines_join(a, b);
    ends_join(a, b);
    both_speak(all, more, width);
}

proof fn shows_line(line: Seq<u8>, width: nat)
    requires
        fits_line(line),
        fits_line(railed(line, width)),
        speaks(railed(line, width)),
    ensures
        shows(line + seq![LF], seq![line], width),
{
    let none = Seq::<u8>::empty();
    line_then(line, none);
    assert(line + (seq![LF] + none) == line + seq![LF]);
    assert(lines(none) == Seq::<Seq<u8>>::empty());
    assert(seq![line] + Seq::<Seq<u8>>::empty() == seq![line]);
}

proof fn shows_nothing(width: nat)
    ensures
        shows(Seq::empty(), Seq::empty(), width),
{
    assert(lines(Seq::<u8>::empty()) == Seq::<Seq<u8>>::empty());
}

/// The line that lists the references at a place, if there are any.
pub open spec fn place_lines(refs: Seq<ExpectedRef<Seq<u8>>>, place: PlanParent) -> Seq<Seq<u8>> {
    let names = placed_names(refs, place);
    if names.len() == 0 {
        Seq::empty()
    } else {
        seq![ref_text(names, refs)]
    }
}

proof fn places_are_shown(refs: Seq<ExpectedRef<Seq<u8>>>, place: PlanParent, width: nat)
    requires
        listable(refs),
    ensures
        shows(
            ref_line_text(names_placed_at(refs, place, refs.len() as int), refs),
            place_lines(refs, place),
            width,
        ),
{
    broadcast use vstd::string::is_ascii_spec_bytes;

    reveal_strlit("(");
    assert(vstd::string::is_ascii("("));
    assert("(".spec_bytes() =~= seq![40u8]);
    reveal_strlit(")\n");
    assert(vstd::string::is_ascii(")\n"));
    assert(")\n".spec_bytes() =~= seq![41u8, LF]);
    let names = placed_names(refs, place);
    if names.len() > 0 {
        placed_names_hold(refs, place);
        ref_lines_are_read(names, refs);
        listed_is_printable(names, refs, names.len() as int);
        let line = ref_text(names, refs);
        let body = listed_names(names, refs, names.len() as int);
        assert forall|i: int| 0 <= i < line.len() implies line[i] != LF by {
            if 0 < i < line.len() - 1 {
                assert(line[i] == body[i - 1]);
            }
        }
        assert(line.last() == 41);
        assert(railed(line, width) == line);
        shows_line(line, width);
        assert(ref_line_text(names_placed_at(refs, place, refs.len() as int), refs) == line
            + seq![LF]);
    } else {
        shows_nothing(width);
    }
}

/// Whether reading some lines leads from one state of reading to another.
pub open spec fn reads(
    progress: ProgressView,
    all: Seq<Seq<u8>>,
    width: nat,
    state: TodoStateView,
    lookups: LookupsView,
    next: ProgressView,
) -> bool {
    read_up(progress, all, width, all.len() as int, state, lookups) == Ok::<_, TodoError>(next)
}

proof fn reads_both(
    progress: ProgressView,
    a: Seq<Seq<u8>>,
    middle: ProgressView,
    b: Seq<Seq<u8>>,
    next: ProgressView,
    width: nat,
    state: TodoStateView,
    lookups: LookupsView,
)
    requires
        reads(progress, a, width, state, lookups, middle),
        reads(middle, b, width, state, lookups, next),
    ensures
        reads(progress, a + b, width, state, lookups, next),
{
    read_in_turn(progress, a, b, width, b.len() as int, state, lookups);
}

proof fn places_are_read(
    progress: ProgressView,
    refs: Seq<ExpectedRef<Seq<u8>>>,
    place: PlanParent,
    width: nat,
    state: TodoStateView,
    lookups: LookupsView,
)
    requires
        listable(refs),
        progress.refs == captured(refs),
        progress.cursor == Some(place),
        forall|i: int|
            0 <= i < placed_names(refs, place).len() ==> unplaced(
                progress.placed,
                #[trigger] placed_names(refs, place)[i],
            ),
    ensures
        reads(
            progress,
            place_lines(refs, place),
            width,
            state,
            lookups,
            ProgressView {
                placed: progress.placed + placed_at(placed_names(refs, place), place),
                fork_filled: progress.fork_filled || placed_names(refs, place).len() > 0,
                ..progress
            },
        ),
{
    let names = placed_names(refs, place);
    let all = place_lines(refs, place);
    reveal_with_fuel(read_up, 2);
    if names.len() == 0 {
        assert(progress.placed + placed_at(names, place) == progress.placed);
    } else {
        placed_names_hold(refs, place);
        shown_alike(refs);
        listed_alike(names, refs, names.len() as int);
        let known = captured(refs);
        assert(readable_names(names, known));
        assert(shown_apart(known)) by {
            assert forall|i: int, j: int|
                #![trigger known[i], known[j]]
                0 <= i < j < known.len() && known[i].editable
                    && known[j].editable implies display_name(known[i].name, known)
                != display_name(known[j].name, known) by {
                assert(refs[i].editable && refs[j].editable);
            }
        }
        ref_lines_are_read(names, known);
        let line = ref_text(names, refs);
        assert(line == ref_text(names, known));
        assert(railed(all[0], width) == line);
        let allowed = state.checkout_allowed && lookups.has_worktree;
        names_are_placed(progress, names, 0, place, allowed, lookups);
        assert(names.skip(0) == names);
    }
}

/// What is placed once reading went through some places.
pub open spec fn filled(
    refs: Seq<ExpectedRef<Seq<u8>>>,
    visited: Seq<PlanParent>,
) -> Seq<Placed<Seq<u8>>>
    decreases visited.len(),
{
    if visited.len() == 0 {
        Seq::empty()
    } else {
        filled(refs, visited.drop_last()) + placed_at(
            placed_names(refs, visited.last()),
            visited.last(),
        )
    }
}

proof fn filled_grows(refs: Seq<ExpectedRef<Seq<u8>>>, visited: Seq<PlanParent>, place: PlanParent)
    ensures
        filled(refs, visited.push(place)) == filled(refs, visited) + placed_at(
            placed_names(refs, place),
            place,
        ),
{
    assert(visited.push(place).drop_last() == visited);
}

proof fn filled_is_known(refs: Seq<ExpectedRef<Seq<u8>>>, visited: Seq<PlanParent>)
    requires
        listable(refs),
    ensures
        forall|i: int|
            0 <= i < filled(refs, visited).len() ==> visited.contains(
                (#[trigger] filled(refs, visited)[i]).target,
            ) && placed_as(
                refs,
                filled(refs, visited)[i].name,
                filled(refs, visited)[i].target,
                refs.len() as int,
            ),
    decreases visited.len(),
{
    if visited.len() > 0 {
        let rest = visited.drop_last();
        let place = visited.last();
        let before = filled(refs, rest);
        let names = placed_names(refs, place);
        let all = filled(refs, visited);
        filled_is_known(refs, rest);
        placed_names_hold(refs, place);
        assert forall|i: int| 0 <= i < all.len() implies visited.contains((#[trigger] all[i]).target)
            && placed_as(refs, all[i].name, all[i].target, refs.len() as int) by {
            if i < before.len() {
                assert(all[i] == before[i]);
                let k = rest.index_of(before[i].target);
                assert(visited[k] == before[i].target);
            } else {
                assert(all[i].name == names[i - before.len()]);
                assert(names.contains(names[i - before.len()]));
                assert(visited[visited.len() - 1] == place);
            }
        }
    }
}

proof fn fresh_is_unplaced(
    refs: Seq<ExpectedRef<Seq<u8>>>,
    visited: Seq<PlanParent>,
    place: PlanParent,
)
    requires
        listable(refs),
        visited.contains(place) ==> placed_names(refs, place).len() == 0,
    ensures
        forall|i: int|
            0 <= i < placed_names(refs, place).len() ==> unplaced(
                filled(refs, visited),
                #[trigger] placed_names(refs, place)[i],
            ),
{
    let names = placed_names(refs, place);
    let n = refs.len() as int;
    filled_is_known(refs, visited);
    placed_names_hold(refs, place);
    assert forall|i: int| 0 <= i < names.len() implies unplaced(
        filled(refs, visited),
        #[trigger] names[i],
    ) by {
        assert(names.contains(names[i]));
        assert(placed_as(refs, names[i], place, n));
        let one = choose|k: int|
            0 <= k < n && (#[trigger] refs[k]).name == names[i] && refs[k].placement == Some(place);
        assert forall|j: int| 0 <= j < filled(refs, visited).len() implies (#[trigger] filled(
            refs,
            visited,
        )[j]).name != names[i] by {
            let other = filled(refs, visited)[j];
            if other.name == names[i] {
                assert(placed_as(refs, other.name, other.target, n));
                let two = choose|k: int|
                    0 <= k < n && (#[trigger] refs[k]).name == other.name && refs[k].placement
                        == Some(other.target);
                names_differ(refs, one, two);
                assert(visited.contains(place));
            }
        }
    }
}

proof fn filled_is_found(refs: Seq<ExpectedRef<Seq<u8>>>, visited: Seq<PlanParent>, at: int)
    requires
        listable(refs),
        0 <= at < refs.len(),
        refs[at].editable,
    ensures
        placement_from(filled(refs, visited), refs[at].name, 0) == (match refs[at].placement {
            Some(place) => if visited.contains(place) {
                Some(place)
            } else {
                None
            },
            None => None,
        }),
    decreases visited.len(),
{
    if visited.len() > 0 {
        let rest = visited.drop_last();
        let place = visited.last();
        let names = placed_names(refs, place);
        let name = refs[at].name;
        let n = refs.len() as int;
        filled_is_found(refs, rest, at);
        placed_names_hold(refs, place);
        placement_in_parts(filled(refs, rest), placed_at(names, place), name, 0);
        placed_is_found(names, place, name, 0);
        assert(names.skip(0) == names);
        if names.contains(name) {
            assert(placed_as(refs, name, place, n));
            let k = choose|k: int|
                0 <= k < n && (#[trigger] refs[k]).name == name && refs[k].placement == Some(place);
            names_differ(refs, at, k);
        }
        if refs[at].placement == Some(place) {
            assert(placed_as(refs, name, place, n));
            assert(names.contains(name));
            assert(visited[visited.len() - 1] == place);
        }
        if let Some(own) = refs[at].placement {
            if rest.contains(own) {
                let k = rest.index_of(own);
                assert(visited[k] == own);
            }
            if visited.contains(own) && own != place {
                let k = visited.index_of(own);
                assert(rest[k] == own);
            }
        }
    }
}

/// The places that the first `end` steps go through: the commits that they start at, and their results.
pub open spec fn places_of(steps: Seq<StepView>, end: int) -> Seq<PlanParent>
    decreases end, 0int,
{
    if end <= 0 || end > steps.len() {
        Seq::empty()
    } else {
        started_at(steps, end - 1).push(PlanParent::Step((end - 1) as usize))
    }
}

/// The places that are gone through up to the start of a step.
pub open spec fn started_at(steps: Seq<StepView>, index: int) -> Seq<PlanParent>
    decreases index, 1int,
{
    if index < 0 || index >= steps.len() {
        Seq::empty()
    } else if steps[index].parent is Existing {
        places_of(steps, index).push(steps[index].parent)
    } else {
        places_of(steps, index)
    }
}

/// Whether one of the first `end` steps starts at a place, or ends there.
pub open spec fn passes(steps: Seq<StepView>, place: PlanParent, end: int) -> bool {
    match place {
        PlanParent::Step(index) => index < end,
        PlanParent::Existing(_) => exists|i: int| 0 <= i < end && (#[trigger] steps[i]).parent == place,
    }
}

proof fn places_are_passed(steps: Seq<StepView>, end: int)
    requires
        0 <= end <= steps.len() <= usize::MAX,
    ensures
        forall|place: PlanParent| #[trigger]
            places_of(steps, end).contains(place) <==> passes(steps, place, end),
    decreases end,
{
    let all = places_of(steps, end);
    if end > 0 {
        places_are_passed(steps, end - 1);
        let before = places_of(steps, end - 1);
        let start = started_at(steps, end - 1);
        let last = PlanParent::Step((end - 1) as usize);
        assert(all == start.push(last));
        assert forall|place: PlanParent| #[trigger] all.contains(place) <==> passes(
            steps,
            place,
            end,
        ) by {
            if all.contains(place) {
                let k = all.index_of(place);
                if k < before.len() {
                    assert(before[k] == place);
                    assert(before.contains(place));
                    assert(passes(steps, place, end - 1));
                } else if k < start.len() {
                    assert(start[k] == steps[end - 1].parent);
                }
            }
            if passes(steps, place, end) {
                if passes(steps, place, end - 1) {
                    assert(before.contains(place));
                    let k = before.index_of(place);
                    assert(all[k] == place);
                } else {
                    match place {
                        PlanParent::Step(index) => {
                            assert(index == end - 1);
                            assert(all[all.len() - 1] == place);
                        },
                        PlanParent::Existing(_) => {
                            let i = choose|i: int|
                                0 <= i < end && (#[trigger] steps[i]).parent == place;
                            assert(i == end - 1);
                            assert(start[before.len() as int] == place);
                            assert(all[before.len() as int] == place);
                        },
                    }
                }
            }
        }
    }
}

/// Whether no commit ends up in the results of two steps, nor twice in that of one.
pub open spec fn once(steps: Seq<StepView>) -> bool {
    &&& forall|i: int, j: int, id: ObjectId|
        0 <= i < j < steps.len() && #[trigger] holds(steps[i], id) ==> !(#[trigger] holds(
            steps[j],
            id,
        ))
    &&& forall|i: int|
        0 <= i < steps.len() ==> (#[trigger] steps[i]).squash.no_duplicates() && (kept(
            steps[i].commit,
        ) matches Some(id) ==> !steps[i].squash.contains(id))
}

proof fn held_nowhere(steps: Seq<StepView>, id: ObjectId, end: int)
    requires
        0 <= end <= steps.len(),
        forall|i: int| 0 <= i < end ==> !holds(#[trigger] steps[i], id),
    ensures
        position(steps, id, end) is None,
    decreases end,
{
    if end > 0 {
        held_nowhere(steps, id, end - 1);
    }
}

proof fn held_there(steps: Seq<StepView>, id: ObjectId, at: int, end: int)
    requires
        0 <= at < end <= steps.len(),
        holds(steps[at], id),
        forall|i: int| at < i < end ==> !holds(#[trigger] steps[i], id),
    ensures
        position(steps, id, end) == Some(at as usize),
    decreases end,
{
    if at < end - 1 {
        held_there(steps, id, at, end - 1);
    }
}

/// Whether the commit that a step starts at can be named where the step forks off.
pub open spec fn starts(
    plan: PlanView<ExpectedRef<Seq<u8>>>,
    labels: Seq<Label<Seq<u8>>>,
    lookups: LookupsView,
    index: int,
) -> bool {
    match plan.steps[index].parent {
        PlanParent::Existing(id) => labelled(labels, lookups, id) && !plan.scope.contains(id),
        PlanParent::Step(parent) => parent < index && (parent + 1 == index || (kept(
            plan.steps[parent as int].commit,
        ) matches Some(id) && labelled(labels, lookups, id))),
    }
}

/// Whether a title reads back as it is: UTF-8 on one line, without a backtick or white space around it.
pub open spec fn titled(title: Seq<u8>) -> bool {
    &&& lossy(title) == title
    &&& title.len() > 0
    &&& trimmed(title) == title
    &&& unbroken(title)
    &&& !title.contains(96)
}

/// Whether what a step produces can be named. There is one resolved conflict at most, and no commit is
/// shown by the null id, which stands for that.
pub open spec fn produces(
    plan: PlanView<ExpectedRef<Seq<u8>>>,
    labels: Seq<Label<Seq<u8>>>,
    lookups: LookupsView,
    index: int,
) -> bool {
    match plan.steps[index].commit {
        PlanCommit::Pick(id) => plan.scope.contains(id) && labelled(labels, lookups, id)
            && !full_null(label_from(labels, id, 0).short),
        PlanCommit::Resolved(id) => plan.scope.contains(id) && resolved_of(plan.steps, 0) == Some(id)
            && fits_line(label_from(labels, id, 0).states + label_from(labels, id, 0).info),
        PlanCommit::Empty(title) => titled(title),
        PlanCommit::Copy(_) => false,
    }
}

/// Whether the commits that are folded into a step can be named.
pub open spec fn folds(
    plan: PlanView<ExpectedRef<Seq<u8>>>,
    labels: Seq<Label<Seq<u8>>>,
    lookups: LookupsView,
    index: int,
) -> bool {
    forall|k: int|
        0 <= k < plan.steps[index].squash.len() ==> plan.scope.contains(
            #[trigger] plan.steps[index].squash[k],
        ) && labelled(labels, lookups, plan.steps[index].squash[k])
}

/// Whether a plan can be read from the todo that continues it: commits are picked or folded in once and are
/// shown by what names them, references are placed where steps start or end, on at most one fork at a
/// commit that exists, and what is checked out is the result of a step.
#[verifier::opaque]
pub open spec fn resumable(
    plan: PlanView<ExpectedRef<Seq<u8>>>,
    labels: Seq<Label<Seq<u8>>>,
    has_worktree: bool,
    lookups: LookupsView,
) -> bool {
    let refs = plan.expected_refs;
    &&& 0 < plan.steps.len() <= usize::MAX
    &&& once(plan.steps)
    &&& forall|i: int|
        #![trigger plan.steps[i]]
        0 <= i < plan.steps.len() ==> starts(plan, labels, lookups, i) && produces(
            plan,
            labels,
            lookups,
            i,
        ) && folds(plan, labels, lookups, i)
    &&& listable(refs)
    &&& forall|k: int|
        0 <= k < refs.len() ==> ((#[trigger] refs[k]).placement matches Some(place) ==> passes(
            plan.steps,
            place,
            plan.steps.len() as int,
        ) && (place is Existing ==> forall|i: int, j: int|
            0 <= i < j < plan.steps.len() ==> !((#[trigger] plan.steps[i]).parent == place && (
            #[trigger] plan.steps[j]).parent == place)))
    &&& plan.checkout matches Some(checkout) ==> {
        &&& has_worktree && lookups.has_worktree
        &&& checkout.target is Step
        &&& passes(plan.steps, checkout.target, plan.steps.len() as int)
        &&& checkout.reference matches Some(name) ==> placed_as(
            refs,
            name,
            checkout.target,
            refs.len() as int,
        )
    }
}

/// Whether a state is that of the todo that continues a plan.
pub open spec fn continuing(
    plan: PlanView<ExpectedRef<Seq<u8>>>,
    has_worktree: bool,
    state: TodoStateView,
) -> bool {
    &&& state.scope == plan.scope
    &&& state.resolved == resolved_of(plan.steps, 0)
    &&& state.checkout_allowed == has_worktree
}

/// The step to check out, if it is one of the first `end`.
pub open spec fn checkout_at(plan: PlanView<ExpectedRef<Seq<u8>>>, end: int) -> Option<PlanParent> {
    match plan.checkout {
        Some(checkout) => match checkout.target {
            PlanParent::Step(index) => if index < end {
                Some(checkout.target)
            } else {
                None
            },
            PlanParent::Existing(_) => None,
        },
        None => None,
    }
}

/// How many of the first `end` steps fork off.
pub open spec fn forks_of(steps: Seq<StepView>, end: int) -> int
    decreases end,
{
    if end <= 0 {
        0
    } else {
        forks_of(steps, end - 1) + (if continues(steps, end - 1) {
            0int
        } else {
            1
        })
    }
}

proof fn steps_fork(steps: Seq<StepView>, end: int)
    requires
        0 <= end,
    ensures
        forks_of(steps, end) >= 0,
        end > 0 ==> forks_of(steps, end) > 0,
    decreases end,
{
    if end > 0 {
        steps_fork(steps, end - 1);
    }
}

/// What is read once the first `end` steps are.
pub open spec fn resumed_to(plan: PlanView<ExpectedRef<Seq<u8>>>, end: int) -> ProgressView {
    ProgressView {
        steps: plan.steps.take(end),
        cursor: if end > 0 {
            Some(PlanParent::Step((end - 1) as usize))
        } else {
            None
        },
        checkout: checkout_at(plan, end),
        attach: None,
        marked: checkout_at(plan, end) is Some,
        placed: filled(plan.expected_refs, places_of(plan.steps, end)),
        refs: captured(plan.expected_refs),
        forks: forks_of(plan.steps, end),
        fork_filled: end > 0,
        fork_step: if end > 0 {
            Some((end - 1) as usize)
        } else {
            None
        },
    }
}

/// What is read once reading is where a step starts.
pub open spec fn started(plan: PlanView<ExpectedRef<Seq<u8>>>, index: int) -> ProgressView {
    let parent = plan.steps[index].parent;
    let goes_on = continues(plan.steps, index);
    ProgressView {
        cursor: Some(parent),
        placed: filled(plan.expected_refs, started_at(plan.steps, index)),
        forks: forks_of(plan.steps, index + 1),
        fork_filled: goes_on || parent is Existing && placed_names(plan.expected_refs, parent).len()
            > 0,
        fork_step: if goes_on {
            Some((index - 1) as usize)
        } else {
            None
        },
        ..resumed_to(plan, index)
    }
}

/// What is read once a step and the first `end` commits that are folded into it are.
pub open spec fn folded(plan: PlanView<ExpectedRef<Seq<u8>>>, index: int, end: int) -> ProgressView {
    let step = plan.steps[index];
    ProgressView {
        steps: plan.steps.take(index).push(PlanStep { squash: step.squash.take(end), ..step }),
        cursor: Some(PlanParent::Step(index as usize)),
        checkout: checkout_at(plan, index + 1),
        marked: checkout_at(plan, index + 1) is Some,
        fork_filled: true,
        fork_step: Some(index as usize),
        ..started(plan, index)
    }
}

/// A command in backticks, and what is behind it.
pub open spec fn quoted_command(verb: Seq<u8>, value: Seq<u8>, rest: Seq<u8>) -> Seq<u8> {
    "`".spec_bytes() + verb + seq![32u8] + value + "`".spec_bytes() + rest
}

/// What is shown behind the command of a commit.
pub open spec fn shown_behind(label: Label<Seq<u8>>) -> Seq<u8> {
    seq![32u8] + (label.states + label.info)
}

/// The line of what a step produces.
pub open spec fn produced_line(
    commit: PlanCommit<Seq<u8>>,
    labels: Seq<Label<Seq<u8>>>,
    marked: bool,
) -> Seq<u8> {
    match commit {
        PlanCommit::Empty(title) => quoted_command(
            verb_text(marked, "empty".spec_bytes()),
            lossy(title),
            Seq::empty(),
        ),
        PlanCommit::Pick(id) | PlanCommit::Copy(id) | PlanCommit::Resolved(id) => {
            let label = label_from(labels, id, 0);
            quoted_command(
                verb_text(marked, "pick".spec_bytes()),
                shown_id(commit, label),
                shown_behind(label),
            )
        },
    }
}

/// The line of a commit that is folded into a step.
pub open spec fn squash_line(labels: Seq<Label<Seq<u8>>>, id: ObjectId) -> Seq<u8> {
    let label = label_from(labels, id, 0);
    quoted_command("squash".spec_bytes(), label.short, shown_behind(label))
}

/// The lines of the first `end` commits that are folded into a step.
pub open spec fn squash_lines(
    labels: Seq<Label<Seq<u8>>>,
    squash: Seq<ObjectId>,
    end: int,
) -> Seq<Seq<u8>>
    decreases end,
{
    if end <= 0 || end > squash.len() {
        Seq::empty()
    } else {
        squash_lines(labels, squash, end - 1) + seq![squash_line(labels, squash[end - 1])]
    }
}

proof fn verbs_are_bytes()
    ensures
        "@".spec_bytes() == seq![64u8],
        "pick".spec_bytes() == seq![112u8, 105, 99, 107],
        "empty".spec_bytes() == seq![101u8, 109, 112, 116, 121],
        "squash".spec_bytes() == seq![115u8, 113, 117, 97, 115, 104],
{
    broadcast use vstd::string::is_ascii_spec_bytes;

    reveal_strlit("@");
    assert(vstd::string::is_ascii("@"));
    assert("@".spec_bytes() =~= seq![64u8]);
    reveal_strlit("pick");
    assert(vstd::string::is_ascii("pick"));
    assert("pick".spec_bytes() =~= seq![112u8, 105, 99, 107]);
    reveal_strlit("empty");
    assert(vstd::string::is_ascii("empty"));
    assert("empty".spec_bytes() =~= seq![101u8, 109, 112, 116, 121]);
    reveal_strlit("squash");
    assert(vstd::string::is_ascii("squash"));
    assert("squash".spec_bytes() =~= seq![115u8, 113, 117, 97, 115, 104]);
}

proof fn verbs_are_read(marked: bool, verb: Seq<u8>)
    requires
        verb == "pick".spec_bytes() || verb == "empty".spec_bytes() || verb
            == "squash".spec_bytes(),
    ensures
        ({
            let text = verb_text(marked, verb);
            &&& visible(text)
            &&& forall|i: int| 0 <= i < text.len() ==> text[i] != 96
            &&& (text[0] == 64) == marked
            &&& marked ==> text.skip(1) == verb
            &&& !marked ==> text == verb
        }),
        "pick".spec_bytes() != "squash".spec_bytes(),
        "empty".spec_bytes() != "squash".spec_bytes(),
        "empty".spec_bytes() != "pick".spec_bytes(),
{
    verbs_are_bytes();
    assert("pick".spec_bytes().len() == 4);
    assert("empty".spec_bytes().len() == 5);
    assert("squash".spec_bytes().len() == 6);
    assert(visible(verb) && verb[0] != 64 && forall|i: int| 0 <= i < verb.len() ==> verb[i] != 96);
    let text = verb_text(marked, verb);
    if marked {
        assert(text == seq![64u8] + verb);
        assert(text.skip(1) == verb);
        assert forall|i: int| 0 <= i < text.len() implies 33 <= #[trigger] text[i] <= 126 && text[i]
            != 96 by {
            if i > 0 {
                assert(text[i] == verb[i - 1]);
            }
        }
    }
}

proof fn contexts_are_read(label: Label<Seq<u8>>)
    requires
        fits_line(label.states + label.info),
    ensures
        fits_line(shown_behind(label)),
{
    let context = label.states + label.info;
    let behind = shown_behind(label);
    assert forall|i: int| 0 <= i < behind.len() implies behind[i] != LF by {
        if i > 0 {
            assert(behind[i] == context[i - 1]);
        }
    }
    if context.len() > 0 {
        assert(behind.last() == context.last());
    }
}

proof fn resolved_is_read(id: ObjectId, label: Label<Seq<u8>>) -> (value: Seq<u8>)
    ensures
        value == shown_id(PlanCommit::Resolved(id), label),
        unbroken(value),
        forall|i: int| 0 <= i < value.len() ==> value[i] != 96,
        word(value) matches Some(text) && full_null(text),
{
    null_is_zeros();
    let null = hex_of(ObjectId { high: 0, low: 0 });
    let rest = match label.change_id {
        Some(change_id) => seq![32u8] + reverse_hex_of(change_id),
        None => Seq::empty(),
    };
    if let Some(change_id) = label.change_id {
        reverse_hex_round_trip(change_id);
        assert forall|i: int| 0 <= i < rest.len() implies rest[i] != LF && rest[i] != 96 by {
            if i > 0 {
                assert(rest[i] == reverse_hex_of(change_id)[i - 1]);
            }
        }
    }
    first_words(null, rest);
    let value = null + rest;
    assert forall|i: int| 0 <= i < value.len() implies value[i] != LF && value[i] != 96 by {
        if i < 40 {
            assert(value[i] == null[i]);
        } else {
            assert(value[i] == rest[i - 40]);
        }
    }
    value
}

proof fn titles_are_read(title: Seq<u8>)
    requires
        titled(title),
    ensures
        forall|i: int| 0 <= i < title.len() ==> title[i] != 96,
        fits_line(Seq::<u8>::empty()),
{
    assert forall|i: int| 0 <= i < title.len() implies title[i] != 96 by {
        assert(title.contains(title[i]));
    }
}

proof fn short_names_are_read(labels: Seq<Label<Seq<u8>>>, lookups: LookupsView, id: ObjectId)
    requires
        labelled(labels, lookups, id),
    ensures
        ({
            let label = label_from(labels, id, 0);
            &&& unbroken(label.short)
            &&& forall|i: int| 0 <= i < label.short.len() ==> label.short[i] != 96
            &&& word(label.short) == Some(label.short)
            &&& fits_line(shown_behind(label))
        }),
{
    let label = label_from(labels, id, 0);
    prefixes_are_visible(label.short);
    first_words(label.short, Seq::empty());
    assert(label.short + Seq::<u8>::empty() == label.short);
    contexts_are_read(label);
}

/// Whether a line is a command that is read as given.
pub open spec fn is_command(line: Seq<u8>, marked: bool, verb: Seq<u8>, value: Seq<u8>) -> bool {
    let text = trimmed(line);
    &&& fits_line(line)
    &&& speaks(line)
    &&& !has_prefix(line, "fork ".spec_bytes())
    &&& text.len() > 0
    &&& !is_separator(text)
    &&& !is_ref_line(text)
    &&& command(text) matches Ok(command) && command.marked == marked && command.verb == verb
        && command.value == value
}

proof fn verbs_make_commands(marked: bool, verb: Seq<u8>, value: Seq<u8>, rest: Seq<u8>)
    requires
        verb == "pick".spec_bytes() || verb == "empty".spec_bytes() || verb
            == "squash".spec_bytes(),
        unbroken(value),
        forall|i: int| 0 <= i < value.len() ==> value[i] != 96,
        fits_line(rest),
    ensures
        is_command(quoted_command(verb_text(marked, verb), value, rest), marked, verb, value),
{
    verbs_are_read(marked, verb);
    commands_are_read(verb_text(marked, verb), value, rest);
}

proof fn produced_texts_are_lines(
    commit: PlanCommit<Seq<u8>>,
    labels: Seq<Label<Seq<u8>>>,
    marked: bool,
)
    ensures
        produced_text(commit, labels, marked) == produced_line(commit, labels, marked) + seq![LF],
{
    backticks_are_bytes();
    match commit {
        PlanCommit::Empty(title) => {
            let verb = verb_text(marked, "empty".spec_bytes());
            let front = seq![96u8] + verb + seq![32u8] + lossy(title);
            assert(front + seq![96u8, LF] == front + seq![96u8] + Seq::<u8>::empty() + seq![LF]);
        },
        PlanCommit::Pick(id) | PlanCommit::Copy(id) | PlanCommit::Resolved(id) => {
            let label = label_from(labels, id, 0);
            let verb = verb_text(marked, "pick".spec_bytes());
            commands_are_lines(verb, shown_id(commit, label), label);
        },
    }
}

proof fn commands_are_lines(verb: Seq<u8>, value: Seq<u8>, label: Label<Seq<u8>>)
    ensures
        command_line(verb, value, label.states + label.info) == quoted_command(
            verb,
            value,
            shown_behind(label),
        ) + seq![LF],
{
    backticks_are_bytes();
    let front = seq![96u8] + verb + seq![32u8] + value;
    let context = label.states + label.info;
    assert(front + seq![96u8, 32] + context + seq![LF] == front + seq![96u8] + (seq![32u8] + context)
        + seq![LF]);
}

/// Whether a step is the one to check out.
pub open spec fn marks(plan: PlanView<ExpectedRef<Seq<u8>>>, index: int) -> bool {
    plan.checkout matches Some(checkout) && checkout.target == PlanParent::Step(index as usize)
}

proof fn steps_are_fit(
    plan: PlanView<ExpectedRef<Seq<u8>>>,
    labels: Seq<Label<Seq<u8>>>,
    has_worktree: bool,
    lookups: LookupsView,
    index: int,
)
    requires
        resumable(plan, labels, has_worktree, lookups),
        0 <= index < plan.steps.len(),
    ensures
        plan.steps.len() <= usize::MAX,
        once(plan.steps),
        starts(plan, labels, lookups, index),
        produces(plan, labels, lookups, index),
        folds(plan, labels, lookups, index),
        listable(plan.expected_refs),
        plan.checkout is Some ==> has_worktree && lookups.has_worktree,
{
    reveal(resumable);
    let step = plan.steps[index];
}

proof fn one_line_is_read(
    progress: ProgressView,
    line: Seq<u8>,
    width: nat,
    state: TodoStateView,
    lookups: LookupsView,
    next: ProgressView,
)
    requires
        trimmed(railed(line, width)).len() > 0,
        after_line(progress, trimmed(railed(line, width)), state, lookups) == Ok::<_, TodoError>(
            next,
        ),
    ensures
        reads(progress, seq![line], width, state, lookups, next),
{
    reveal_with_fuel(read_up, 2);
    assert(seq![line][0] == line);
}

proof fn checkouts_are_kept(plan: PlanView<ExpectedRef<Seq<u8>>>, index: int)
    requires
        0 <= index < plan.steps.len() <= usize::MAX,
    ensures
        marks(plan, index) ==> checkout_at(plan, index) is None && checkout_at(plan, index + 1)
            == Some(PlanParent::Step(index as usize)),
        !marks(plan, index) ==> checkout_at(plan, index + 1) == checkout_at(plan, index),
{
}

proof fn produced_is_read(
    plan: PlanView<ExpectedRef<Seq<u8>>>,
    labels: Seq<Label<Seq<u8>>>,
    has_worktree: bool,
    index: int,
    width: nat,
    state: TodoStateView,
    lookups: LookupsView,
)
    requires
        resumable(plan, labels, has_worktree, lookups),
        continuing(plan, has_worktree, state),
        0 <= index < plan.steps.len(),
    ensures
        ({
            let commit = plan.steps[index].commit;
            let line = produced_line(commit, labels, marks(plan, index));
            &&& shows(produced_text(commit, labels, marks(plan, index)), seq![line], width)
            &&& reads(
                started(plan, index),
                seq![line],
                width,
                state,
                lookups,
                folded(plan, index, 0),
            )
        }),
{
    let step = plan.steps[index];
    let commit = step.commit;
    let marked = marks(plan, index);
    let line = produced_line(commit, labels, marked);
    let progress = started(plan, index);
    let next = folded(plan, index, 0);
    steps_are_fit(plan, labels, has_worktree, lookups, index);
    checkouts_are_kept(plan, index);
    produced_texts_are_lines(commit, labels, marked);
    verbs_are_read(marked, "pick".spec_bytes());
    let before = plan.steps.take(index);
    if let Some(id) = kept(commit) {
        assert(holds(step, id));
        assert forall|i: int| 0 <= i < index implies !holds(#[trigger] before[i], id) by {
            assert(before[i] == plan.steps[i]);
            if holds(plan.steps[i], id) {
                assert(!holds(plan.steps[index], id));
            }
        }
        held_nowhere(before, id, index);
    }
    match commit {
        PlanCommit::Pick(id) => {
            let label = label_from(labels, id, 0);
            short_names_are_read(labels, lookups, id);
            verbs_make_commands(marked, "pick".spec_bytes(), label.short, shown_behind(label));
        },
        PlanCommit::Resolved(id) => {
            let label = label_from(labels, id, 0);
            let value = resolved_is_read(id, label);
            contexts_are_read(label);
            verbs_make_commands(marked, "pick".spec_bytes(), value, shown_behind(label));
        },
        PlanCommit::Empty(title) => {
            titles_are_read(title);
            verbs_make_commands(marked, "empty".spec_bytes(), title, Seq::empty());
        },
        PlanCommit::Copy(_) => {},
    }
    assert(railed(line, width) == line);
    shows_line(line, width);
    assert(step.squash.take(0) == Seq::<ObjectId>::empty());
    assert(next.steps == before.push(
        PlanStep { parent: step.parent, commit, squash: Seq::empty() },
    ));
    assert(progress.steps == before && before.len() == index);
    assert(after_line(progress, trimmed(line), state, lookups) == Ok::<_, TodoError>(next));
    one_line_is_read(progress, line, width, state, lookups, next);
}

proof fn squash_is_read(
    plan: PlanView<ExpectedRef<Seq<u8>>>,
    labels: Seq<Label<Seq<u8>>>,
    has_worktree: bool,
    index: int,
    at: int,
    width: nat,
    state: TodoStateView,
    lookups: LookupsView,
)
    requires
        resumable(plan, labels, has_worktree, lookups),
        continuing(plan, has_worktree, state),
        0 <= index < plan.steps.len(),
        0 <= at < plan.steps[index].squash.len(),
    ensures
        ({
            let id = plan.steps[index].squash[at];
            let label = label_from(labels, id, 0);
            let line = squash_line(labels, id);
            let text = command_line("squash".spec_bytes(), label.short, label.states + label.info);
            &&& shows(text, seq![line], width)
            &&& reads(
                folded(plan, index, at),
                seq![line],
                width,
                state,
                lookups,
                folded(plan, index, at + 1),
            )
        }),
{
    let step = plan.steps[index];
    let id = step.squash[at];
    let label = label_from(labels, id, 0);
    let line = squash_line(labels, id);
    let progress = folded(plan, index, at);
    let next = folded(plan, index, at + 1);
    steps_are_fit(plan, labels, has_worktree, lookups, index);
    assert(plan.scope.contains(step.squash[at]));
    short_names_are_read(labels, lookups, id);
    verbs_are_read(false, "squash".spec_bytes());
    verbs_make_commands(false, "squash".spec_bytes(), label.short, shown_behind(label));
    commands_are_lines("squash".spec_bytes(), label.short, label);
    assert(railed(line, width) == line);
    shows_line(line, width);
    let all = progress.steps;
    assert(all.len() == index + 1);
    assert(holds(step, id)) by {
        assert(step.squash.contains(step.squash[at]));
    }
    assert forall|i: int| 0 <= i < all.len() implies !holds(#[trigger] all[i], id) by {
        if i < index {
            assert(all[i] == plan.steps[i]);
            if holds(plan.steps[i], id) {
                assert(!holds(plan.steps[index], id));
            }
        } else {
            assert(step.squash.no_duplicates());
            if step.squash.take(at).contains(id) {
                let k = step.squash.take(at).index_of(id);
                assert(step.squash[k] == step.squash[at]);
            }
        }
    }
    held_nowhere(all, id, all.len() as int);
    assert(step.squash.take(at + 1) == step.squash.take(at).push(id));
    assert(next.steps == all.update(
        index,
        PlanStep { squash: all[index].squash.push(id), ..all[index] },
    ));
    assert(after_line(progress, trimmed(line), state, lookups) == Ok::<_, TodoError>(next));
    one_line_is_read(progress, line, width, state, lookups, next);
}

proof fn squashes_are_read(
    plan: PlanView<ExpectedRef<Seq<u8>>>,
    labels: Seq<Label<Seq<u8>>>,
    has_worktree: bool,
    index: int,
    end: int,
    width: nat,
    state: TodoStateView,
    lookups: LookupsView,
)
    requires
        resumable(plan, labels, has_worktree, lookups),
        continuing(plan, has_worktree, state),
        0 <= index < plan.steps.len(),
        0 <= end <= plan.steps[index].squash.len(),
    ensures
        ({
            let squash = plan.steps[index].squash;
            let all = squash_lines(labels, squash, end);
            &&& shows(squash_text(squash, labels, end), all, width)
            &&& reads(
                folded(plan, index, 0),
                all,
                width,
                state,
                lookups,
                folded(plan, index, end),
            )
        }),
    decreases end,
{
    let squash = plan.steps[index].squash;
    if end == 0 {
        shows_nothing(width);
    } else {
        squashes_are_read(plan, labels, has_worktree, index, end - 1, width, state, lookups);
        squash_is_read(plan, labels, has_worktree, index, end - 1, width, state, lookups);
        let id = squash[end - 1];
        let label = label_from(labels, id, 0);
        shows_both(
            squash_text(squash, labels, end - 1),
            squash_lines(labels, squash, end - 1),
            command_line("squash".spec_bytes(), label.short, label.states + label.info),
            seq![squash_line(labels, id)],
            width,
        );
        reads_both(
            folded(plan, index, 0),
            squash_lines(labels, squash, end - 1),
            folded(plan, index, end - 1),
            seq![squash_line(labels, id)],
            folded(plan, index, end),
            width,
            state,
            lookups,
        );
    }
}

/// What the heading of a fork says behind the id of its commit.
pub open spec fn head_rest(
    plan: PlanView<ExpectedRef<Seq<u8>>>,
    labels: Seq<Label<Seq<u8>>>,
    point: ObjectId,
) -> Seq<u8> {
    if point == plan.base {
        " (".spec_bytes() + "base".spec_bytes() + ") ".spec_bytes() + label_from(
            labels,
            point,
            0,
        ).info
    } else {
        Seq::empty()
    }
}

/// The heading of a fork.
pub open spec fn head_line(
    plan: PlanView<ExpectedRef<Seq<u8>>>,
    labels: Seq<Label<Seq<u8>>>,
    point: ObjectId,
) -> Seq<u8> {
    "fork ".spec_bytes() + label_from(labels, point, 0).short + head_rest(plan, labels, point)
}

proof fn heads_are_read(
    plan: PlanView<ExpectedRef<Seq<u8>>>,
    labels: Seq<Label<Seq<u8>>>,
    point: ObjectId,
    width: nat,
    lookups: LookupsView,
)
    requires
        labelled(labels, lookups, point),
    ensures
        ({
            let line = head_line(plan, labels, point);
            let text = railed(line, width);
            &&& fits_line(line)
            &&& fits_line(text)
            &&& trimmed(text) == text
            &&& text.len() > 0
            &&& speaks(text)
            &&& is_separator(text)
            &&& separator_target(text) matches Some(target) && word(target) == Some(
                label_from(labels, point, 0).short,
            )
        }),
{
    broadcast use vstd::string::is_ascii_spec_bytes;

    reveal_strlit(" (");
    assert(vstd::string::is_ascii(" ("));
    assert(" (".spec_bytes() =~= seq![32u8, 40]);
    reveal_strlit("base");
    assert(vstd::string::is_ascii("base"));
    assert("base".spec_bytes() =~= seq![98u8, 97, 115, 101]);
    reveal_strlit(") ");
    assert(vstd::string::is_ascii(") "));
    assert(") ".spec_bytes() =~= seq![41u8, 32]);
    let label = label_from(labels, point, 0);
    let rest = head_rest(plan, labels, point);
    prefixes_are_visible(label.short);
    assert(fits_line(rest) && (rest.len() == 0 || rest[0] == 32)) by {
        let context = label.states + label.info;
        let front = seq![32u8, 40] + seq![98u8, 97, 115, 101] + seq![41u8, 32];
        if point == plan.base {
            assert(rest == front + label.info);
            assert forall|i: int| 0 <= i < rest.len() implies rest[i] != LF by {
                if i < 8 {
                    assert(rest[i] == front[i]);
                } else {
                    assert(rest[i] == label.info[i - 8]);
                    assert(label.info[i - 8] == context[label.states.len() + i - 8]);
                }
            }
            if label.info.len() > 0 {
                assert(rest.last() == label.info.last());
                assert(context.last() == label.info.last());
            }
        }
    }
    headings_name_their_commit(label.short, rest, width);
    headings_fit(label.short, rest);
}

/// The lines that a fork starts with.
pub open spec fn fork_lines(
    plan: PlanView<ExpectedRef<Seq<u8>>>,
    labels: Seq<Label<Seq<u8>>>,
    index: int,
) -> Seq<Seq<u8>> {
    let parent = plan.steps[index].parent;
    gap(index) + seq![head_line(plan, labels, fork_point(plan.steps, index)->0)] + (
    if parent is Existing {
        place_lines(plan.expected_refs, parent)
    } else {
        Seq::empty()
    })
}

proof fn points_are_found(
    plan: PlanView<ExpectedRef<Seq<u8>>>,
    labels: Seq<Label<Seq<u8>>>,
    has_worktree: bool,
    index: int,
    lookups: LookupsView,
)
    requires
        resumable(plan, labels, has_worktree, lookups),
        0 <= index < plan.steps.len(),
        !continues(plan.steps, index),
    ensures
        fork_point(plan.steps, index) matches Some(point) && labelled(labels, lookups, point) && (
        match plan.steps[index].parent {
            PlanParent::Existing(_) => !plan.scope.contains(point) && position(
                plan.steps.take(index),
                point,
                index,
            ) is None,
            PlanParent::Step(parent) => position(plan.steps.take(index), point, index) == Some(
                parent,
            ),
        }),
{
    let before = plan.steps.take(index);
    steps_are_fit(plan, labels, has_worktree, lookups, index);
    match plan.steps[index].parent {
        PlanParent::Existing(point) => {
            assert forall|i: int| 0 <= i < index implies !holds(#[trigger] before[i], point) by {
                assert(before[i] == plan.steps[i]);
                steps_are_fit(plan, labels, has_worktree, lookups, i);
                let step = plan.steps[i];
                if step.squash.contains(point) {
                    let k = step.squash.index_of(point);
                    assert(plan.scope.contains(step.squash[k]));
                }
            }
            held_nowhere(before, point, index);
        },
        PlanParent::Step(parent) => {
            let point = kept(plan.steps[parent as int].commit)->0;
            steps_are_fit(plan, labels, has_worktree, lookups, parent as int);
            assert(before[parent as int] == plan.steps[parent as int]);
            assert(holds(plan.steps[parent as int], point));
            assert forall|i: int| parent < i < index implies !holds(#[trigger] before[i], point) by {
                assert(before[i] == plan.steps[i]);
                assert(!holds(plan.steps[i], point));
            }
            held_there(before, point, parent as int, index);
        },
    }
}

proof fn heads_start_forks(
    plan: PlanView<ExpectedRef<Seq<u8>>>,
    labels: Seq<Label<Seq<u8>>>,
    has_worktree: bool,
    index: int,
    width: nat,
    state: TodoStateView,
    lookups: LookupsView,
) -> (middle: ProgressView)
    requires
        resumable(plan, labels, has_worktree, lookups),
        continuing(plan, has_worktree, state),
        0 <= index < plan.steps.len(),
        !continues(plan.steps, index),
    ensures
        middle == (ProgressView {
            cursor: Some(plan.steps[index].parent),
            forks: forks_of(plan.steps, index + 1),
            fork_filled: false,
            fork_step: None,
            ..resumed_to(plan, index)
        }),
        ({
            let point = fork_point(plan.steps, index)->0;
            let line = head_line(plan, labels, point);
            let note = if point == plan.base {
                Some(("base".spec_bytes(), label_from(labels, point, 0).info))
            } else {
                None
            };
            &&& shows(
                heading(label_from(labels, point, 0).short, note),
                seq![line],
                width,
            )
            &&& reads(resumed_to(plan, index), seq![line], width, state, lookups, middle)
        }),
{
    let point = fork_point(plan.steps, index)->0;
    let line = head_line(plan, labels, point);
    let progress = resumed_to(plan, index);
    points_are_found(plan, labels, has_worktree, index, lookups);
    heads_are_read(plan, labels, point, width, lookups);
    shows_line(line, width);
    let middle = ProgressView {
        cursor: Some(plan.steps[index].parent),
        forks: forks_of(plan.steps, index + 1),
        fork_filled: false,
        fork_step: None,
        ..progress
    };
    assert(progress.steps == plan.steps.take(index) && progress.steps.len() == index);
    assert(forks_of(plan.steps, 0) == 0);
    assert(after_line(progress, railed(line, width), state, lookups) == Ok::<_, TodoError>(middle));
    one_line_is_read(progress, line, width, state, lookups, middle);
    middle
}

proof fn starts_are_fresh(
    plan: PlanView<ExpectedRef<Seq<u8>>>,
    labels: Seq<Label<Seq<u8>>>,
    has_worktree: bool,
    index: int,
    lookups: LookupsView,
)
    requires
        resumable(plan, labels, has_worktree, lookups),
        0 <= index < plan.steps.len(),
        plan.steps[index].parent is Existing,
    ensures
        places_of(plan.steps, index).contains(plan.steps[index].parent) ==> placed_names(
            plan.expected_refs,
            plan.steps[index].parent,
        ).len() == 0,
{
    reveal(resumable);
    let refs = plan.expected_refs;
    let place = plan.steps[index].parent;
    let names = placed_names(refs, place);
    places_are_passed(plan.steps, index);
    placed_names_hold(refs, place);
    if places_of(plan.steps, index).contains(place) && names.len() > 0 {
        assert(passes(plan.steps, place, index));
        let j = choose|j: int| 0 <= j < index && (#[trigger] plan.steps[j]).parent == place;
        assert(names.contains(names[0]));
        assert(placed_as(refs, names[0], place, refs.len() as int));
        let k = choose|k: int|
            0 <= k < refs.len() && (#[trigger] refs[k]).name == names[0] && refs[k].placement == Some(
                place,
            );
        assert(refs[k].placement == Some(place));
        assert(plan.steps[j].parent == place && plan.steps[index].parent == place);
    }
}

proof fn gaps_are_shown(index: int, width: nat, state: TodoStateView, lookups: LookupsView)
    requires
        0 <= index,
    ensures
        shows(
            if index > 0 {
                seq![LF]
            } else {
                Seq::empty()
            },
            gap(index),
            width,
        ),
{
    broadcast use vstd::string::is_ascii_spec_bytes;

    reveal_strlit("fork ");
    assert(vstd::string::is_ascii("fork "));
    assert("fork ".spec_bytes().len() == 5);
    let none = Seq::<u8>::empty();
    if index > 0 {
        gaps_are_read(unread(Seq::empty()), index, width, state, lookups);
        assert(gap(index)[0] == none);
        assert(railed(none, width) == none);
        shows_line(none, width);
        assert(none + seq![LF] == seq![LF]);
    } else {
        shows_nothing(width);
    }
}

proof fn forks_are_resumed(
    plan: PlanView<ExpectedRef<Seq<u8>>>,
    labels: Seq<Label<Seq<u8>>>,
    has_worktree: bool,
    index: int,
    width: nat,
    state: TodoStateView,
    lookups: LookupsView,
)
    requires
        resumable(plan, labels, has_worktree, lookups),
        continuing(plan, has_worktree, state),
        0 <= index < plan.steps.len(),
        !continues(plan.steps, index),
    ensures
        shows(
            fork_text(plan, labels, index, fork_point(plan.steps, index)->0),
            fork_lines(plan, labels, index),
            width,
        ),
        reads(
            resumed_to(plan, index),
            fork_lines(plan, labels, index),
            width,
            state,
            lookups,
            started(plan, index),
        ),
{
    let refs = plan.expected_refs;
    let parent = plan.steps[index].parent;
    let point = fork_point(plan.steps, index)->0;
    let line = head_line(plan, labels, point);
    let progress = resumed_to(plan, index);
    let next = started(plan, index);
    let note = if point == plan.base {
        Some(("base".spec_bytes(), label_from(labels, point, 0).info))
    } else {
        None
    };
    let blank = if index > 0 {
        seq![LF]
    } else {
        Seq::empty()
    };
    let title = heading(label_from(labels, point, 0).short, note);
    let front = gap(index) + seq![line];
    let middle = heads_start_forks(plan, labels, has_worktree, index, width, state, lookups);
    gaps_are_read(progress, index, width, state, lookups);
    gaps_are_shown(index, width, state, lookups);
    shows_both(blank, gap(index), title, seq![line], width);
    reads_both(progress, gap(index), progress, seq![line], middle, width, state, lookups);
    steps_are_fit(plan, labels, has_worktree, lookups, index);
    match parent {
        PlanParent::Existing(_) => {
            starts_are_fresh(plan, labels, has_worktree, index, lookups);
            fresh_is_unplaced(refs, places_of(plan.steps, index), parent);
            places_are_read(middle, refs, parent, width, state, lookups);
            places_are_shown(refs, parent, width);
            filled_grows(refs, places_of(plan.steps, index), parent);
            let below = ref_line_text(names_placed_at(refs, parent, refs.len() as int), refs);
            shows_both(blank + title, front, below, place_lines(refs, parent), width);
            reads_both(
                progress,
                front,
                middle,
                place_lines(refs, parent),
                next,
                width,
                state,
                lookups,
            );
        },
        PlanParent::Step(_) => {
            assert(blank + title + Seq::<u8>::empty() == blank + title);
            assert(front + Seq::<Seq<u8>>::empty() == front);
            assert(middle == next);
        },
    }
}

/// The lines of a step.
pub open spec fn step_lines(
    plan: PlanView<ExpectedRef<Seq<u8>>>,
    labels: Seq<Label<Seq<u8>>>,
    index: int,
) -> Seq<Seq<u8>> {
    let step = plan.steps[index];
    (if continues(plan.steps, index) {
        Seq::empty()
    } else {
        fork_lines(plan, labels, index)
    }) + seq![produced_line(step.commit, labels, marks(plan, index))] + squash_lines(
        labels,
        step.squash,
        step.squash.len() as int,
    ) + place_lines(plan.expected_refs, PlanParent::Step(index as usize))
}

proof fn ends_are_read(
    plan: PlanView<ExpectedRef<Seq<u8>>>,
    labels: Seq<Label<Seq<u8>>>,
    has_worktree: bool,
    index: int,
    width: nat,
    state: TodoStateView,
    lookups: LookupsView,
)
    requires
        resumable(plan, labels, has_worktree, lookups),
        0 <= index < plan.steps.len(),
    ensures
        reads(
            folded(plan, index, plan.steps[index].squash.len() as int),
            place_lines(plan.expected_refs, PlanParent::Step(index as usize)),
            width,
            state,
            lookups,
            resumed_to(plan, index + 1),
        ),
{
    let refs = plan.expected_refs;
    let step = plan.steps[index];
    let place = PlanParent::Step(index as usize);
    let progress = folded(plan, index, step.squash.len() as int);
    let next = resumed_to(plan, index + 1);
    let visited = started_at(plan.steps, index);
    steps_are_fit(plan, labels, has_worktree, lookups, index);
    places_are_passed(plan.steps, index);
    assert(!visited.contains(place)) by {
        if visited.contains(place) {
            let k = visited.index_of(place);
            assert(places_of(plan.steps, index)[k] == place);
            assert(places_of(plan.steps, index).contains(place));
        }
    }
    fresh_is_unplaced(refs, visited, place);
    places_are_read(progress, refs, place, width, state, lookups);
    filled_grows(refs, visited, place);
    assert(step.squash.take(step.squash.len() as int) == step.squash);
    assert(progress.steps == next.steps);
}

proof fn steps_are_resumed(
    plan: PlanView<ExpectedRef<Seq<u8>>>,
    labels: Seq<Label<Seq<u8>>>,
    has_worktree: bool,
    index: int,
    width: nat,
    state: TodoStateView,
    lookups: LookupsView,
)
    requires
        resumable(plan, labels, has_worktree, lookups),
        continuing(plan, has_worktree, state),
        0 <= index < plan.steps.len(),
    ensures
        shows(step_text(plan, labels, index), step_lines(plan, labels, index), width),
        reads(
            resumed_to(plan, index),
            step_lines(plan, labels, index),
            width,
            state,
            lookups,
            resumed_to(plan, index + 1),
        ),
{
    let refs = plan.expected_refs;
    let step = plan.steps[index];
    let goes_on = continues(plan.steps, index);
    let place = PlanParent::Step(index as usize);
    let n = step.squash.len() as int;
    let marked = marks(plan, index);
    let t1 = if goes_on {
        Seq::empty()
    } else {
        fork_text(plan, labels, index, fork_point(plan.steps, index)->0)
    };
    let l1 = if goes_on {
        Seq::empty()
    } else {
        fork_lines(plan, labels, index)
    };
    let t2 = produced_text(step.commit, labels, marked);
    let l2 = seq![produced_line(step.commit, labels, marked)];
    let t3 = squash_text(step.squash, labels, n);
    let l3 = squash_lines(labels, step.squash, n);
    let t4 = ref_line_text(names_placed_at(refs, place, refs.len() as int), refs);
    let l4 = place_lines(refs, place);
    let p0 = resumed_to(plan, index);
    let p1 = started(plan, index);
    let p2 = folded(plan, index, 0);
    let p3 = folded(plan, index, n);
    let p4 = resumed_to(plan, index + 1);
    steps_are_fit(plan, labels, has_worktree, lookups, index);
    assert(shows(t1, l1, width) && reads(p0, l1, width, state, lookups, p1)) by {
        if goes_on {
            shows_nothing(width);
            assert(p0 == p1);
        } else {
            forks_are_resumed(plan, labels, has_worktree, index, width, state, lookups);
        }
    }
    produced_is_read(plan, labels, has_worktree, index, width, state, lookups);
    squashes_are_read(plan, labels, has_worktree, index, n, width, state, lookups);
    ends_are_read(plan, labels, has_worktree, index, width, state, lookups);
    places_are_shown(refs, place, width);
    shows_both(t1, l1, t2, l2, width);
    shows_both(t1 + t2, l1 + l2, t3, l3, width);
    shows_both(t1 + t2 + t3, l1 + l2 + l3, t4, l4, width);
    reads_both(p0, l1, p1, l2, p2, width, state, lookups);
    reads_both(p0, l1 + l2, p2, l3, p3, width, state, lookups);
    reads_both(p0, l1 + l2 + l3, p3, l4, p4, width, state, lookups);
}

/// The lines of the first `end` steps.
pub open spec fn all_lines(
    plan: PlanView<ExpectedRef<Seq<u8>>>,
    labels: Seq<Label<Seq<u8>>>,
    end: int,
) -> Seq<Seq<u8>>
    decreases end,
{
    if end <= 0 || end > plan.steps.len() {
        Seq::empty()
    } else {
        all_lines(plan, labels, end - 1) + step_lines(plan, labels, end - 1)
    }
}

proof fn all_steps_are_resumed(
    plan: PlanView<ExpectedRef<Seq<u8>>>,
    labels: Seq<Label<Seq<u8>>>,
    has_worktree: bool,
    end: int,
    width: nat,
    state: TodoStateView,
    lookups: LookupsView,
)
    requires
        resumable(plan, labels, has_worktree, lookups),
        continuing(plan, has_worktree, state),
        0 <= end <= plan.steps.len(),
    ensures
        shows(steps_text(plan, labels, end), all_lines(plan, labels, end), width),
        reads(
            unread(captured(plan.expected_refs)),
            all_lines(plan, labels, end),
            width,
            state,
            lookups,
            resumed_to(plan, end),
        ),
    decreases end,
{
    let first = unread(captured(plan.expected_refs));
    if end == 0 {
        shows_nothing(width);
        let none = resumed_to(plan, 0);
        assert(none.steps == first.steps);
        assert(none.placed == first.placed);
        assert(checkout_at(plan, 0) is None);
        assert(none == first);
    } else {
        all_steps_are_resumed(plan, labels, has_worktree, end - 1, width, state, lookups);
        steps_are_resumed(plan, labels, has_worktree, end - 1, width, state, lookups);
        shows_both(
            steps_text(plan, labels, end - 1),
            all_lines(plan, labels, end - 1),
            step_text(plan, labels, end - 1),
            step_lines(plan, labels, end - 1),
            width,
        );
        reads_both(
            first,
            all_lines(plan, labels, end - 1),
            resumed_to(plan, end - 1),
            step_lines(plan, labels, end - 1),
            resumed_to(plan, end),
            width,
            state,
            lookups,
        );
    }
}

/// The plan as it is read from the todo that continues it: with the same steps and what to check out, and
/// references that have the values that were captured and lie where they did.
pub open spec fn resumed_plan(plan: PlanView<ExpectedRef<Seq<u8>>>) -> PlanView<
    ExpectedRef<Seq<u8>>,
> {
    let refs = plan.expected_refs;
    PlanView {
        expected_refs: Seq::new(
            refs.len(),
            |i: int|
                ExpectedRef {
                    new: if refs[i].editable {
                        None
                    } else {
                        refs[i].old
                    },
                    ..refs[i]
                },
        ),
        ..plan
    }
}

proof fn resumed_is_planned(
    plan: PlanView<ExpectedRef<Seq<u8>>>,
    tips: Seq<ObjectId>,
    labels: Seq<Label<Seq<u8>>>,
    has_worktree: bool,
    lookups: LookupsView,
)
    requires
        resumable(plan, labels, has_worktree, lookups),
    ensures
        planned(
            resumed_to(plan, plan.steps.len() as int),
            as_captured(continuation_state(plan, tips, has_worktree)),
        ) == Ok::<_, TodoError>(resumed_plan(plan)),
{
    reveal(resumable);
    let n = plan.steps.len() as int;
    let refs = plan.expected_refs;
    let progress = resumed_to(plan, n);
    let state = as_captured(continuation_state(plan, tips, has_worktree));
    let visited = places_of(plan.steps, n);
    steps_fork(plan.steps, n);
    places_are_passed(plan.steps, n);
    assert forall|i: int| 0 <= i < refs.len() implies #[trigger] placed_refs(progress, true)[i]
        == resumed_plan(plan).expected_refs[i] by {
        assert(captured(refs)[i].editable == refs[i].editable);
        if refs[i].editable {
            filled_is_found(refs, visited, i);
            if let Some(place) = refs[i].placement {
                assert(passes(plan.steps, place, n));
                assert(visited.contains(place));
            }
        }
    }
    assert(placed_refs(progress, true) == resumed_plan(plan).expected_refs);
    if let Some(checkout) = plan.checkout {
        assert(checkout_at(plan, n) == Some(checkout.target));
        if let Some(name) = checkout.reference {
            let k = choose|k: int|
                0 <= k < refs.len() && (#[trigger] refs[k]).name == name && refs[k].placement
                    == Some(checkout.target);
            assert(visited.contains(checkout.target));
            filled_is_found(refs, visited, k);
        }
    }
    assert(plan.steps.take(n) == plan.steps);
}

/// A continuation that is saved as it was prepared reads as the plan that it continues: with its base, its
/// scope, its steps with the resolved conflict and the commits that are still to be folded in, what it
/// checks out, and each reference with the value that it is expected to have, where the plan places it.
#[verifier::spinoff_prover]
#[verifier::rlimit(40)]
pub proof fn unedited_continuations_are_resumed(
    plan: PlanView<ExpectedRef<Seq<u8>>>,
    tips: Seq<ObjectId>,
    has_worktree: bool,
    labels: Seq<Label<Seq<u8>>>,
    commits: Seq<CommitNode<Seq<ObjectId>>>,
    lookups: LookupsView,
)
    requires
        resumable(plan, labels, has_worktree, lookups),
        ({
            let state = continuation_state(plan, tips, has_worktree);
            let text = continuation_text(plan, labels);
            &&& starts_behind(text)
            &&& stays_in_comment(state)
            &&& forall|i: int|
                0 <= i < fields(state).len() ==> names_read_back(#[trigger] fields(state)[i])
            &&& valid(as_captured(state), commits) is Ok
            &&& valid_utf8(steps_text(plan, labels, plan.steps.len() as int))
        }),
    ensures
        parsed(
            continuation_text(plan, labels) + written(
                continuation_state(plan, tips, has_worktree),
            ),
            commits,
            Some(lookups),
        ) == Ok::<_, TodoError>(Some(ParsedView { plan: resumed_plan(plan), tips })),
{
    let n = plan.steps.len() as int;
    let carried = continuation_state(plan, tips, has_worktree);
    let state = as_captured(carried);
    let text = continuation_text(plan, labels);
    let body = lines(steps_text(plan, labels, n));
    let width = widest(body, body.len() as int);
    let after = HELP.spec_bytes() + written(carried);
    continuation_is_silent();
    help_is_silent();
    states_are_silent(carried);
    silent_join(HELP.spec_bytes(), written(carried));
    state_reads_back(text, carried);
    assert(state.expected_refs == captured(plan.expected_refs));
    all_steps_are_resumed(plan, labels, has_worktree, n, width, state, lookups);
    let before = CONTINUATION.spec_bytes();
    let shown = bottom_up(body, body.len() as int, width);
    bodies_are_read(before, body, width, after, state, lookups);
    resumed_is_planned(plan, tips, labels, has_worktree, lookups);
    assert(text + written(carried) == before + shown + after);
    literals_are_utf8(CONTINUATION);
    todos_are_utf8(before, steps_text(plan, labels, n), width, HELP, carried);
    assert(before + shown + after == before + shown + HELP.spec_bytes() + written(carried));
}

/// The plan that goes on where folding `tip` into `middle`, on top of `base`, ran into a conflict that was
/// resolved. `name` is created for the result, and HEAD is on it.
pub open spec fn folding_plan(
    base: ObjectId,
    middle: ObjectId,
    tip: ObjectId,
    name: Seq<u8>,
    follows_tip: bool,
    new: Option<ObjectId>,
) -> PlanView<ExpectedRef<Seq<u8>>> {
    let place = PlanParent::Step(0);
    PlanView {
        base,
        scope: seq![middle, tip],
        steps: seq![
            PlanStep {
                parent: PlanParent::Existing(base),
                commit: PlanCommit::Resolved(middle),
                squash: seq![tip],
            },
        ],
        checkout: Some(PlanCheckout { target: place, reference: Some(name) }),
        expected_refs: seq![
            ExpectedRef {
                name,
                old: None,
                target: middle,
                new,
                follows_tip,
                editable: true,
                placement: Some(place),
            },
        ],
    }
}

proof fn folding_is_valid(
    base: ObjectId,
    middle: ObjectId,
    tip: ObjectId,
    name: Seq<u8>,
    follows_tip: bool,
    new: Option<ObjectId>,
    commits: Seq<CommitNode<Seq<ObjectId>>>,
)
    requires
        middle != tip,
        parents_of(commits, base) is Some,
        parents_of(commits, middle) matches Some(parents) && parents.len() > 0 && parents[0] == base,
        parents_of(commits, tip) matches Some(parents) && parents.len() > 0 && parents[0] == middle,
    ensures
        ({
            let plan = folding_plan(base, middle, tip, name, follows_tip, new);
            valid(as_captured(continuation_state(plan, seq![middle], true)), commits) is Ok
        }),
{
    let plan = folding_plan(base, middle, tip, name, follows_tip, new);
    let state = as_captured(continuation_state(plan, seq![middle], true));
    reveal_with_fuel(scope_valid, 3);
    reveal_with_fuel(refs_valid, 2);
    reveal_with_fuel(resolved_of, 2);
    reveal_with_fuel(sources_of, 2);
    assert(state.scope[0] == middle && state.scope[1] == tip);
    assert(state.scope.contains(middle) && state.scope.contains(tip));
    assert(state.expected_refs[0].editable && state.expected_refs[0].name == name);
    assert(state.resolved == Some(middle));
    assert(state.continuation_sources == seq![tip]);
    assert(state.tips == seq![middle]);
}

proof fn folding_is_resumable(
    base: ObjectId,
    middle: ObjectId,
    tip: ObjectId,
    name: Seq<u8>,
    follows_tip: bool,
    new: Option<ObjectId>,
    labels: Seq<Label<Seq<u8>>>,
    lookups: LookupsView,
)
    requires
        base != middle && base != tip && middle != tip,
        labelled(labels, lookups, base),
        labelled(labels, lookups, tip),
        fits_line(label_from(labels, middle, 0).states + label_from(labels, middle, 0).info),
        ({
            let refs = folding_plan(base, middle, tip, name, follows_tip, new).expected_refs;
            readable(display_name(name, refs))
        }),
        lookups.has_worktree,
    ensures
        resumable(folding_plan(base, middle, tip, name, follows_tip, new), labels, true, lookups),
{
    reveal(resumable);
    reveal_with_fuel(resolved_of, 2);
    let plan = folding_plan(base, middle, tip, name, follows_tip, new);
    let refs = plan.expected_refs;
    let step = plan.steps[0];
    assert(step.squash.no_duplicates());
    assert(plan.scope[0] == middle && plan.scope[1] == tip);
    assert(plan.scope.contains(middle) && plan.scope.contains(tip) && !plan.scope.contains(base));
    assert(resolved_of(plan.steps, 0) == Some(middle));
    assert(refs[0].name == name);
    assert(placed_as(refs, name, PlanParent::Step(0), 1));
}

/// Where folding a commit into the one below it ran into a conflict that was resolved, the todo that goes
/// on from there reads as it was prepared: with the conflict resolved and the other commit still to be
/// folded in, with the result checked out, and with the reference that is created for it, which is expected
/// not to exist yet. It starts from the commit below, and the tip is the commit with the conflict.
pub proof fn folding_goes_on(
    base: ObjectId,
    middle: ObjectId,
    tip: ObjectId,
    name: Seq<u8>,
    follows_tip: bool,
    new: Option<ObjectId>,
    labels: Seq<Label<Seq<u8>>>,
    commits: Seq<CommitNode<Seq<ObjectId>>>,
    lookups: LookupsView,
)
    requires
        base != middle && base != tip && middle != tip,
        parents_of(commits, base) is Some,
        parents_of(commits, middle) matches Some(parents) && parents.len() > 0 && parents[0] == base,
        parents_of(commits, tip) matches Some(parents) && parents.len() > 0 && parents[0] == middle,
        labelled(labels, lookups, base),
        labelled(labels, lookups, tip),
        fits_line(label_from(labels, middle, 0).states + label_from(labels, middle, 0).info),
        lookups.has_worktree,
        ({
            let plan = folding_plan(base, middle, tip, name, follows_tip, new);
            let state = continuation_state(plan, seq![middle], true);
            &&& readable(display_name(name, plan.expected_refs))
            &&& name_reads_back(name)
            &&& starts_behind(continuation_text(plan, labels))
            &&& stays_in_comment(state)
            &&& valid_utf8(steps_text(plan, labels, 1))
        }),
    ensures
        ({
            let plan = folding_plan(base, middle, tip, name, follows_tip, new);
            parsed(
                continuation_text(plan, labels) + written(
                    continuation_state(plan, seq![middle], true),
                ),
                commits,
                Some(lookups),
            ) == Ok::<_, TodoError>(
                Some(
                    ParsedView {
                        plan: folding_plan(base, middle, tip, name, follows_tip, None),
                        tips: seq![middle],
                    },
                ),
            )
        }),
{
    let plan = folding_plan(base, middle, tip, name, follows_tip, new);
    let state = continuation_state(plan, seq![middle], true);
    folding_is_valid(base, middle, tip, name, follows_tip, new, commits);
    folding_is_resumable(base, middle, tip, name, follows_tip, new, labels, lookups);
    assert forall|i: int| 0 <= i < fields(state).len() implies names_read_back(
        #[trigger] fields(state)[i],
    ) by {
        fields_name(state, name, i);
    }
    unedited_continuations_are_resumed(plan, seq![middle], true, labels, commits, lookups);
    let read = folding_plan(base, middle, tip, name, follows_tip, None);
    assert(resumed_plan(plan).expected_refs == read.expected_refs);
}

proof fn fields_name(state: TodoStateView, name: Seq<u8>, at: int)
    requires
        name_reads_back(name),
        state.head_ref matches Some(head) ==> head == name,
        forall|i: int|
            0 <= i < state.expected_refs.len() ==> (#[trigger] state.expected_refs[i]).name == name,
        0 <= at < fields(state).len(),
    ensures
        names_read_back(fields(state)[at]),
{
    let first = 2 + state.tips.len() + state.scope.len() + 2;
    let heads = head_fields(state.head_ref).len();
    let refs = first + heads + 1;
    if at >= refs && at < refs + state.expected_refs.len() {
        assert(fields(state)[at] == ref_field(state.expected_refs[at - refs]));
    } else if first <= at < first + heads {
        assert(fields(state)[at] == head_fields(state.head_ref)[at - first]);
    } else {
        let field = fields(state)[at];
        assert(!(field is HeadRef) && !(field is Ref));
    }
}

} // verus!
