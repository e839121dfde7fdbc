//! What a todo shows besides its commands does not change what it says.
use vstd::prelude::*;
use vstd::string::StringSliceAdditionalSpecFns;
use vstd::utf8::valid_utf8;
use crate::bytes;
use crate::bytes::{
    has_prefix, has_suffix, lines, space_width, space_width_at_end, split_at_byte, trimmed,
    without_prefix, word,
};
use crate::history::CommitNode;
use crate::ids::ObjectId;
use crate::todo::lines::{
    closes_comment, command, command_of, editable, is_separator, opens_comment, separator_target,
    unrailed_end, CommandView, RAIL,
};
use crate::todo::parse::{
    after_line, after_lines, after_squash, after_step, parsed, produced, unread, LookupsView,
    ProgressView,
};
use crate::todo::record::{starts_are_found, starts_behind};
use crate::todo::shown::{
    first_words, rail_bytes, rails_are_unbroken, rails_front, rails_go_at_end, rails_go_at_start,
    trimmed_end_keeps, visible, visible_starts,
};
use crate::todo::state::{state_of, TodoStateView, STATE_START};
use crate::todo::write::rails;
use crate::todo::TodoError;

verus! {

/// Whether a command takes its title from what stands behind it: one for an empty commit without a title.
pub open spec fn titled_behind(text: Seq<u8>) -> bool {
    let found = command_of(text, Seq::empty());
    found.verb == "empty".spec_bytes() && trimmed(found.value).len() == 0
}

/// Whether two lines, without the white space around them, differ at most in what is shown only: behind
/// the same command in backticks, unless it takes its title from there, or behind the commit that two
/// separators name.
pub open spec fn shown_alike(a: Seq<u8>, b: Seq<u8>) -> bool {
    ||| a == b
    ||| {
        &&& a.len() > 0 && a[0] == 96
        &&& b.len() > 0 && b[0] == 96
        &&& split_at_byte(a.skip(1), 96) matches Some((text, _)) && split_at_byte(
            b.skip(1),
            96,
        ) matches Some((same, _)) && text == same && !titled_behind(text)
    }
    ||| {
        &&& is_separator(a)
        &&& is_separator(b)
        &&& separator_target(a) matches Some(target) && separator_target(b) matches Some(other)
            && word(target) == word(other)
    }
}

/// Whether the lines of two todos from `at` on are the same but for what is shown only. Within a comment
/// they are the same.
pub open spec fn told_alike(
    one: Seq<Seq<u8>>,
    other: Seq<Seq<u8>>,
    at: int,
    in_comment: bool,
) -> bool
    decreases one.len() - at,
{
    if at >= one.len() {
        true
    } else {
        let line = trimmed(one[at]);
        &&& if in_comment {
            one[at] == other[at]
        } else {
            shown_alike(line, trimmed(other[at]))
        }
        &&& told_alike(
            one,
            other,
            at + 1,
            (in_comment || opens_comment(line)) && !closes_comment(line),
        )
    }
}

/// Whether two lists of lines are as long as each other and alike, line by line.
spec fn in_step(one: Seq<Seq<u8>>, other: Seq<Seq<u8>>) -> bool {
    one.len() == other.len() && forall|i: int|
        0 <= i < one.len() ==> shown_alike(#[trigger] one[i], other[i])
}

proof fn starts_with_its_first(text: Seq<u8>, prefix: Seq<u8>)
    requires
        prefix.len() > 0,
    ensures
        has_prefix(text, prefix) ==> text.len() > 0 && text[0] == prefix[0],
{
    if has_prefix(text, prefix) {
        assert(text.take(prefix.len() as int)[0] == text[0]);
    }
}

proof fn alike_lines_are_kept(a: Seq<u8>, b: Seq<u8>)
    requires
        shown_alike(a, b),
        a != b,
    ensures
        !opens_comment(a) && !has_prefix(a, "# ".spec_bytes()) && a.len() > 0,
        !opens_comment(b) && !has_prefix(b, "# ".spec_bytes()) && b.len() > 0,
{
    rail_bytes();
    starts_with_its_first(a, RAIL.spec_bytes());
    starts_with_its_first(b, RAIL.spec_bytes());
    starts_with_its_first(a, "<!--".spec_bytes());
    starts_with_its_first(b, "<!--".spec_bytes());
    starts_with_its_first(a, "# ".spec_bytes());
    starts_with_its_first(b, "# ".spec_bytes());
}

proof fn editable_in_step(
    one: Seq<Seq<u8>>,
    other: Seq<Seq<u8>>,
    at: int,
    in_comment: bool,
    done: Seq<Seq<u8>>,
    same: Seq<Seq<u8>>,
)
    requires
        0 <= at,
        one.len() == other.len(),
        told_alike(one, other, at, in_comment),
        in_step(done, same),
    ensures
        in_step(editable(one, at, in_comment, done), editable(other, at, in_comment, same)),
    decreases one.len() - at,
{
    if at < one.len() {
        let a = trimmed(one[at]);
        let b = trimmed(other[at]);
        if !in_comment && a != b {
            alike_lines_are_kept(a, b);
        }
        if in_comment || opens_comment(a) {
            editable_in_step(one, other, at + 1, !closes_comment(a), done, same);
        } else if a.len() == 0 || has_prefix(a, "# ".spec_bytes()) {
            editable_in_step(one, other, at + 1, false, done, same);
        } else {
            editable_in_step(one, other, at + 1, false, done.push(a), same.push(b));
        }
    }
}

proof fn tails_are_not_read(
    progress: ProgressView,
    x: CommandView,
    y: CommandView,
    state: TodoStateView,
    lookups: LookupsView,
)
    requires
        x.marked == y.marked && x.verb == y.verb && x.value == y.value,
        x.verb == "empty".spec_bytes() ==> trimmed(x.value).len() > 0,
    ensures
        after_squash(progress, x, state.scope, lookups) == after_squash(
            progress,
            y,
            state.scope,
            lookups,
        ),
        produced(progress, x, state.scope, state.resolved, lookups) == produced(
            progress,
            y,
            state.scope,
            state.resolved,
            lookups,
        ),
        after_step(progress, x, state.scope, state.resolved, lookups) == after_step(
            progress,
            y,
            state.scope,
            state.resolved,
            lookups,
        ),
{
}

proof fn alike_lines_are_read_alike(
    progress: ProgressView,
    a: Seq<u8>,
    b: Seq<u8>,
    state: TodoStateView,
    lookups: LookupsView,
)
    requires
        shown_alike(a, b),
    ensures
        after_line(progress, a, state, lookups) == after_line(progress, b, state, lookups),
{
    rail_bytes();
    starts_with_its_first(a, RAIL.spec_bytes());
    starts_with_its_first(b, RAIL.spec_bytes());
    if a != b && a.len() > 0 && a[0] == 96 {
        let (text, tail) = split_at_byte(a.skip(1), 96)->0;
        let (same, rest) = split_at_byte(b.skip(1), 96)->0;
        let x = command_of(text, trimmed(tail));
        let y = command_of(text, trimmed(rest));
        assert(command(a) == Ok::<_, TodoError>(x));
        assert(command(b) == Ok::<_, TodoError>(y));
        assert(command_of(text, Seq::empty()).verb == x.verb);
        assert(command_of(text, Seq::empty()).value == x.value);
        let next = ProgressView { marked: progress.marked || x.marked, ..progress };
        tails_are_not_read(next, x, y, state, lookups);
    }
}

proof fn lines_in_step_are_read_alike(
    progress: ProgressView,
    one: Seq<Seq<u8>>,
    other: Seq<Seq<u8>>,
    left: int,
    state: TodoStateView,
    lookups: LookupsView,
)
    requires
        in_step(one, other),
        0 <= left <= one.len(),
    ensures
        after_lines(progress, one, left, state, lookups) == after_lines(
            progress,
            other,
            left,
            state,
            lookups,
        ),
    decreases left,
{
    if left > 0 {
        assert(shown_alike(one[left - 1], other[left - 1]));
        alike_lines_are_read_alike(progress, one[left - 1], other[left - 1], state, lookups);
        if let Ok(next) = after_line(progress, one[left - 1], state, lookups) {
            lines_in_step_are_read_alike(next, one, other, left - 1, state, lookups);
        }
    }
}

/// What stands behind commands in backticks and behind the commits of separators is shown only: two todos
/// that carry the same state and differ there alone, in however many lines, say the same, or neither can be
/// read. This holds of all commands but one for an empty commit that has no title in the backticks, as
/// that takes its title from there.
pub proof fn shown_text_is_not_read(
    one: Seq<u8>,
    other: Seq<u8>,
    commits: Seq<CommitNode<Seq<ObjectId>>>,
    lookups: LookupsView,
)
    requires
        lines(one).len() == lines(other).len(),
        told_alike(lines(one), lines(other), 0, false),
        valid_utf8(one) == valid_utf8(other),
        state_of(one, commits) == state_of(other, commits),
    ensures
        parsed(one, commits, Some(lookups)) == parsed(other, commits, Some(lookups)),
{
    let none = Seq::<Seq<u8>>::empty();
    editable_in_step(lines(one), lines(other), 0, false, none, none);
    if let Ok(Some(state)) = state_of(one, commits) {
        let all = editable(lines(one), 0, false, none);
        let same = editable(lines(other), 0, false, none);
        lines_in_step_are_read_alike(
            unread(state.expected_refs),
            all,
            same,
            all.len() as int,
            state,
            lookups,
        );
    }
}

/// What is shown only may change in all the lines before the state that a todo carries, as long as it does
/// not look like the start of a state itself.
pub proof fn shown_text_before_the_state_is_not_read(
    front: Seq<u8>,
    edited: Seq<u8>,
    carried: Seq<u8>,
    commits: Seq<CommitNode<Seq<ObjectId>>>,
    lookups: LookupsView,
)
    requires
        starts_behind(front),
        starts_behind(edited),
        has_prefix(carried, STATE_START.spec_bytes()),
        lines(front + carried).len() == lines(edited + carried).len(),
        told_alike(lines(front + carried), lines(edited + carried), 0, false),
        valid_utf8(front + carried) == valid_utf8(edited + carried),
    ensures
        parsed(front + carried, commits, Some(lookups)) == parsed(
            edited + carried,
            commits,
            Some(lookups),
        ),
{
    starts_are_found(front, carried);
    starts_are_found(edited, carried);
    shown_text_is_not_read(front + carried, edited + carried, commits, lookups);
}

/// A command in backticks, with what stands behind it.
pub open spec fn backticked(text: Seq<u8>, behind: Seq<u8>) -> Seq<u8> {
    seq![96u8] + text + seq![96u8] + behind
}

proof fn backticked_splits(text: Seq<u8>, behind: Seq<u8>)
    requires
        !text.contains(96),
    ensures
        ({
            let line = trimmed(backticked(text, behind));
            &&& line.len() > 0 && line[0] == 96
            &&& split_at_byte(line.skip(1), 96) matches Some((found, _)) && found == text
        }),
{
    let known = seq![96u8] + text + seq![96u8];
    let line = backticked(text, behind);
    assert(line == known + behind);
    assert(known.last() == 96);
    assert(line[0] == 96);
    visible_starts(line);
    let z = trimmed_end_keeps(known, behind);
    let shown = known + z;
    assert(trimmed(line) == shown);
    assert(shown[0] == 96);
    let rest = shown.skip(1);
    assert(rest == text + (seq![96u8] + z));
    bytes::find_byte_bounds(rest, 96, 0);
    assert(rest[text.len() as int] == 96);
    assert forall|i: int| 0 <= i < text.len() implies rest[i] != 96 by {
        assert(rest[i] == text[i]);
        assert(text.contains(text[i]));
    }
    assert(rest.take(text.len() as int) == text);
}

/// Lines are shown alike if they hold the same command in backticks and anything behind it, unless the
/// command takes its title from there.
pub proof fn commands_are_shown_alike(text: Seq<u8>, one: Seq<u8>, other: Seq<u8>)
    requires
        !text.contains(96),
        !titled_behind(text),
    ensures
        shown_alike(trimmed(backticked(text, one)), trimmed(backticked(text, other))),
{
    backticked_splits(text, one);
    backticked_splits(text, other);
}

/// The separator of a fork, with rails of the given lengths and some text between the id of its commit and
/// the rail.
pub open spec fn separator(before: nat, short: Seq<u8>, context: Seq<u8>, after: nat) -> Seq<u8> {
    rails(before) + (seq![32u8] + "fork ".spec_bytes() + short + context + rails(after))
}

proof fn unrailed_end_keeps(x: Seq<u8>, y: Seq<u8>) -> (z: Seq<u8>)
    requires
        x.len() > 0,
        x.last() < 128,
    ensures
        unrailed_end(x + y) == x + z,
        z.len() <= y.len(),
        z == y.take(z.len() as int),
    decreases y.len(),
{
    rail_bytes();
    let text = x + y;
    if has_suffix(text, RAIL.spec_bytes()) {
        let n = text.len() as int;
        let end = text.skip(n - 3);
        assert(end[0] == text[n - 3] && end[1] == text[n - 2] && end[2] == text[n - 1]);
        assert(text[x.len() - 1] == x.last());
        let less = y.take(y.len() - 3);
        assert(text.take(n - 3) == x + less);
        let z = unrailed_end_keeps(x, less);
        assert(z == y.take(z.len() as int));
        z
    } else {
        assert(y == y.take(y.len() as int));
        y
    }
}

proof fn rails_are_not_trimmed(text: Seq<u8>)
    requires
        has_prefix(text, RAIL.spec_bytes()),
        has_suffix(text, RAIL.spec_bytes()),
    ensures
        trimmed(text) == text,
{
    rail_bytes();
    let n = text.len() as int;
    let start = text.take(3);
    let end = text.skip(n - 3);
    assert(text[0] == start[0] && text[1] == start[1] && text[2] == start[2]);
    assert(text[n - 3] == end[0] && text[n - 2] == end[1] && text[n - 1] == end[2]);
    assert(space_width(text) == 0);
    assert(space_width_at_end(text) == 0);
}

proof fn separators_separate(before: nat, middle: Seq<u8>, after: nat)
    requires
        before > 0,
        after > 0,
    ensures
        ({
            let line = rails(before) + (middle + rails(after));
            trimmed(line) == line && is_separator(line)
        }),
{
    rail_bytes();
    let rail = RAIL.spec_bytes();
    let last = rails(after);
    let text = rails(before) + (middle + last);
    rails_front(before);
    rails_are_unbroken(before);
    rails_are_unbroken(after);
    assert(text.take(3) == rail) by {
        assert(rails(before).take(3) == rail);
        assert(text.take(3) == rails(before).take(3));
    }
    assert(text.skip(text.len() - 3) == rail) by {
        assert(text.skip(text.len() - 3) == last.skip(last.len() - 3));
    }
    rails_are_not_trimmed(text);
}

proof fn unrailed_is_target(short: Seq<u8>, context: Seq<u8>, after: nat)
    requires
        visible(short),
        context.len() == 0 || context[0] == 32,
    ensures
        ({
            let text = seq![32u8] + "fork ".spec_bytes() + short + context + rails(after);
            without_prefix(trimmed(unrailed_end(text)), "fork ".spec_bytes()) matches Some(target)
                && word(target) == Some(short)
        }),
{
    rail_bytes();
    let fork = "fork ".spec_bytes();
    let known = seq![32u8] + fork + short;
    let last = rails(after);
    let text = seq![32u8] + fork + short + context + last;
    assert(text == known + (context + last));
    assert(known.last() == short.last());
    let y = unrailed_end_keeps(known, context + last);
    if context.len() == 0 {
        assert(known + (context + last) == known + last);
        rails_go_at_end(known, after);
        assert((known + y).len() == known.len());
    } else if y.len() > 0 {
        assert(y[0] == (context + last)[0]);
    }
    assert(y.len() == 0 || y[0] == 32);
    let shown = fork + short;
    let left = known + y;
    assert(left == seq![32u8] + (shown + y));
    assert(left.skip(1) == shown + y);
    assert((shown + y)[0] == 102);
    visible_starts(shown + y);
    assert(space_width(left) == 1);
    assert(shown.last() == short.last());
    let z = trimmed_end_keeps(shown, y);
    assert(trimmed(left) == shown + z);
    assert((shown + z).take(5) == fork);
    assert((shown + z).skip(5) == short + z);
    if z.len() > 0 {
        assert(z[0] == y[0]);
    }
    first_words(short, z);
}

proof fn separators_name_their_commit(before: nat, short: Seq<u8>, context: Seq<u8>, after: nat)
    requires
        before > 0,
        after > 0,
        visible(short),
        context.len() == 0 || context[0] == 32,
    ensures
        ({
            let line = trimmed(separator(before, short, context, after));
            &&& is_separator(line)
            &&& separator_target(line) matches Some(target) && word(target) == Some(short)
        }),
{
    let middle = seq![32u8] + "fork ".spec_bytes() + short + context;
    separators_separate(before, middle, after);
    rails_go_at_start(before, middle + rails(after));
    unrailed_is_target(short, context, after);
}

/// Separators are shown alike if they name the same commit, with anything between its id and the rail and
/// however long their rails are.
pub proof fn separators_are_shown_alike(
    short: Seq<u8>,
    one: Seq<u8>,
    before: nat,
    after: nat,
    other: Seq<u8>,
    wider_before: nat,
    wider_after: nat,
)
    requires
        visible(short),
        before > 0 && after > 0 && wider_before > 0 && wider_after > 0,
        one.len() == 0 || one[0] == 32,
        other.len() == 0 || other[0] == 32,
    ensures
        shown_alike(
            trimmed(separator(before, short, one, after)),
            trimmed(separator(wider_before, short, other, wider_after)),
        ),
{
    separators_name_their_commit(before, short, one, after);
    separators_name_their_commit(wider_before, short, other, wider_after);
}

} // verus!
