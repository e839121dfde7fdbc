//! How what a todo shows is read.
use vstd::prelude::*;
use vstd::string::StringSliceAdditionalSpecFns;
use crate::bytes;
use crate::bytes::{
    before, find_byte_from, fits_line, has_prefix, has_suffix, lines, space_width,
    space_width_at_end, split_at_space, trimmed, trimmed_end, trimmed_start, unbroken, without_cr,
    word, word_end, LF,
};
use crate::names::{escaped, escapes, plain, quoted, unquoted};
use crate::ids::ObjectId;
use crate::plan::{ExpectedRef, PlanParent, PlanView};
use crate::refs::{inserted, sorted_names};
use crate::todo::lines::{
    closes_comment, command, editable, is_ref_line, is_separator, listed, opens_comment, ref_item,
    ref_items, ref_line, separator_target, unrailed_end, unrailed_start, RAIL,
};
use crate::todo::names::{display_name, shown_from};
use crate::todo::parse::{
    after_line, after_lines, after_names, placement_from, plan_of, planned, unread, LookupsView,
    Placed, ProgressView,
};
use crate::todo::state::TodoStateView;
use crate::todo::write::{bottom_up, listed_names, names_at, rail_count, rails, shown_line};
use crate::todo::TodoError;

verus! {

/// Whether a text ends a line, or is none.
pub open spec fn ends_line(text: Seq<u8>) -> bool {
    text.len() == 0 || text.last() == LF
}

pub(crate) proof fn line_then(line: Seq<u8>, rest: Seq<u8>)
    requires
        fits_line(line),
    ensures
        lines(line + (seq![LF] + rest)) == seq![line] + lines(rest),
{
    let text = line + (seq![LF] + rest);
    bytes::find_byte_bounds(text, LF, 0);
    assert(text[line.len() as int] == LF);
    assert forall|i: int| 0 <= i < line.len() implies text[i] != LF by {
        assert(text[i] == line[i]);
    }
    assert(text.take(line.len() as int) == line);
    assert(text.skip(line.len() as int + 1) == rest);
}

pub(crate) proof fn lines_join(a: Seq<u8>, b: Seq<u8>)
    requires
        ends_line(a),
    ensures
        lines(a + b) == lines(a) + lines(b),
    decreases a.len(),
{
    if a.len() == 0 {
        assert(a + b == b);
        assert(lines(a) + lines(b) == lines(b));
    } else {
        bytes::find_byte_bounds(a, LF, 0);
        bytes::find_byte_bounds(a + b, LF, 0);
        assert(a[a.len() - 1] == LF);
        let i = find_byte_from(a, LF, 0)->0;
        assert((a + b)[i] == LF);
        assert forall|j: int| 0 <= j < i implies (a + b)[j] != LF by {
            assert((a + b)[j] == a[j]);
        }
        assert(find_byte_from(a + b, LF, 0) == Some(i));
        assert((a + b).take(i) == a.take(i));
        assert((a + b).skip(i + 1) == a.skip(i + 1) + b);
        assert(ends_line(a.skip(i + 1)));
        lines_join(a.skip(i + 1), b);
        let first = seq![without_cr(a.take(i))];
        assert(first + (lines(a.skip(i + 1)) + lines(b)) == first + lines(a.skip(i + 1)) + lines(b));
    }
}

/// Whether reading is in a comment behind the lines from `at` on.
pub open spec fn comment_after(all: Seq<Seq<u8>>, at: int, in_comment: bool) -> bool
    decreases all.len() - at,
{
    if at >= all.len() {
        in_comment
    } else {
        let line = trimmed(all[at]);
        comment_after(
            all,
            at + 1,
            if in_comment || opens_comment(line) {
                !closes_comment(line)
            } else {
                false
            },
        )
    }
}

pub(crate) proof fn editable_join(
    a: Seq<Seq<u8>>,
    b: Seq<Seq<u8>>,
    at: int,
    in_comment: bool,
    done: Seq<Seq<u8>>,
)
    requires
        0 <= at <= a.len(),
    ensures
        editable(a + b, at, in_comment, done) == editable(
            b,
            0,
            comment_after(a, at, in_comment),
            editable(a, at, in_comment, done),
        ),
    decreases a.len() - at,
{
    if at == a.len() {
        editable_behind(a, b, 0, in_comment, done);
    } else {
        let line = trimmed(a[at]);
        assert((a + b)[at] == a[at]);
        if in_comment || opens_comment(line) {
            editable_join(a, b, at + 1, !closes_comment(line), done);
        } else if line.len() == 0 || has_prefix(line, "# ".spec_bytes()) {
            editable_join(a, b, at + 1, false, done);
        } else {
            editable_join(a, b, at + 1, false, done.push(line));
        }
    }
}

proof fn editable_behind(
    a: Seq<Seq<u8>>,
    b: Seq<Seq<u8>>,
    at: int,
    in_comment: bool,
    done: Seq<Seq<u8>>,
)
    requires
        0 <= at <= b.len(),
    ensures
        editable(a + b, a.len() + at, in_comment, done) == editable(b, at, in_comment, done),
    decreases b.len() - at,
{
    if at < b.len() {
        let line = trimmed(b[at]);
        assert((a + b)[a.len() + at] == b[at]);
        if in_comment || opens_comment(line) {
            editable_behind(a, b, at + 1, !closes_comment(line), done);
        } else if line.len() == 0 || has_prefix(line, "# ".spec_bytes()) {
            editable_behind(a, b, at + 1, false, done);
        } else {
            editable_behind(a, b, at + 1, false, done.push(line));
        }
    }
}

pub(crate) proof fn editable_appends(all: Seq<Seq<u8>>, at: int, in_comment: bool, done: Seq<Seq<u8>>)
    requires
        0 <= at <= all.len(),
    ensures
        editable(all, at, in_comment, done) == done + editable(all, at, in_comment, Seq::empty()),
    decreases all.len() - at,
{
    if at < all.len() {
        let line = trimmed(all[at]);
        let none = Seq::<Seq<u8>>::empty();
        if in_comment || opens_comment(line) {
            editable_appends(all, at + 1, !closes_comment(line), done);
        } else if line.len() == 0 || has_prefix(line, "# ".spec_bytes()) {
            editable_appends(all, at + 1, false, done);
        } else {
            editable_appends(all, at + 1, false, done.push(line));
            editable_appends(all, at + 1, false, none.push(line));
            let rest = editable(all, at + 1, false, none);
            assert(done.push(line) + rest == done + (none.push(line) + rest));
        }
    } else {
        assert(done + Seq::<Seq<u8>>::empty() == done);
    }
}

/// Whether no plan is read from a text, nor from what is behind it if that holds none: it ends a
/// line, and holds only comments, headings and blank lines.
pub open spec fn silent(text: Seq<u8>) -> bool {
    &&& ends_line(text)
    &&& editable(lines(text), 0, false, Seq::empty()) == Seq::<Seq<u8>>::empty()
    &&& !comment_after(lines(text), 0, false)
}

/// Whether a line is no comment and no heading.
pub open spec fn speaks(line: Seq<u8>) -> bool {
    !opens_comment(trimmed(line)) && !has_prefix(trimmed(line), "# ".spec_bytes())
}

/// A line as a plan is read from it: without the white space around it, unless it is blank.
pub open spec fn kept(line: Seq<u8>) -> Seq<Seq<u8>> {
    if trimmed(line).len() == 0 {
        Seq::empty()
    } else {
        seq![trimmed(line)]
    }
}

/// A line as a todo shows it, without what ends it.
pub open spec fn railed(line: Seq<u8>, width: nat) -> Seq<u8> {
    if has_prefix(line, "fork ".spec_bytes()) {
        let count = rail_count(line, width);
        rails(count / 2) + seq![32u8] + line + seq![32u8] + rails((count - count / 2) as nat)
    } else {
        line
    }
}

/// What a plan is read from of the first `left` lines, from the last of them to the first.
pub open spec fn kept_lines(all: Seq<Seq<u8>>, left: int, width: nat) -> Seq<Seq<u8>>
    decreases left,
{
    if left <= 0 || left > all.len() {
        Seq::empty()
    } else {
        kept(railed(all[left - 1], width)) + kept_lines(all, left - 1, width)
    }
}

/// Whether all lines are shown as lines that a plan is read from, or blank.
pub open spec fn speaking(all: Seq<Seq<u8>>, width: nat) -> bool {
    forall|i: int|
        0 <= i < all.len() ==> fits_line(railed(#[trigger] all[i], width)) && speaks(
            railed(all[i], width),
        )
}

proof fn shown_is_kept(all: Seq<Seq<u8>>, left: int, width: nat)
    requires
        0 <= left <= all.len(),
        speaking(all, width),
    ensures
        editable(lines(bottom_up(all, left, width)), 0, false, Seq::empty()) == kept_lines(
            all,
            left,
            width,
        ),
        !comment_after(lines(bottom_up(all, left, width)), 0, false),
        ends_line(bottom_up(all, left, width)),
    decreases left,
{
    if left > 0 {
        let line = railed(all[left - 1], width);
        let rest = bottom_up(all, left - 1, width);
        shown_is_kept(all, left - 1, width);
        assert(shown_line(all[left - 1], width) == line + seq![LF]);
        assert(bottom_up(all, left, width) == line + (seq![LF] + rest));
        line_then(line, rest);
        let first = seq![line];
        let more = lines(rest);
        editable_join(first, more, 0, false, Seq::empty());
        assert(editable(first, 1, false, Seq::empty()) == Seq::<Seq<u8>>::empty());
        assert(editable(first, 1, false, Seq::empty().push(trimmed(line))) == seq![trimmed(line)]);
        assert(editable(first, 0, false, Seq::empty()) == kept(line));
        assert(!comment_after(first, 1, false));
        assert(!comment_after(first, 0, false));
        editable_appends(more, 0, false, kept(line));
        comment_join(first, more, 0, false);
        assert(ends_line(bottom_up(all, left, width)));
    }
}

pub(crate) proof fn comment_join(a: Seq<Seq<u8>>, b: Seq<Seq<u8>>, at: int, in_comment: bool)
    requires
        0 <= at <= a.len(),
    ensures
        comment_after(a + b, at, in_comment) == comment_after(
            b,
            0,
            comment_after(a, at, in_comment),
        ),
    decreases a.len() - at,
{
    if at == a.len() {
        comment_behind(a, b, 0, in_comment);
    } else {
        let line = trimmed(a[at]);
        assert((a + b)[at] == a[at]);
        comment_join(
            a,
            b,
            at + 1,
            if in_comment || opens_comment(line) {
                !closes_comment(line)
            } else {
                false
            },
        );
    }
}

proof fn comment_behind(a: Seq<Seq<u8>>, b: Seq<Seq<u8>>, at: int, in_comment: bool)
    requires
        0 <= at <= b.len(),
    ensures
        comment_after(a + b, a.len() + at, in_comment) == comment_after(b, at, in_comment),
    decreases b.len() - at,
{
    if at < b.len() {
        let line = trimmed(b[at]);
        assert((a + b)[a.len() + at] == b[at]);
        comment_behind(
            a,
            b,
            at + 1,
            if in_comment || opens_comment(line) {
                !closes_comment(line)
            } else {
                false
            },
        );
    }
}

/// Reading goes on after a line that may be blank.
pub open spec fn after_kept(
    progress: ProgressView,
    line: Seq<u8>,
    state: TodoStateView,
    lookups: LookupsView,
) -> Result<ProgressView, TodoError> {
    if trimmed(line).len() == 0 {
        Ok(progress)
    } else {
        after_line(progress, trimmed(line), state, lookups)
    }
}

/// What is read once the first `end` lines are, from the first of them to the last.
pub open spec fn read_up(
    progress: ProgressView,
    all: Seq<Seq<u8>>,
    width: nat,
    end: int,
    state: TodoStateView,
    lookups: LookupsView,
) -> Result<ProgressView, TodoError>
    decreases end,
{
    if end <= 0 || end > all.len() {
        Ok(progress)
    } else {
        match read_up(progress, all, width, end - 1, state, lookups) {
            Err(err) => Err(err),
            Ok(progress) => after_kept(progress, railed(all[end - 1], width), state, lookups),
        }
    }
}

pub(crate) proof fn lines_read_in_turn(
    progress: ProgressView,
    a: Seq<Seq<u8>>,
    b: Seq<Seq<u8>>,
    left: int,
    state: TodoStateView,
    lookups: LookupsView,
)
    requires
        0 <= left <= b.len(),
    ensures
        after_lines(progress, a + b, a.len() + left, state, lookups) == (match after_lines(
            progress,
            b,
            left,
            state,
            lookups,
        ) {
            Err(err) => Err(err),
            Ok(progress) => after_lines(progress, a, a.len() as int, state, lookups),
        }),
    decreases left,
{
    if left == 0 {
        lines_read_first(progress, a, b, a.len() as int, state, lookups);
    } else {
        assert((a + b)[a.len() + left - 1] == b[left - 1]);
        match after_line(progress, b[left - 1], state, lookups) {
            Err(_) => {},
            Ok(next) => {
                lines_read_in_turn(next, a, b, left - 1, state, lookups);
            },
        }
    }
}

proof fn lines_read_first(
    progress: ProgressView,
    a: Seq<Seq<u8>>,
    b: Seq<Seq<u8>>,
    left: int,
    state: TodoStateView,
    lookups: LookupsView,
)
    requires
        0 <= left <= a.len(),
    ensures
        after_lines(progress, a + b, left, state, lookups) == after_lines(
            progress,
            a,
            left,
            state,
            lookups,
        ),
    decreases left,
{
    if left > 0 {
        assert((a + b)[left - 1] == a[left - 1]);
        match after_line(progress, a[left - 1], state, lookups) {
            Err(_) => {},
            Ok(next) => {
                lines_read_first(next, a, b, left - 1, state, lookups);
            },
        }
    }
}

proof fn kept_reads_up(
    progress: ProgressView,
    all: Seq<Seq<u8>>,
    width: nat,
    left: int,
    state: TodoStateView,
    lookups: LookupsView,
)
    requires
        0 <= left <= all.len(),
    ensures
        ({
            let lines = kept_lines(all, left, width);
            after_lines(progress, lines, lines.len() as int, state, lookups) == read_up(
                progress,
                all,
                width,
                left,
                state,
                lookups,
            )
        }),
    decreases left,
{
    if left > 0 {
        let line = railed(all[left - 1], width);
        let before = kept_lines(all, left - 1, width);
        kept_reads_up(progress, all, width, left - 1, state, lookups);
        lines_read_in_turn(progress, kept(line), before, before.len() as int, state, lookups);
        assert(kept_lines(all, left, width).len() == kept(line).len() + before.len());
        match read_up(progress, all, width, left - 1, state, lookups) {
            Err(_) => {},
            Ok(next) => {
                if trimmed(line).len() > 0 {
                    assert(kept(line)[0] == trimmed(line));
                    match after_line(next, trimmed(line), state, lookups) {
                        Err(_) => {},
                        Ok(last) => {
                            assert(after_lines(last, kept(line), 0, state, lookups) == Ok::<
                                _,
                                TodoError,
                            >(last));
                        },
                    }
                }
            },
        }
    }
}

/// A plan is read from the lines of a todo's body, from the first to the last, whatever comments stand
/// around it.
pub proof fn bodies_are_read(
    before: Seq<u8>,
    all: Seq<Seq<u8>>,
    width: nat,
    after: Seq<u8>,
    state: TodoStateView,
    lookups: LookupsView,
)
    requires
        silent(before),
        silent(after),
        speaking(all, width),
    ensures
        plan_of(before + bottom_up(all, all.len() as int, width) + after, state, lookups) == (
        match read_up(
            unread(state.expected_refs),
            all,
            width,
            all.len() as int,
            state,
            lookups,
        ) {
            Err(err) => Err::<PlanView<ExpectedRef<Seq<u8>>>, _>(err),
            Ok(progress) => planned(progress, state),
        }),
{
    let body = bottom_up(all, all.len() as int, width);
    let none = Seq::<Seq<u8>>::empty();
    shown_is_kept(all, all.len() as int, width);
    lines_join(before, body);
    assert(ends_line(before + body)) by {
        if body.len() > 0 {
            assert((before + body).last() == body.last());
        } else {
            assert(before + body == before);
        }
    }
    lines_join(before + body, after);
    editable_join(lines(before), lines(body), 0, false, none);
    comment_join(lines(before), lines(body), 0, false);
    editable_join(lines(before + body), lines(after), 0, false, none);
    let found = editable(lines(body), 0, false, none);
    editable_appends(lines(after), 0, false, found);
    assert(found + none == found);
    kept_reads_up(unread(state.expected_refs), all, width, all.len() as int, state, lookups);
}

/// Whether all bytes of a text are printable ASCII other than a space.
pub open spec fn visible(text: Seq<u8>) -> bool {
    text.len() > 0 && forall|i: int| 0 <= i < text.len() ==> 33 <= #[trigger] text[i] <= 126
}

pub(crate) proof fn trimmed_end_keeps(x: Seq<u8>, y: Seq<u8>) -> (z: Seq<u8>)
    requires
        x.len() > 0,
        33 <= x.last() <= 126,
    ensures
        trimmed_end(x + y) == x + z,
        z.len() <= y.len(),
        z == y.take(z.len() as int),
    decreases y.len(),
{
    let text = x + y;
    let width = space_width_at_end(text);
    assert(text[x.len() - 1] == x.last());
    if width > 0 {
        assert(width <= y.len()) by {
            if y.len() == 0 {
                assert(text.last() == x.last());
            } else if y.len() == 1 {
                assert(text[text.len() - 2] == x.last());
            } else if y.len() == 2 {
                assert(text[text.len() - 3] == x.last());
            }
        }
        let rest = y.take(y.len() - width);
        assert(text.take(text.len() - width) == x + rest);
        let z = trimmed_end_keeps(x, rest);
        assert(z == y.take(z.len() as int));
        z
    } else {
        assert(y == y.take(y.len() as int));
        y
    }
}

pub(crate) proof fn visible_starts(text: Seq<u8>)
    requires
        text.len() > 0,
        33 <= text[0] <= 126,
    ensures
        space_width(text) == 0,
        trimmed_start(text) == text,
{
}

proof fn word_ends(word: Seq<u8>, rest: Seq<u8>, from: int)
    requires
        visible(word),
        rest.len() == 0 || rest[0] == 32,
        0 <= from <= word.len(),
    ensures
        word_end(word + rest, from) == word.len(),
    decreases word.len() - from,
{
    let text = word + rest;
    if from < word.len() {
        assert(text.skip(from)[0] == word[from]);
        visible_starts(text.skip(from));
        word_ends(word, rest, from + 1);
    } else if rest.len() > 0 {
        assert(text.skip(from)[0] == 32);
        assert(space_width(text.skip(from)) == 1);
    }
}

pub(crate) proof fn first_words(word_text: Seq<u8>, rest: Seq<u8>)
    requires
        visible(word_text),
        rest.len() == 0 || rest[0] == 32,
    ensures
        word(word_text + rest) == Some(word_text),
        rest.len() > 0 ==> split_at_space(word_text + rest) == (word_text, rest.skip(1)),
{
    let text = word_text + rest;
    assert(text[0] == word_text[0]);
    visible_starts(text);
    word_ends(word_text, rest, 0);
    assert(text.take(word_text.len() as int) == word_text);
    if rest.len() > 0 {
        assert(text.skip(word_text.len() as int) == rest);
        assert(space_width(rest) == 1);
        assert(text.skip(word_text.len() as int + 1) == rest.skip(1));
    }
}

pub(crate) proof fn rail_bytes()
    ensures
        RAIL.spec_bytes() == seq![0xe2u8, 0x94, 0x80],
        "fork ".spec_bytes() == seq![102u8, 111, 114, 107, 32],
        "<!--".spec_bytes() == seq![60u8, 33, 45, 45],
        "# ".spec_bytes() == seq![35u8, 32],
{
    broadcast use vstd::string::is_ascii_spec_bytes;

    reveal_strlit("fork ");
    assert(vstd::string::is_ascii("fork "));
    assert("fork ".spec_bytes() =~= seq![102u8, 111, 114, 107, 32]);
    reveal_strlit("<!--");
    assert(vstd::string::is_ascii("<!--"));
    assert("<!--".spec_bytes() =~= seq![60u8, 33, 45, 45]);
    reveal_strlit("# ");
    assert(vstd::string::is_ascii("# "));
    assert("# ".spec_bytes() =~= seq![35u8, 32]);
    reveal_strlit("─");
    let chars = RAIL@;
    assert(chars.len() == 1 && chars[0] == '─');
    assert(vstd::utf8::leading_byte_width_3(0x2500u32) == 0xe2u8) by (bit_vector);
    assert(vstd::utf8::second_last_continuation_byte(0x2500u32) == 0x94u8) by (bit_vector);
    assert(vstd::utf8::last_continuation_byte(0x2500u32) == 0x80u8) by (bit_vector);
    reveal_with_fuel(vstd::utf8::encode_utf8, 2);
    assert(RAIL.spec_bytes() =~= seq![0xe2u8, 0x94, 0x80]);
}

pub(crate) proof fn rails_front(count: nat)
    requires
        count > 0,
    ensures
        rails(count) == RAIL.spec_bytes() + rails((count - 1) as nat),
    decreases count,
{
    if count > 1 {
        rails_front((count - 1) as nat);
        let less = rails((count - 2) as nat);
        let rail = RAIL.spec_bytes();
        assert(rail + less + rail == rail + (less + rail));
    } else {
        assert(rails(0) + RAIL.spec_bytes() == RAIL.spec_bytes() + rails(0));
    }
}

pub(crate) proof fn rails_go_at_start(count: nat, rest: Seq<u8>)
    requires
        rest.len() > 0,
        rest[0] == 32,
    ensures
        unrailed_start(rails(count) + rest) == rest,
    decreases count,
{
    rail_bytes();
    let rail = RAIL.spec_bytes();
    let text = rails(count) + rest;
    if count == 0 {
        assert(text == rest);
        assert(!has_prefix(rest, rail)) by {
            if has_prefix(rest, rail) {
                assert(rest.take(3)[0] == rest[0]);
            }
        }
    } else {
        rails_front(count);
        let less = rails((count - 1) as nat);
        assert(text.take(3) == rail);
        assert(text.skip(3) == less + rest);
        rails_go_at_start((count - 1) as nat, rest);
    }
}

pub(crate) proof fn rails_go_at_end(text: Seq<u8>, count: nat)
    requires
        text.len() > 0,
        text.last() < 128,
    ensures
        unrailed_end(text + rails(count)) == text,
    decreases count,
{
    rail_bytes();
    let rail = RAIL.spec_bytes();
    let whole = text + rails(count);
    if count == 0 {
        assert(whole == text);
        assert(!has_suffix(text, rail)) by {
            if has_suffix(text, rail) {
                assert(text.skip(text.len() - 3)[2] == text.last());
            }
        }
    } else {
        let less = rails((count - 1) as nat);
        assert(whole == text + less + rail);
        assert(whole.skip(whole.len() - 3) == rail);
        assert(whole.take(whole.len() - 3) == text + less);
        rails_go_at_end(text, (count - 1) as nat);
    }
}

pub(crate) proof fn rails_are_unbroken(count: nat)
    ensures
        unbroken(rails(count)),
        rails(count).len() == 3 * count,
        count > 0 ==> rails(count).skip(rails(count).len() - 3) == RAIL.spec_bytes(),
    decreases count,
{
    rail_bytes();
    if count > 0 {
        rails_are_unbroken((count - 1) as nat);
        let less = rails((count - 1) as nat);
        let rail = RAIL.spec_bytes();
        assert forall|i: int| 0 <= i < rails(count).len() implies rails(count)[i] != LF by {
            if i < less.len() {
                assert(rails(count)[i] == less[i]);
            } else {
                assert(rails(count)[i] == rail[i - less.len()]);
            }
        }
        assert(rails(count).skip(rails(count).len() - 3) == rail);
    }
}

proof fn railed_is_separator(line: Seq<u8>, width: nat)
    requires
        has_prefix(line, "fork ".spec_bytes()),
        unbroken(line),
    ensures
        ({
            let text = railed(line, width);
            &&& fits_line(text)
            &&& trimmed(text) == text
            &&& text.len() > 0
            &&& speaks(text)
            &&& is_separator(text)
            &&& unrailed_end(unrailed_start(text)) == seq![32u8] + line + seq![32u8]
        }),
{
    rail_bytes();
    let count = rail_count(line, width);
    let first = rails(count / 2);
    let last = rails((count - count / 2) as nat);
    let middle = seq![32u8] + line + seq![32u8];
    let text = railed(line, width);
    assert(text == first + (middle + last));
    assert(text == first + middle + last);
    assert(count >= 8);
    rails_are_unbroken(count / 2);
    rails_are_unbroken((count - count / 2) as nat);
    rails_front(count / 2);
    let rail = RAIL.spec_bytes();
    assert(text.take(3) == rail) by {
        assert(first.take(3) == rail);
        assert(text.take(3) == first.take(3));
    }
    assert(text.skip(text.len() - 3) == rail) by {
        assert(text.skip(text.len() - 3) == last.skip(last.len() - 3));
    }
    assert(text[0] == text.take(3)[0] && text[1] == text.take(3)[1] && text[2] == text.take(3)[2]);
    let n = text.len() as int;
    let end = text.skip(n - 3);
    assert(text[n - 3] == end[0] && text[n - 2] == end[1] && text[n - 1] == end[2]);
    assert(space_width(text) == 0);
    assert(space_width_at_end(text) == 0);
    assert(trimmed(text) == text);
    assert(fits_line(text)) by {
        assert forall|i: int| 0 <= i < text.len() implies text[i] != LF by {
            if i < first.len() {
                assert(text[i] == first[i]);
            } else if i < first.len() + middle.len() {
                assert(text[i] == middle[i - first.len()]);
                let j = i - first.len();
                if 0 < j < middle.len() - 1 {
                    assert(middle[j] == line[j - 1]);
                }
            } else {
                assert(text[i] == last[i - first.len() - middle.len()]);
            }
        }
    }
    assert(!has_prefix(text, "<!--".spec_bytes())) by {
        if has_prefix(text, "<!--".spec_bytes()) {
            assert(text.take(4)[0] == text[0]);
        }
    }
    assert(!has_prefix(text, "# ".spec_bytes())) by {
        if has_prefix(text, "# ".spec_bytes()) {
            assert(text.take(2)[0] == text[0]);
        }
    }
    rails_go_at_start(count / 2, middle + last);
    rails_go_at_end(middle, (count - count / 2) as nat);
}

pub(crate) proof fn headings_name_their_commit(short: Seq<u8>, rest: Seq<u8>, width: nat)
    requires
        visible(short),
        unbroken(rest),
        rest.len() == 0 || rest[0] == 32,
    ensures
        ({
            let line = "fork ".spec_bytes() + short + rest;
            let text = railed(line, width);
            &&& fits_line(text)
            &&& trimmed(text) == text
            &&& text.len() > 0
            &&& speaks(text)
            &&& is_separator(text)
            &&& separator_target(text) matches Some(target) && word(target) == Some(short)
        }),
{
    rail_bytes();
    let fork = "fork ".spec_bytes();
    let line = fork + short + rest;
    assert(line.take(5) == fork);
    assert forall|i: int| 0 <= i < line.len() implies line[i] != LF by {
        if i < 5 {
            assert(line[i] == fork[i]);
        } else if i < 5 + short.len() {
            assert(line[i] == short[i - 5]);
        } else {
            assert(line[i] == rest[i - 5 - short.len()]);
        }
    }
    railed_is_separator(line, width);
    let spaced = seq![32u8] + line + seq![32u8];
    assert(space_width(spaced) == 1);
    assert(spaced.skip(1) == line + seq![32u8]);
    assert((line + seq![32u8])[0] == 102);
    visible_starts(line + seq![32u8]);
    assert(trimmed_start(spaced) == line + seq![32u8]);
    let known = fork + short;
    assert(known.last() == short.last());
    let z = trimmed_end_keeps(known, rest + seq![32u8]);
    assert(line + seq![32u8] == known + (rest + seq![32u8]));
    let left = known + z;
    assert(trimmed(spaced) == left);
    assert(left.take(5) == fork);
    assert(left.skip(5) == short + z);
    assert(z.len() == 0 || z[0] == 32) by {
        if z.len() > 0 {
            assert(z[0] == (rest + seq![32u8])[0]);
        }
    }
    first_words(short, z);
}

pub(crate) proof fn commands_are_read(verb: Seq<u8>, value: Seq<u8>, rest: Seq<u8>)
    requires
        visible(verb),
        unbroken(value),
        forall|i: int| 0 <= i < verb.len() ==> verb[i] != 96,
        forall|i: int| 0 <= i < value.len() ==> value[i] != 96,
        fits_line(rest),
    ensures
        ({
            let line = "`".spec_bytes() + verb + seq![32u8] + value + "`".spec_bytes() + rest;
            let text = trimmed(line);
            &&& fits_line(line)
            &&& speaks(line)
            &&& !has_prefix(line, "fork ".spec_bytes())
            &&& text.len() > 0
            &&& !is_separator(text)
            &&& !is_ref_line(text)
            &&& command(text) matches Ok(command) && command.marked == (verb[0] == 64)
                && command.verb == (if verb[0] == 64 {
                verb.skip(1)
            } else {
                verb
            }) && command.value == value
        }),
{
    broadcast use vstd::string::is_ascii_spec_bytes;

    rail_bytes();
    reveal_strlit("`");
    assert(vstd::string::is_ascii("`"));
    assert("`".spec_bytes() =~= seq![96u8]);
    let inner = verb + (seq![32u8] + value);
    let known = seq![96u8] + inner + seq![96u8];
    let line = "`".spec_bytes() + verb + seq![32u8] + value + "`".spec_bytes() + rest;
    assert(line == known + rest);
    assert(fits_line(line)) by {
        assert forall|i: int| 0 <= i < line.len() implies line[i] != LF by {
            if 0 < i <= inner.len() {
                assert(line[i] == inner[i - 1]);
                if i - 1 < verb.len() {
                    assert(inner[i - 1] == verb[i - 1]);
                } else if i - 1 > verb.len() {
                    assert(inner[i - 1] == value[i - 2 - verb.len()]);
                }
            } else if i > inner.len() + 1 {
                assert(line[i] == rest[i - inner.len() - 2]);
            }
        }
        if rest.len() > 0 {
            assert(line.last() == rest.last());
        }
    }
    assert(line[0] == 96);
    visible_starts(line);
    let z = trimmed_end_keeps(known, rest);
    let text = known + z;
    assert(trimmed(line) == text);
    assert(text[0] == 96);
    assert(!has_prefix(text, RAIL.spec_bytes())) by {
        if has_prefix(text, RAIL.spec_bytes()) {
            assert(text.take(3)[0] == text[0]);
        }
    }
    assert(!has_prefix(text, "<!--".spec_bytes())) by {
        if has_prefix(text, "<!--".spec_bytes()) {
            assert(text.take(4)[0] == text[0]);
        }
    }
    assert(!has_prefix(text, "# ".spec_bytes())) by {
        if has_prefix(text, "# ".spec_bytes()) {
            assert(text.take(2)[0] == text[0]);
        }
    }
    assert(!has_prefix(line, "fork ".spec_bytes())) by {
        if has_prefix(line, "fork ".spec_bytes()) {
            assert(line.take(5)[0] == line[0]);
        }
    }
    let behind = text.skip(1);
    assert(behind == inner + (seq![96u8] + z));
    bytes::find_byte_bounds(behind, 96, 0);
    assert(behind[inner.len() as int] == 96);
    assert forall|i: int| 0 <= i < inner.len() implies behind[i] != 96 by {
        assert(behind[i] == inner[i]);
        if i < verb.len() {
            assert(inner[i] == verb[i]);
        } else if i > verb.len() {
            assert(inner[i] == value[i - 1 - verb.len()]);
        }
    }
    assert(behind.take(inner.len() as int) == inner);
    first_words(verb, seq![32u8] + value);
    assert((seq![32u8] + value).skip(1) == value);
}

/// Whether a name is read back as it is shown: its quotation can be undone, and without one it holds
/// no comma and does not start with the mark of a checkout.
pub open spec fn readable(shown: Seq<u8>) -> bool {
    &&& shown.len() > 0
    &&& unquoted(quoted(shown)) == Some((shown, quoted(shown).len()))
    &&& quoted(shown) == shown ==> visible(shown) && shown[0] != 64 && !shown.contains(44)
}

proof fn escapes_scan(
    body: Seq<u8>,
    done: Seq<Seq<u8>>,
    start: int,
    at: int,
    input: Seq<u8>,
)
    requires
        0 <= at,
        at + escapes(input).len() <= body.len(),
        body.subrange(at, at + escapes(input).len()) == escapes(input),
    ensures
        listed(body, done, start, at, true, false) == listed(
            body,
            done,
            start,
            at + escapes(input).len(),
            true,
            false,
        ),
    decreases input.len(),
{
    if input.len() > 0 {
        let before = escapes(input.drop_last());
        let last = escaped(input.last());
        let all = escapes(input);
        assert(all == before + last);
        assert(body.subrange(at, at + before.len()) == before) by {
            assert(all.take(before.len() as int) == before);
            assert(body.subrange(at, at + before.len()) == body.subrange(at, at + all.len()).take(
                before.len() as int,
            ));
        }
        escapes_scan(body, done, start, at, input.drop_last());
        let from = at + before.len();
        assert forall|i: int| 0 <= i < last.len() implies body[from + i] == last[i] by {
            assert(all[before.len() + i] == last[i]);
            assert(body.subrange(at, at + all.len())[before.len() + i] == body[from + i]);
        }
        assert(body[from] == last[0]);
        if last.len() == 1 {
            assert(listed(body, done, start, from, true, false) == listed(
                body,
                done,
                start,
                from + 1,
                true,
                false,
            ));
        } else if last.len() == 2 {
            assert(body[from + 1] == last[1]);
            assert(listed(body, done, start, from, true, false) == listed(
                body,
                done,
                start,
                from + 1,
                true,
                true,
            ));
            assert(listed(body, done, start, from + 1, true, true) == listed(
                body,
                done,
                start,
                from + 2,
                true,
                false,
            ));
        } else {
            assert(body[from + 1] == last[1]);
            assert(body[from + 2] == last[2]);
            assert(body[from + 3] == last[3]);
            assert(listed(body, done, start, from, true, false) == listed(
                body,
                done,
                start,
                from + 1,
                true,
                true,
            ));
            assert(listed(body, done, start, from + 1, true, true) == listed(
                body,
                done,
                start,
                from + 2,
                true,
                false,
            ));
            assert(listed(body, done, start, from + 2, true, false) == listed(
                body,
                done,
                start,
                from + 3,
                true,
                false,
            ));
            assert(listed(body, done, start, from + 3, true, false) == listed(
                body,
                done,
                start,
                from + 4,
                true,
                false,
            ));
        }
    }
}

proof fn plain_scan(
    body: Seq<u8>,
    done: Seq<Seq<u8>>,
    start: int,
    at: int,
    end: int,
)
    requires
        0 <= at <= end <= body.len(),
        forall|i: int| at <= i < end ==> #[trigger] body[i] != 34 && body[i] != 44,
    ensures
        listed(body, done, start, at, false, false) == listed(body, done, start, end, false, false),
    decreases end - at,
{
    if at < end {
        plain_scan(body, done, start, at + 1, end);
    }
}

proof fn items_scan(body: Seq<u8>, done: Seq<Seq<u8>>, start: int, at: int, shown: Seq<u8>)
    requires
        readable(shown),
        0 <= at,
        at + quoted(shown).len() <= body.len(),
        body.subrange(at, at + quoted(shown).len()) == quoted(shown),
    ensures
        listed(body, done, start, at, false, false) == listed(
            body,
            done,
            start,
            at + quoted(shown).len(),
            false,
            false,
        ),
{
    let text = quoted(shown);
    let end = at + text.len();
    assert forall|i: int| 0 <= i < text.len() implies body[at + i] == text[i] by {
        assert(body.subrange(at, end)[i] == body[at + i]);
    }
    if forall|i: int| 0 <= i < shown.len() ==> plain(#[trigger] shown[i]) {
        assert forall|i: int| at <= i < end implies #[trigger] body[i] != 34 && body[i] != 44 by {
            assert(body[at + (i - at)] == text[i - at]);
            assert(plain(shown[i - at]));
        }
        plain_scan(body, done, start, at, end);
    } else {
        let inner = escapes(shown);
        assert(text == seq![34u8] + inner + seq![34u8]);
        assert(body[at + 0] == text[0]);
        assert(body.subrange(at + 1, at + 1 + inner.len()) == inner) by {
            assert forall|i: int| 0 <= i < inner.len() implies body[at + 1 + i] == inner[i] by {
                assert(body[at + (1 + i)] == text[1 + i]);
            }
        }
        escapes_scan(body, done, start, at + 1, shown);
        assert(body[at + (1 + inner.len())] == text[1 + inner.len() as int]);
    }
}

/// A name in the list of a reference line, as it stands between the commas.
pub open spec fn raw_item(names: Seq<Seq<u8>>, refs: Seq<ExpectedRef<Seq<u8>>>, at: int) -> Seq<
    u8,
> {
    (if at > 0 {
        seq![32u8]
    } else {
        Seq::empty()
    }) + quoted(display_name(names[at], refs))
}

/// The first names in the list of a reference line.
pub open spec fn raw_items(
    names: Seq<Seq<u8>>,
    refs: Seq<ExpectedRef<Seq<u8>>>,
    end: int,
) -> Seq<Seq<u8>> {
    Seq::new(end as nat, |i: int| raw_item(names, refs, i))
}

/// Whether all names are read back as they are shown.
pub open spec fn readable_names(names: Seq<Seq<u8>>, refs: Seq<ExpectedRef<Seq<u8>>>) -> bool {
    forall|i: int| 0 <= i < names.len() ==> readable(display_name(#[trigger] names[i], refs))
}

proof fn lists_grow(names: Seq<Seq<u8>>, refs: Seq<ExpectedRef<Seq<u8>>>, end: int, total: int)
    requires
        0 <= end <= total <= names.len(),
    ensures
        listed_names(names, refs, end).len() <= listed_names(names, refs, total).len(),
        listed_names(names, refs, total).take(listed_names(names, refs, end).len() as int)
            == listed_names(names, refs, end),
    decreases total - end,
{
    let part = listed_names(names, refs, end);
    if end < total {
        lists_grow(names, refs, end, total - 1);
        let before = listed_names(names, refs, total - 1);
        let all = listed_names(names, refs, total);
        assert(all.take(before.len() as int) == before);
        assert(all.take(part.len() as int) == before.take(part.len() as int));
    } else {
        assert(part.take(part.len() as int) == part);
    }
}

proof fn lists_scan(names: Seq<Seq<u8>>, refs: Seq<ExpectedRef<Seq<u8>>>, end: int)
    requires
        0 < end <= names.len(),
        readable_names(names, refs),
    ensures
        ({
            let body = listed_names(names, refs, names.len() as int);
            let at = listed_names(names, refs, end).len() as int;
            listed(body, Seq::empty(), 0, 0, false, false) == listed(
                body,
                raw_items(names, refs, end - 1),
                at - raw_item(names, refs, end - 1).len(),
                at,
                false,
                false,
            ) && at - raw_item(names, refs, end - 1).len() >= 0 && body.subrange(
                at - raw_item(names, refs, end - 1).len(),
                at,
            ) == raw_item(names, refs, end - 1)
        }),
    decreases end,
{
    broadcast use vstd::string::is_ascii_spec_bytes;

    reveal_strlit(", ");
    assert(vstd::string::is_ascii(", "));
    assert(", ".spec_bytes() =~= seq![44u8, 32]);
    let body = listed_names(names, refs, names.len() as int);
    let part = listed_names(names, refs, end);
    let shown = display_name(names[end - 1], refs);
    let text = quoted(shown);
    let at = part.len() as int;
    lists_grow(names, refs, end, names.len() as int);
    assert forall|i: int| 0 <= i < at implies body[i] == part[i] by {
        assert(body.take(at)[i] == body[i]);
    }
    assert(readable(shown));
    if end == 1 {
        assert(listed_names(names, refs, 0) == Seq::<u8>::empty());
        assert(part == text);
        assert(raw_item(names, refs, 0) == text);
        assert(body.subrange(0, at) == text);
        items_scan(body, Seq::empty(), 0, 0, shown);
        assert(raw_items(names, refs, 0) == Seq::<Seq<u8>>::empty());
    } else {
        let before = listed_names(names, refs, end - 1);
        let middle = before.len() as int;
        lists_scan(names, refs, end - 1);
        assert(part == before + seq![44u8, 32] + text);
        assert(body[middle] == part[middle]);
        assert(body[middle + 1] == part[middle + 1]);
        let done = raw_items(names, refs, end - 2);
        let start = middle - raw_item(names, refs, end - 2).len();
        let more = raw_items(names, refs, end - 1);
        assert(more == done.push(raw_item(names, refs, end - 2)));
        assert(listed(body, done, start, middle, false, false) == listed(
            body,
            more,
            middle + 1,
            middle + 1,
            false,
            false,
        ));
        assert(listed(body, more, middle + 1, middle + 1, false, false) == listed(
            body,
            more,
            middle + 1,
            middle + 2,
            false,
            false,
        ));
        assert(body.subrange(middle + 2, at) == text) by {
            assert forall|i: int| 0 <= i < text.len() implies body[middle + 2 + i] == text[i] by {
                assert(part[middle + 2 + i] == text[i]);
            }
        }
        items_scan(body, more, middle + 1, middle + 2, shown);
        assert(raw_item(names, refs, end - 1) == seq![32u8] + text);
        assert(body.subrange(middle + 1, at) == seq![32u8] + text) by {
            assert forall|i: int| 0 <= i < at - middle - 1 implies body[middle + 1 + i] == (
            seq![32u8] + text)[i] by {
                assert(part[middle + 1 + i] == (seq![32u8] + text)[i]);
            }
        }
    }
}

proof fn items_are_read(names: Seq<Seq<u8>>, refs: Seq<ExpectedRef<Seq<u8>>>, at: int)
    requires
        0 <= at < names.len(),
        readable_names(names, refs),
    ensures
        ref_item(raw_item(names, refs, at)) == Ok::<_, TodoError>(
            (false, display_name(names[at], refs)),
        ),
{
    let shown = display_name(names[at], refs);
    let text = quoted(shown);
    let item = raw_item(names, refs, at);
    assert(readable(shown));
    assert(text.len() > 0 && 33 <= text[0] <= 126 && 33 <= text.last() <= 126 && text[0] != 64) by {
        if text != shown {
            assert(text == seq![34u8] + escapes(shown) + seq![34u8]);
        } else {
            assert(text.last() == shown[shown.len() - 1]);
        }
    }
    visible_starts(text);
    assert(trimmed_start(item) == text) by {
        if at > 0 {
            assert(space_width(item) == 1);
            assert(item.skip(1) == text);
        } else {
            assert(item == text);
        }
    }
    assert(space_width_at_end(text) == 0);
    assert(trimmed(item) == text);
    assert(text.skip(text.len() as int) == Seq::<u8>::empty());
    assert(space_width(Seq::<u8>::empty()) == 0);
}

/// What a reference line of several names reads as.
pub open spec fn shown_names(names: Seq<Seq<u8>>, refs: Seq<ExpectedRef<Seq<u8>>>) -> Seq<
    (bool, Seq<u8>),
> {
    Seq::new(names.len(), |i: int| (false, display_name(names[i], refs)))
}

proof fn all_items_are_read(
    names: Seq<Seq<u8>>,
    refs: Seq<ExpectedRef<Seq<u8>>>,
    at: int,
    done: Seq<(bool, Seq<u8>)>,
)
    requires
        0 <= at <= names.len(),
        readable_names(names, refs),
        done == shown_names(names, refs).take(at),
    ensures
        ref_items(raw_items(names, refs, names.len() as int), at, done) == Ok::<_, TodoError>(
            shown_names(names, refs),
        ),
    decreases names.len() - at,
{
    let items = raw_items(names, refs, names.len() as int);
    if at < names.len() {
        items_are_read(names, refs, at);
        assert(items[at] == raw_item(names, refs, at));
        let next = done.push((false, display_name(names[at], refs)));
        assert(next == shown_names(names, refs).take(at + 1));
        all_items_are_read(names, refs, at + 1, next);
    } else {
        assert(done == shown_names(names, refs));
    }
}

/// The line of several references, without what ends it.
pub open spec fn ref_text(names: Seq<Seq<u8>>, refs: Seq<ExpectedRef<Seq<u8>>>) -> Seq<u8> {
    seq![40u8] + listed_names(names, refs, names.len() as int) + seq![41u8]
}

pub(crate) proof fn ref_lines_are_read(names: Seq<Seq<u8>>, refs: Seq<ExpectedRef<Seq<u8>>>)
    requires
        names.len() > 0,
        readable_names(names, refs),
    ensures
        ({
            let line = ref_text(names, refs);
            &&& trimmed(line) == line
            &&& line.len() > 0
            &&& speaks(line)
            &&& !has_prefix(line, "fork ".spec_bytes())
            &&& !is_separator(line)
            &&& is_ref_line(line)
            &&& ref_line(line) == Ok::<_, TodoError>(shown_names(names, refs))
        }),
{
    rail_bytes();
    let line = ref_text(names, refs);
    let body = listed_names(names, refs, names.len() as int);
    assert(line[0] == 40 && line.last() == 41);
    visible_starts(line);
    assert(space_width_at_end(line) == 0);
    assert(!has_prefix(line, RAIL.spec_bytes())) by {
        if has_prefix(line, RAIL.spec_bytes()) {
            assert(line.take(3)[0] == line[0]);
        }
    }
    assert(!has_prefix(line, "<!--".spec_bytes())) by {
        if has_prefix(line, "<!--".spec_bytes()) {
            assert(line.take(4)[0] == line[0]);
        }
    }
    assert(!has_prefix(line, "# ".spec_bytes())) by {
        if has_prefix(line, "# ".spec_bytes()) {
            assert(line.take(2)[0] == line[0]);
        }
    }
    assert(!has_prefix(line, "fork ".spec_bytes())) by {
        if has_prefix(line, "fork ".spec_bytes()) {
            assert(line.take(5)[0] == line[0]);
        }
    }
    assert(line.subrange(1, line.len() - 1) == body);
    let n = names.len() as int;
    lists_scan(names, refs, n);
    assert(raw_items(names, refs, n - 1).push(raw_item(names, refs, n - 1)) == raw_items(
        names,
        refs,
        n,
    ));
    assert(shown_names(names, refs).take(0) == Seq::<(bool, Seq<u8>)>::empty());
    all_items_are_read(names, refs, 0, Seq::empty());
}

/// Whether no two references that can be edited are shown alike.
pub open spec fn shown_apart(refs: Seq<ExpectedRef<Seq<u8>>>) -> bool {
    forall|i: int, j: int|
        #![trigger refs[i], refs[j]]
        0 <= i < j < refs.len() && refs[i].editable && refs[j].editable ==> display_name(
            refs[i].name,
            refs,
        ) != display_name(refs[j].name, refs)
}

proof fn shown_is_found(refs: Seq<ExpectedRef<Seq<u8>>>, at: int, from: int)
    requires
        shown_apart(refs),
        0 <= at < refs.len(),
        refs[at].editable,
        0 <= from,
    ensures
        shown_from(refs, display_name(refs[at].name, refs), from) == (if from <= at {
            Some(at)
        } else {
            None
        }),
    decreases refs.len() - from,
{
    if from < refs.len() {
        if from < at {
            assert(refs[from].editable ==> display_name(refs[from].name, refs) != display_name(
                refs[at].name,
                refs,
            ));
        } else if from > at {
            assert(refs[at].editable && refs[from].editable ==> display_name(refs[at].name, refs)
                != display_name(refs[from].name, refs));
        }
        if from != at {
            shown_is_found(refs, at, from + 1);
        }
    }
}

/// Whether a reference of the given name can be edited.
pub open spec fn can_edit(refs: Seq<ExpectedRef<Seq<u8>>>, name: Seq<u8>) -> bool {
    exists|i: int| 0 <= i < refs.len() && (#[trigger] refs[i]).editable && refs[i].name == name
}

/// Whether a reference of the given name that logically points at a commit can be edited.
pub open spec fn editable_at(refs: Seq<ExpectedRef<Seq<u8>>>, name: Seq<u8>, target: ObjectId) -> bool {
    exists|i: int|
        0 <= i < refs.len() && (#[trigger] refs[i]).editable && refs[i].name == name
            && refs[i].target == target
}

/// Whether no reference of the given name is placed.
pub open spec fn unplaced(placed: Seq<Placed<Seq<u8>>>, name: Seq<u8>) -> bool {
    forall|i: int| 0 <= i < placed.len() ==> (#[trigger] placed[i]).name != name
}

pub(crate) proof fn unplaced_has_no_place(placed: Seq<Placed<Seq<u8>>>, name: Seq<u8>, from: int)
    requires
        unplaced(placed, name),
        0 <= from,
    ensures
        placement_from(placed, name, from) is None,
    decreases placed.len() - from,
{
    if from < placed.len() {
        unplaced_has_no_place(placed, name, from + 1);
    }
}

/// Several references at one place.
pub open spec fn placed_at(names: Seq<Seq<u8>>, target: PlanParent) -> Seq<Placed<Seq<u8>>> {
    Seq::new(names.len(), |i: int| Placed { name: names[i], target })
}

pub(crate) proof fn names_are_placed(
    progress: ProgressView,
    names: Seq<Seq<u8>>,
    at: int,
    target: PlanParent,
    allowed: bool,
    lookups: LookupsView,
)
    requires
        0 <= at <= names.len(),
        shown_apart(progress.refs),
        names.no_duplicates(),
        forall|i: int| at <= i < names.len() ==> can_edit(progress.refs, #[trigger] names[i]),
        forall|i: int| at <= i < names.len() ==> unplaced(progress.placed, #[trigger] names[i]),
    ensures
        after_names(
            progress,
            shown_names(names, progress.refs),
            at,
            target,
            allowed,
            lookups,
        ) == Ok::<_, TodoError>(
            ProgressView {
                placed: progress.placed + placed_at(names.skip(at), target),
                ..progress
            },
        ),
    decreases names.len() - at,
{
    let found = shown_names(names, progress.refs);
    if at < names.len() {
        let name = names[at];
        let i = choose|i: int|
            0 <= i < progress.refs.len() && (#[trigger] progress.refs[i]).editable
                && progress.refs[i].name == name;
        assert(can_edit(progress.refs, name));
        shown_is_found(progress.refs, i, 0);
        shown_is_found(progress.refs, i, i + 1);
        unplaced_has_no_place(progress.placed, name, 0);
        assert(found[at] == (false, display_name(name, progress.refs)));
        let one = Placed { name, target };
        let next = ProgressView { placed: progress.placed.push(one), ..progress };
        assert forall|k: int| at + 1 <= k < names.len() implies unplaced(
            next.placed,
            #[trigger] names[k],
        ) by {
            assert(unplaced(progress.placed, names[k]));
            assert(names[k] != names[at]);
        }
        names_are_placed(next, names, at + 1, target, allowed, lookups);
        assert(names.skip(at)[0] == name);
        assert(placed_at(names.skip(at), target) == seq![one] + placed_at(
            names.skip(at + 1),
            target,
        ));
        assert(progress.placed + placed_at(names.skip(at), target) == next.placed + placed_at(
            names.skip(at + 1),
            target,
        ));
        assert(ProgressView { refs: progress.refs, attach: progress.attach, ..next } == next);
    } else {
        assert(names.skip(at) == Seq::<Seq<u8>>::empty());
        assert(progress.placed + placed_at(names.skip(at), target) == progress.placed);
    }
}

/// The names of the references that logically point at a commit, in order.
pub open spec fn names_of(refs: Seq<ExpectedRef<Seq<u8>>>, id: ObjectId) -> Seq<Seq<u8>> {
    sorted_names(names_at(refs, id, refs.len() as int))
}

proof fn inserted_holds(sorted: Seq<Seq<u8>>, name: Seq<u8>)
    ensures
        inserted(sorted, name).len() == sorted.len() + 1,
        forall|x: Seq<u8>| #[trigger]
            inserted(sorted, name).contains(x) <==> x == name || sorted.contains(x),
        sorted.no_duplicates() && !sorted.contains(name) ==> inserted(sorted, name).no_duplicates(),
    decreases sorted.len(),
{
    let all = inserted(sorted, name);
    if sorted.len() == 0 {
        assert(all[0] == name);
        assert(all.contains(name));
    } else if before(name, sorted[0]) {
        assert(all == seq![name] + sorted);
        assert(all[0] == name);
        assert forall|x: Seq<u8>| #[trigger] all.contains(x) <==> x == name || sorted.contains(
            x,
        ) by {
            if sorted.contains(x) {
                let k = sorted.index_of(x);
                assert(all[k + 1] == x);
            }
            if all.contains(x) {
                let k = all.index_of(x);
                if k > 0 {
                    assert(sorted[k - 1] == x);
                }
            }
        }
        if sorted.no_duplicates() && !sorted.contains(name) {
            assert forall|i: int, j: int|
                0 <= i < all.len() && 0 <= j < all.len() && i != j implies all[i] != all[j] by {
                if i > 0 {
                    assert(all[i] == sorted[i - 1]);
                }
                if j > 0 {
                    assert(all[j] == sorted[j - 1]);
                }
            }
        }
    } else {
        let rest = sorted.skip(1);
        inserted_holds(rest, name);
        let more = inserted(rest, name);
        assert(all == seq![sorted[0]] + more);
        assert(all[0] == sorted[0]);
        assert forall|x: Seq<u8>| #[trigger] all.contains(x) <==> x == name || sorted.contains(
            x,
        ) by {
            if sorted.contains(x) {
                let k = sorted.index_of(x);
                if k > 0 {
                    assert(rest[k - 1] == x);
                    assert(more.contains(x));
                }
            }
            if x == name {
                assert(more.contains(name));
            }
            if more.contains(x) {
                let k = more.index_of(x);
                assert(all[k + 1] == x);
                if rest.contains(x) {
                    let m = rest.index_of(x);
                    assert(sorted[m + 1] == x);
                }
            }
            if all.contains(x) {
                let k = all.index_of(x);
                if k > 0 {
                    assert(more[k - 1] == x);
                    assert(more.contains(x));
                } else {
                    assert(sorted.contains(sorted[0]));
                }
            }
        }
        if sorted.no_duplicates() && !sorted.contains(name) {
            assert(rest.no_duplicates());
            assert(!rest.contains(name)) by {
                if rest.contains(name) {
                    let m = rest.index_of(name);
                    assert(sorted[m + 1] == name);
                }
            }
            assert(!more.contains(sorted[0])) by {
                if more.contains(sorted[0]) {
                    assert(sorted.contains(sorted[0]));
                    let m = rest.index_of(sorted[0]);
                    assert(sorted[m + 1] == sorted[0]);
                }
            }
            assert forall|i: int, j: int|
                0 <= i < all.len() && 0 <= j < all.len() && i != j implies all[i] != all[j] by {
                if i > 0 {
                    assert(all[i] == more[i - 1]);
                    assert(more.contains(more[i - 1]));
                }
                if j > 0 {
                    assert(all[j] == more[j - 1]);
                    assert(more.contains(more[j - 1]));
                }
            }
        }
    }
}

pub(crate) proof fn sorted_holds(names: Seq<Seq<u8>>)
    ensures
        sorted_names(names).len() == names.len(),
        forall|x: Seq<u8>| #[trigger] sorted_names(names).contains(x) <==> names.contains(x),
        names.no_duplicates() ==> sorted_names(names).no_duplicates(),
    decreases names.len(),
{
    if names.len() > 0 {
        let less = names.drop_last();
        sorted_holds(less);
        inserted_holds(sorted_names(less), names.last());
        assert forall|x: Seq<u8>| #[trigger] sorted_names(names).contains(x) <==> names.contains(
            x,
        ) by {
            if names.contains(x) {
                let k = names.index_of(x);
                if k < less.len() {
                    assert(less[k] == x);
                }
            }
            if less.contains(x) {
                let k = less.index_of(x);
                assert(names[k] == x);
            }
            assert(names.contains(names[names.len() - 1]));
        }
        if names.no_duplicates() {
            assert(less.no_duplicates());
            assert(!less.contains(names.last())) by {
                if less.contains(names.last()) {
                    let k = less.index_of(names.last());
                    assert(names[k] == names[names.len() - 1]);
                }
            }
        }
    }
}

proof fn names_are_at(refs: Seq<ExpectedRef<Seq<u8>>>, id: ObjectId, end: int)
    requires
        0 <= end <= refs.len(),
        shown_apart(refs),
    ensures
        forall|x: Seq<u8>| #[trigger]
            names_at(refs, id, end).contains(x) ==> exists|i: int|
                0 <= i < end && (#[trigger] refs[i]).editable && refs[i].name == x && refs[i].target
                    == id,
        forall|i: int|
            0 <= i < end && (#[trigger] refs[i]).editable && refs[i].target == id ==> names_at(
                refs,
                id,
                end,
            ).contains(refs[i].name),
        names_at(refs, id, end).no_duplicates(),
    decreases end,
{
    if end > 0 {
        names_are_at(refs, id, end - 1);
        let before = names_at(refs, id, end - 1);
        let one = refs[end - 1];
        let all = names_at(refs, id, end);
        if one.editable && one.target == id {
            assert(!before.contains(one.name)) by {
                if before.contains(one.name) {
                    let i = choose|i: int|
                        0 <= i < end - 1 && (#[trigger] refs[i]).editable && refs[i].name
                            == one.name && refs[i].target == id;
                    assert(display_name(refs[i].name, refs) != display_name(
                        refs[end - 1].name,
                        refs,
                    ));
                }
            }
            assert(all == before.push(one.name));
            assert(all[before.len() as int] == one.name);
            assert forall|i: int, j: int|
                0 <= i < all.len() && 0 <= j < all.len() && i != j implies all[i] != all[j] by {
                if i < before.len() {
                    assert(before.contains(before[i]));
                }
                if j < before.len() {
                    assert(before.contains(before[j]));
                }
            }
            assert forall|x: Seq<u8>| #[trigger] all.contains(x) implies exists|i: int|
                0 <= i < end && (#[trigger] refs[i]).editable && refs[i].name == x && refs[i].target
                    == id by {
                let k = all.index_of(x);
                if k < before.len() {
                    assert(before[k] == x);
                    assert(before.contains(x));
                } else {
                    assert(refs[end - 1].editable && refs[end - 1].name == x);
                }
            }
            assert forall|i: int|
                0 <= i < end && (#[trigger] refs[i]).editable && refs[i].target
                    == id implies all.contains(refs[i].name) by {
                if i < end - 1 {
                    let k = before.index_of(refs[i].name);
                    assert(all[k] == refs[i].name);
                }
            }
        }
    }
}

pub(crate) proof fn names_are_editable(refs: Seq<ExpectedRef<Seq<u8>>>, id: ObjectId)
    requires
        shown_apart(refs),
    ensures
        names_of(refs, id).no_duplicates(),
        forall|i: int|
            0 <= i < names_of(refs, id).len() ==> editable_at(refs, #[trigger] names_of(refs, id)[i], id),
        forall|i: int|
            0 <= i < refs.len() && (#[trigger] refs[i]).editable && refs[i].target == id
                ==> names_of(refs, id).contains(refs[i].name),
{
    let plain_names = names_at(refs, id, refs.len() as int);
    names_are_at(refs, id, refs.len() as int);
    sorted_holds(plain_names);
    assert forall|i: int| 0 <= i < names_of(refs, id).len() implies editable_at(
        refs,
        #[trigger] names_of(refs, id)[i],
        id,
    ) by {
        let name = names_of(refs, id)[i];
        assert(names_of(refs, id).contains(name));
        assert(plain_names.contains(name));
    }
}

} // verus!
