//! Commit messages as git cleans them up.
use vstd::prelude::*;
use crate::bytes;
use crate::bytes::{has_prefix, lines, split_at_byte, without_cr, CR, LF};
use crate::todo::shown::{ends_line, line_then, lines_join};

verus! {

/// Removes a carriage return from the end of a line.
pub fn trim_cr(line: &[u8]) -> (r: &[u8])
    ensures
        r@ == without_cr(line@),
{
    bytes::strip_cr(line)
}

/// Whether a byte is white space of ASCII: a space, a tab, a line feed, a form feed or a carriage
/// return.
pub open spec fn ascii_space(byte: u8) -> bool {
    byte == 32 || byte == 9 || byte == LF || byte == 12 || byte == CR
}

/// A line without white space of ASCII at its end.
pub open spec fn without_trailing_space(line: Seq<u8>) -> Seq<u8>
    decreases line.len(),
{
    if line.len() > 0 && ascii_space(line.last()) {
        without_trailing_space(line.drop_last())
    } else {
        line
    }
}

/// The first line of a text without its line feed, and what follows it.
pub open spec fn first_line(text: Seq<u8>) -> (Seq<u8>, Seq<u8>) {
    match split_at_byte(text, LF) {
        Some((line, rest)) => (line, rest),
        None => (text, Seq::empty()),
    }
}

/// Whether a line is a comment.
pub open spec fn is_comment(line: Seq<u8>, comment_char: Option<Seq<u8>>) -> bool {
    comment_char matches Some(comment_char) && has_prefix(line, comment_char)
}

/// A message with the lines of `text` behind `out`: without comments, white space at the end of
/// lines, empty lines at the start and at the end, and more than one empty line in a row. `gap` is
/// whether empty lines precede the text.
pub open spec fn cleaned_from(
    text: Seq<u8>,
    comment_char: Option<Seq<u8>>,
    out: Seq<u8>,
    gap: bool,
) -> Seq<u8>
    decreases text.len(),
{
    if text.len() == 0 || first_line(text).1.len() >= text.len() {
        out
    } else {
        let (raw, rest) = first_line(text);
        let line = without_cr(raw);
        if is_comment(line, comment_char) {
            cleaned_from(rest, comment_char, out, gap)
        } else {
            let kept = without_trailing_space(line);
            if kept.len() == 0 {
                cleaned_from(rest, comment_char, out, true)
            } else {
                let separated = if out.len() > 0 && gap {
                    out.push(LF)
                } else {
                    out
                };
                cleaned_from(rest, comment_char, separated + kept.push(LF), false)
            }
        }
    }
}

/// A message once it is cleaned up.
pub open spec fn cleaned(text: Seq<u8>, comment_char: Option<Seq<u8>>) -> Seq<u8> {
    cleaned_from(text, comment_char, Seq::empty(), false)
}

/// What follows the first line is shorter.
pub proof fn first_line_bounds(text: Seq<u8>)
    ensures
        text.len() > 0 ==> first_line(text).1.len() < text.len(),
{
    bytes::find_byte_bounds(text, LF, 0);
}

fn split_line<'a>(text: &'a [u8]) -> (r: (&'a [u8], &'a [u8]))
    ensures
        (r.0@, r.1@) == first_line(text@),
        text@.len() > 0 ==> r.1@.len() < text@.len(),
{
    proof {
        first_line_bounds(text@);
    }
    match bytes::split_once(text, LF) {
        Some((line, rest)) => (line, rest),
        None => {
            let end = bytes::tail_of(text, text.len());
            assert(end@ == Seq::<u8>::empty());
            (text, end)
        },
    }
}

fn trim_trailing_space(line: &[u8]) -> (r: &[u8])
    ensures
        r@ == without_trailing_space(line@),
{
    let mut end: usize = line.len();
    assert(line@.take(end as int) == line@);
    while end > 0 && (line[end - 1] == 32 || line[end - 1] == 9 || line[end - 1] == LF || line[end
        - 1] == 12 || line[end - 1] == CR)
        invariant
            end <= line@.len(),
            without_trailing_space(line@) == without_trailing_space(line@.take(end as int)),
        decreases end,
    {
        assert(line@.take(end as int).drop_last() == line@.take(end - 1));
        end = end - 1;
    }
    bytes::head_of(line, end)
}

/// Cleans up a message: comments go, and so do white space at the end of lines, empty lines at the
/// start and at the end, and more than one empty line in a row.
pub fn cleanup_message(input: &[u8], comment_char: Option<&[u8]>) -> (r: Vec<u8>)
    ensures
        r@ == cleaned(input@, bytes::view_of(comment_char)),
{
    let mut out: Vec<u8> = Vec::new();
    let mut gap = false;
    let mut text = input;
    while text.len() > 0
        invariant
            cleaned(input@, bytes::view_of(comment_char)) == cleaned_from(
                text@,
                bytes::view_of(comment_char),
                out@,
                gap,
            ),
        decreases text@.len(),
    {
        let (raw, rest) = split_line(text);
        let line = trim_cr(raw);
        let comment = match comment_char {
            Some(comment_char) => bytes::starts_with(line, comment_char),
            None => false,
        };
        if !comment {
            let kept = trim_trailing_space(line);
            if kept.len() == 0 {
                gap = true;
            } else {
                let ghost before = out@;
                let ghost separated = if before.len() > 0 && gap {
                    before.push(LF)
                } else {
                    before
                };
                if out.len() > 0 && gap {
                    out.push(LF);
                }
                gap = false;
                bytes::append(&mut out, kept);
                out.push(LF);
                assert(out@ == separated + kept@.push(LF));
            }
        }
        text = rest;
    }
    out
}

/// A line of a message that is kept, and whether empty lines precede it.
pub struct Kept {
    pub gap: bool,
    pub line: Seq<u8>,
}

/// Whether a line stays as it is: it is not empty, holds no line feed, and ends in no white space.
pub open spec fn solid(line: Seq<u8>) -> bool {
    &&& line.len() > 0
    &&& !ascii_space(line.last())
    &&& forall|i: int| 0 <= i < line.len() ==> line[i] != LF
}

/// The lines of a message that are kept, from `text` on, behind `kept`.
pub open spec fn kept_from(
    text: Seq<u8>,
    comment_char: Option<Seq<u8>>,
    kept: Seq<Kept>,
    gap: bool,
) -> Seq<Kept>
    decreases text.len(),
{
    if text.len() == 0 || first_line(text).1.len() >= text.len() {
        kept
    } else {
        let (raw, rest) = first_line(text);
        let line = without_cr(raw);
        if is_comment(line, comment_char) {
            kept_from(rest, comment_char, kept, gap)
        } else {
            let solid_part = without_trailing_space(line);
            if solid_part.len() == 0 {
                kept_from(rest, comment_char, kept, true)
            } else {
                kept_from(
                    rest,
                    comment_char,
                    kept.push(Kept { gap: gap && kept.len() > 0, line: solid_part }),
                    false,
                )
            }
        }
    }
}

/// The text of a line that is kept.
pub open spec fn piece(kept: Kept) -> Seq<u8> {
    if kept.gap {
        seq![LF] + kept.line.push(LF)
    } else {
        kept.line.push(LF)
    }
}

/// The text of the lines that are kept.
pub open spec fn rendered(kept: Seq<Kept>) -> Seq<u8>
    decreases kept.len(),
{
    if kept.len() == 0 {
        Seq::empty()
    } else {
        rendered(kept.drop_last()) + piece(kept.last())
    }
}

proof fn cleaned_is_rendered(
    text: Seq<u8>,
    comment_char: Option<Seq<u8>>,
    kept: Seq<Kept>,
    gap: bool,
)
    ensures
        cleaned_from(text, comment_char, rendered(kept), gap) == rendered(
            kept_from(text, comment_char, kept, gap),
        ),
    decreases text.len(),
{
    first_line_bounds(text);
    if text.len() > 0 {
        let (raw, rest) = first_line(text);
        let line = without_cr(raw);
        if is_comment(line, comment_char) {
            cleaned_is_rendered(rest, comment_char, kept, gap);
        } else {
            let solid_part = without_trailing_space(line);
            if solid_part.len() == 0 {
                cleaned_is_rendered(rest, comment_char, kept, true);
            } else {
                rendered_is_empty(kept);
                let next = kept.push(Kept { gap: gap && kept.len() > 0, line: solid_part });
                assert(next.drop_last() == kept);
                let out = rendered(kept);
                let separated = if out.len() > 0 && gap {
                    out.push(LF)
                } else {
                    out
                };
                assert(rendered(next) == separated + solid_part.push(LF));
                cleaned_is_rendered(rest, comment_char, next, false);
            }
        }
    }
}

proof fn rendered_is_empty(kept: Seq<Kept>)
    ensures
        (rendered(kept).len() == 0) == (kept.len() == 0),
{
    if kept.len() > 0 {
        assert(piece(kept.last()).len() > 0);
    }
}

/// Whether lines that are kept stay as they are.
pub open spec fn tidy(kept: Seq<Kept>, comment_char: Option<Seq<u8>>) -> bool {
    forall|i: int|
        0 <= i < kept.len() ==> #[trigger] tidy_line(kept[i], comment_char) && (i == 0
            ==> !kept[i].gap)
}

/// Whether a line that is kept stays as it is.
pub open spec fn tidy_line(kept: Kept, comment_char: Option<Seq<u8>>) -> bool {
    solid(kept.line) && !is_comment(kept.line, comment_char)
}

proof fn trimmed_lines_are_solid(line: Seq<u8>)
    ensures
        without_trailing_space(line).len() <= line.len(),
        without_trailing_space(line) == line.take(without_trailing_space(line).len() as int),
        without_trailing_space(line).len() > 0 ==> !ascii_space(
            without_trailing_space(line).last(),
        ),
    decreases line.len(),
{
    if line.len() > 0 && ascii_space(line.last()) {
        trimmed_lines_are_solid(line.drop_last());
        let kept = without_trailing_space(line);
        assert(line.drop_last().take(kept.len() as int) == line.take(kept.len() as int));
    } else {
        assert(line.take(line.len() as int) == line);
    }
}

proof fn kept_lines_are_tidy(
    text: Seq<u8>,
    comment_char: Option<Seq<u8>>,
    kept: Seq<Kept>,
    gap: bool,
)
    requires
        tidy(kept, comment_char),
    ensures
        tidy(kept_from(text, comment_char, kept, gap), comment_char),
    decreases text.len(),
{
    first_line_bounds(text);
    if text.len() > 0 {
        let (raw, rest) = first_line(text);
        let line = without_cr(raw);
        if is_comment(line, comment_char) {
            kept_lines_are_tidy(rest, comment_char, kept, gap);
        } else {
            let solid_part = without_trailing_space(line);
            if solid_part.len() == 0 {
                kept_lines_are_tidy(rest, comment_char, kept, true);
            } else {
                let entry = Kept { gap: gap && kept.len() > 0, line: solid_part };
                let next = kept.push(entry);
                trimmed_lines_are_solid(line);
                bytes::find_byte_bounds(text, LF, 0);
                assert forall|i: int| 0 <= i < solid_part.len() implies solid_part[i] != LF by {
                    assert(solid_part[i] == line[i]);
                    assert(line[i] == raw[i]);
                    assert(raw[i] == text[i]);
                }
                if let Some(mark) = comment_char {
                    if has_prefix(solid_part, mark) {
                        assert(line.take(mark.len() as int) == solid_part.take(mark.len() as int));
                    }
                }
                assert forall|i: int| 0 <= i < next.len() implies #[trigger] tidy_line(
                    next[i],
                    comment_char,
                ) && (i == 0 ==> !next[i].gap) by {
                    if i < kept.len() {
                        assert(next[i] == kept[i]);
                        assert(tidy_line(kept[i], comment_char));
                    }
                }
                kept_lines_are_tidy(rest, comment_char, next, false);
            }
        }
    }
}

/// The text of the lines that are kept, from `at` on.
spec fn rendered_from(kept: Seq<Kept>, at: int) -> Seq<u8>
    decreases kept.len() - at,
{
    if at < 0 || at >= kept.len() {
        Seq::empty()
    } else {
        piece(kept[at]) + rendered_from(kept, at + 1)
    }
}

proof fn rendered_splits(kept: Seq<Kept>, at: int)
    requires
        0 <= at <= kept.len(),
    ensures
        rendered(kept) == rendered(kept.take(at)) + rendered_from(kept, at),
    decreases kept.len() - at,
{
    if at < kept.len() {
        rendered_splits(kept, at + 1);
        assert(kept.take(at + 1).drop_last() == kept.take(at));
        assert(rendered(kept.take(at + 1)) == rendered(kept.take(at)) + piece(kept[at]));
        assert(rendered(kept.take(at)) + piece(kept[at]) + rendered_from(kept, at + 1) == rendered(
            kept.take(at),
        ) + (piece(kept[at]) + rendered_from(kept, at + 1)));
    } else {
        assert(kept.take(at) == kept);
        assert(rendered(kept) + Seq::<u8>::empty() == rendered(kept));
    }
}

proof fn solid_line_is_first(line: Seq<u8>, rest: Seq<u8>)
    requires
        solid(line),
    ensures
        first_line(line.push(LF) + rest) == (line, rest),
        without_cr(line) == line,
        without_trailing_space(line) == line,
{
    let text = line.push(LF) + rest;
    bytes::find_byte_bounds(text, LF, 0);
    assert(text[line.len() as int] == LF);
    assert forall|i: int| 0 <= i < line.len() implies text[i] != LF by {
        assert(text[i] == line[i]);
    }
    assert(text.take(line.len() as int) == line);
    assert(text.skip(line.len() as int + 1) == rest);
}

proof fn tidy_lines_stay(kept: Seq<Kept>, comment_char: Option<Seq<u8>>, at: int)
    requires
        tidy(kept, comment_char),
        0 <= at <= kept.len(),
    ensures
        kept_from(rendered_from(kept, at), comment_char, kept.take(at), false) == kept,
    decreases kept.len() - at,
{
    if at < kept.len() {
        let entry = kept[at];
        let rest = rendered_from(kept, at + 1);
        let text = rendered_from(kept, at);
        let none = Seq::<u8>::empty();
        assert(tidy_line(kept[at], comment_char));
        if let Some(mark) = comment_char {
            if mark.len() == 0 {
                assert(entry.line.take(0) == mark);
            }
        }
        tidy_lines_stay(kept, comment_char, at + 1);
        solid_line_is_first(entry.line, rest);
        assert(kept.take(at).push(entry) == kept.take(at + 1));
        let behind = entry.line.push(LF) + rest;
        first_line_bounds(behind);
        if entry.gap {
            assert(text == seq![LF] + behind);
            bytes::find_byte_bounds(text, LF, 0);
            assert(text[0] == LF);
            assert(text.take(0) == none);
            assert(text.skip(1) == behind);
            assert(first_line(text) == (none, behind));
            assert(without_cr(none) == none);
            assert(!is_comment(none, comment_char));
            assert(kept_from(text, comment_char, kept.take(at), false) == kept_from(
                behind,
                comment_char,
                kept.take(at),
                true,
            ));
        } else {
            assert(text == behind);
        }
    } else {
        assert(kept.take(at) == kept);
    }
}

/// Cleaning up a message that is clean changes nothing, with the same comments or without any.
pub proof fn clean_messages_stay(
    text: Seq<u8>,
    comment_char: Option<Seq<u8>>,
    again: Option<Seq<u8>>,
)
    requires
        again is None || again == comment_char,
    ensures
        cleaned(cleaned(text, comment_char), again) == cleaned(text, comment_char),
{
    let kept = kept_from(text, comment_char, Seq::empty(), false);
    kept_lines_are_tidy(text, comment_char, Seq::empty(), false);
    cleaned_is_rendered(text, comment_char, Seq::empty(), false);
    assert(rendered(Seq::<Kept>::empty()) == Seq::<u8>::empty());
    assert(cleaned(text, comment_char) == rendered(kept));
    assert forall|i: int| 0 <= i < kept.len() implies #[trigger] tidy_line(kept[i], again) && (i == 0
        ==> !kept[i].gap) by {
        assert(tidy_line(kept[i], comment_char));
    }
    assert(kept.take(0) == Seq::<Kept>::empty());
    rendered_splits(kept, 0);
    assert(rendered(kept.take(0)) + rendered_from(kept, 0) == rendered_from(kept, 0));
    tidy_lines_stay(kept, again, 0);
    cleaned_is_rendered(rendered(kept), again, Seq::empty(), false);
}

/// What a message says: its lines without white space at their end, but for comments and empty lines.
pub open spec fn said(text: Seq<u8>, comment_char: Option<Seq<u8>>, done: Seq<Seq<u8>>) -> Seq<Seq<u8>>
    decreases text.len(),
{
    if text.len() == 0 || first_line(text).1.len() >= text.len() {
        done
    } else {
        let (raw, rest) = first_line(text);
        let line = without_cr(raw);
        let solid_part = without_trailing_space(line);
        if is_comment(line, comment_char) || solid_part.len() == 0 {
            said(rest, comment_char, done)
        } else {
            said(rest, comment_char, done.push(solid_part))
        }
    }
}

/// The lines that are kept, one by one.
pub open spec fn kept_words(kept: Seq<Kept>) -> Seq<Seq<u8>> {
    Seq::new(kept.len(), |i: int| kept[i].line)
}

proof fn kept_is_said(text: Seq<u8>, comment_char: Option<Seq<u8>>, kept: Seq<Kept>, gap: bool)
    ensures
        said(text, comment_char, kept_words(kept)) == kept_words(
            kept_from(text, comment_char, kept, gap),
        ),
    decreases text.len(),
{
    first_line_bounds(text);
    if text.len() > 0 {
        let (raw, rest) = first_line(text);
        let line = without_cr(raw);
        let solid_part = without_trailing_space(line);
        if is_comment(line, comment_char) {
            kept_is_said(rest, comment_char, kept, gap);
        } else if solid_part.len() == 0 {
            kept_is_said(rest, comment_char, kept, true);
        } else {
            let next = kept.push(Kept { gap: gap && kept.len() > 0, line: solid_part });
            assert(kept_words(next) == kept_words(kept).push(solid_part));
            kept_is_said(rest, comment_char, next, false);
        }
    }
}

/// Cleaning up a message keeps what it says, line by line and in order.
pub proof fn clean_messages_say_the_same(text: Seq<u8>, comment_char: Option<Seq<u8>>)
    ensures
        said(cleaned(text, comment_char), comment_char, Seq::empty()) == said(
            text,
            comment_char,
            Seq::empty(),
        ),
{
    let none = Seq::<Kept>::empty();
    let clean = cleaned(text, comment_char);
    let kept = kept_from(text, comment_char, none, false);
    assert(kept_words(none) == Seq::<Seq<u8>>::empty());
    kept_is_said(text, comment_char, none, false);
    kept_is_said(clean, comment_char, none, false);
    kept_lines_are_tidy(text, comment_char, none, false);
    cleaned_is_rendered(text, comment_char, none, false);
    assert(rendered(none) == Seq::<u8>::empty());
    assert(kept.take(0) == none);
    rendered_splits(kept, 0);
    assert(rendered(kept.take(0)) + rendered_from(kept, 0) == rendered_from(kept, 0));
    tidy_lines_stay(kept, comment_char, 0);
}

/// The lines of the text of the lines that are kept.
pub open spec fn kept_lines(kept: Seq<Kept>) -> Seq<Seq<u8>>
    decreases kept.len(),
{
    if kept.len() == 0 {
        Seq::empty()
    } else {
        kept_lines(kept.drop_last()) + (if kept.last().gap {
            seq![Seq::<u8>::empty(), kept.last().line]
        } else {
            seq![kept.last().line]
        })
    }
}

/// Whether lines are those of a clean message: none ends with white space or is a comment, none is empty at
/// the start or at the end, nor behind another empty one.
pub open spec fn clean_lines(all: Seq<Seq<u8>>, comment_char: Option<Seq<u8>>) -> bool {
    &&& forall|i: int|
        0 <= i < all.len() && (#[trigger] all[i]).len() > 0 ==> !ascii_space(all[i].last())
            && !is_comment(all[i], comment_char)
    &&& all.len() > 0 ==> all[0].len() > 0 && all.last().len() > 0
    &&& forall|i: int, j: int|
        0 <= i < all.len() && j == i + 1 && j < all.len() ==> (#[trigger] all[i]).len() > 0 || (
        #[trigger] all[j]).len() > 0
}

proof fn rendered_lines_are_clean(kept: Seq<Kept>, comment_char: Option<Seq<u8>>)
    requires
        tidy(kept, comment_char),
    ensures
        ends_line(rendered(kept)),
        lines(rendered(kept)) == kept_lines(kept),
        clean_lines(kept_lines(kept), comment_char),
        (kept_lines(kept).len() == 0) == (kept.len() == 0),
    decreases kept.len(),
{
    let none = Seq::<u8>::empty();
    assert(lines(none) == Seq::<Seq<u8>>::empty());
    if kept.len() > 0 {
        let rest = kept.drop_last();
        let entry = kept.last();
        assert forall|i: int| 0 <= i < rest.len() implies #[trigger] tidy_line(
            rest[i],
            comment_char,
        ) && (i == 0 ==> !rest[i].gap) by {
            assert(tidy_line(kept[i], comment_char));
        }
        rendered_lines_are_clean(rest, comment_char);
        assert(tidy_line(kept[kept.len() - 1], comment_char));
        lines_join(rendered(rest), piece(entry));
        line_then(entry.line, none);
        assert(entry.line + (seq![LF] + none) == entry.line.push(LF));
        assert(lines(entry.line.push(LF)) == seq![entry.line]);
        if entry.gap {
            line_then(none, entry.line.push(LF));
            assert(none + (seq![LF] + entry.line.push(LF)) == piece(entry));
            assert(seq![none] + seq![entry.line] == seq![none, entry.line]);
        }
        let before = kept_lines(rest);
        let all = kept_lines(kept);
        let added = if entry.gap {
            seq![none, entry.line]
        } else {
            seq![entry.line]
        };
        assert(all == before + added);
        assert(lines(piece(entry)) == added);
        assert(rendered(kept).last() == LF);
        if rest.len() == 0 {
            assert(kept[0] == entry);
        }
        assert forall|i: int| 0 <= i < all.len() && (#[trigger] all[i]).len() > 0 implies !ascii_space(
            all[i].last(),
        ) && !is_comment(all[i], comment_char) by {
            if i < before.len() {
                assert(all[i] == before[i]);
            } else {
                assert(all[i] == added[i - before.len()]);
            }
        }
        assert forall|i: int, j: int|
            0 <= i < all.len() && j == i + 1 && j < all.len() implies (#[trigger] all[i]).len() > 0
            || (#[trigger] all[j]).len() > 0 by {
            if j < before.len() {
                assert(all[i] == before[i] && all[j] == before[j]);
            } else if i < before.len() {
                assert(all[i] == before[before.len() - 1]);
            }
        }
        if before.len() > 0 {
            assert(all[0] == before[0]);
        }
    }
}

proof fn rendered_lines_end_solidly(kept: Seq<Kept>, comment_char: Option<Seq<u8>>)
    requires
        tidy(kept, comment_char),
    ensures
        ends_line(rendered(kept)),
        ends_solidly(rendered(kept)),
    decreases kept.len(),
{
    if kept.len() > 0 {
        let rest = kept.drop_last();
        let entry = kept.last();
        assert forall|i: int| 0 <= i < rest.len() implies #[trigger] tidy_line(
            rest[i],
            comment_char,
        ) && (i == 0 ==> !rest[i].gap) by {
            assert(tidy_line(kept[i], comment_char));
        }
        rendered_lines_end_solidly(rest, comment_char);
        assert(tidy_line(kept[kept.len() - 1], comment_char));
        let before = rendered(rest);
        let added = piece(entry);
        let all = rendered(kept);
        let n = before.len() as int;
        let start = if entry.gap {
            1int
        } else {
            0
        };
        assert(all == before + added);
        assert(added.last() == LF);
        assert forall|i: int|
            0 < i < all.len() && #[trigger] all[i] == LF && all[i - 1] != LF implies !ascii_space(
            all[i - 1],
        ) by {
            if i < n {
                assert(all[i] == before[i] && all[i - 1] == before[i - 1]);
            } else if i == n {
                assert(all[i - 1] == before.last());
            } else {
                assert(all[i] == added[i - n] && all[i - 1] == added[i - 1 - n]);
                let k = i - n - start;
                if 0 <= k < entry.line.len() {
                    assert(added[i - n] == entry.line[k]);
                } else if k == entry.line.len() {
                    assert(added[i - 1 - n] == entry.line.last());
                }
            }
        }
    }
}

/// Whether no byte before a line feed is white space, other than another line feed.
pub open spec fn ends_solidly(text: Seq<u8>) -> bool {
    forall|i: int|
        0 < i < text.len() && #[trigger] text[i] == LF && text[i - 1] != LF ==> !ascii_space(
            text[i - 1],
        )
}

/// A message that is cleaned up is clean: it is empty or ends with a line feed, none of its lines ends with
/// white space or is a comment, none is empty at the start or at the end, and no two in a row are empty. It
/// says what the message said, line by line and in order, and cleaning it up again changes nothing.
pub proof fn messages_are_cleaned(text: Seq<u8>, comment_char: Option<Seq<u8>>)
    ensures
        ends_line(cleaned(text, comment_char)),
        ends_solidly(cleaned(text, comment_char)),
        clean_lines(lines(cleaned(text, comment_char)), comment_char),
        forall|i: int|
            0 <= i < lines(cleaned(text, comment_char)).len() ==> !is_comment(
                #[trigger] lines(cleaned(text, comment_char))[i],
                comment_char,
            ),
        said(cleaned(text, comment_char), comment_char, Seq::empty()) == said(
            text,
            comment_char,
            Seq::empty(),
        ),
        cleaned(cleaned(text, comment_char), comment_char) == cleaned(text, comment_char),
{
    clean_messages_are_tidy(text, comment_char);
    clean_messages_say_the_same(text, comment_char);
    clean_messages_stay(text, comment_char, comment_char);
    let none = Seq::<Kept>::empty();
    let kept = kept_from(text, comment_char, none, false);
    kept_lines_are_tidy(text, comment_char, none, false);
    cleaned_is_rendered(text, comment_char, none, false);
    assert(rendered(none) == Seq::<u8>::empty());
    rendered_lines_end_solidly(kept, comment_char);
    let all = lines(cleaned(text, comment_char));
    assert forall|i: int| 0 <= i < all.len() implies !is_comment(#[trigger] all[i], comment_char) by {
        if all[i].len() == 0 && is_comment(all[i], comment_char) {
            let mark = comment_char->0;
            assert(all[0].len() > 0);
            assert(all[0].take(0) == mark);
            assert(is_comment(all[0], comment_char));
        }
    }
}

/// A message that is cleaned up is empty or ends with a line feed. None of its lines is a comment or ends
/// with white space, none is empty at the start or at the end, and no two in a row are empty.
pub proof fn clean_messages_are_tidy(text: Seq<u8>, comment_char: Option<Seq<u8>>)
    ensures
        ends_line(cleaned(text, comment_char)),
        clean_lines(lines(cleaned(text, comment_char)), comment_char),
{
    let kept = kept_from(text, comment_char, Seq::empty(), false);
    kept_lines_are_tidy(text, comment_char, Seq::empty(), false);
    cleaned_is_rendered(text, comment_char, Seq::empty(), false);
    assert(rendered(Seq::<Kept>::empty()) == Seq::<u8>::empty());
    rendered_lines_are_clean(kept, comment_char);
}

} // verus!
