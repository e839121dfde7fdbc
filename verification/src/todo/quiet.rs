//! What a todo shows around its body holds no plan.
use vstd::prelude::*;
use vstd::string::StringSliceAdditionalSpecFns;
use vstd::utf8::{encode_scalar, encode_utf8};
use crate::bytes;
use crate::bytes::{find_from, fits_line, has_prefix, lines, space_width, space_width_at_end};
use crate::bytes::{trimmed, trimmed_end, trimmed_start, unbroken, LF};
use crate::todo::lines::{closes_comment, editable, opens_comment};
use crate::todo::record::{field_texts, fields, fields_fit_lines, terminated, written};
use crate::todo::shown::{
    comment_after, comment_join, editable_join, ends_line, line_then, lines_join, silent,
    visible_starts,
};
use crate::todo::state::{TodoStateView, STATE_START};
use crate::todo::write::{notice, CONTINUATION, HELP, NOTHING_TO_DO, PENDING_COMMITS, UPDATED_BASE};
use crate::todo::write::UPDATED_BASE_AND_PENDING_COMMITS;

verus! {

pub(crate) proof fn silent_join(a: Seq<u8>, b: Seq<u8>)
    requires
        silent(a),
        silent(b),
    ensures
        silent(a + b),
{
    let none = Seq::<Seq<u8>>::empty();
    lines_join(a, b);
    editable_join(lines(a), lines(b), 0, false, none);
    comment_join(lines(a), lines(b), 0, false);
    if b.len() > 0 {
        assert((a + b).last() == b.last());
    } else {
        assert(a + b == a);
    }
}

proof fn occurs(text: Seq<u8>, pattern: Seq<u8>, from: int, at: int)
    requires
        0 <= from <= at,
        at + pattern.len() <= text.len(),
        text.subrange(at, at + pattern.len()) == pattern,
    ensures
        find_from(text, pattern, from) is Some,
    decreases at - from,
{
    if from < at && text.subrange(from, from + pattern.len()) != pattern {
        occurs(text, pattern, from + 1, at);
    }
}

/// Whether no arrow is in a text.
pub open spec fn arrowless(text: Seq<u8>) -> bool {
    forall|i: int| 0 <= i < text.len() - 1 ==> !(#[trigger] text[i] == 45 && text[i + 1] == 62)
}

proof fn arrowless_is_open(text: Seq<u8>, from: int)
    requires
        0 <= from,
        arrowless(text),
    ensures
        find_from(text, "-->".spec_bytes(), from) is None,
    decreases text.len() + 1 - from,
{
    comment_bytes();
    if from + 3 <= text.len() {
        let part = text.subrange(from, from + 3);
        assert(part[1] == text[from + 1] && part[2] == text[from + 2]);
        arrowless_is_open(text, from + 1);
    }
}

proof fn comment_bytes()
    ensures
        "-->".spec_bytes() == seq![45u8, 45, 62],
        "<!--".spec_bytes() == seq![60u8, 33, 45, 45],
        "# ".spec_bytes() == seq![35u8, 32],
{
    broadcast use vstd::string::is_ascii_spec_bytes;

    reveal_strlit("-->");
    assert(vstd::string::is_ascii("-->"));
    assert("-->".spec_bytes() =~= seq![45u8, 45, 62]);
    reveal_strlit("<!--");
    assert(vstd::string::is_ascii("<!--"));
    assert("<!--".spec_bytes() =~= seq![60u8, 33, 45, 45]);
    reveal_strlit("# ");
    assert(vstd::string::is_ascii("# "));
    assert("# ".spec_bytes() =~= seq![35u8, 32]);
}

proof fn start_is_arrowless(text: Seq<u8>)
    requires
        arrowless(text),
    ensures
        arrowless(trimmed_start(text)),
    decreases text.len(),
{
    let width = space_width(text) as int;
    if width > 0 {
        let rest = text.skip(width);
        assert forall|i: int| 0 <= i < rest.len() - 1 implies !(#[trigger] rest[i] == 45 && rest[i
            + 1] == 62) by {
            assert(rest[i] == text[width + i] && rest[i + 1] == text[width + i + 1]);
        }
        start_is_arrowless(rest);
    }
}

proof fn end_is_arrowless(text: Seq<u8>)
    requires
        arrowless(text),
    ensures
        arrowless(trimmed_end(text)),
    decreases text.len(),
{
    let width = space_width_at_end(text) as int;
    if width > 0 {
        let rest = text.take(text.len() - width);
        assert forall|i: int| 0 <= i < rest.len() - 1 implies !(#[trigger] rest[i] == 45 && rest[i
            + 1] == 62) by {
            assert(rest[i] == text[i] && rest[i + 1] == text[i + 1]);
        }
        end_is_arrowless(rest);
    }
}

proof fn trimmed_is_arrowless(text: Seq<u8>)
    requires
        arrowless(text),
    ensures
        arrowless(trimmed(text)),
{
    start_is_arrowless(text);
    end_is_arrowless(trimmed_start(text));
}

proof fn comments_go_on(text: Seq<u8>)
    requires
        arrowless(text),
    ensures
        forall|i: int| 0 <= i < lines(text).len() ==> arrowless(#[trigger] lines(text)[i]),
    decreases text.len(),
{
    if text.len() > 0 {
        bytes::find_byte_bounds(text, LF, 0);
        if let Some(i) = bytes::find_byte_from(text, LF, 0) {
            let first = bytes::without_cr(text.take(i));
            let rest = text.skip(i + 1);
            assert forall|k: int| 0 <= k < first.len() - 1 implies !(#[trigger] first[k] == 45
                && first[k + 1] == 62) by {
                assert(first[k] == text[k] && first[k + 1] == text[k + 1]);
            }
            assert forall|k: int| 0 <= k < rest.len() - 1 implies !(#[trigger] rest[k] == 45
                && rest[k + 1] == 62) by {
                assert(rest[k] == text[i + 1 + k] && rest[k + 1] == text[i + 1 + k + 1]);
            }
            comments_go_on(rest);
            let all = seq![first] + lines(rest);
            assert(lines(text) == all);
            assert forall|k: int| 0 <= k < all.len() implies arrowless(#[trigger] all[k]) by {
                if k > 0 {
                    assert(all[k] == lines(rest)[k - 1]);
                }
            }
        }
    }
}

/// Whether no line ends a comment.
pub open spec fn all_open(all: Seq<Seq<u8>>) -> bool {
    forall|i: int| 0 <= i < all.len() ==> !closes_comment(trimmed(#[trigger] all[i]))
}

proof fn open_lines_are_skipped(all: Seq<Seq<u8>>, at: int)
    requires
        0 <= at <= all.len(),
        all_open(all),
    ensures
        editable(all, at, true, Seq::empty()) == Seq::<Seq<u8>>::empty(),
        comment_after(all, at, true),
    decreases all.len() - at,
{
    if at < all.len() {
        assert(!closes_comment(trimmed(all[at])));
        open_lines_are_skipped(all, at + 1);
    }
}

/// A comment over several lines holds no plan: one that opens it, and those within it, none of which
/// closes it.
proof fn comments_are_silent(first: Seq<u8>, middle: Seq<u8>)
    requires
        fits_line(first),
        opens_comment(trimmed(first)),
        !closes_comment(trimmed(first)),
        ends_line(middle),
        all_open(lines(middle)),
    ensures
        silent(first + seq![LF] + middle + "-->".spec_bytes() + seq![LF]),
{
    comment_bytes();
    let none = Seq::<Seq<u8>>::empty();
    let last = seq![45u8, 45, 62];
    let closing = last + (seq![LF] + Seq::<u8>::empty());
    let text = first + seq![LF] + middle + last + seq![LF];
    let rest = middle + closing;
    assert(text == first + (seq![LF] + rest));
    line_then(first, rest);
    lines_join(middle, closing);
    line_then(last, Seq::empty());
    assert(lines(Seq::<u8>::empty()) == none);
    assert(lines(closing) == seq![last]);
    let a = seq![first];
    let b = lines(middle);
    let c = seq![last];
    assert(lines(text) == a + (b + c));
    assert(space_width(last) == 0 && space_width_at_end(last) == 0);
    assert(trimmed(last) == last);
    assert(last.subrange(0, 3) == last);
    assert(closes_comment(last));
    reveal_with_fuel(editable, 2);
    reveal_with_fuel(comment_after, 2);
    assert(a[0] == first && c[0] == last);
    assert(editable(a, 0, false, none) == none && comment_after(a, 0, false));
    assert(editable(c, 0, true, none) == none && !comment_after(c, 0, true));
    open_lines_are_skipped(b, 0);
    editable_join(b, c, 0, true, none);
    comment_join(b, c, 0, true);
    editable_join(a, b + c, 0, false, none);
    comment_join(a, b + c, 0, false);
    assert(text.last() == LF);
}

pub(crate) proof fn blanks_are_silent()
    ensures
        silent(seq![LF]),
{
    comment_bytes();
    let none = Seq::<u8>::empty();
    line_then(none, none);
    assert(none + (seq![LF] + none) == seq![LF]);
    assert(lines(none) == Seq::<Seq<u8>>::empty());
    assert(lines(seq![LF]) == seq![none]);
    let all = seq![none];
    assert(all[0] == none);
    assert(trimmed(none) == none);
    reveal_with_fuel(editable, 2);
    reveal_with_fuel(comment_after, 2);
    assert(!opens_comment(none));
}

proof fn short_comments_are_silent(line: Seq<u8>)
    requires
        unbroken(line),
        has_prefix(line, "<!--".spec_bytes()),
        line.len() >= 7,
        line.skip(line.len() - 3) == "-->".spec_bytes(),
    ensures
        silent(line + seq![LF]),
{
    comment_bytes();
    let n = line.len() as int;
    let none = Seq::<u8>::empty();
    assert(line.take(4)[0] == line[0]);
    assert(line.skip(n - 3)[2] == line[n - 1]);
    visible_starts(line);
    assert(space_width_at_end(line) == 0);
    assert(trimmed(line) == line);
    assert(line.subrange(n - 3, n - 3 + 3) == line.skip(n - 3));
    occurs(line, "-->".spec_bytes(), 0, n - 3);
    line_then(line, none);
    assert(line + (seq![LF] + none) == line + seq![LF]);
    assert(lines(none) == Seq::<Seq<u8>>::empty());
    let all = seq![line];
    assert(lines(line + seq![LF]) == all);
    assert(all[0] == line);
    reveal_with_fuel(editable, 2);
    reveal_with_fuel(comment_after, 2);
}

pub(crate) proof fn titles_are_silent(line: Seq<u8>)
    requires
        unbroken(line),
        line.len() > 2,
        has_prefix(line, "# ".spec_bytes()),
        33 <= line.last() <= 126,
    ensures
        silent(line + seq![LF]),
{
    comment_bytes();
    let none = Seq::<u8>::empty();
    assert(line.take(2)[0] == line[0]);
    visible_starts(line);
    assert(space_width_at_end(line) == 0);
    assert(trimmed(line) == line);
    assert(!opens_comment(line)) by {
        if opens_comment(line) {
            assert(line.take(4)[0] == line[0]);
        }
    }
    line_then(line, none);
    assert(line + (seq![LF] + none) == line + seq![LF]);
    assert(lines(none) == Seq::<Seq<u8>>::empty());
    let all = seq![line];
    assert(lines(line + seq![LF]) == all);
    assert(all[0] == line);
    reveal_with_fuel(editable, 2);
    reveal_with_fuel(comment_after, 2);
}

proof fn wide_bytes(scalar: u32)
    requires
        scalar > 0x7f,
    ensures
        forall|i: int|
            0 <= i < encode_scalar(scalar).len() ==> #[trigger] encode_scalar(scalar)[i] >= 128,
{
    assert(vstd::utf8::leading_byte_width_2(scalar) >= 128) by (bit_vector);
    assert(vstd::utf8::leading_byte_width_3(scalar) >= 128) by (bit_vector);
    assert(vstd::utf8::leading_byte_width_4(scalar) >= 128) by (bit_vector);
    assert(vstd::utf8::last_continuation_byte(scalar) >= 128) by (bit_vector);
    assert(vstd::utf8::second_last_continuation_byte(scalar) >= 128) by (bit_vector);
    assert(vstd::utf8::third_last_continuation_byte(scalar) >= 128) by (bit_vector);
}

proof fn narrow_bytes(scalar: u32)
    requires
        scalar <= 0x7f,
    ensures
        encode_scalar(scalar) == seq![scalar as u8],
{
    assert(vstd::utf8::leading_byte_width_1(scalar) == scalar as u8) by (bit_vector)
        requires
            scalar <= 0x7f,
    ;
}

proof fn first_bytes(chars: Seq<char>)
    requires
        chars.len() > 0,
    ensures
        encode_utf8(chars).len() > 0,
        encode_utf8(chars)[0] < 128 ==> encode_utf8(chars)[0] == chars[0] as u32,
{
    let scalar = chars[0] as u32;
    if scalar <= 0x7f {
        narrow_bytes(scalar);
        assert(encode_utf8(chars)[0] == scalar as u8);
    } else {
        wide_bytes(scalar);
        assert(encode_utf8(chars)[0] == encode_scalar(scalar)[0]);
    }
}

proof fn encodings_are_arrowless(chars: Seq<char>)
    requires
        forall|i: int|
            0 <= i < chars.len() - 1 ==> !(#[trigger] chars[i] == '-' && chars[i + 1] == '>'),
    ensures
        arrowless(encode_utf8(chars)),
    decreases chars.len(),
{
    if chars.len() > 0 {
        let scalar = chars[0] as u32;
        vstd::utf8::char_u32_cast(chars[0], scalar);
        let rest = chars.drop_first();
        assert forall|i: int| 0 <= i < rest.len() - 1 implies !(#[trigger] rest[i] == '-' && rest[i
            + 1] == '>') by {
            assert(rest[i] == chars[i + 1] && rest[i + 1] == chars[i + 1 + 1]);
        }
        encodings_are_arrowless(rest);
        if rest.len() > 0 {
            first_bytes(rest);
        }
        if scalar <= 0x7f {
            narrow_bytes(scalar);
        } else {
            wide_bytes(scalar);
        }
        let a = encode_scalar(scalar);
        let b = encode_utf8(rest);
        let all = encode_utf8(chars);
        assert(all == a + b);
        assert forall|i: int| 0 <= i < all.len() - 1 implies !(#[trigger] all[i] == 45 && all[i + 1]
            == 62) by {
            if i >= a.len() {
                assert(all[i] == b[i - a.len()] && all[i + 1] == b[i + 1 - a.len()]);
            } else {
                assert(all[i] == a[i]);
                if i + 1 >= a.len() {
                    assert(all[i + 1] == b[0]);
                    if all[i] == 45 && all[i + 1] == 62 {
                        assert(scalar <= 0x7f && a[0] == scalar as u8);
                        assert(scalar == 45);
                        assert(chars[0] == '-');
                        assert(rest[0] == chars[1]);
                        vstd::utf8::char_u32_cast(rest[0], rest[0] as u32);
                        assert(!(chars[0] == '-' && chars[0int + 1] == '>'));
                    }
                }
            }
        }
    }
}

proof fn encodings_join(a: Seq<char>, b: Seq<char>)
    ensures
        encode_utf8(a + b) == encode_utf8(a) + encode_utf8(b),
    decreases a.len(),
{
    if a.len() == 0 {
        assert(a + b == b);
    } else {
        encodings_join(a.drop_first(), b);
        assert((a + b)[0] == a[0]);
        assert((a + b).drop_first() == a.drop_first() + b);
    }
}

#[verifier::rlimit(40)]
proof fn help_parts()
    ensures
        HELP@.len() > 12,
        HELP@.take(7) == "\n\n<!--\n"@,
        HELP@.skip(HELP@.len() - 4) == "-->\n"@,
        HELP@[HELP@.len() - 5] == '\n',
        forall|i: int|
            0 <= i < HELP@.len() - 5 ==> !(#[trigger] HELP@[i] == '-' && HELP@[i + 1] == '>'),
{
    reveal_strlit(
        r#"

<!--
# Rebase todo help

- Read the editable plan from bottom to top. Each fork separator is the base of the stack above it. Blank lines are ignored.
- `pick <id>` keeps a commit. Delete its line to drop it, or move the line to reorder it. Each listed commit may be picked only once.
- `squash <id>` folds a commit into the following command below it in the same fork. Its full message is retained with a source heading, and additional authors become `Co-authored-by` trailers.
- A centered `fork <id>` separator starts the stack above it at an existing commit or a commit picked below it. The selected hidden boundary is labelled `(base)` with its title; a newer hidden tip used by rebase-update is `(updated-base)`, and an explicit command-line target is `(onto)`. Other fork separators stay terse. Delete a separator to continue its commits on the stack below; add one to create a fork. A listed commit must be picked below before it can be a fork target.
- `empty <title>` creates an empty commit with the text after the command as its title.
- Commands may be plain text or enclosed in backticks. Text after a backticked command and text after a fork ID is display-only context.
- Prefix `pick`, `squash`, or `empty` with `@` to choose the post-rebase checkout. Reference lines like `(main, topic)` point refs at the following separator or command below them; moving, adding, or removing names moves, creates, or deletes refs, including existing editable refs outside the generated todo. The current attached ref stays attached while it remains at the `@` command. Prefix one editable ref with `@` to attach HEAD to it explicitly; it must point to the `@` command.
- Saving an unchanged document in the history-view editor is a no-op unless the ancestry ending at `@` has a pending rebase. Explicit `tix rebase apply` and `--edit-and-apply` apply valid unchanged plans. Unchanged picks whose parent stays unchanged retain their IDs; replay starts at the first pending or structurally changed commit. Changed commits through `@` are cherry-picked and re-signed, while descendants and other stacks remain lazily rebased with invalidated signatures until time travel reaches them.
- Tix pins, stashes, and review refs, tags, remote-tracking refs, and symbolic refs stay unchanged and hidden. A ref checked out by another worktree may be moved but not deleted. New unreferenced leaves are pinned.
- A todo conflict changes nothing unless explicitly accepted. The TUI offers `<enter>` to materialize it; command-line apply requires `--materialize-conflicts [CONTINUE]` and writes a continuation todo. Resolve the ordinary unmerged index, then apply that todo. Concurrent ref changes still abort the update.
- Commit states are display-only and editing them has no effect: `🚧` means the commit is a todo, `📝` it has a note, `✔️` its tree passed checks, `↻` a lazy rebase is pending, `◌` an empty signature awaits signing, `◐` a signature is present but unverified, `○` means unsigned, and `🎁` means worktree state is stashed for that commit. Stashes follow rewritten commits automatically; dropping a stashed commit or combining multiple stashes into one result is rejected.
-->
"#,
    );
    reveal_strlit("\n\n<!--\n");
    reveal_strlit("-->\n");
    assert(HELP@.take(7) =~= "\n\n<!--\n"@);
    assert(HELP@.skip(HELP@.len() - 4) =~= "-->\n"@);
}

/// The help is a comment.
#[verifier::rlimit(40)]
pub proof fn help_is_silent()
    ensures
        silent(HELP.spec_bytes()),
{
    broadcast use vstd::string::is_ascii_spec_bytes;

    comment_bytes();
    help_parts();
    reveal_strlit("\n\n<!--\n");
    reveal_strlit("-->\n");
    assert(vstd::string::is_ascii("\n\n<!--\n"));
    assert(vstd::string::is_ascii("-->\n"));
    let all = HELP@;
    let n = all.len() as int;
    let front = all.take(7);
    let middle = all.subrange(7, n - 4);
    let back = all.skip(n - 4);
    assert(all == front + (middle + back));
    assert forall|i: int| 0 <= i < middle.len() - 1 implies !(#[trigger] middle[i] == '-'
        && middle[i + 1] == '>') by {
        assert(middle[i] == all[i + 7] && middle[i + 1] == all[i + 7 + 1]);
    }
    encodings_are_arrowless(middle);
    encodings_join(front, middle + back);
    encodings_join(middle, back);
    let inner = encode_utf8(middle);
    // The comment is over several lines, with blank lines before it.
    let last = middle.last();
    let before = middle.drop_last();
    assert(last == '\n');
    assert(middle == before + seq![last]);
    encodings_join(before, seq![last]);
    reveal_with_fuel(encode_utf8, 2);
    narrow_bytes(10);
    assert(seq![last].drop_first() == Seq::<char>::empty());
    assert(encode_utf8(seq![last]) == seq![LF]);
    assert(inner.last() == LF);
    comments_go_on(inner);
    assert forall|i: int| 0 <= i < lines(inner).len() implies !closes_comment(
        trimmed(#[trigger] lines(inner)[i]),
    ) by {
        trimmed_is_arrowless(lines(inner)[i]);
        arrowless_is_open(trimmed(lines(inner)[i]), 0);
    }
    let opening = seq![60u8, 33, 45, 45];
    assert(space_width(opening) == 0 && space_width_at_end(opening) == 0);
    assert(arrowless(opening));
    arrowless_is_open(opening, 0);
    assert(opening.take(4) == opening);
    comments_are_silent(opening, inner);
    blanks_are_silent();
    let comment = opening + seq![LF] + inner + seq![45u8, 45, 62] + seq![LF];
    silent_join(seq![LF], comment);
    silent_join(seq![LF], seq![LF] + comment);
    assert("\n\n<!--\n".spec_bytes() =~= seq![LF, LF, 60u8, 33, 45, 45, LF]);
    assert("-->\n".spec_bytes() =~= seq![45u8, 45, 62, LF]);
    assert(HELP.spec_bytes() == encode_utf8(all));
    assert(HELP.spec_bytes() =~= seq![LF] + (seq![LF] + comment));
}

/// Whether a text is a comment on a line of its own.
pub open spec fn whole_comment(text: Seq<char>) -> bool {
    &&& text.len() >= 7
    &&& text[0] == '<' && text[1] == '!' && text[2] == '-' && text[3] == '-'
    &&& text[text.len() - 3] == '-' && text[text.len() - 2] == '-' && text[text.len() - 1] == '>'
    &&& forall|i: int| 0 <= i < text.len() ==> #[trigger] text[i] as u32 <= 0x7f && text[i] != '\n'
}

proof fn nothing_to_do_is_a_comment()
    ensures
        whole_comment(NOTHING_TO_DO@),
{
    reveal_strlit(
        "<!-- Rebase help follows. Saving unchanged is a no-op; empty this file or remove the tix-rebase-state-v2 comment to cancel. -->",
    );
}

proof fn pending_commits_is_a_comment()
    ensures
        whole_comment(PENDING_COMMITS@),
{
    reveal_strlit(
        "<!-- Rebase help follows. Pending commits on the @ ancestry make saving unchanged apply this todo: that ancestry is replayed now and other forks stay lazy. Empty this file or remove the tix-rebase-state-v2 comment to cancel. -->",
    );
}

proof fn updated_base_is_a_comment()
    ensures
        whole_comment(UPDATED_BASE@),
{
    reveal_strlit(
        "<!-- Rebase help follows. Saving unchanged rebases onto the updated base; empty this file or remove the tix-rebase-state-v2 comment to cancel. -->",
    );
}

proof fn both_are_a_comment()
    ensures
        whole_comment(UPDATED_BASE_AND_PENDING_COMMITS@),
{
    reveal_strlit(
        "<!-- Rebase help follows. Saving unchanged rebases onto the updated base and applies pending commits on the @ ancestry: that ancestry is replayed now and other forks stay lazy. Empty this file or remove the tix-rebase-state-v2 comment to cancel. -->",
    );
}

proof fn ascii_is_encoded(chars: Seq<char>)
    requires
        forall|i: int| 0 <= i < chars.len() ==> #[trigger] chars[i] as u32 <= 0x7f,
    ensures
        encode_utf8(chars).len() == chars.len(),
        forall|i: int|
            0 <= i < chars.len() ==> #[trigger] encode_utf8(chars)[i] == (chars[i] as u32) as u8,
    decreases chars.len(),
{
    if chars.len() > 0 {
        let rest = chars.drop_first();
        assert forall|i: int| 0 <= i < rest.len() implies #[trigger] rest[i] as u32 <= 0x7f by {
            assert(rest[i] == chars[i + 1]);
        }
        ascii_is_encoded(rest);
        assert(chars[0] as u32 <= 0x7f);
        narrow_bytes(chars[0] as u32);
        let all = encode_utf8(chars);
        assert(all == seq![(chars[0] as u32) as u8] + encode_utf8(rest));
        assert forall|i: int| 0 <= i < chars.len() implies #[trigger] all[i] == (chars[i]
            as u32) as u8 by {
            if i > 0 {
                assert(all[i] == encode_utf8(rest)[i - 1]);
                assert(rest[i - 1] == chars[i]);
            }
        }
    }
}

/// What a todo says about saving it unchanged is a comment.
pub proof fn notices_are_silent(base_updated: bool, has_pending: bool)
    ensures
        silent(encode_utf8(notice(base_updated, has_pending)) + seq![LF]),
{
    nothing_to_do_is_a_comment();
    pending_commits_is_a_comment();
    updated_base_is_a_comment();
    both_are_a_comment();
    comment_bytes();
    let text = notice(base_updated, has_pending);
    assert(whole_comment(text));
    ascii_is_encoded(text);
    let line = encode_utf8(text);
    let n = line.len() as int;
    assert forall|i: int| 0 <= i < n implies line[i] != LF by {
        assert(text[i] as u32 <= 0x7f && text[i] != '\n');
        assert(line[i] == (text[i] as u32) as u8);
        vstd::utf8::char_u32_cast(text[i], text[i] as u32);
    }
    assert(line.take(4) =~= seq![60u8, 33, 45, 45]);
    assert(line.skip(n - 3) =~= seq![45u8, 45, 62]);
    short_comments_are_silent(line);
}

proof fn continuation_parts()
    ensures
        CONTINUATION@.len() == 183,
        whole_comment(CONTINUATION@.take(150)),
        CONTINUATION@[150] == '\n',
        CONTINUATION@.skip(151) == "# Continue materialized rebase\n\n"@,
{
    reveal_strlit(
        "<!-- Rebase help follows. Saving unchanged continues the materialized rebase; empty this file or remove the tix-rebase-state-v2 comment to cancel. -->\n# Continue materialized rebase\n\n",
    );
    reveal_strlit("# Continue materialized rebase\n\n");
    assert(CONTINUATION@.skip(151) =~= "# Continue materialized rebase\n\n"@);
}

/// The text that a continuation starts with says nothing.
pub proof fn continuation_is_silent()
    ensures
        silent(CONTINUATION.spec_bytes()),
{
    broadcast use vstd::string::is_ascii_spec_bytes;

    continuation_parts();
    comment_bytes();
    let text = CONTINUATION@.take(150);
    ascii_is_encoded(text);
    let line = encode_utf8(text);
    assert forall|i: int| 0 <= i < 150 implies line[i] != LF by {
        assert(text[i] as u32 <= 0x7f && text[i] != '\n');
        assert(line[i] == (text[i] as u32) as u8);
        vstd::utf8::char_u32_cast(text[i], text[i] as u32);
    }
    assert(line.take(4) =~= seq![60u8, 33, 45, 45]);
    assert(line.skip(147) =~= seq![45u8, 45, 62]);
    short_comments_are_silent(line);
    let rest = "# Continue materialized rebase\n\n"@;
    reveal_strlit("# Continue materialized rebase\n\n");
    assert(vstd::string::is_ascii("# Continue materialized rebase\n\n"));
    let shown = "# Continue materialized rebase\n\n".spec_bytes();
    let title = shown.take(30);
    assert(title.take(2) =~= seq![35u8, 32]);
    assert(title.last() == 101);
    assert(unbroken(title));
    titles_are_silent(title);
    blanks_are_silent();
    silent_join(title + seq![LF], seq![LF]);
    silent_join(line + seq![LF], title + seq![LF] + seq![LF]);
    assert(shown =~= title + seq![LF] + seq![LF]);
    assert(CONTINUATION@ =~= text + seq!['\n'] + rest);
    encodings_join(text + seq!['\n'], rest);
    encodings_join(text, seq!['\n']);
    ascii_is_encoded(seq!['\n']);
    vstd::utf8::char_u32_cast('\n', 10);
    assert(encode_utf8(seq!['\n']) =~= seq![LF]);
    assert(CONTINUATION.spec_bytes() == encode_utf8(CONTINUATION@));
    assert(shown == encode_utf8(rest));
    assert(CONTINUATION.spec_bytes() =~= (line + seq![LF]) + (title + seq![LF] + seq![LF]));
}

/// Whether no field of a state ends the comment that the state is written in.
pub open spec fn stays_in_comment(state: TodoStateView) -> bool {
    all_open(field_texts(fields(state)))
}

proof fn terminated_lines(texts: Seq<Seq<u8>>)
    requires
        forall|i: int| 0 <= i < texts.len() ==> fits_line(#[trigger] texts[i]),
    ensures
        ends_line(terminated(texts)),
        lines(terminated(texts)) == texts,
    decreases texts.len(),
{
    let none = Seq::<u8>::empty();
    assert(lines(none) == Seq::<Seq<u8>>::empty());
    if texts.len() > 0 {
        let less = texts.drop_last();
        let last = texts.last();
        assert forall|i: int| 0 <= i < less.len() implies fits_line(#[trigger] less[i]) by {
            assert(less[i] == texts[i]);
        }
        terminated_lines(less);
        assert(texts[texts.len() - 1] == last);
        line_then(last, none);
        let line = last + (seq![LF] + none);
        assert(terminated(texts) == terminated(less) + line);
        lines_join(terminated(less), line);
        assert(lines(line) == seq![last]);
        assert(texts == less + seq![last]);
        assert(line.last() == LF);
    } else {
        assert(texts == Seq::<Seq<u8>>::empty());
    }
}

/// The state that a todo carries is a comment.
#[verifier::rlimit(40)]
pub proof fn states_are_silent(state: TodoStateView)
    requires
        stays_in_comment(state),
    ensures
        silent(written(state)),
{
    broadcast use vstd::string::is_ascii_spec_bytes;

    comment_bytes();
    reveal_strlit("<!-- tix-rebase-state-v2\n");
    assert(vstd::string::is_ascii(STATE_START));
    let start = STATE_START.spec_bytes();
    assert(start.len() == 25);
    let first = start.drop_last();
    assert(start.last() == LF);
    assert(start == first + seq![LF]);
    assert forall|i: int| 0 <= i < first.len() implies first[i] != LF by {
        assert(first[i] == start[i]);
    }
    assert(first.last() == 50) by {
        assert(first.last() == start[23]);
    }
    assert(first[0] == 60);
    visible_starts(first);
    assert(space_width_at_end(first) == 0);
    assert(trimmed(first) == first);
    assert(first.take(4) =~= seq![60u8, 33, 45, 45]);
    assert(arrowless(first)) by {
        assert forall|i: int| 0 <= i < first.len() - 1 implies !(#[trigger] first[i] == 45
            && first[i + 1] == 62) by {
            assert(first[i + 1] == start[i + 1]);
        }
    }
    arrowless_is_open(first, 0);
    let texts = field_texts(fields(state));
    assert forall|i: int| 0 <= i < texts.len() implies fits_line(#[trigger] texts[i]) by {
        fields_fit_lines(fields(state)[i]);
    }
    terminated_lines(texts);
    comments_are_silent(first, terminated(texts));
    assert(written(state) =~= first + seq![LF] + terminated(texts) + "-->".spec_bytes() + seq![LF]);
}

} // verus!
