//! The lines of a rebase todo: separators, reference lines and commands.
use vstd::prelude::*;
use vstd::slice::slice_subrange;
use vstd::string::StringSliceAdditionalSpecFns;
use crate::bytes;
use crate::names;
use crate::plan::{viewed, viewed_push};
use crate::todo::TodoError;

verus! {

/// The horizontal line that fork separators start and end with.
pub const RAIL: &'static str = "─";

/// The text without the rails at its start.
pub open spec fn unrailed_start(text: Seq<u8>) -> Seq<u8>
    decreases text.len(),
{
    if RAIL.spec_bytes().len() > 0 && bytes::has_prefix(text, RAIL.spec_bytes()) {
        unrailed_start(text.skip(RAIL.spec_bytes().len() as int))
    } else {
        text
    }
}

/// The text without the rails at its end.
pub open spec fn unrailed_end(text: Seq<u8>) -> Seq<u8>
    decreases text.len(),
{
    if RAIL.spec_bytes().len() > 0 && bytes::has_suffix(text, RAIL.spec_bytes()) {
        unrailed_end(text.take(text.len() - RAIL.spec_bytes().len()))
    } else {
        text
    }
}

/// The text without the rails around it.
pub fn strip_rails(text: &[u8]) -> (r: &[u8])
    ensures
        r@ == unrailed_end(unrailed_start(text@)),
{
    let rail = RAIL.as_bytes();
    let mut rest = text;
    while rail.len() > 0 && bytes::starts_with(rest, rail)
        invariant
            rail@ == RAIL.spec_bytes(),
            unrailed_start(text@) == unrailed_start(rest@),
        decreases rest@.len(),
    {
        rest = bytes::tail_of(rest, rail.len());
    }
    let ghost start = rest@;
    while rail.len() > 0 && bytes::ends_with(rest, rail)
        invariant
            rail@ == RAIL.spec_bytes(),
            unrailed_end(start) == unrailed_end(rest@),
        decreases rest@.len(),
    {
        rest = bytes::head_of(rest, rest.len() - rail.len());
    }
    rest
}

/// Whether a line separates forks.
pub open spec fn is_separator(line: Seq<u8>) -> bool {
    bytes::has_prefix(line, RAIL.spec_bytes()) && bytes::has_suffix(line, RAIL.spec_bytes())
}

/// What a separator says after its keyword.
pub open spec fn separator_target(line: Seq<u8>) -> Option<Seq<u8>> {
    bytes::without_prefix(
        bytes::trimmed(unrailed_end(unrailed_start(line))),
        "fork ".spec_bytes(),
    )
}

/// Whether a line separates forks.
pub fn line_is_separator(line: &[u8]) -> (r: bool)
    ensures
        r == is_separator(line@),
{
    bytes::starts_with(line, RAIL.as_bytes()) && bytes::ends_with(line, RAIL.as_bytes())
}

/// What a separator says after its keyword.
pub fn line_target(line: &[u8]) -> (r: Option<&[u8]>)
    ensures
        bytes::view_of(r) == separator_target(line@),
{
    bytes::strip_prefix(bytes::trim(strip_rails(line)), "fork ".as_bytes())
}

/// Whether a line lists references.
pub open spec fn is_ref_line(line: Seq<u8>) -> bool {
    line.len() > 0 && line[0] == 40 && line.last() == 41
}

/// Whether a line lists references.
pub fn line_is_ref_line(line: &[u8]) -> (r: bool)
    ensures
        r == is_ref_line(line@),
{
    line.len() > 0 && line[0] == 40 && line[line.len() - 1] == 41
}

/// The items of a list that commas separate, where a comma in quotes separates nothing and
/// a backslash in quotes takes the next byte for what it is. Reading is at byte `at`, within
/// the item that starts at `start`; `done` holds the items before. Fails if a quotation is
/// not closed.
pub open spec fn listed(
    body: Seq<u8>,
    done: Seq<Seq<u8>>,
    start: int,
    at: int,
    in_quotes: bool,
    in_escape: bool,
) -> Option<Seq<Seq<u8>>>
    decreases body.len() - at,
{
    if at >= body.len() {
        if in_quotes || in_escape {
            None
        } else {
            Some(done.push(body.subrange(start, body.len() as int)))
        }
    } else if in_escape {
        listed(body, done, start, at + 1, in_quotes, false)
    } else if body[at] == 92 && in_quotes {
        listed(body, done, start, at + 1, in_quotes, true)
    } else if body[at] == 34 {
        listed(body, done, start, at + 1, !in_quotes, false)
    } else if body[at] == 44 && !in_quotes {
        listed(body, done.push(body.subrange(start, at)), at + 1, at + 1, in_quotes, false)
    } else {
        listed(body, done, start, at + 1, in_quotes, false)
    }
}

fn split_list<'a>(body: &'a [u8]) -> (r: Option<Vec<&'a [u8]>>)
    ensures
        match r {
            Some(items) => listed(body@, Seq::empty(), 0, 0, false, false) == Some(
                bytes::views(items@),
            ),
            None => listed(body@, Seq::empty(), 0, 0, false, false) is None,
        },
{
    let mut out: Vec<&'a [u8]> = Vec::new();
    let mut start: usize = 0;
    let mut at: usize = 0;
    let mut in_quotes = false;
    let mut in_escape = false;
    assert(bytes::views(out@) == Seq::<Seq<u8>>::empty());
    while at < body.len()
        invariant
            start <= at <= body@.len(),
            listed(body@, Seq::empty(), 0, 0, false, false) == listed(
                body@,
                bytes::views(out@),
                start as int,
                at as int,
                in_quotes,
                in_escape,
            ),
        decreases body.len() - at,
    {
        let byte = body[at];
        if in_escape {
            in_escape = false;
        } else if byte == 92 && in_quotes {
            in_escape = true;
        } else if byte == 34 {
            in_quotes = !in_quotes;
        } else if byte == 44 && !in_quotes {
            let item = slice_subrange(body, start, at);
            let ghost before = out@;
            out.push(item);
            assert(bytes::views(out@) == bytes::views(before).push(item@));
            start = at + 1;
        }
        at = at + 1;
    }
    if in_quotes || in_escape {
        return None;
    }
    let item = slice_subrange(body, start, body.len());
    let ghost before = out@;
    out.push(item);
    assert(bytes::views(out@) == bytes::views(before).push(item@));
    Some(out)
}

/// What one item of a reference line names: whether it is marked with `@`, and the name.
pub open spec fn ref_item(item: Seq<u8>) -> Result<(bool, Seq<u8>), TodoError> {
    let item = bytes::trimmed(item);
    if item.len() == 0 {
        Err(TodoError::EmptyItem)
    } else {
        let marked = item[0] == 64;
        let encoded = if marked {
            item.skip(1)
        } else {
            item
        };
        match names::unquoted(encoded) {
            None => Err(TodoError::MalformedName),
            Some((name, consumed)) => if bytes::trimmed(encoded.skip(consumed as int)).len() > 0 {
                Err(TodoError::NameTrailingData)
            } else if name.len() == 0 {
                Err(TodoError::EmptyName)
            } else {
                Ok((marked, name))
            },
        }
    }
}

/// What the items from `at` on name, behind `done`; the first item that names nothing fails.
pub open spec fn ref_items(
    items: Seq<Seq<u8>>,
    at: int,
    done: Seq<(bool, Seq<u8>)>,
) -> Result<Seq<(bool, Seq<u8>)>, TodoError>
    decreases items.len() - at,
{
    if at >= items.len() {
        Ok(done)
    } else {
        match ref_item(items[at]) {
            Ok(item) => ref_items(items, at + 1, done.push(item)),
            Err(err) => Err(err),
        }
    }
}

/// What a reference line names, in order.
pub open spec fn ref_line(line: Seq<u8>) -> Result<Seq<(bool, Seq<u8>)>, TodoError> {
    if line.len() < 2 || !is_ref_line(line) {
        Err(TodoError::RefLineNotEnclosed)
    } else {
        match listed(line.subrange(1, line.len() - 1), Seq::empty(), 0, 0, false, false) {
            None => Err(TodoError::UnclosedQuote),
            Some(items) => ref_items(items, 0, Seq::empty()),
        }
    }
}

fn parse_ref_item(item: &[u8]) -> (r: Result<(bool, Vec<u8>), TodoError>)
    ensures
        match r {
            Ok(found) => ref_item(item@) == Ok::<_, TodoError>((found.0, found.1@)),
            Err(err) => ref_item(item@) == Err::<(bool, Seq<u8>), _>(err),
        },
{
    let item = bytes::trim(item);
    if item.len() == 0 {
        return Err(TodoError::EmptyItem);
    }
    let marked = item[0] == 64;
    let encoded = if marked {
        bytes::tail_of(item, 1)
    } else {
        item
    };
    match names::unquote(encoded) {
        None => Err(TodoError::MalformedName),
        Some((name, consumed)) => {
            if bytes::trim(bytes::tail_of(encoded, consumed)).len() > 0 {
                Err(TodoError::NameTrailingData)
            } else if name.len() == 0 {
                Err(TodoError::EmptyName)
            } else {
                Ok((marked, name))
            }
        },
    }
}

/// Reads the names on a reference line such as `(main, @topic)`, each with whether it is
/// marked.
pub fn parse_ref_line(line: &[u8]) -> (r: Result<Vec<(bool, Vec<u8>)>, TodoError>)
    ensures
        match r {
            Ok(found) => ref_line(line@) == Ok::<_, TodoError>(viewed(found@)),
            Err(err) => ref_line(line@) == Err::<Seq<(bool, Seq<u8>)>, _>(err),
        },
{
    if line.len() < 2 || !line_is_ref_line(line) {
        return Err(TodoError::RefLineNotEnclosed);
    }
    let body = slice_subrange(line, 1, line.len() - 1);
    let items = match split_list(body) {
        Some(items) => items,
        None => return Err(TodoError::UnclosedQuote),
    };
    let mut out: Vec<(bool, Vec<u8>)> = Vec::new();
    let mut at: usize = 0;
    assert(viewed(out@) == Seq::<(bool, Seq<u8>)>::empty());
    while at < items.len()
        invariant
            at <= items@.len(),
            ref_line(line@) == ref_items(bytes::views(items@), at as int, viewed(out@)),
        decreases items.len() - at,
    {
        match parse_ref_item(items[at]) {
            Ok(item) => {
                proof {
                    viewed_push(out@, item);
                }
                out.push(item);
            },
            Err(err) => return Err(err),
        }
        at = at + 1;
    }
    Ok(out)
}

/// A command of a todo: whether it is marked with `@`, its verb, what follows the verb, and
/// the text behind a command in backticks.
pub struct Command<'a> {
    pub marked: bool,
    pub verb: &'a [u8],
    pub value: &'a [u8],
    pub tail: &'a [u8],
}

/// A command in specifications.
pub struct CommandView {
    pub marked: bool,
    pub verb: Seq<u8>,
    pub value: Seq<u8>,
    pub tail: Seq<u8>,
}

impl<'a> View for Command<'a> {
    type V = CommandView;

    open spec fn view(&self) -> CommandView {
        CommandView {
            marked: self.marked,
            verb: self.verb@,
            value: self.value@,
            tail: self.tail@,
        }
    }
}

/// The verb and value of a command's text, behind which `tail` stands.
pub open spec fn command_of(text: Seq<u8>, tail: Seq<u8>) -> CommandView {
    let (verb, value) = bytes::split_at_space(text);
    let marked = verb.len() > 0 && verb[0] == 64;
    CommandView {
        marked,
        verb: if marked {
            verb.skip(1)
        } else {
            verb
        },
        value,
        tail,
    }
}

/// The command on a line: what is between backticks, or all of the line.
pub open spec fn command(line: Seq<u8>) -> Result<CommandView, TodoError> {
    if line.len() > 0 && line[0] == 96 {
        match bytes::split_at_byte(line.skip(1), 96) {
            Some((text, tail)) => Ok(command_of(text, bytes::trimmed(tail))),
            None => Err(TodoError::UnclosedBacktick),
        }
    } else {
        Ok(command_of(line, Seq::empty()))
    }
}

fn read_command<'a>(text: &'a [u8], tail: &'a [u8]) -> (r: Command<'a>)
    ensures
        r@ == command_of(text@, tail@),
{
    let (verb, value) = bytes::split_space(text);
    let marked = verb.len() > 0 && verb[0] == 64;
    let verb = if marked {
        bytes::tail_of(verb, 1)
    } else {
        verb
    };
    Command { marked, verb, value, tail }
}

/// Reads the command on a line.
pub fn parse_command<'a>(line: &'a [u8]) -> (r: Result<Command<'a>, TodoError>)
    ensures
        match r {
            Ok(found) => command(line@) == Ok::<_, TodoError>(found@),
            Err(err) => command(line@) == Err::<CommandView, _>(err),
        },
{
    if line.len() > 0 && line[0] == 96 {
        match bytes::split_once(bytes::tail_of(line, 1), 96) {
            Some((text, tail)) => Ok(read_command(text, bytes::trim(tail))),
            None => Err(TodoError::UnclosedBacktick),
        }
    } else {
        let tail = bytes::tail_of(line, line.len());
        assert(tail@ == Seq::<u8>::empty());
        Ok(read_command(line, tail))
    }
}

/// Whether a comment opens on a line.
pub open spec fn opens_comment(line: Seq<u8>) -> bool {
    bytes::has_prefix(line, "<!--".spec_bytes())
}

/// Whether a comment closes on a line.
pub open spec fn closes_comment(line: Seq<u8>) -> bool {
    bytes::find_from(line, "-->".spec_bytes(), 0) is Some
}

/// The lines from `at` on that the plan is read from, behind `done`: without the white space
/// around them, without comments, blank lines and headings.
pub open spec fn editable(
    all: Seq<Seq<u8>>,
    at: int,
    in_comment: bool,
    done: Seq<Seq<u8>>,
) -> Seq<Seq<u8>>
    decreases all.len() - at,
{
    if at >= all.len() {
        done
    } else {
        let line = bytes::trimmed(all[at]);
        if in_comment {
            editable(all, at + 1, !closes_comment(line), done)
        } else if opens_comment(line) {
            editable(all, at + 1, !closes_comment(line), done)
        } else if line.len() == 0 || bytes::has_prefix(line, "# ".spec_bytes()) {
            editable(all, at + 1, false, done)
        } else {
            editable(all, at + 1, false, done.push(line))
        }
    }
}

/// The lines of a todo that its plan is read from.
pub fn editable_lines<'a>(input: &'a [u8]) -> (r: Vec<&'a [u8]>)
    ensures
        bytes::views(r@) == editable(bytes::lines(input@), 0, false, Seq::empty()),
{
    let all = bytes::split_lines(input);
    let mut out: Vec<&'a [u8]> = Vec::new();
    let mut at: usize = 0;
    let mut in_comment = false;
    assert(bytes::views(out@) == Seq::<Seq<u8>>::empty());
    while at < all.len()
        invariant
            at <= all@.len(),
            bytes::views(all@) == bytes::lines(input@),
            editable(bytes::lines(input@), 0, false, Seq::empty()) == editable(
                bytes::views(all@),
                at as int,
                in_comment,
                bytes::views(out@),
            ),
        decreases all.len() - at,
    {
        let line = bytes::trim(all[at]);
        assert(line@ == bytes::trimmed(bytes::views(all@)[at as int]));
        if in_comment {
            if bytes::find(line, "-->".as_bytes()).is_some() {
                in_comment = false;
            }
        } else if bytes::starts_with(line, "<!--".as_bytes()) {
            in_comment = bytes::find(line, "-->".as_bytes()).is_none();
        } else if line.len() > 0 && !bytes::starts_with(line, "# ".as_bytes()) {
            let ghost before = out@;
            out.push(line);
            assert(bytes::views(out@) == bytes::views(before).push(line@));
        }
        at = at + 1;
    }
    out
}

} // verus!
