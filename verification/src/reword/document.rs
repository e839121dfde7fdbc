//! The document of a commit: its headers, an empty line, and its message.
use vstd::prelude::*;
use vstd::string::StringSliceAdditionalSpecFns;
use crate::bytes;
use crate::bytes::{
    has_prefix, one_line, split_at_byte, trimmed, without_cr, without_prefix, CR, LF,
};
use crate::reword::actor::{
    actor_line, date, date_of, iso_date, plain_time, reads_back, write_actor, write_date, Actor, Time,
};
use crate::reword::cleanup::{
    cleaned, cleanup_message, first_line, first_line_bounds, trim_cr,
};
use crate::reword::RewordError;
use crate::text::{message_summary, summary_of};

verus! {

pub const AUTHOR: &'static str = "Author: ";

pub const CONFIGURED_AUTHOR: &'static str = "ConfiguredAuthor: ";

pub const AUTHOR_DATE: &'static str = "AuthorDate: ";

pub const COMMITTER: &'static str = "Committer: ";

pub const COMMITTER_DATE: &'static str = "CommitterDate: ";

pub const COMMENT_CHAR: &'static str = "CommentChar: ";

pub const MESSAGE: &'static str = "Message:";

pub const TODO: &'static str = "Todo";

/// What comments begin with in a document that is written.
pub const DEFAULT_COMMENT_CHAR: &'static str = ";";

/// What is noted of a commit: whether it is still to be worked on, and a note.
#[derive(PartialEq, Eq, Debug)]
pub struct Enrichment<T> {
    pub todo: bool,
    pub note: Option<T>,
}

impl<T: View> View for Enrichment<T> {
    type V = Enrichment<T::V>;

    open spec fn view(&self) -> Enrichment<T::V> {
        Enrichment { todo: self.todo, note: crate::plan::viewed_option(self.note) }
    }
}

/// A person and a time.
#[derive(PartialEq, Eq, Debug)]
pub struct Signature<T> {
    pub actor: Actor<T>,
    pub time: Time,
}

impl<T: View> View for Signature<T> {
    type V = Signature<T::V>;

    open spec fn view(&self) -> Signature<T::V> {
        Signature { actor: self.actor@, time: self.time }
    }
}

/// The headers that note what is noted of a commit; what is not noted is a comment.
pub open spec fn enrichment_lines(enrichment: Enrichment<Seq<u8>>) -> Seq<u8> {
    let todo = if enrichment.todo {
        TODO.spec_bytes()
    } else {
        DEFAULT_COMMENT_CHAR.spec_bytes() + TODO.spec_bytes()
    };
    let message = match enrichment.note {
        Some(note) => MESSAGE.spec_bytes() + seq![32u8] + summary_of(note),
        None => DEFAULT_COMMENT_CHAR.spec_bytes() + MESSAGE.spec_bytes(),
    };
    todo + (seq![LF] + (message + seq![LF]))
}

/// The headers of the author, given the text of the time. Another author that is configured is
/// offered as a comment.
pub open spec fn author_lines(
    author: Actor<Seq<u8>>,
    configured_author: Option<Actor<Seq<u8>>>,
    author_date: Seq<u8>,
) -> Seq<u8> {
    let configured = match configured_author {
        Some(actor) => DEFAULT_COMMENT_CHAR.spec_bytes() + actor_line(
            CONFIGURED_AUTHOR.spec_bytes(),
            actor,
        ),
        None => Seq::<u8>::empty(),
    };
    actor_line(AUTHOR.spec_bytes(), author) + (configured + (AUTHOR_DATE.spec_bytes() + author_date
        + seq![LF]))
}

/// The headers of the committer, given the text of the time, and what comments begin with.
pub open spec fn committer_lines(committer: Actor<Seq<u8>>, committer_date: Seq<u8>) -> Seq<u8> {
    actor_line(COMMITTER.spec_bytes(), committer) + ((COMMITTER_DATE.spec_bytes() + committer_date
        + seq![LF]) + (COMMENT_CHAR.spec_bytes() + DEFAULT_COMMENT_CHAR.spec_bytes() + seq![LF]))
}

/// The headers of a document, if the times in them can be written.
pub open spec fn header_lines(
    author: Signature<Seq<u8>>,
    configured_author: Option<Actor<Seq<u8>>>,
    committer: Signature<Seq<u8>>,
    enrichment: Enrichment<Seq<u8>>,
) -> Option<Seq<u8>> {
    match (iso_date(author.time), iso_date(committer.time)) {
        (Some(author_date), Some(committer_date)) => Some(
            author_lines(author.actor, configured_author, author_date) + (committer_lines(
                committer.actor,
                committer_date,
            ) + enrichment_lines(enrichment)),
        ),
        _ => None,
    }
}

fn write_author(
    out: &mut Vec<u8>,
    author: &Signature<Vec<u8>>,
    configured_author: Option<&Actor<Vec<u8>>>,
) -> (r: Result<(), RewordError>)
    ensures
        match iso_date(author.time) {
            Some(author_date) => r is Ok && final(out)@ == old(out)@ + author_lines(
                author.actor@,
                match configured_author {
                    Some(actor) => Some(actor@),
                    None => None,
                },
                author_date,
            ),
            None => r == Err::<(), _>(RewordError::UnwritableDate),
        },
        plain_time(author.time) ==> reads_back(author.time),
{
    let ghost before = out@;
    write_actor(out, AUTHOR.as_bytes(), &author.actor);
    if let Some(actor) = configured_author {
        bytes::append(out, DEFAULT_COMMENT_CHAR.as_bytes());
        write_actor(out, CONFIGURED_AUTHOR.as_bytes(), actor);
    }
    let written = write_date(out, AUTHOR_DATE.as_bytes(), author.time);
    proof {
        if let Some(author_date) = iso_date(author.time) {
            assert(out@ == before + author_lines(
                author.actor@,
                match configured_author {
                    Some(actor) => Some(actor@),
                    None => None,
                },
                author_date,
            ));
        }
    }
    written
}

fn write_committer(out: &mut Vec<u8>, committer: &Signature<Vec<u8>>) -> (r: Result<
    (),
    RewordError,
>)
    ensures
        match iso_date(committer.time) {
            Some(committer_date) => r is Ok && final(out)@ == old(out)@ + committer_lines(
                committer.actor@,
                committer_date,
            ),
            None => r == Err::<(), _>(RewordError::UnwritableDate),
        },
        plain_time(committer.time) ==> reads_back(committer.time),
{
    let ghost before = out@;
    write_actor(out, COMMITTER.as_bytes(), &committer.actor);
    if let Err(err) = write_date(out, COMMITTER_DATE.as_bytes(), committer.time) {
        return Err(err);
    }
    bytes::append(out, COMMENT_CHAR.as_bytes());
    bytes::append(out, DEFAULT_COMMENT_CHAR.as_bytes());
    out.push(LF);
    assert(out@ == before + committer_lines(committer.actor@, iso_date(committer.time)->0));
    Ok(())
}

/// Whether a note says something, if there is one.
pub open spec fn noted(enrichment: Enrichment<Seq<u8>>) -> bool {
    enrichment.note matches Some(note) ==> summary_of(note).len() > 0
}

/// Whether a note reads back: its summary is a line without white space around it.
pub open spec fn plain_note(enrichment: Enrichment<Seq<u8>>) -> bool {
    enrichment.note matches Some(note) ==> one_line(summary_of(note)) && trimmed(summary_of(note))
        == summary_of(note)
}

fn write_enrichment(out: &mut Vec<u8>, enrichment: &Enrichment<Vec<u8>>)
    ensures
        final(out)@ == old(out)@ + enrichment_lines(enrichment@),
        noted(enrichment@) ==> plain_note(enrichment@),
{
    let ghost before = out@;
    if !enrichment.todo {
        bytes::append(out, DEFAULT_COMMENT_CHAR.as_bytes());
    }
    bytes::append(out, TODO.as_bytes());
    out.push(LF);
    match &enrichment.note {
        Some(note) => {
            bytes::append(out, MESSAGE.as_bytes());
            out.push(32);
            let summary = message_summary(note.as_slice());
            bytes::append(out, summary.as_slice());
            proof {
                if summary@.len() > 0 {
                    bytes::trimmed_lines(summary@);
                }
            }
        },
        None => {
            bytes::append(out, DEFAULT_COMMENT_CHAR.as_bytes());
            bytes::append(out, MESSAGE.as_bytes());
        },
    }
    out.push(LF);
    assert(out@ == before + enrichment_lines(enrichment@));
}

/// Writes the headers of a document, if the times in them can be written. Plain times can, and read
/// back; so does a note that says something.
pub fn write_headers(
    out: &mut Vec<u8>,
    author: &Signature<Vec<u8>>,
    configured_author: Option<&Actor<Vec<u8>>>,
    committer: &Signature<Vec<u8>>,
    enrichment: &Enrichment<Vec<u8>>,
) -> (r: Result<(), RewordError>)
    ensures
        match header_lines(
            author@,
            match configured_author {
                Some(actor) => Some(actor@),
                None => None,
            },
            committer@,
            enrichment@,
        ) {
            Some(lines) => r is Ok && final(out)@ == old(out)@ + lines,
            None => r == Err::<(), _>(RewordError::UnwritableDate),
        },
        plain_time(author.time) && plain_time(committer.time) && noted(enrichment@) ==> reads_back(
            author.time,
        ) && reads_back(committer.time) && plain_note(enrichment@),
{
    let ghost before = out@;
    if let Err(err) = write_author(out, author, configured_author) {
        return Err(err);
    }
    let ghost authored = out@;
    if let Err(err) = write_committer(out, committer) {
        return Err(err);
    }
    let ghost committed = out@;
    write_enrichment(out, enrichment);
    proof {
        let first = author_lines(
            author.actor@,
            match configured_author {
                Some(actor) => Some(actor@),
                None => None,
            },
            iso_date(author.time)->0,
        );
        let second = committer_lines(committer.actor@, iso_date(committer.time)->0);
        let third = enrichment_lines(enrichment@);
        assert(before + first + second + third == before + (first + (second + third)));
    }
    Ok(())
}

/// Why a line is not the header that is expected.
#[derive(Clone, Copy, PartialEq, Eq, Structural, Debug)]
pub enum HeaderError {
    Missing,
    Unexpected,
}

/// The value of a header: what follows the prefix of a line, unless that is nothing.
pub open spec fn header_of(line: Option<Seq<u8>>, prefix: Seq<u8>) -> Result<Seq<u8>, HeaderError> {
    match line {
        None => Err(HeaderError::Missing),
        Some(line) => match without_prefix(without_cr(line), prefix) {
            Some(value) if value.len() > 0 => Ok(value),
            _ => Err(HeaderError::Unexpected),
        },
    }
}

/// Reads the value of a header.
pub fn header<'a>(line: Option<&'a [u8]>, prefix: &[u8]) -> (r: Result<&'a [u8], HeaderError>)
    ensures
        match r {
            Ok(value) => header_of(bytes::view_of(line), prefix@) == Ok::<_, HeaderError>(value@),
            Err(err) => header_of(bytes::view_of(line), prefix@) == Err::<Seq<u8>, _>(err),
        },
{
    let line = match line {
        None => return Err(HeaderError::Missing),
        Some(line) => line,
    };
    match bytes::strip_prefix(trim_cr(line), prefix) {
        Some(value) => if value.len() > 0 {
            Ok(value)
        } else {
            Err(HeaderError::Unexpected)
        },
        None => Err(HeaderError::Unexpected),
    }
}

/// The next line of what is left of a text, and what is left then; none once the last line was taken.
pub open spec fn taken(rest: Option<Seq<u8>>) -> (Option<Seq<u8>>, Option<Seq<u8>>) {
    match rest {
        None => (None, None),
        Some(text) => match split_at_byte(text, LF) {
            Some((line, tail)) => (Some(line), Some(tail)),
            None => (Some(text), None),
        },
    }
}

fn take<'a>(rest: Option<&'a [u8]>) -> (r: (Option<&'a [u8]>, Option<&'a [u8]>))
    ensures
        (bytes::view_of(r.0), bytes::view_of(r.1)) == taken(bytes::view_of(rest)),
{
    match rest {
        None => (None, None),
        Some(text) => match bytes::split_once(text, LF) {
            Some((line, tail)) => (Some(line), Some(tail)),
            None => (Some(text), None),
        },
    }
}

/// The next header of what is left of a text, with the error if it is another.
pub open spec fn next_header(rest: Option<Seq<u8>>, prefix: Seq<u8>, otherwise: RewordError) -> Result<
    (Seq<u8>, Option<Seq<u8>>),
    RewordError,
> {
    let (line, rest) = taken(rest);
    match header_of(line, prefix) {
        Ok(value) => Ok((value, rest)),
        Err(HeaderError::Missing) => Err(RewordError::MissingHeader),
        Err(HeaderError::Unexpected) => Err(otherwise),
    }
}

fn read_header<'a>(rest: Option<&'a [u8]>, prefix: &[u8], otherwise: RewordError) -> (r: Result<
    (&'a [u8], Option<&'a [u8]>),
    RewordError,
>)
    ensures
        match r {
            Ok((value, rest_after)) => next_header(bytes::view_of(rest), prefix@, otherwise)
                == Ok::<_, RewordError>((value@, bytes::view_of(rest_after))),
            Err(err) => next_header(bytes::view_of(rest), prefix@, otherwise) == Err::<
                (Seq<u8>, Option<Seq<u8>>),
                _,
            >(err),
        },
{
    let (line, rest) = take(rest);
    match header(line, prefix) {
        Ok(value) => Ok((value, rest)),
        Err(HeaderError::Missing) => Err(RewordError::MissingHeader),
        Err(HeaderError::Unexpected) => Err(otherwise),
    }
}

/// The author of a document: another one that is configured takes the place of the first if its line
/// is no comment any more.
pub open spec fn author_of(input: Seq<u8>) -> Result<(Seq<u8>, Option<Seq<u8>>), RewordError> {
    match next_header(Some(input), AUTHOR.spec_bytes(), RewordError::ExpectedAuthor) {
        Err(err) => Err(err),
        Ok((author, rest)) => {
            let (line, behind) = taken(rest);
            match line {
                None => Ok((author, rest)),
                Some(line) => {
                    let line = without_cr(line);
                    let commented = match without_prefix(line, DEFAULT_COMMENT_CHAR.spec_bytes()) {
                        Some(line) => has_prefix(line, CONFIGURED_AUTHOR.spec_bytes()),
                        None => false,
                    };
                    if commented {
                        Ok((author, behind))
                    } else if has_prefix(line, CONFIGURED_AUTHOR.spec_bytes()) {
                        next_header(
                            rest,
                            CONFIGURED_AUTHOR.spec_bytes(),
                            RewordError::ExpectedConfiguredAuthor,
                        )
                    } else {
                        Ok((author, rest))
                    }
                },
            }
        },
    }
}

fn read_author<'a>(input: &'a [u8]) -> (r: Result<(&'a [u8], Option<&'a [u8]>), RewordError>)
    ensures
        match r {
            Ok((author, rest)) => author_of(input@) == Ok::<_, RewordError>(
                (author@, bytes::view_of(rest)),
            ),
            Err(err) => author_of(input@) == Err::<(Seq<u8>, Option<Seq<u8>>), _>(err),
        },
{
    let (author, rest) = match read_header(
        Some(input),
        AUTHOR.as_bytes(),
        RewordError::ExpectedAuthor,
    ) {
        Err(err) => return Err(err),
        Ok(found) => found,
    };
    let (line, behind) = take(rest);
    let line = match line {
        None => return Ok((author, rest)),
        Some(line) => trim_cr(line),
    };
    let commented = match bytes::strip_prefix(line, DEFAULT_COMMENT_CHAR.as_bytes()) {
        Some(line) => bytes::starts_with(line, CONFIGURED_AUTHOR.as_bytes()),
        None => false,
    };
    if commented {
        return Ok((author, behind));
    }
    if bytes::starts_with(line, CONFIGURED_AUTHOR.as_bytes()) {
        return read_header(
            rest,
            CONFIGURED_AUTHOR.as_bytes(),
            RewordError::ExpectedConfiguredAuthor,
        );
    }
    Ok((author, rest))
}

/// What is read of the headers that note something, once the lines of `text` up to an empty one are
/// read, with the text behind that.
pub open spec fn noted_from(
    text: Seq<u8>,
    comment_char: Seq<u8>,
    todo: bool,
    message: Option<Option<Seq<u8>>>,
) -> Result<(Enrichment<Seq<u8>>, Seq<u8>), RewordError>
    decreases text.len(),
{
    if text.len() == 0 || first_line(text).1.len() >= text.len() {
        Err(RewordError::NoEmptyLine)
    } else {
        let (raw, rest) = first_line(text);
        let line = without_cr(raw);
        if line.len() == 0 {
            Ok(
                (
                    Enrichment {
                        todo,
                        note: match message {
                            Some(note) => note,
                            None => None,
                        },
                    },
                    rest,
                ),
            )
        } else if has_prefix(line, comment_char) {
            noted_from(rest, comment_char, todo, message)
        } else if line == TODO.spec_bytes() {
            if todo {
                Err(RewordError::DuplicateTodo)
            } else {
                noted_from(rest, comment_char, true, message)
            }
        } else {
            match without_prefix(line, MESSAGE.spec_bytes()) {
                None => Err(RewordError::UnknownHeader),
                Some(title) => if message is Some {
                    Err(RewordError::DuplicateMessage)
                } else {
                    let title = trimmed(title);
                    noted_from(
                        rest,
                        comment_char,
                        todo,
                        Some(
                            if title.len() > 0 {
                                Some(title)
                            } else {
                                None
                            },
                        ),
                    )
                },
            }
        }
    }
}

/// The state of an optional note in specifications.
pub open spec fn note_view(message: Option<Option<Vec<u8>>>) -> Option<Option<Seq<u8>>> {
    match message {
        Some(note) => Some(crate::plan::viewed_option(note)),
        None => None,
    }
}

fn read_notes<'a>(remainder: &'a [u8], comment_char: &[u8]) -> (r: Result<
    (Enrichment<Vec<u8>>, &'a [u8]),
    RewordError,
>)
    ensures
        match r {
            Ok((enrichment, rest)) => noted_from(remainder@, comment_char@, false, None) == Ok::<
                _,
                RewordError,
            >((enrichment@, rest@)),
            Err(err) => noted_from(remainder@, comment_char@, false, None) == Err::<
                (Enrichment<Seq<u8>>, Seq<u8>),
                _,
            >(err),
        },
{
    let mut todo = false;
    let mut message: Option<Option<Vec<u8>>> = None;
    let mut text = remainder;
    while text.len() > 0
        invariant
            noted_from(remainder@, comment_char@, false, None) == noted_from(
                text@,
                comment_char@,
                todo,
                note_view(message),
            ),
        decreases text@.len(),
    {
        proof {
            first_line_bounds(text@);
        }
        let (raw, rest) = match bytes::split_once(text, LF) {
            Some((line, rest)) => (line, rest),
            None => {
                let end = bytes::tail_of(text, text.len());
                assert(end@ == Seq::<u8>::empty());
                (text, end)
            },
        };
        assert((raw@, rest@) == first_line(text@));
        let line = trim_cr(raw);
        if line.len() == 0 {
            let note = match message {
                Some(note) => note,
                None => None,
            };
            return Ok((Enrichment { todo, note }, rest));
        }
        if !bytes::starts_with(line, comment_char) {
            if bytes::equal(line, TODO.as_bytes()) {
                if todo {
                    return Err(RewordError::DuplicateTodo);
                }
                todo = true;
            } else {
                match bytes::strip_prefix(line, MESSAGE.as_bytes()) {
                    None => return Err(RewordError::UnknownHeader),
                    Some(title) => {
                        if message.is_some() {
                            return Err(RewordError::DuplicateMessage);
                        }
                        let title = bytes::trim(title);
                        message = Some(
                            if title.len() > 0 {
                                Some(bytes::copied(title))
                            } else {
                                None
                            },
                        );
                    },
                }
            }
        }
        text = rest;
    }
    Err(RewordError::NoEmptyLine)
}

/// What is read of an edited document.
#[derive(PartialEq, Eq, Debug)]
pub struct Edit<T> {
    pub author: T,
    pub author_time: Time,
    pub committer: T,
    pub committer_time: Time,
    pub message: T,
    pub enrichment: Enrichment<T>,
}

impl<T: View> View for Edit<T> {
    type V = Edit<T::V>;

    open spec fn view(&self) -> Edit<T::V> {
        Edit {
            author: self.author@,
            author_time: self.author_time,
            committer: self.committer@,
            committer_time: self.committer_time,
            message: self.message@,
            enrichment: self.enrichment@,
        }
    }
}

/// What is read of an edited document: the author, the times, the committer, what comments begin with,
/// what is noted, and the message.
pub open spec fn edit_of(input: Seq<u8>) -> Result<Edit<Seq<u8>>, RewordError> {
    match author_of(input) {
        Err(err) => Err(err),
        Ok((author, rest)) => match next_header(
            rest,
            AUTHOR_DATE.spec_bytes(),
            RewordError::ExpectedAuthorDate,
        ) {
            Err(err) => Err(err),
            Ok((author_date, rest)) => match date_of(author_date) {
                Err(err) => Err(err),
                Ok(author_time) => match next_header(
                    rest,
                    COMMITTER.spec_bytes(),
                    RewordError::ExpectedCommitter,
                ) {
                    Err(err) => Err(err),
                    Ok((committer, rest)) => match next_header(
                        rest,
                        COMMITTER_DATE.spec_bytes(),
                        RewordError::ExpectedCommitterDate,
                    ) {
                        Err(err) => Err(err),
                        Ok((committer_date, rest)) => match date_of(committer_date) {
                            Err(err) => Err(err),
                            Ok(committer_time) => match next_header(
                                rest,
                                COMMENT_CHAR.spec_bytes(),
                                RewordError::ExpectedCommentChar,
                            ) {
                                Err(err) => Err(err),
                                Ok((comment_char, rest)) => behind_headers(
                                    author,
                                    author_time,
                                    committer,
                                    committer_time,
                                    comment_char,
                                    rest,
                                ),
                            },
                        },
                    },
                },
            },
        },
    }
}

/// What is read of an edited document, given its headers and what is left behind them.
pub open spec fn behind_headers(
    author: Seq<u8>,
    author_time: Time,
    committer: Seq<u8>,
    committer_time: Time,
    comment_char: Seq<u8>,
    rest: Option<Seq<u8>>,
) -> Result<Edit<Seq<u8>>, RewordError> {
    if comment_char.contains(CR) {
        Err(RewordError::CommentCharWithLineEnding)
    } else {
        match rest {
            None => Err(RewordError::MissingEnrichment),
            Some(remainder) => match noted_from(remainder, comment_char, false, None) {
                Err(err) => Err(err),
                Ok((enrichment, message)) => Ok(
                    Edit {
                        author,
                        author_time,
                        committer,
                        committer_time,
                        message: cleaned(message, Some(comment_char)),
                        enrichment,
                    },
                ),
            },
        }
    }
}

fn read_behind(
    author: &[u8],
    author_time: Time,
    committer: &[u8],
    committer_time: Time,
    comment_char: &[u8],
    rest: Option<&[u8]>,
) -> (r: Result<Edit<Vec<u8>>, RewordError>)
    ensures
        ({
            let expected = behind_headers(
                author@,
                author_time,
                committer@,
                committer_time,
                comment_char@,
                bytes::view_of(rest),
            );
            match r {
                Ok(edit) => expected == Ok::<_, RewordError>(edit@),
                Err(err) => expected == Err::<Edit<Seq<u8>>, _>(err),
            }
        }),
{
    let ending = bytes::find_byte(comment_char, CR);
    proof {
        bytes::find_byte_bounds(comment_char@, CR, 0);
        if let Some(i) = ending {
            assert(comment_char@[i as int] == CR);
        }
        assert(comment_char@.contains(CR) == ending is Some);
    }
    if ending.is_some() {
        return Err(RewordError::CommentCharWithLineEnding);
    }
    let remainder = match rest {
        None => return Err(RewordError::MissingEnrichment),
        Some(remainder) => remainder,
    };
    match read_notes(remainder, comment_char) {
        Err(err) => Err(err),
        Ok((enrichment, message)) => Ok(
            Edit {
                author: bytes::copied(author),
                author_time,
                committer: bytes::copied(committer),
                committer_time,
                message: cleanup_message(message, Some(comment_char)),
                enrichment,
            },
        ),
    }
}

/// Reads an edited document.
pub fn parse(input: &[u8]) -> (r: Result<Edit<Vec<u8>>, RewordError>)
    ensures
        match r {
            Ok(edit) => edit_of(input@) == Ok::<_, RewordError>(edit@),
            Err(err) => edit_of(input@) == Err::<Edit<Seq<u8>>, _>(err),
        },
{
    let (author, rest) = match read_author(input) {
        Err(err) => return Err(err),
        Ok(found) => found,
    };
    let (author_date, rest) = match read_header(
        rest,
        AUTHOR_DATE.as_bytes(),
        RewordError::ExpectedAuthorDate,
    ) {
        Err(err) => return Err(err),
        Ok(found) => found,
    };
    let author_time = match date(author_date) {
        Err(err) => return Err(err),
        Ok(time) => time,
    };
    let (committer, rest) = match read_header(
        rest,
        COMMITTER.as_bytes(),
        RewordError::ExpectedCommitter,
    ) {
        Err(err) => return Err(err),
        Ok(found) => found,
    };
    let (committer_date, rest) = match read_header(
        rest,
        COMMITTER_DATE.as_bytes(),
        RewordError::ExpectedCommitterDate,
    ) {
        Err(err) => return Err(err),
        Ok(found) => found,
    };
    let committer_time = match date(committer_date) {
        Err(err) => return Err(err),
        Ok(time) => time,
    };
    let (comment_char, rest) = match read_header(
        rest,
        COMMENT_CHAR.as_bytes(),
        RewordError::ExpectedCommentChar,
    ) {
        Err(err) => return Err(err),
        Ok(found) => found,
    };
    read_behind(author, author_time, committer, committer_time, comment_char, rest)
}

} // verus!
