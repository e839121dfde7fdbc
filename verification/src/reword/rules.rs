//! What the headers of a document say, and what is offered behind its message.
use vstd::prelude::*;
use vstd::string::StringSliceAdditionalSpecFns;
use crate::bytes::{has_prefix, trimmed, unbroken, without_cr, CR, LF};
use crate::reword::actor::{actor_from, Time};
use crate::reword::cleanup::{cleaned, first_line};
use crate::reword::document::{
    behind_headers, header_of, noted_from, Enrichment, HeaderError, MESSAGE, TODO,
};
use crate::reword::laws::line_splits;
use crate::reword::trailers::{has_token, offers, Agent, Configured};
use crate::reword::RewordError;

verus! {

/// A person has a name and an email, neither of them blank, and nothing stands behind them; white space around
/// them does not count.
pub proof fn people_have_names_and_emails(name: Seq<u8>, email: Seq<u8>, behind: Seq<u8>)
    ensures
        actor_from((name, email, behind)) is Ok <==> trimmed(name).len() > 0 && trimmed(email).len()
            > 0 && trimmed(behind).len() == 0,
        actor_from((name, email, behind)) matches Ok(actor) ==> actor.name == trimmed(name)
            && actor.email == trimmed(email),
{
}

proof fn first_line_is(line: Seq<u8>, rest: Seq<u8>)
    requires
        unbroken(line),
    ensures
        first_line(line + seq![LF] + rest) == (line, rest),
        (line + seq![LF] + rest).len() > rest.len(),
{
    line_splits(line, rest);
}

/// A line among the notes of a document. An empty one ends them, and what is behind it is the message. A comment
/// says nothing. The mark of work to be done counts once, and so does a note, which may be blank; anything else
/// is refused, and so are notes without an end.
pub proof fn notes_are_read_line_by_line(
    line: Seq<u8>,
    rest: Seq<u8>,
    comment_char: Seq<u8>,
    todo: bool,
    message: Option<Option<Seq<u8>>>,
)
    requires
        unbroken(line),
        without_cr(line) == line,
    ensures
        ({
            let read = noted_from(line + seq![LF] + rest, comment_char, todo, message);
            &&& noted_from(Seq::empty(), comment_char, todo, message) is Err
            &&& line.len() == 0 ==> read == Ok::<_, RewordError>(
                (
                    Enrichment {
                        todo,
                        note: match message {
                            Some(note) => note,
                            None => None,
                        },
                    },
                    rest,
                ),
            )
            &&& line.len() > 0 && has_prefix(line, comment_char) ==> read == noted_from(
                rest,
                comment_char,
                todo,
                message,
            )
            &&& line.len() > 0 && !has_prefix(line, comment_char) ==> {
                &&& line == TODO.spec_bytes() && todo ==> read is Err
                &&& line == TODO.spec_bytes() && !todo ==> read == noted_from(
                    rest,
                    comment_char,
                    true,
                    message,
                )
                &&& line != TODO.spec_bytes() && !has_prefix(line, MESSAGE.spec_bytes()) ==> read
                    is Err
                &&& line != TODO.spec_bytes() && has_prefix(line, MESSAGE.spec_bytes()) && message
                    is Some ==> read is Err
                &&& line != TODO.spec_bytes() && has_prefix(line, MESSAGE.spec_bytes()) && message
                    is None ==> {
                    let title = trimmed(line.skip(MESSAGE.spec_bytes().len() as int));
                    &&& title.len() > 0 ==> read == noted_from(
                        rest,
                        comment_char,
                        todo,
                        Some(Some(title)),
                    )
                    &&& title.len() == 0 ==> read == noted_from(
                        rest,
                        comment_char,
                        todo,
                        Some(None),
                    )
                }
            }
        }),
{
    first_line_is(line, rest);
}

/// Comments in a message begin with what the document says that they do, and are left out by that.
pub proof fn messages_are_cleaned_by_their_comments(
    author: Seq<u8>,
    author_time: Time,
    committer: Seq<u8>,
    committer_time: Time,
    comment_char: Seq<u8>,
    rest: Option<Seq<u8>>,
)
    ensures
        comment_char.contains(CR) ==> behind_headers(
            author,
            author_time,
            committer,
            committer_time,
            comment_char,
            rest,
        ) is Err,
        rest is None ==> behind_headers(
            author,
            author_time,
            committer,
            committer_time,
            comment_char,
            rest,
        ) is Err,
        behind_headers(
            author,
            author_time,
            committer,
            committer_time,
            comment_char,
            rest,
        ) matches Ok(edit) ==> {
            &&& edit.author == author && edit.author_time == author_time
            &&& edit.committer == committer && edit.committer_time == committer_time
            &&& rest matches Some(text) && (noted_from(text, comment_char, false, None) matches Ok((
                enrichment,
                message,
            )) && edit.enrichment == enrichment && edit.message == cleaned(
                message,
                Some(comment_char),
            ))
        },
{
}

/// What is offered behind a message are the trailers that it lacks: who assisted first, and the other author
/// behind it. Each has the value that is configured for it, or a default if none is. A value that is blank or takes
/// more than a line is refused, but only where it would be offered.
pub proof fn missing_trailers_are_offered(
    tokens: Seq<Seq<u8>>,
    assisted_by: Option<Configured<Seq<u8>>>,
    co_authored_by: Option<Configured<Seq<u8>>>,
)
    ensures
        ({
            let found = offers(tokens, assisted_by, co_authored_by);
            let assisted = has_token(tokens, Agent::AssistedBy);
            let authored = has_token(tokens, Agent::CoAuthoredBy);
            let fine = |configured: Option<Configured<Seq<u8>>>|
                match configured {
                    None => true,
                    Some(configured) => trimmed(configured.value).len() > 0
                        && !configured.value.contains(LF) && !configured.value.contains(CR),
                };
            &&& found is Ok <==> (assisted || fine(assisted_by)) && (authored || fine(
                co_authored_by,
            ))
            &&& found matches Ok(trailers) ==> {
                &&& trailers.len() == (if assisted {
                    0int
                } else {
                    1int
                }) + (if authored {
                    0int
                } else {
                    1int
                })
                &&& !assisted ==> trailers[0].agent == Agent::AssistedBy && match assisted_by {
                    Some(configured) => trailers[0].value == configured.value && trailers[0].origin
                        == Some(configured.origin),
                    None => trailers[0].value == Agent::AssistedBy.default_text()
                        && trailers[0].origin is None,
                }
                &&& !authored ==> trailers.last().agent == Agent::CoAuthoredBy
                    && match co_authored_by {
                    Some(configured) => trailers.last().value == configured.value
                        && trailers.last().origin == Some(configured.origin),
                    None => trailers.last().value == Agent::CoAuthoredBy.default_text()
                        && trailers.last().origin is None,
                }
            }
        }),
{
}

/// A header has its prefix and a value behind it. A line without one of them is refused, and so is the end of the
/// document. A carriage return at the end of the line does not count.
pub proof fn headers_have_values(prefix: Seq<u8>, value: Seq<u8>, line: Seq<u8>)
    requires
        value.len() > 0 ==> value.last() != CR,
        prefix.len() > 0 ==> prefix.last() != CR,
    ensures
        value.len() > 0 ==> header_of(Some(prefix + value), prefix) == Ok::<_, HeaderError>(value),
        value.len() > 0 ==> header_of(Some(prefix + value + seq![CR]), prefix) == Ok::<_, HeaderError>(
            value,
        ),
        header_of(Some(prefix), prefix) is Err,
        header_of(None, prefix) is Err,
        header_of(Some(line), prefix) matches Ok(found) ==> found.len() > 0 && (line == prefix + found
            || line == prefix + found + seq![CR]),
{
    let whole = prefix + value;
    assert((whole + seq![CR]).drop_last() == whole);
    assert(whole.skip(prefix.len() as int) == value);
    assert(whole.take(prefix.len() as int) == prefix);
    assert(prefix.skip(prefix.len() as int).len() == 0);
    if value.len() > 0 {
        assert(whole.last() == value.last());
        assert(without_cr(whole) == whole);
        assert(without_cr(whole + seq![CR]) == whole);
        assert(has_prefix(whole, prefix));
    }
    if let Ok(found) = header_of(Some(line), prefix) {
        let plain = without_cr(line);
        assert(has_prefix(plain, prefix));
        assert(plain == prefix + found);
        if plain != line {
            assert(line == plain + seq![CR]);
        }
    }
}

} // verus!
