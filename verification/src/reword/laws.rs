//! Documents read back as what they were written from.
use vstd::prelude::*;
use vstd::string::StringSliceAdditionalSpecFns;
use crate::bytes;
use crate::bytes::{
    has_prefix, one_line, split_at_byte, trimmed, unbroken, without_cr, CR, LF,
};
use crate::reword::actor::{actor_line, actor_text, iso_date, reads_back, Actor};
use crate::reword::apply::{
    document_of, ended, other_author, plain_document, read_of, Described,
};
use crate::reword::cleanup::{
    cleaned, cleaned_from, first_line, first_line_bounds, without_trailing_space,
};
use crate::reword::document::{
    author_lines, author_of, committer_lines, edit_of, enrichment_lines, header_lines, next_header,
    noted_from, plain_note, Edit, Enrichment, Signature, AUTHOR, AUTHOR_DATE, COMMENT_CHAR, COMMITTER,
    COMMITTER_DATE, CONFIGURED_AUTHOR, DEFAULT_COMMENT_CHAR, MESSAGE, TODO,
};
use crate::reword::trailers::{
    offer_line, offer_lines, offers, origin_line, origin_lines, plain_trailer, source_name, tokens_of, with_offers,
    Agent, AgentTrailer, Configured, Source,
};
use crate::reword::RewordError;
use crate::text::summary_of;

verus! {

proof fn labels()
    ensures
        AUTHOR.spec_bytes() == seq![65u8, 117, 116, 104, 111, 114, 58, 32],
        CONFIGURED_AUTHOR.spec_bytes() == seq![
            67u8, 111, 110, 102, 105, 103, 117, 114, 101, 100, 65, 117, 116, 104, 111, 114, 58, 32,
        ],
        AUTHOR_DATE.spec_bytes() == seq![65u8, 117, 116, 104, 111, 114, 68, 97, 116, 101, 58, 32],
        COMMITTER.spec_bytes() == seq![67u8, 111, 109, 109, 105, 116, 116, 101, 114, 58, 32],
        COMMITTER_DATE.spec_bytes() == seq![
            67u8, 111, 109, 109, 105, 116, 116, 101, 114, 68, 97, 116, 101, 58, 32,
        ],
        COMMENT_CHAR.spec_bytes() == seq![
            67u8, 111, 109, 109, 101, 110, 116, 67, 104, 97, 114, 58, 32,
        ],
        DEFAULT_COMMENT_CHAR.spec_bytes() == seq![59u8],
        TODO.spec_bytes() == seq![84u8, 111, 100, 111],
        MESSAGE.spec_bytes() == seq![77u8, 101, 115, 115, 97, 103, 101, 58],
        " <".spec_bytes() == seq![32u8, 60],
        ">".spec_bytes() == seq![62u8],
{
    broadcast use vstd::string::is_ascii_spec_bytes;

    reveal_strlit("Author: ");
    assert(vstd::string::is_ascii(AUTHOR));
    assert(AUTHOR.spec_bytes() =~= seq![65u8, 117, 116, 104, 111, 114, 58, 32]);
    reveal_strlit("ConfiguredAuthor: ");
    assert(vstd::string::is_ascii(CONFIGURED_AUTHOR));
    assert(CONFIGURED_AUTHOR.spec_bytes() =~= seq![
        67u8, 111, 110, 102, 105, 103, 117, 114, 101, 100, 65, 117, 116, 104, 111, 114, 58, 32,
    ]);
    reveal_strlit("AuthorDate: ");
    assert(vstd::string::is_ascii(AUTHOR_DATE));
    assert(AUTHOR_DATE.spec_bytes() =~= seq![
        65u8, 117, 116, 104, 111, 114, 68, 97, 116, 101, 58, 32,
    ]);
    reveal_strlit("Committer: ");
    assert(vstd::string::is_ascii(COMMITTER));
    assert(COMMITTER.spec_bytes() =~= seq![
        67u8, 111, 109, 109, 105, 116, 116, 101, 114, 58, 32,
    ]);
    reveal_strlit("CommitterDate: ");
    assert(vstd::string::is_ascii(COMMITTER_DATE));
    assert(COMMITTER_DATE.spec_bytes() =~= seq![
        67u8, 111, 109, 109, 105, 116, 116, 101, 114, 68, 97, 116, 101, 58, 32,
    ]);
    reveal_strlit("CommentChar: ");
    assert(vstd::string::is_ascii(COMMENT_CHAR));
    assert(COMMENT_CHAR.spec_bytes() =~= seq![
        67u8, 111, 109, 109, 101, 110, 116, 67, 104, 97, 114, 58, 32,
    ]);
    reveal_strlit(";");
    assert(vstd::string::is_ascii(DEFAULT_COMMENT_CHAR));
    assert(DEFAULT_COMMENT_CHAR.spec_bytes() =~= seq![59u8]);
    reveal_strlit("Todo");
    assert(vstd::string::is_ascii(TODO));
    assert(TODO.spec_bytes() =~= seq![84u8, 111, 100, 111]);
    reveal_strlit("Message:");
    assert(vstd::string::is_ascii(MESSAGE));
    assert(MESSAGE.spec_bytes() =~= seq![77u8, 101, 115, 115, 97, 103, 101, 58]);
    reveal_strlit(" <");
    assert(vstd::string::is_ascii(" <"));
    assert(" <".spec_bytes() =~= seq![32u8, 60]);
    reveal_strlit(">");
    assert(vstd::string::is_ascii(">"));
    assert(">".spec_bytes() =~= seq![62u8]);
}

pub(crate) proof fn line_splits(line: Seq<u8>, rest: Seq<u8>)
    requires
        unbroken(line),
    ensures
        split_at_byte(line + seq![LF] + rest, LF) == Some((line, rest)),
{
    let text = line + seq![LF] + rest;
    bytes::find_byte_bounds(text, LF, 0);
    assert(text[line.len() as int] == LF);
    assert forall|i: int| 0 <= i < line.len() implies text[i] != LF by {
        assert(text[i] == line[i]);
    }
    assert(text.take(line.len() as int) == line);
    assert(text.skip(line.len() as int + 1) == rest);
}

proof fn header_is_read(
    label: Seq<u8>,
    value: Seq<u8>,
    rest: Seq<u8>,
    otherwise: RewordError,
)
    requires
        unbroken(label),
        unbroken(value),
        without_cr(value).len() > 0,
    ensures
        next_header(Some(label + value + seq![LF] + rest), label, otherwise) == Ok::<
            _,
            RewordError,
        >((without_cr(value), Some(rest))),
{
    let line = label + value;
    assert forall|i: int| 0 <= i < line.len() implies line[i] != LF by {
        if i < label.len() {
            assert(line[i] == label[i]);
        } else {
            assert(line[i] == value[i - label.len()]);
        }
    }
    line_splits(line, rest);
    assert(line.last() == value.last());
    let kept = without_cr(line);
    assert(kept == label + without_cr(value));
    assert(kept.take(label.len() as int) == label);
    assert(kept.skip(label.len() as int) == without_cr(value));
}

proof fn header_comes_back(
    label: Seq<u8>,
    value: Seq<u8>,
    rest: Seq<u8>,
    otherwise: RewordError,
)
    requires
        unbroken(label),
        one_line(value),
    ensures
        next_header(Some(label + value + seq![LF] + rest), label, otherwise) == Ok::<
            _,
            RewordError,
        >((value, Some(rest))),
{
    header_is_read(label, value, rest, otherwise);
}

proof fn actor_texts_are_lines(actor: Actor<Seq<u8>>)
    requires
        unbroken(actor.name),
        unbroken(actor.email),
    ensures
        one_line(actor_text(actor)),
{
    labels();
    let text = actor_text(actor);
    assert(text.last() == 62);
    let n = actor.name.len() as int;
    assert forall|i: int| 0 <= i < text.len() implies text[i] != LF by {
        if i < n {
            assert(text[i] == actor.name[i]);
        } else if i < n + 2 {
            assert(text[i] == " <".spec_bytes()[i - n]);
        } else if i < n + 2 + actor.email.len() {
            assert(text[i] == actor.email[i - n - 2]);
        }
    }
}

proof fn author_comes_back(
    author: Actor<Seq<u8>>,
    configured: Option<Actor<Seq<u8>>>,
    author_date: Seq<u8>,
    rest: Seq<u8>,
)
    requires
        unbroken(author.name),
        unbroken(author.email),
        configured matches Some(actor) ==> unbroken(actor.name) && unbroken(actor.email),
        one_line(author_date),
    ensures
        author_of(author_lines(author, configured, author_date) + rest) == Ok::<_, RewordError>(
            (
                actor_text(author),
                Some(AUTHOR_DATE.spec_bytes() + author_date + seq![LF] + rest),
            ),
        ),
{
    labels();
    let dated = AUTHOR_DATE.spec_bytes() + author_date + seq![LF] + rest;
    let date_line = AUTHOR_DATE.spec_bytes() + author_date;
    let input = author_lines(author, configured, author_date) + rest;
    actor_texts_are_lines(author);
    let behind = match configured {
        Some(actor) => DEFAULT_COMMENT_CHAR.spec_bytes() + actor_line(
            CONFIGURED_AUTHOR.spec_bytes(),
            actor,
        ) + dated,
        None => dated,
    };
    assert(input == AUTHOR.spec_bytes() + actor_text(author) + seq![LF] + behind);
    header_comes_back(
        AUTHOR.spec_bytes(),
        actor_text(author),
        behind,
        RewordError::ExpectedAuthor,
    );
    match configured {
        Some(actor) => {
            actor_texts_are_lines(actor);
            let text = CONFIGURED_AUTHOR.spec_bytes() + actor_text(actor);
            let line = DEFAULT_COMMENT_CHAR.spec_bytes() + text;
            assert forall|i: int| 0 <= i < line.len() implies line[i] != LF by {
                if i >= 1 + 18 {
                    assert(line[i] == actor_text(actor)[i - 19]);
                }
            }
            assert(behind == line + seq![LF] + dated);
            line_splits(line, dated);
            assert(line.last() == actor_text(actor).last());
            assert(line.take(1) == DEFAULT_COMMENT_CHAR.spec_bytes());
            assert(line.skip(1) == text);
            assert(text.take(18) == CONFIGURED_AUTHOR.spec_bytes());
        },
        None => {
            assert forall|i: int| 0 <= i < date_line.len() implies date_line[i] != LF by {
                if i >= 12 {
                    assert(date_line[i] == author_date[i - 12]);
                }
            }
            assert(dated == date_line + seq![LF] + rest);
            line_splits(date_line, rest);
            assert(date_line.last() == author_date.last());
            assert(date_line[0] == 65);
            if has_prefix(date_line, DEFAULT_COMMENT_CHAR.spec_bytes()) {
                assert(date_line.take(1)[0] == date_line[0]);
            }
            if has_prefix(date_line, CONFIGURED_AUTHOR.spec_bytes()) {
                assert(date_line.take(18)[0] == date_line[0]);
            }
        },
    }
}

/// A document with an author and another one that is configured, which is a comment or not.
pub open spec fn with_configured_author(
    author: Seq<u8>,
    commented: bool,
    configured: Seq<u8>,
    rest: Seq<u8>,
) -> Seq<u8> {
    AUTHOR.spec_bytes() + author + seq![LF] + ((if commented {
        DEFAULT_COMMENT_CHAR.spec_bytes()
    } else {
        Seq::empty()
    }) + (CONFIGURED_AUTHOR.spec_bytes() + configured) + seq![LF] + rest)
}

proof fn configured_author_is_read(
    author: Seq<u8>,
    commented: bool,
    configured: Seq<u8>,
    rest: Seq<u8>,
)
    requires
        unbroken(author),
        without_cr(author).len() > 0,
        unbroken(configured),
        without_cr(configured).len() > 0,
    ensures
        author_of(with_configured_author(author, commented, configured, rest)) == Ok::<
            _,
            RewordError,
        >(
            (
                if commented {
                    without_cr(author)
                } else {
                    without_cr(configured)
                },
                Some(rest),
            ),
        ),
{
    labels();
    let text = CONFIGURED_AUTHOR.spec_bytes() + configured;
    let line = (if commented {
        DEFAULT_COMMENT_CHAR.spec_bytes()
    } else {
        Seq::empty()
    }) + text;
    let behind = line + seq![LF] + rest;
    header_is_read(AUTHOR.spec_bytes(), author, behind, RewordError::ExpectedAuthor);
    let kept = CONFIGURED_AUTHOR.spec_bytes() + without_cr(configured);
    assert(kept.take(18) == CONFIGURED_AUTHOR.spec_bytes());
    assert(line.last() == configured.last());
    if commented {
        assert forall|i: int| 0 <= i < line.len() implies line[i] != LF by {
            if i >= 1 + 18 {
                assert(line[i] == configured[i - 19]);
            }
        }
        line_splits(line, rest);
        assert(without_cr(line) == DEFAULT_COMMENT_CHAR.spec_bytes() + kept);
        assert(without_cr(line).take(1) == DEFAULT_COMMENT_CHAR.spec_bytes());
        assert(without_cr(line).skip(1) == kept);
    } else {
        assert(line == text);
        assert(without_cr(line) == kept);
        assert forall|i: int| 0 <= i < line.len() implies line[i] != LF by {
            if i >= 18 {
                assert(line[i] == configured[i - 18]);
            }
        }
        line_splits(line, rest);
        header_is_read(
            CONFIGURED_AUTHOR.spec_bytes(),
            configured,
            rest,
            RewordError::ExpectedConfiguredAuthor,
        );
        assert(kept[0] == 67);
        if has_prefix(kept, DEFAULT_COMMENT_CHAR.spec_bytes()) {
            assert(kept.take(1)[0] == kept[0]);
        }
    }
}

/// Once the line of the author that is configured is no comment any more, that one is the author. Nothing
/// else that a document says changes, and one that cannot be read is refused for the same reason. Lines
/// may end with a carriage return before the line feed, which belongs to neither author.
pub proof fn uncommenting_the_configured_author_changes_the_author_alone(
    author: Seq<u8>,
    configured: Seq<u8>,
    rest: Seq<u8>,
)
    requires
        unbroken(author),
        without_cr(author).len() > 0,
        unbroken(configured),
        without_cr(configured).len() > 0,
    ensures
        ({
            let edited = edit_of(with_configured_author(author, false, configured, rest));
            match edit_of(with_configured_author(author, true, configured, rest)) {
                Ok(edit) => edit.author == without_cr(author) && edited == Ok::<_, RewordError>(
                    Edit { author: without_cr(configured), ..edit },
                ),
                Err(err) => edited == Err::<Edit<Seq<u8>>, _>(err),
            }
        }),
{
    configured_author_is_read(author, true, configured, rest);
    configured_author_is_read(author, false, configured, rest);
}

proof fn first_line_is(line: Seq<u8>, rest: Seq<u8>)
    requires
        unbroken(line),
    ensures
        first_line(line + seq![LF] + rest) == (line, rest),
{
    line_splits(line, rest);
}

proof fn notes_come_back(enrichment: Enrichment<Seq<u8>>, message: Seq<u8>)
    requires
        plain_note(enrichment),
    ensures
        noted_from(
            enrichment_lines(enrichment) + (seq![LF] + message),
            DEFAULT_COMMENT_CHAR.spec_bytes(),
            false,
            None,
        ) == Ok::<_, RewordError>(
            (
                Enrichment {
                    todo: enrichment.todo,
                    note: match enrichment.note {
                        Some(note) => Some(summary_of(note)),
                        None => None,
                    },
                },
                message,
            ),
        ),
{
    labels();
    let mark = DEFAULT_COMMENT_CHAR.spec_bytes();
    let todo_line = if enrichment.todo {
        TODO.spec_bytes()
    } else {
        mark + TODO.spec_bytes()
    };
    let note_line = match enrichment.note {
        Some(note) => MESSAGE.spec_bytes() + seq![32u8] + summary_of(note),
        None => mark + MESSAGE.spec_bytes(),
    };
    let text = enrichment_lines(enrichment) + (seq![LF] + message);
    let last = Seq::<u8>::empty() + seq![LF] + message;
    let middle = note_line + seq![LF] + last;
    assert(text == todo_line + seq![LF] + middle);
    assert(unbroken(note_line)) by {
        if let Some(note) = enrichment.note {
            let summary = summary_of(note);
            assert forall|i: int| 0 <= i < note_line.len() implies note_line[i] != LF by {
                if i >= 9 {
                    assert(note_line[i] == summary[i - 9]);
                }
            }
        }
    }
    first_line_is(todo_line, middle);
    first_line_is(note_line, last);
    first_line_is(Seq::<u8>::empty(), message);
    first_line_bounds(text);
    first_line_bounds(middle);
    first_line_bounds(last);
    assert(without_cr(todo_line) == todo_line);
    assert(todo_line.take(1)[0] == todo_line[0]);
    assert(note_line.take(1)[0] == note_line[0]);
    assert((mark + TODO.spec_bytes()).take(1) == mark);
    assert((mark + MESSAGE.spec_bytes()).take(1) == mark);
    let message_after = match enrichment.note {
        Some(note) => Some(Some(summary_of(note))),
        None => None,
    };
    assert(noted_from(last, mark, enrichment.todo, message_after) == Ok::<_, RewordError>(
        (
            Enrichment {
                todo: enrichment.todo,
                note: match enrichment.note {
                    Some(note) => Some(summary_of(note)),
                    None => None,
                },
            },
            message,
        ),
    ));
    assert(noted_from(middle, mark, enrichment.todo, None) == noted_from(
        last,
        mark,
        enrichment.todo,
        message_after,
    )) by {
        match enrichment.note {
            Some(note) => {
                let summary = summary_of(note);
                assert(note_line.last() == summary.last());
                assert(without_cr(note_line) == note_line);
                assert(note_line[0] == 77);
                assert(!has_prefix(note_line, mark));
                assert(TODO.spec_bytes()[0] == 84);
                assert(note_line != TODO.spec_bytes());
                assert(note_line.take(8) == MESSAGE.spec_bytes());
                assert(note_line.skip(8) == seq![32u8] + summary);
                leading_space_goes(summary);
            },
            None => {
                assert(without_cr(note_line) == note_line);
                assert(has_prefix(note_line, mark));
            },
        }
    }
    assert(noted_from(text, mark, false, None) == noted_from(middle, mark, enrichment.todo, None))
        by {
        if enrichment.todo {
            assert(todo_line[0] == 84);
            assert(!has_prefix(todo_line, mark));
        } else {
            assert(has_prefix(todo_line, mark));
        }
    }
}

proof fn leading_space_goes(text: Seq<u8>)
    ensures
        trimmed(seq![32u8] + text) == trimmed(text),
{
    let spaced = seq![32u8] + text;
    assert(bytes::space_width(spaced) == 1);
    assert(spaced.skip(1) == text);
}

proof fn documents_are_lines(
    first: Seq<u8>,
    committer: Seq<u8>,
    committer_date: Seq<u8>,
    notes: Seq<u8>,
    message: Seq<u8>,
)
    ensures
        ({
            let tail = seq![LF] + message;
            let second = COMMITTER.spec_bytes() + committer + seq![LF]
                + COMMITTER_DATE.spec_bytes() + committer_date + seq![LF] + COMMENT_CHAR.spec_bytes()
                + DEFAULT_COMMENT_CHAR.spec_bytes() + seq![LF];
            let marked = COMMENT_CHAR.spec_bytes() + DEFAULT_COMMENT_CHAR.spec_bytes() + seq![LF] + (
            notes + tail);
            let dated = COMMITTER_DATE.spec_bytes() + committer_date + seq![LF] + marked;
            first + (second + notes) + tail == first + (COMMITTER.spec_bytes() + committer
                + seq![LF] + dated)
        }),
{
    let tail = seq![LF] + message;
    let a = COMMITTER.spec_bytes() + committer + seq![LF];
    let b = COMMITTER_DATE.spec_bytes() + committer_date + seq![LF];
    let c = COMMENT_CHAR.spec_bytes() + DEFAULT_COMMENT_CHAR.spec_bytes() + seq![LF];
    let second = COMMITTER.spec_bytes() + committer + seq![LF] + COMMITTER_DATE.spec_bytes()
        + committer_date + seq![LF] + COMMENT_CHAR.spec_bytes() + DEFAULT_COMMENT_CHAR.spec_bytes()
        + seq![LF];
    assert(second == a + b + c);
    assert(first + (second + notes) + tail == first + (a + (b + (c + (notes + tail)))));
}

#[verifier::spinoff_prover]
#[verifier::rlimit(40)]
proof fn headers_come_back(
    author_date: Seq<u8>,
    committer: Actor<Seq<u8>>,
    committer_date: Seq<u8>,
    notes: Seq<u8>,
)
    requires
        one_line(author_date),
        one_line(committer_date),
        unbroken(committer.name),
        unbroken(committer.email),
    ensures
        ({
            let mark = DEFAULT_COMMENT_CHAR.spec_bytes();
            let marked = COMMENT_CHAR.spec_bytes() + mark + seq![LF] + notes;
            let dated = COMMITTER_DATE.spec_bytes() + committer_date + seq![LF] + marked;
            let committed = COMMITTER.spec_bytes() + actor_text(committer) + seq![LF] + dated;
            let after_author = AUTHOR_DATE.spec_bytes() + author_date + seq![LF] + committed;
            &&& next_header(
                Some(after_author),
                AUTHOR_DATE.spec_bytes(),
                RewordError::ExpectedAuthorDate,
            ) == Ok::<_, RewordError>((author_date, Some(committed)))
            &&& next_header(
                Some(committed),
                COMMITTER.spec_bytes(),
                RewordError::ExpectedCommitter,
            ) == Ok::<_, RewordError>((actor_text(committer), Some(dated)))
            &&& next_header(
                Some(dated),
                COMMITTER_DATE.spec_bytes(),
                RewordError::ExpectedCommitterDate,
            ) == Ok::<_, RewordError>((committer_date, Some(marked)))
            &&& next_header(
                Some(marked),
                COMMENT_CHAR.spec_bytes(),
                RewordError::ExpectedCommentChar,
            ) == Ok::<_, RewordError>((mark, Some(notes)))
        }),
{
    let mark = DEFAULT_COMMENT_CHAR.spec_bytes();
    let marked = COMMENT_CHAR.spec_bytes() + mark + seq![LF] + notes;
    let dated = COMMITTER_DATE.spec_bytes() + committer_date + seq![LF] + marked;
    let committed = COMMITTER.spec_bytes() + actor_text(committer) + seq![LF] + dated;
    actor_texts_are_lines(committer);
    assert(unbroken(AUTHOR_DATE.spec_bytes()) && unbroken(COMMITTER.spec_bytes()) && unbroken(
        COMMITTER_DATE.spec_bytes(),
    ) && unbroken(COMMENT_CHAR.spec_bytes()) && one_line(mark)) by {
        labels();
    }
    let after_author = AUTHOR_DATE.spec_bytes() + author_date + seq![LF] + committed;
    assert(next_header(
        Some(after_author),
        AUTHOR_DATE.spec_bytes(),
        RewordError::ExpectedAuthorDate,
    ) == Ok::<_, RewordError>((author_date, Some(committed)))) by {
        header_comes_back(
            AUTHOR_DATE.spec_bytes(),
            author_date,
            committed,
            RewordError::ExpectedAuthorDate,
        );
    }
    assert(next_header(Some(committed), COMMITTER.spec_bytes(), RewordError::ExpectedCommitter)
        == Ok::<_, RewordError>((actor_text(committer), Some(dated)))) by {
        header_comes_back(
            COMMITTER.spec_bytes(),
            actor_text(committer),
            dated,
            RewordError::ExpectedCommitter,
        );
    }
    assert(next_header(
        Some(dated),
        COMMITTER_DATE.spec_bytes(),
        RewordError::ExpectedCommitterDate,
    ) == Ok::<_, RewordError>((committer_date, Some(marked)))) by {
        header_comes_back(
            COMMITTER_DATE.spec_bytes(),
            committer_date,
            marked,
            RewordError::ExpectedCommitterDate,
        );
    }
    assert(next_header(Some(marked), COMMENT_CHAR.spec_bytes(), RewordError::ExpectedCommentChar)
        == Ok::<_, RewordError>((mark, Some(notes)))) by {
        header_comes_back(COMMENT_CHAR.spec_bytes(), mark, notes, RewordError::ExpectedCommentChar);
    }
}

/// A document that is written of a commit and not edited reads back: the same people, times and
/// notes, and the message cleaned up. The dates are those that read back as the times which they
/// were written from.
pub proof fn documents_read_back(
    author: Signature<Seq<u8>>,
    configured_author: Option<Actor<Seq<u8>>>,
    committer: Signature<Seq<u8>>,
    enrichment: Enrichment<Seq<u8>>,
    message: Seq<u8>,
)
    requires
        unbroken(author.actor.name),
        unbroken(author.actor.email),
        unbroken(committer.actor.name),
        unbroken(committer.actor.email),
        configured_author matches Some(actor) ==> unbroken(actor.name) && unbroken(actor.email),
        reads_back(author.time),
        reads_back(committer.time),
        plain_note(enrichment),
    ensures
        edit_of(
            header_lines(author, configured_author, committer, enrichment)->0 + (seq![LF]
                + message),
        ) == Ok::<_, RewordError>(
            Edit {
                author: actor_text(author.actor),
                author_time: author.time,
                committer: actor_text(committer.actor),
                committer_time: committer.time,
                message: cleaned(message, Some(DEFAULT_COMMENT_CHAR.spec_bytes())),
                enrichment: Enrichment {
                    todo: enrichment.todo,
                    note: match enrichment.note {
                        Some(note) => Some(summary_of(note)),
                        None => None,
                    },
                },
            },
        ),
{
    let author_date = iso_date(author.time)->0;
    let committer_date = iso_date(committer.time)->0;
    let mark = DEFAULT_COMMENT_CHAR.spec_bytes();
    let notes = enrichment_lines(enrichment) + (seq![LF] + message);
    let marked = COMMENT_CHAR.spec_bytes() + mark + seq![LF] + notes;
    let dated = COMMITTER_DATE.spec_bytes() + committer_date + seq![LF] + marked;
    let committed = COMMITTER.spec_bytes() + actor_text(committer.actor) + seq![LF] + dated;
    let input = header_lines(author, configured_author, committer, enrichment)->0 + (seq![LF]
        + message);
    let after_author = AUTHOR_DATE.spec_bytes() + author_date + seq![LF] + committed;
    assert(author_of(input) == Ok::<_, RewordError>((actor_text(author.actor), Some(after_author))))
        by {
        let first = author_lines(author.actor, configured_author, author_date);
        let second = committer_lines(committer.actor, committer_date);
        documents_are_lines(
            first,
            actor_text(committer.actor),
            committer_date,
            enrichment_lines(enrichment),
            message,
        );
        assert(second == COMMITTER.spec_bytes() + actor_text(committer.actor) + seq![LF]
            + COMMITTER_DATE.spec_bytes() + committer_date + seq![LF] + COMMENT_CHAR.spec_bytes()
            + mark + seq![LF]);
        author_comes_back(author.actor, configured_author, author_date, committed);
    }
    headers_come_back(author_date, committer.actor, committer_date, notes);
    notes_come_back(enrichment, message);
    assert(!mark.contains(CR)) by {
        labels();
        if mark.contains(CR) {
            let i = choose|i: int| 0 <= i < mark.len() && mark[i] == CR;
            assert(mark[i] == 59);
        }
    }
}

/// Whether a text holds only comments and empty lines, each of them ended.
pub open spec fn quiet(text: Seq<u8>, mark: Seq<u8>) -> bool
    decreases text.len(),
{
    text.len() == 0 || match split_at_byte(text, LF) {
        Some((line, rest)) => (line.len() == 0 || (has_prefix(line, mark) && line.last() != CR))
            && rest.len() < text.len() && quiet(rest, mark),
        None => false,
    }
}

proof fn quiet_texts_go(text: Seq<u8>, mark: Seq<u8>, out: Seq<u8>, gap: bool)
    requires
        quiet(text, mark),
    ensures
        cleaned_from(text, Some(mark), out, gap) == out,
    decreases text.len(),
{
    if text.len() > 0 {
        let (line, rest) = first_line(text);
        assert(without_cr(line) == line);
        if has_prefix(line, mark) {
            quiet_texts_go(rest, mark, out, gap);
        } else {
            assert(without_trailing_space(line) == line);
            quiet_texts_go(rest, mark, out, true);
        }
    }
}

proof fn quiet_texts_end_lines(text: Seq<u8>, mark: Seq<u8>)
    requires
        quiet(text, mark),
    ensures
        at_line_start(text),
    decreases text.len(),
{
    if text.len() > 0 {
        let (line, rest) = split_at_byte(text, LF)->0;
        quiet_texts_end_lines(rest, mark);
        bytes::find_byte_bounds(text, LF, 0);
        if rest.len() > 0 {
            assert(text.last() == rest.last());
        }
    }
}

/// Whether a text ends a line, or is none.
pub open spec fn at_line_start(text: Seq<u8>) -> bool {
    text.len() == 0 || text.last() == LF
}

pub(crate) proof fn quiet_ends_go(text: Seq<u8>, tail: Seq<u8>, mark: Seq<u8>, out: Seq<u8>, gap: bool)
    requires
        quiet(tail, mark),
    ensures
        at_line_start(text) ==> cleaned_from(text + tail, Some(mark), out, gap) == cleaned_from(
            text,
            Some(mark),
            out,
            gap,
        ),
        !at_line_start(text) ==> cleaned_from(text + seq![LF] + tail, Some(mark), out, gap)
            == cleaned_from(text, Some(mark), out, gap),
    decreases text.len(),
{
    let whole = if at_line_start(text) {
        text + tail
    } else {
        text + seq![LF] + tail
    };
    if text.len() == 0 {
        assert(whole == tail);
        quiet_texts_go(tail, mark, out, gap);
    } else {
        first_line_bounds(text);
        first_line_bounds(whole);
        let (raw, rest) = first_line(text);
        bytes::find_byte_bounds(text, LF, 0);
        match split_at_byte(text, LF) {
            Some(_) => {
                let end = raw.len() as int;
                assert(unbroken(raw));
                let follows = if at_line_start(text) {
                    rest + tail
                } else {
                    rest + seq![LF] + tail
                };
                assert(text == raw + seq![LF] + rest);
                assert(whole == raw + seq![LF] + follows);
                line_splits(raw, follows);
                assert(at_line_start(text) == at_line_start(rest));
                let line = without_cr(raw);
                let kept = without_trailing_space(line);
                let separated = if out.len() > 0 && gap {
                    out.push(LF)
                } else {
                    out
                };
                quiet_ends_go(rest, tail, mark, out, gap);
                quiet_ends_go(rest, tail, mark, out, true);
                quiet_ends_go(rest, tail, mark, separated + kept.push(LF), false);
            },
            None => {
                assert(unbroken(text));
                line_splits(text, tail);
                let line = without_cr(text);
                let kept = without_trailing_space(line);
                let separated = if out.len() > 0 && gap {
                    out.push(LF)
                } else {
                    out
                };
                quiet_texts_go(tail, mark, out, gap);
                quiet_texts_go(tail, mark, out, true);
                quiet_texts_go(tail, mark, separated + kept.push(LF), false);
                let end = Seq::<u8>::empty();
                assert(quiet(end, mark));
                quiet_texts_go(end, mark, out, gap);
                quiet_texts_go(end, mark, out, true);
                quiet_texts_go(end, mark, separated + kept.push(LF), false);
            },
        }
    }
}

pub(crate) proof fn comment_lines_are_quiet(line: Seq<u8>, rest: Seq<u8>, mark: Seq<u8>)
    requires
        unbroken(line),
        line.len() > 0,
        line.last() != CR,
        has_prefix(line, mark),
        quiet(rest, mark),
    ensures
        quiet(line + seq![LF] + rest, mark),
{
    line_splits(line, rest);
}

proof fn key_texts(agent: Agent)
    ensures
        unbroken(agent.key_text()),
        unbroken(agent.token_text()),
        unbroken(": ".spec_bytes()),
        "; ".spec_bytes() == seq![59u8, 32],
        ".\n".spec_bytes() == seq![46u8, LF],
{
    broadcast use vstd::string::is_ascii_spec_bytes;

    reveal_strlit("tix.trailer.assistedBy");
    reveal_strlit("tix.trailer.coAuthoredBy");
    reveal_strlit("Assisted-by");
    reveal_strlit("Co-authored-by");
    reveal_strlit(": ");
    reveal_strlit("; ");
    reveal_strlit(".\n");
    assert(vstd::string::is_ascii("tix.trailer.assistedBy"));
    assert(vstd::string::is_ascii("tix.trailer.coAuthoredBy"));
    assert(vstd::string::is_ascii("Assisted-by"));
    assert(vstd::string::is_ascii("Co-authored-by"));
    assert(vstd::string::is_ascii(": "));
    assert(vstd::string::is_ascii("; "));
    assert(vstd::string::is_ascii(".\n"));
    assert("; ".spec_bytes() =~= seq![59u8, 32]);
    assert(".\n".spec_bytes() =~= seq![46u8, LF]);
}

proof fn source_names_are_unbroken(source: Source)
    ensures
        unbroken(source_name(source)),
{
    broadcast use vstd::string::is_ascii_spec_bytes;

    reveal_strlit("the environment");
    reveal_strlit("a command-line override");
    reveal_strlit("an API override");
    reveal_strlit("an environment override");
    reveal_strlit("Git configuration");
    assert(vstd::string::is_ascii("the environment"));
    assert(vstd::string::is_ascii("a command-line override"));
    assert(vstd::string::is_ascii("an API override"));
    assert(vstd::string::is_ascii("an environment override"));
    assert(vstd::string::is_ascii("Git configuration"));
}

proof fn origin_texts()
    ensures
        unbroken(" is configured in ".spec_bytes()),
        unbroken(" is configured via ".spec_bytes()),
        unbroken(" is unset; using the built-in default".spec_bytes()),
{
    broadcast use vstd::string::is_ascii_spec_bytes;

    reveal_strlit(" is configured in ");
    reveal_strlit(" is configured via ");
    reveal_strlit(" is unset; using the built-in default");
    assert(vstd::string::is_ascii(" is configured in "));
    assert(vstd::string::is_ascii(" is configured via "));
    assert(vstd::string::is_ascii(" is unset; using the built-in default"));
}

pub(crate) proof fn unbroken_joined(a: Seq<u8>, b: Seq<u8>)
    requires
        unbroken(a),
        unbroken(b),
    ensures
        unbroken(a + b),
{
    assert forall|i: int| 0 <= i < (a + b).len() implies (a + b)[i] != LF by {
        if i < a.len() {
            assert((a + b)[i] == a[i]);
        } else {
            assert((a + b)[i] == b[i - a.len()]);
        }
    }
}

proof fn offers_are_quiet(trailer: AgentTrailer<Seq<u8>>, rest: Seq<u8>)
    requires
        plain_trailer(trailer),
        quiet(rest, DEFAULT_COMMENT_CHAR.spec_bytes()),
    ensures
        quiet(offer_line(trailer) + rest, DEFAULT_COMMENT_CHAR.spec_bytes()),
        quiet(origin_line(trailer) + rest, DEFAULT_COMMENT_CHAR.spec_bytes()),
{
    let mark = DEFAULT_COMMENT_CHAR.spec_bytes();
    assert(mark == seq![59u8]) by {
        labels();
    }
    key_texts(trailer.agent);
    let token = trailer.agent.token_text();
    let line = mark + token + ": ".spec_bytes() + trailer.value;
    unbroken_joined(mark, token);
    unbroken_joined(mark + token, ": ".spec_bytes());
    unbroken_joined(mark + token + ": ".spec_bytes(), trailer.value);
    assert(line.last() == trailer.value.last());
    assert(line.take(1) == mark);
    comment_lines_are_quiet(line, rest, mark);
    assert(offer_line(trailer) + rest == line + seq![LF] + rest);
    let origin = match trailer.origin {
        Some(origin) => match origin.path {
            Some(path) => " is configured in ".spec_bytes() + path,
            None => " is configured via ".spec_bytes() + source_name(origin.source),
        },
        None => " is unset; using the built-in default".spec_bytes(),
    };
    assert(unbroken(origin)) by {
        origin_texts();
        if let Some(found) = trailer.origin {
            source_names_are_unbroken(found.source);
            match found.path {
                Some(path) => unbroken_joined(" is configured in ".spec_bytes(), path),
                None => unbroken_joined(
                    " is configured via ".spec_bytes(),
                    source_name(found.source),
                ),
            }
        }
    }
    let first = "; ".spec_bytes() + trailer.agent.key_text() + origin;
    let second = first + seq![46u8];
    unbroken_joined("; ".spec_bytes(), trailer.agent.key_text());
    unbroken_joined("; ".spec_bytes() + trailer.agent.key_text(), origin);
    unbroken_joined(first, seq![46u8]);
    assert(second.take(1) == mark);
    comment_lines_are_quiet(second, rest, mark);
    assert(origin_line(trailer) + rest == second + seq![LF] + rest);
}

proof fn all_offers_are_quiet(trailers: Seq<AgentTrailer<Seq<u8>>>, rest: Seq<u8>)
    requires
        forall|i: int| 0 <= i < trailers.len() ==> plain_trailer(#[trigger] trailers[i]),
        quiet(rest, DEFAULT_COMMENT_CHAR.spec_bytes()),
    ensures
        quiet(offer_lines(trailers) + rest, DEFAULT_COMMENT_CHAR.spec_bytes()),
        quiet(origin_lines(trailers) + rest, DEFAULT_COMMENT_CHAR.spec_bytes()),
    decreases trailers.len(),
{
    if trailers.len() == 0 {
        assert(offer_lines(trailers) + rest == rest);
        assert(origin_lines(trailers) + rest == rest);
    } else {
        let before = trailers.drop_last();
        let last = trailers.last();
        assert(plain_trailer(trailers[trailers.len() - 1]));
        offers_are_quiet(last, rest);
        assert forall|i: int| 0 <= i < before.len() implies plain_trailer(#[trigger] before[i]) by {
            assert(before[i] == trailers[i]);
        }
        all_offers_are_quiet(before, offer_line(last) + rest);
        all_offers_are_quiet(before, origin_line(last) + rest);
        assert(offer_lines(trailers) + rest == offer_lines(before) + (offer_line(last) + rest));
        assert(origin_lines(trailers) + rest == origin_lines(before) + (origin_line(last) + rest));
    }
}

/// Trailers that are offered behind a message leave it as it is, unless the editor takes one up.
#[verifier::spinoff_prover]
#[verifier::rlimit(40)]
pub proof fn offers_change_nothing(
    headers: Seq<u8>,
    message: Seq<u8>,
    trailers: Seq<AgentTrailer<Seq<u8>>>,
) -> (more: Seq<u8>)
    requires
        forall|i: int| 0 <= i < trailers.len() ==> plain_trailer(#[trigger] trailers[i]),
    ensures
        with_offers(ended(headers + seq![LF] + message), trailers) == headers + (seq![LF] + more),
        at_line_start(more),
        cleaned(more, Some(DEFAULT_COMMENT_CHAR.spec_bytes())) == cleaned(
            message,
            Some(DEFAULT_COMMENT_CHAR.spec_bytes()),
        ),
{
    let mark = DEFAULT_COMMENT_CHAR.spec_bytes();
    let text = headers + seq![LF] + message;
    let closed = ended(text);
    let closing = if at_line_start(message) {
        Seq::<u8>::empty()
    } else {
        seq![LF]
    };
    assert(closed == text + closing) by {
        if message.len() > 0 {
            assert(text.last() == message.last());
        }
    }
    let tail = if trailers.len() == 0 {
        Seq::<u8>::empty()
    } else {
        let gap = if bytes::has_suffix(closed, "\n\n".spec_bytes()) {
            Seq::<u8>::empty()
        } else {
            seq![LF]
        };
        gap + (offer_lines(trailers) + origin_lines(trailers))
    };
    all_offers_are_quiet(trailers, Seq::<u8>::empty());
    assert(origin_lines(trailers) + Seq::<u8>::empty() == origin_lines(trailers));
    all_offers_are_quiet(trailers, origin_lines(trailers));
    let lines = offer_lines(trailers) + origin_lines(trailers);
    assert(quiet(tail, mark)) by {
        assert(Seq::<u8>::empty() + lines == lines);
        line_splits(Seq::<u8>::empty(), lines);
        assert(Seq::<u8>::empty() + seq![LF] + lines == seq![LF] + lines);
    }
    quiet_ends_go(message, tail, mark, Seq::empty(), false);
    quiet_texts_end_lines(tail, mark);
    let more = message + closing + tail;
    if tail.len() > 0 {
        assert(more.last() == tail.last());
    } else {
        assert(more == message + closing);
    }
    assert(message + Seq::<u8>::empty() + tail == message + tail);
    assert(with_offers(closed, trailers) == closed + tail);
    assert(closed + tail == headers + (seq![LF] + more));
    more
}

/// The document of a commit that is not edited reads as the people, times, note and message that it was
/// written from: the trailers which it offers are not part of that.
pub proof fn plain_documents_read_back(
    commit: Described<Seq<u8>>,
    configured_author: Option<Actor<Seq<u8>>>,
    committer: Signature<Seq<u8>>,
    enrichment: Enrichment<Seq<u8>>,
    assisted_by: Option<Configured<Seq<u8>>>,
    co_authored_by: Option<Configured<Seq<u8>>>,
)
    requires
        plain_document(
            commit,
            configured_author,
            committer,
            enrichment,
            assisted_by,
            co_authored_by,
        ),
        reads_back(commit.author.time),
        reads_back(committer.time),
        plain_note(enrichment),
    ensures
        ({
            let document = document_of(
                commit,
                configured_author,
                committer,
                enrichment,
                assisted_by,
                co_authored_by,
            );
            document is Ok && edit_of(document->Ok_0) == Ok::<_, RewordError>(
                read_of(commit, committer, enrichment),
            )
        }),
{
    let trailers = offers(tokens_of(commit.message), assisted_by, co_authored_by)->Ok_0;
    let other = other_author(commit.author.actor, configured_author);
    let headers = header_lines(commit.author, other, committer, enrichment)->0;
    let more = offers_change_nothing(headers, commit.message, trailers);
    documents_read_back(commit.author, other, committer, enrichment, more);
}

} // verus!
