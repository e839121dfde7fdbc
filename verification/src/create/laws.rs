//! What the document of a new commit reads as.
use vstd::prelude::*;
use vstd::string::StringSliceAdditionalSpecFns;
use crate::bytes::{fits_line, has_prefix, CR, LF};
use crate::create::{
    comment_lines, document_of, plain_document, proposed, CHANGES, TEMPLATE,
};
use crate::reword::actor::reads_back;
use crate::reword::apply::ended;
use crate::reword::cleanup::{cleaned, cleaned_from};
use crate::reword::document::{edit_of, header_lines, Enrichment, Signature, DEFAULT_COMMENT_CHAR};
use crate::reword::laws::{
    at_line_start, comment_lines_are_quiet, documents_read_back, line_splits, offers_change_nothing, quiet,
    quiet_ends_go, unbroken_joined,
};
use crate::reword::trailers::{offers, tokens_of, Configured};
use crate::reword::RewordError;

verus! {

proof fn texts()
    ensures
        TEMPLATE.spec_bytes() == seq![119u8, 104, 97, 116, LF, LF, 119, 104, 121, LF],
        CHANGES.spec_bytes() == seq![LF] + seq![
            59u8, 32, 67, 104, 97, 110, 103, 101, 115, 32, 116, 111, 32, 98, 101, 32, 99, 111, 109,
            109, 105, 116, 116, 101, 100, 58,
        ] + seq![LF],
        DEFAULT_COMMENT_CHAR.spec_bytes() == seq![59u8],
        "; ".spec_bytes() == seq![59u8, 32],
{
    broadcast use vstd::string::is_ascii_spec_bytes;

    reveal_strlit("what\n\nwhy\n");
    assert(vstd::string::is_ascii(TEMPLATE));
    assert(TEMPLATE.spec_bytes() =~= seq![119u8, 104, 97, 116, LF, LF, 119, 104, 121, LF]);
    reveal_strlit("\n; Changes to be committed:\n");
    assert(vstd::string::is_ascii(CHANGES));
    assert(CHANGES.spec_bytes() =~= seq![LF] + seq![
        59u8, 32, 67, 104, 97, 110, 103, 101, 115, 32, 116, 111, 32, 98, 101, 32, 99, 111, 109, 109,
        105, 116, 116, 101, 100, 58,
    ] + seq![LF]);
    reveal_strlit(";");
    assert(vstd::string::is_ascii(DEFAULT_COMMENT_CHAR));
    assert(DEFAULT_COMMENT_CHAR.spec_bytes() =~= seq![59u8]);
    reveal_strlit("; ");
    assert(vstd::string::is_ascii("; "));
    assert("; ".spec_bytes() =~= seq![59u8, 32]);
}

proof fn comments_are_quiet(lines: Seq<Seq<u8>>, rest: Seq<u8>)
    requires
        forall|i: int| 0 <= i < lines.len() ==> fits_line(#[trigger] lines[i]),
        quiet(rest, DEFAULT_COMMENT_CHAR.spec_bytes()),
    ensures
        quiet(comment_lines(lines) + rest, DEFAULT_COMMENT_CHAR.spec_bytes()),
    decreases lines.len(),
{
    let mark = DEFAULT_COMMENT_CHAR.spec_bytes();
    if lines.len() == 0 {
        assert(comment_lines(lines) + rest == rest);
    } else {
        texts();
        let before = lines.drop_last();
        let text = lines.last();
        assert(fits_line(lines[lines.len() - 1]));
        let line = "; ".spec_bytes() + text;
        unbroken_joined("; ".spec_bytes(), text);
        assert(line.last() != CR) by {
            if text.len() > 0 {
                assert(line.last() == text.last());
            } else {
                assert(line == "; ".spec_bytes());
            }
        }
        assert(line.take(1) == mark);
        comment_lines_are_quiet(line, rest, mark);
        assert forall|i: int| 0 <= i < before.len() implies fits_line(#[trigger] before[i]) by {
            assert(before[i] == lines[i]);
        }
        comments_are_quiet(before, line + seq![LF] + rest);
        assert(comment_lines(lines) + rest == comment_lines(before) + (line + seq![LF] + rest));
    }
}

proof fn changes_are_quiet(changes: Seq<Seq<u8>>)
    requires
        forall|i: int| 0 <= i < changes.len() ==> fits_line(#[trigger] changes[i]),
    ensures
        quiet(CHANGES.spec_bytes() + comment_lines(changes), DEFAULT_COMMENT_CHAR.spec_bytes()),
{
    texts();
    let mark = DEFAULT_COMMENT_CHAR.spec_bytes();
    let lines = comment_lines(changes);
    assert(quiet(Seq::<u8>::empty(), mark));
    comments_are_quiet(changes, Seq::empty());
    assert(lines + Seq::<u8>::empty() == lines);
    let line = seq![
        59u8, 32, 67, 104, 97, 110, 103, 101, 115, 32, 116, 111, 32, 98, 101, 32, 99, 111, 109, 109,
        105, 116, 116, 101, 100, 58,
    ];
    assert(line.take(1) == mark);
    comment_lines_are_quiet(line, lines, mark);
    let inner = line + seq![LF] + lines;
    line_splits(Seq::<u8>::empty(), inner);
    assert(Seq::<u8>::empty() + seq![LF] + inner == CHANGES.spec_bytes() + lines);
}

proof fn template_is_clean()
    ensures
        cleaned(TEMPLATE.spec_bytes(), Some(DEFAULT_COMMENT_CHAR.spec_bytes()))
            == TEMPLATE.spec_bytes(),
{
    texts();
    let mark = DEFAULT_COMMENT_CHAR.spec_bytes();
    let what = seq![119u8, 104, 97, 116];
    let why = seq![119u8, 104, 121];
    let none = Seq::<u8>::empty();
    let third = why + seq![LF] + none;
    let second = none + seq![LF] + third;
    let first = what + seq![LF] + second;
    assert(first == TEMPLATE.spec_bytes());
    line_splits(what, second);
    line_splits(none, third);
    line_splits(why, none);
    assert(what.take(1)[0] == 119);
    assert(why.take(1)[0] == 119);
    assert(!has_prefix(what, mark));
    assert(!has_prefix(why, mark));
    assert(!has_prefix(none, mark));
    let one = none + what.push(LF);
    let both = one.push(LF) + why.push(LF);
    assert(cleaned_from(none, Some(mark), both, false) == both);
    assert(cleaned_from(third, Some(mark), one, true) == both);
    assert(cleaned_from(second, Some(mark), one, false) == both);
    assert(cleaned_from(first, Some(mark), none, false) == both);
    assert(both == first);
}

proof fn template_remains(more: Seq<u8>, changes: Seq<Seq<u8>>)
    requires
        forall|i: int| 0 <= i < changes.len() ==> fits_line(#[trigger] changes[i]),
        at_line_start(more),
        cleaned(more, Some(DEFAULT_COMMENT_CHAR.spec_bytes())) == cleaned(
            TEMPLATE.spec_bytes(),
            Some(DEFAULT_COMMENT_CHAR.spec_bytes()),
        ),
    ensures
        cleaned(
            more + (CHANGES.spec_bytes() + comment_lines(changes)),
            Some(DEFAULT_COMMENT_CHAR.spec_bytes()),
        ) == TEMPLATE.spec_bytes(),
{
    let mark = DEFAULT_COMMENT_CHAR.spec_bytes();
    changes_are_quiet(changes);
    quiet_ends_go(more, CHANGES.spec_bytes() + comment_lines(changes), mark, Seq::empty(), false);
    template_is_clean();
}

proof fn template_is_ended(headers: Seq<u8>)
    ensures
        ended(headers + seq![LF] + TEMPLATE.spec_bytes()) == headers + seq![LF]
            + TEMPLATE.spec_bytes(),
{
    texts();
    assert((headers + seq![LF] + TEMPLATE.spec_bytes()).last() == TEMPLATE.spec_bytes().last());
}

proof fn parts_join(headers: Seq<u8>, more: Seq<u8>, title: Seq<u8>, lines: Seq<u8>)
    ensures
        headers + (seq![LF] + more) + title + lines == headers + (seq![LF] + (more + (title
            + lines))),
{
}

/// The document of a new commit that is not edited reads as the people and times that it was written
/// from, and the message that it proposes: neither the trailers nor the changes in it are part of that.
pub proof fn new_documents_hold_the_template(
    author: Signature<Seq<u8>>,
    committer: Signature<Seq<u8>>,
    todo: bool,
    assisted_by: Option<Configured<Seq<u8>>>,
    co_authored_by: Option<Configured<Seq<u8>>>,
    changes: Seq<Seq<u8>>,
)
    requires
        plain_document(author, committer, assisted_by, co_authored_by, changes),
        reads_back(author.time),
        reads_back(committer.time),
    ensures
        ({
            let document = document_of(
                author,
                committer,
                todo,
                assisted_by,
                co_authored_by,
                changes,
            );
            document is Ok && edit_of(document->Ok_0) == Ok::<_, RewordError>(
                proposed(author, committer, todo),
            )
        }),
{
    let trailers = offers(tokens_of(TEMPLATE.spec_bytes()), assisted_by, co_authored_by)->Ok_0;
    let enrichment = Enrichment { todo, note: None::<Seq<u8>> };
    let headers = header_lines(author, None, committer, enrichment)->0;
    let more = offers_change_nothing(headers, TEMPLATE.spec_bytes(), trailers);
    template_is_ended(headers);
    template_remains(more, changes);
    parts_join(headers, more, CHANGES.spec_bytes(), comment_lines(changes));
    documents_read_back(
        author,
        None,
        committer,
        enrichment,
        more + (CHANGES.spec_bytes() + comment_lines(changes)),
    );
}

} // verus!
