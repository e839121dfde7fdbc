use gix_tix::auto_merge::definition::{Header, HEADER};
use gix_tix::ids::{ChangeId, ObjectId};
use gix_tix::names::FullName;
use gix_tix::refs::State;
use gix_tix::reword::actor::{actor, date, write_date, Actor, Time};
use gix_tix::reword::apply::{
    check_reword, document, enriched, relocate, revise, revise_message, rewritten, with_author,
    Described, Relocated, Revision, Version,
};
use gix_tix::reword::cleanup::{cleanup_message, trim_cr};
use gix_tix::reword::document::{header, parse, Enrichment, HeaderError, Signature};
use gix_tix::reword::trailers::{
    agent_trailer, config_source_name, missing_agent_trailers, write_missing_agent_trailers, Agent,
    Configured, Origin, Source,
};
use gix_tix::reword::RewordError;

fn id(low: u32) -> ObjectId {
    ObjectId { high: 0, low }
}

fn contains(text: &[u8], part: &[u8]) -> bool {
    text.windows(part.len()).any(|window| window == part)
}

fn replaced(text: &[u8], from: &str, to: &str) -> Vec<u8> {
    String::from_utf8(text.to_vec()).unwrap().replacen(from, to, 1).into_bytes()
}

fn person(name: &str, email: &str) -> Actor<Vec<u8>> {
    Actor { name: name.as_bytes().to_vec(), email: email.as_bytes().to_vec() }
}

fn signed(name: &str, email: &str, seconds: i64) -> Signature<Vec<u8>> {
    Signature { actor: person(name, email), time: Time { seconds, offset: 0 } }
}

fn plain() -> Enrichment<Vec<u8>> {
    Enrichment { todo: false, note: None }
}

fn configured(value: &str, path: Option<&str>, source: Source) -> Configured<Vec<u8>> {
    Configured {
        value: value.as_bytes().to_vec(),
        origin: Origin { path: path.map(|path| path.as_bytes().to_vec()), source },
    }
}

fn commit(author: Signature<Vec<u8>>, message: &str) -> Described<Vec<u8>> {
    Described { author, message: message.as_bytes().to_vec() }
}

fn main_commit() -> Described<Vec<u8>> {
    commit(signed("author", "author@example.com", 978_307_200), "tip\n")
}

fn committer() -> Signature<Vec<u8>> {
    signed("Current Committer", "current@example.com", 978_307_200)
}

fn main_document(
    assisted_by: Option<&Configured<Vec<u8>>>,
    co_authored_by: Option<&Configured<Vec<u8>>>,
) -> Result<Vec<u8>, RewordError> {
    document(
        &main_commit(),
        Some(&person("author", "author@example.com")),
        &committer(),
        &plain(),
        assisted_by,
        co_authored_by,
    )
}

#[test]
fn parses_the_edit_document() {
    let input = b"Author: A U Thor <author@example.com>\n\
                  AuthorDate: 2026-08-12 10:20:30 +0200\n\
                  Committer: C O Mitter <committer@example.com>\n\
                  CommitterDate: 2026-08-12 11:20:30 +0200\n\
                  CommentChar: ;\n\
                  \n\
                  title\n\nbody\n";
    let edit = parse(input).unwrap();
    assert_eq!(edit.author, b"A U Thor <author@example.com>", "the author identity is preserved");
    assert_eq!(edit.author_time.offset, 7200, "the author timezone is parsed");
    assert_eq!(
        edit.committer, b"C O Mitter <committer@example.com>",
        "the committer identity is preserved"
    );
    assert_eq!(edit.committer_time.offset, 7200, "the committer timezone is parsed");
    assert_eq!(edit.message, b"title\n\nbody\n", "the message is preserved byte-for-byte");
}

#[test]
fn offers_a_different_configured_author_for_selection() {
    let topic = commit(
        signed("Codex", "Codex@OpenAI.com", 978_307_200),
        "topic\n\nAssisted-by: GPT 5.6\nCo-authored-by: Somebody <somebody@example.com>\n",
    );
    let author = person("author", "author@example.com");
    let topic_document =
        document(&topic, Some(&author), &committer(), &plain(), None, None).unwrap();
    let offered = b"Author: Codex <Codex@OpenAI.com>\n\
                    ;ConfiguredAuthor: author <author@example.com>\n\
                    AuthorDate: ";
    assert!(
        contains(&topic_document, offered),
        "a differing configured author is offered directly below the commit author"
    );

    let original = parse(&topic_document).unwrap();
    let selected = replaced(&topic_document, ";ConfiguredAuthor: ", "ConfiguredAuthor: ");
    let configured = parse(&selected).unwrap();
    assert_eq!(
        original.author, b"Codex <Codex@OpenAI.com>",
        "the commented configured author does not override the commit author"
    );
    assert_eq!(
        configured.author, b"author <author@example.com>",
        "uncommenting the configured author makes it authoritative"
    );
    assert_eq!(
        configured.author_time, original.author_time,
        "selecting the configured identity retains the commit's author date"
    );
    assert_eq!(
        (configured.committer, configured.committer_time, configured.message, configured.enrichment),
        (original.committer, original.committer_time, original.message, original.enrichment),
        "nothing else changes"
    );

    let returned = |text: &[u8]| {
        let text = replaced(text, "OpenAI.com>\n", "OpenAI.com>\r\n");
        replaced(&text, "author@example.com>\n", "author@example.com>\r\n")
    };
    assert_eq!(parse(&returned(&topic_document)).unwrap().author, b"Codex <Codex@OpenAI.com>");
    assert_eq!(
        parse(&returned(&selected)).unwrap().author,
        b"author <author@example.com>",
        "a carriage return before the line feed belongs to neither author"
    );

    let main_document = main_document(None, None).unwrap();
    assert!(
        !contains(&main_document, b"ConfiguredAuthor: "),
        "a matching configured author is not repeated"
    );
}

#[test]
fn document_does_not_repeat_existing_agent_trailers() {
    let topic = commit(
        signed("Codex", "Codex@OpenAI.com", 978_307_200),
        "topic\n\nAssisted-by: Something\nCo-authored-by: Somebody <somebody@example.com>\n",
    );
    let text = document(&topic, None, &committer(), &plain(), None, None).unwrap();
    let edit = parse(&text).unwrap();
    assert_eq!(
        edit.committer, b"Current Committer <current@example.com>",
        "the template shows the repository's current committer"
    );
    assert_eq!(
        edit.committer_time.seconds, 978_307_200,
        "the configured committer date is shown"
    );
    assert!(
        contains(&text, b"CommentChar: ;\n;Todo\n;Message:\n\n"),
        "the template declares its comment prefix and inactive enrichments"
    );
    assert!(
        !contains(&text, b";Assisted-by:") && !contains(&text, b";Co-authored-by:"),
        "existing trailer keys suppress model-specific suggestions regardless of their values"
    );
}

#[test]
fn configured_agent_trailers_show_their_source_after_the_adjacent_suggestions() {
    let local = configured("Custom Assistant", Some("/repo/.git/config"), Source::Local);
    let text = main_document(Some(&local), None).unwrap();
    assert!(
        contains(
            &text,
            b";Assisted-by: Custom Assistant\n;Co-authored-by: GPT 5.6 <codex@openai.com>\n"
        ),
        "configured and default suggestions remain adjacent"
    );
    assert!(
        contains(&text, b"; tix.trailer.assistedBy is configured in /repo/.git/config.\n"),
        "the winning configuration file is shown"
    );
    assert!(
        contains(
            &text,
            b"; tix.trailer.coAuthoredBy is unset; using the built-in default.\n"
        ),
        "the unset key is advertised"
    );
}

#[test]
fn agent_trailer_overrides_without_files_name_their_source() {
    let assisted_by = configured("API Assistant", None, Source::Api);
    let co_authored_by = configured("API Agent <agent@example.com>", None, Source::Api);
    let text = main_document(Some(&assisted_by), Some(&co_authored_by)).unwrap();
    let expected = b";Assisted-by: API Assistant\n\
                     ;Co-authored-by: API Agent <agent@example.com>\n\
                     ; tix.trailer.assistedBy is configured via an API override.\n\
                     ; tix.trailer.coAuthoredBy is configured via an API override.\n";
    assert!(
        contains(&text, expected),
        "source-less overrides are identified after the suggestions"
    );
}

#[test]
fn invalid_agent_trailer_configuration_is_rejected() {
    for value in ["", "first\nsecond", " \t", "first\rsecond"] {
        let invalid = configured(value, None, Source::Api);
        let err = main_document(Some(&invalid), None).unwrap_err();
        assert_eq!(err, RewordError::InvalidTrailer(Agent::AssistedBy));
        assert_eq!(
            Agent::AssistedBy.key(),
            b"tix.trailer.assistedBy",
            "the invalid configuration key is identified"
        );
    }
}

#[test]
fn parses_bare_todo_and_single_line_message_headers() {
    let document = |headers: &str| {
        format!(
            "Author: A <a@example.com>\n\
             AuthorDate: 2026-08-12 10:20:30 +0200\n\
             Committer: C <c@example.com>\n\
             CommitterDate: 2026-08-12 11:20:30 +0200\n\
             CommentChar: ;\n{headers}\n\n\
             title\n"
        )
    };

    let active_document = document("Todo\nMessage: enrichment title");
    let edit = parse(active_document.as_bytes()).unwrap();
    assert_eq!(
        edit.enrichment,
        Enrichment { todo: true, note: Some(b"enrichment title".to_vec()) }
    );
    assert_eq!(parse(document(";Todo\n;Message:").as_bytes()).unwrap().enrichment, plain());
    assert_eq!(parse(document("Message:").as_bytes()).unwrap().enrichment, plain());
    assert_eq!(
        parse(document("Todo\nTodo").as_bytes()).unwrap_err(),
        RewordError::DuplicateTodo,
        "duplicate Todo is rejected"
    );
    assert_eq!(
        parse(document("Message: one\nMessage: two").as_bytes()).unwrap_err(),
        RewordError::DuplicateMessage,
        "duplicate Message is rejected"
    );
    assert_eq!(
        parse(document("Todo: true").as_bytes()).unwrap_err(),
        RewordError::UnknownHeader,
        "Todo has no value syntax"
    );
}

#[test]
fn enrichment_only_edits_do_not_rewrite_the_commit() {
    let target = main_commit();
    let notes =
        Enrichment { todo: true, note: Some(b"Existing title\n\nexisting body\n".to_vec()) };
    let text = document(&target, None, &committer(), &notes, None, None).unwrap();
    assert!(
        contains(&text, b"Todo\nMessage: Existing title\n\n"),
        "active enrichments are shown before the commit message"
    );

    let edited = replaced(&text, "Message: Existing title", "Message: New title");
    match revise(&edited, &target, &Vec::new()).unwrap() {
        Revision::Enrich { enrichment } => {
            assert!(enrichment.todo);
            assert_eq!(enrichment.note, Some(b"New title".to_vec()));
        }
        Revision::Rewrite { .. } => panic!("enrichment changes leave the commit object untouched"),
    }

    let name = || FullName::new(b"refs/tix/enrich").unwrap();
    let outcome = enriched(id(1), name(), State::Missing, State::Object(id(2)));
    assert_eq!(outcome.target, id(1), "the outcome identifies the edited commit");
    assert_eq!(outcome.commit, None);
    assert_eq!(outcome.ref_changes.len(), 1);
    let outcome = enriched(id(1), name(), State::Object(id(2)), State::Object(id(2)));
    assert!(outcome.ref_changes.is_empty());
}

#[test]
fn editor_relocation_requires_one_visible_commit() {
    let change = |low: u32| ChangeId { id: id(low) };
    let mut versions = vec![
        Version { id: id(10), change_id: change(1) },
        Version { id: id(11), change_id: change(2) },
    ];
    assert_eq!(
        relocate(&versions, change(42)),
        Relocated::Missing,
        "an identity outside the current view cannot be edited"
    );
    assert_eq!(
        relocate(&versions, change(1)),
        Relocated::Found(id(10)),
        "a later prefix collision cannot make the captured full identity ambiguous"
    );
    versions.push(Version { id: id(12), change_id: change(1) });
    assert_eq!(
        relocate(&versions, change(1)),
        Relocated::Ambiguous(vec![id(10), id(12)]),
        "two visible commits with the same identity are ambiguous"
    );
}

#[test]
fn offers_only_missing_agent_trailer_keys() {
    assert_eq!(
        missing_agent_trailers(b"title\n\nASSISTED-BY: another agent\n"),
        (false, true),
        "trailer keys are matched case-insensitively and independently of their values"
    );
    assert_eq!(
        missing_agent_trailers(b"title\n\nco-AUTHORED-by: Someone <someone@example.com>\n"),
        (true, false),
        "either missing trailer remains available for opt-in"
    );
    assert_eq!(missing_agent_trailers(b"Assisted-by: a title is no trailer\n"), (true, true));
}

#[test]
fn cleanup_honors_git_style_comment_prefixes_and_opted_in_trailers() {
    let input = b"Author: A <a@example.com>\n\
                  AuthorDate: 2026-08-12 10:20:30 +0200\n\
                  Committer: C <c@example.com>\n\
                  CommitterDate: 2026-08-12 11:20:30 +0200\n\
                  CommentChar: //\n\
                  \n\
                  \nsubject  \n\n\ninline // stays  \n // indented stays\n//removed\n\nAssisted-by: GPT 5.6\n//Co-authored-by: GPT 5.6 <codex@openai.com>\n";
    assert_eq!(
        parse(input).unwrap().message,
        b"subject\n\ninline // stays\n // indented stays\n\nAssisted-by: GPT 5.6\n",
        "only column-zero comments are removed and Git whitespace cleanup is applied"
    );

    let empty_comment = replaced(input, "CommentChar: //", "CommentChar: ");
    assert_eq!(
        parse(&empty_comment).unwrap_err(),
        RewordError::ExpectedCommentChar,
        "the comment prefix cannot be empty"
    );
}

#[test]
fn headers_are_checked_in_order() {
    let lines = [
        "Author: A <a@example.com>",
        "AuthorDate: 2026-08-12 10:20:30 +0200",
        "Committer: C <c@example.com>",
        "CommitterDate: 2026-08-12 11:20:30 +0200",
        "CommentChar: ;",
    ];
    let without = |skipped: usize| {
        let mut text = String::new();
        for (index, line) in lines.iter().enumerate() {
            if index != skipped {
                text.push_str(line);
                text.push('\n');
            }
        }
        text.push_str("\ntitle\n");
        parse(text.as_bytes()).map(|_| ()).unwrap_err()
    };
    assert_eq!(without(0), RewordError::ExpectedAuthor);
    assert_eq!(without(1), RewordError::ExpectedAuthorDate);
    assert_eq!(without(2), RewordError::ExpectedCommitter);
    assert_eq!(without(3), RewordError::ExpectedCommitterDate);
    assert_eq!(without(4), RewordError::ExpectedCommentChar);
    assert_eq!(parse(b"").map(|_| ()).unwrap_err(), RewordError::ExpectedAuthor);
    assert_eq!(
        parse(b"Author: A <a@example.com>").map(|_| ()).unwrap_err(),
        RewordError::MissingHeader
    );

    let with = |from: &str, to: &str| {
        let text = lines.join("\n") + "\n\ntitle\n";
        parse(text.replacen(from, to, 1).as_bytes()).map(|_| ()).unwrap_err()
    };
    assert_eq!(with("2026-08-12 10:20:30 +0200", "never"), RewordError::InvalidDate);
    assert_eq!(with("CommentChar: ;\n", "CommentChar: ;\r;\n"), RewordError::CommentCharWithLineEnding);
    assert_eq!(with("\n\ntitle\n", ""), RewordError::MissingEnrichment);
    assert_eq!(with("\n\ntitle\n", "\nTodo"), RewordError::NoEmptyLine);
    assert_eq!(
        parse(b"Author: A <a@example.com>\nConfiguredAuthor: \n").map(|_| ()).unwrap_err(),
        RewordError::ExpectedConfiguredAuthor
    );
    assert_eq!(
        parse(b"Author: A <a@example.com>\nAuthorDate: \xff\n").map(|_| ()).unwrap_err(),
        RewordError::DateNotUtf8
    );
}

#[test]
fn header_values_follow_their_prefix() {
    assert_eq!(header(Some(b"Author: somebody\r"), b"Author: "), Ok(&b"somebody"[..]));
    assert_eq!(header(Some(b"Author: "), b"Author: "), Err(HeaderError::Unexpected));
    assert_eq!(header(Some(b"Committer: somebody"), b"Author: "), Err(HeaderError::Unexpected));
    assert_eq!(header(None, b"Author: "), Err(HeaderError::Missing));
    assert_eq!(trim_cr(b"line\r"), b"line");
    assert_eq!(trim_cr(b"line\r\r"), b"line\r");
    assert_eq!(trim_cr(b"line"), b"line");
}

#[test]
fn cleaning_up_twice_changes_nothing_more() {
    let message = b"\n\n  subject \t\n\n\n\nbody\r\n;comment\n\n\nend";
    let clean = cleanup_message(message, None);
    assert_eq!(clean, b"  subject\n\nbody\n;comment\n\nend\n");
    assert_eq!(cleanup_message(&clean, None), clean);
    let without = cleanup_message(message, Some(b";"));
    assert_eq!(without, b"  subject\n\nbody\n\nend\n");
    assert_eq!(cleanup_message(&without, Some(b";")), without);
    assert_eq!(cleanup_message(&without, None), without);
    assert_eq!(cleanup_message(b" \n\t\n", None), b"");
}

#[test]
fn unedited_documents_ask_for_no_rewrite() {
    let target = main_commit();
    let text = main_document(None, None).unwrap();
    match revise(&text, &target, &Vec::new()).unwrap() {
        Revision::Enrich { enrichment } => assert_eq!(enrichment, plain()),
        Revision::Rewrite { .. } => panic!("nothing was edited"),
    }

    let edited = replaced(&text, "\ntip\n", "\nanother tip\n");
    match revise(&edited, &target, &Vec::new()).unwrap() {
        Revision::Rewrite { author, committer, message, enrichment } => {
            assert_eq!(author, target.author);
            assert_eq!(committer, signed("Current Committer", "current@example.com", 978_307_200));
            assert_eq!(message, b"another tip\n");
            assert_eq!(enrichment, plain());
        }
        Revision::Enrich { .. } => panic!("the message was edited"),
    }

    let empty = replaced(&text, "\ntip\n", "\n");
    assert_eq!(revise(&empty, &target, &Vec::new()).unwrap_err(), RewordError::EmptyMessage);
    let nameless = replaced(&text, "Author: author <author@example.com>", "Author: author");
    assert_eq!(revise(&nameless, &target, &Vec::new()).unwrap_err(), RewordError::InvalidActor);
    let incomplete = replaced(&text, "Author: author <author@example.com>", "Author: author <>");
    assert_eq!(revise(&incomplete, &target, &Vec::new()).unwrap_err(), RewordError::IncompleteActor);
}

#[test]
fn generated_commits_are_not_reworded() {
    let target = main_commit();
    let generated =
        vec![Header { name: HEADER.as_bytes().to_vec(), value: b"refs/heads/A".to_vec() }];
    let plain_headers = vec![Header { name: b"other".to_vec(), value: b"1".to_vec() }];
    assert_eq!(check_reword(&generated), Err(RewordError::Generated));
    assert_eq!(check_reword(&plain_headers), Ok(()));
    assert_eq!(
        revise_message(b"replacement title", None, main_commit(), &generated).unwrap_err(),
        RewordError::Generated
    );
    let text = main_document(None, None).unwrap();
    let edited = replaced(&text, "\ntip\n", "\nanother tip\n");
    assert_eq!(revise(&edited, &target, &generated).unwrap_err(), RewordError::Generated);
    match revise(&text, &target, &generated).unwrap() {
        Revision::Enrich { .. } => {}
        Revision::Rewrite { .. } => panic!("nothing was edited"),
    }
}

#[test]
fn messages_and_authors_are_replaced() {
    assert_eq!(
        revise_message(b" \n", None, main_commit(), &Vec::new()).unwrap_err(),
        RewordError::EmptyMessage
    );
    assert_eq!(revise_message(b"\ntip", None, main_commit(), &Vec::new()).unwrap(), None);
    assert_eq!(
        revise_message(b"tip\n", Some(b"author <author@example.com>"), main_commit(), &Vec::new()).unwrap(),
        None
    );
    assert_eq!(
        revise_message(b"tip\n", Some(b"A <a@example.com>"), main_commit(), &Vec::new()).unwrap(),
        Some(commit(signed("A", "a@example.com", 978_307_200), "tip\n"))
    );
    assert_eq!(
        revise_message(b"other\n", None, main_commit(), &Vec::new()).unwrap(),
        Some(commit(main_commit().author, "other\n"))
    );

    let outcome = rewritten(id(1), Some(id(1)), Vec::new());
    assert_eq!((outcome.target, outcome.commit), (id(1), None));
    let outcome = rewritten(id(1), Some(id(2)), Vec::new());
    assert_eq!((outcome.target, outcome.commit), (id(1), Some(id(2))));
    assert_eq!(rewritten(id(1), None, Vec::new()).commit, None);
}

#[test]
fn people_and_dates_are_read_and_written() {
    assert_eq!(actor(b" A U Thor  < a@example.com >").unwrap(), person("A U Thor", "a@example.com"));
    assert_eq!(
        actor(b"A <a@example.com> 1 +0000").unwrap_err(),
        RewordError::IncompleteActor,
        "a time is not part of an identity"
    );
    assert_eq!(actor(b"nobody").unwrap_err(), RewordError::InvalidActor);
    assert_eq!(
        date(b"2001-01-01 00:00:00 +0000").unwrap(),
        Time { seconds: 978_307_200, offset: 0 }
    );
    assert_eq!(date(b"someday").unwrap_err(), RewordError::InvalidDate);
    assert_eq!(date(b"\xff").unwrap_err(), RewordError::DateNotUtf8);
    let mut out = b"> ".to_vec();
    write_date(&mut out, b"Date: ", Time { seconds: 978_307_200, offset: 7200 }).unwrap();
    assert_eq!(out, b"> Date: 2001-01-01 02:00:00 +0200\n");
    assert_eq!(
        write_date(&mut Vec::new(), b"", Time { seconds: i64::MAX, offset: 0 }),
        Err(RewordError::UnwritableDate)
    );
    assert_eq!(
        with_author(main_commit().author, Some(b"B <b@example.com>")).unwrap(),
        signed("B", "b@example.com", 978_307_200)
    );
    assert_eq!(with_author(main_commit().author, None).unwrap(), main_commit().author);
}

#[test]
fn trailers_are_offered_behind_a_blank_line() {
    let mut out = b"message\n".to_vec();
    write_missing_agent_trailers(&mut out, b"title\n\nCo-authored-by: A <a@example.com>\n", None, None)
        .unwrap();
    assert_eq!(
        out,
        b"message\n\n;Assisted-by: GPT 5.6\n\
          ; tix.trailer.assistedBy is unset; using the built-in default.\n"
    );
    let mut out = b"message\n\n".to_vec();
    write_missing_agent_trailers(&mut out, b"title\n\nAssisted-by: A\n", None, None).unwrap();
    assert_eq!(
        out,
        b"message\n\n;Co-authored-by: GPT 5.6 <codex@openai.com>\n\
          ; tix.trailer.coAuthoredBy is unset; using the built-in default.\n"
    );
    let trailer = agent_trailer(Agent::CoAuthoredBy, None).unwrap();
    assert_eq!(trailer.value, b"GPT 5.6 <codex@openai.com>");
    assert_eq!(trailer.origin, None);
    assert_eq!(config_source_name(Source::Env), b"the environment");
    assert_eq!(config_source_name(Source::Cli), b"a command-line override");
    assert_eq!(config_source_name(Source::EnvOverride), b"an environment override");
    assert_eq!(config_source_name(Source::User), b"Git configuration");
}

#[test]
fn plain_times_read_back() {
    for seconds in [-62_135_510_400, -1, 0, 1_700_000_000, 253_370_764_799] {
        for offset in [-86_340, -5 * 3600, 0, 5 * 3600 + 1800, 86_340] {
            let time = Time { seconds, offset };
            let mut line = Vec::new();
            write_date(&mut line, b"", time).unwrap();
            let text = &line[..line.len() - 1];
            assert_eq!(date(text), Ok(time), "{}", String::from_utf8_lossy(text));
        }
    }
}
