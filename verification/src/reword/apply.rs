//! The document that is written of a commit, and what an edited one asks for.
use vstd::prelude::*;
use vstd::string::StringSliceAdditionalSpecFns;
use crate::auto_merge::definition::{automatic, ensure_editable, Header};
use crate::bytes;
use crate::bytes::{unbroken, LF};
use crate::ids::{ChangeId, ObjectId};
use crate::names::FullName;
use crate::plan::{viewed, viewed_option, viewed_push};
use crate::refs::State;
use crate::reword::actor::{actor, actor_of, actor_text, plain_actor, plain_time, Actor};
use crate::reword::cleanup::{cleaned, cleanup_message};
use crate::reword::document::{
    edit_of, header_lines, noted, parse, write_headers, Edit, Enrichment, Signature,
    DEFAULT_COMMENT_CHAR,
};
use crate::reword::laws::plain_documents_read_back;
use crate::reword::trailers::{
    configured_view, offers, plain_trailers, tokens_of, with_offers, write_missing_agent_trailers,
    Configured,
};
use crate::reword::RewordError;
use crate::text::summary_of;
use crate::undo::changes::RefChange;

verus! {

/// A configured author, unless the commit has the same one already.
pub open spec fn other_author(
    author: Actor<Seq<u8>>,
    configured: Option<Actor<Seq<u8>>>,
) -> Option<Actor<Seq<u8>>> {
    match configured {
        Some(configured) if configured != author => Some(configured),
        _ => None,
    }
}

/// A text with a line feed at its end.
pub open spec fn ended(text: Seq<u8>) -> Seq<u8> {
    if text.len() > 0 && text.last() == LF {
        text
    } else {
        text.push(LF)
    }
}

/// What is known of a commit that is reworded.
#[derive(PartialEq, Eq, Debug)]
pub struct Described<T> {
    pub author: Signature<T>,
    pub message: T,
}

impl<T: View> View for Described<T> {
    type V = Described<T::V>;

    open spec fn view(&self) -> Described<T::V> {
        Described { author: self.author@, message: self.message@ }
    }
}

/// The document of a commit: the headers, an empty line, the message, and the trailers that the
/// message does not hold.
pub open spec fn document_of(
    commit: Described<Seq<u8>>,
    configured_author: Option<Actor<Seq<u8>>>,
    committer: Signature<Seq<u8>>,
    enrichment: Enrichment<Seq<u8>>,
    assisted_by: Option<Configured<Seq<u8>>>,
    co_authored_by: Option<Configured<Seq<u8>>>,
) -> Result<Seq<u8>, RewordError> {
    match header_lines(
        commit.author,
        other_author(commit.author.actor, configured_author),
        committer,
        enrichment,
    ) {
        None => Err(RewordError::UnwritableDate),
        Some(headers) => match offers(tokens_of(commit.message), assisted_by, co_authored_by) {
            Err(err) => Err(err),
            Ok(trailers) => Ok(
                with_offers(ended(headers + seq![LF] + commit.message), trailers),
            ),
        },
    }
}

fn same_actor(a: &Actor<Vec<u8>>, b: &Actor<Vec<u8>>) -> (r: bool)
    ensures
        r == (a@ == b@),
{
    bytes::equal(a.name.as_slice(), b.name.as_slice()) && bytes::equal(
        a.email.as_slice(),
        b.email.as_slice(),
    )
}

fn same_signature(a: &Signature<Vec<u8>>, b: &Signature<Vec<u8>>) -> (r: bool)
    ensures
        r == (a@ == b@),
{
    a.time == b.time && same_actor(&a.actor, &b.actor)
}

/// A person in specifications.
pub open spec fn actor_view(actor: Option<&Actor<Vec<u8>>>) -> Option<Actor<Seq<u8>>> {
    match actor {
        Some(actor) => Some(actor@),
        None => None,
    }
}

/// Whether a person is written on one line.
pub open spec fn unbroken_actor(actor: Actor<Seq<u8>>) -> bool {
    unbroken(actor.name) && unbroken(actor.email)
}

/// Whether what a document is written of can be told apart again: people on one line, plain times, a
/// note that says something, and trailers on one line.
pub open spec fn plain_document(
    commit: Described<Seq<u8>>,
    configured_author: Option<Actor<Seq<u8>>>,
    committer: Signature<Seq<u8>>,
    enrichment: Enrichment<Seq<u8>>,
    assisted_by: Option<Configured<Seq<u8>>>,
    co_authored_by: Option<Configured<Seq<u8>>>,
) -> bool {
    &&& unbroken_actor(commit.author.actor)
    &&& unbroken_actor(committer.actor)
    &&& configured_author matches Some(actor) ==> unbroken_actor(actor)
    &&& plain_time(commit.author.time)
    &&& plain_time(committer.time)
    &&& noted(enrichment)
    &&& offers(tokens_of(commit.message), assisted_by, co_authored_by) matches Ok(trailers)
        && plain_trailers(trailers)
}

/// What the document of a commit reads as.
pub open spec fn read_of(
    commit: Described<Seq<u8>>,
    committer: Signature<Seq<u8>>,
    enrichment: Enrichment<Seq<u8>>,
) -> Edit<Seq<u8>> {
    Edit {
        author: actor_text(commit.author.actor),
        author_time: commit.author.time,
        committer: actor_text(committer.actor),
        committer_time: committer.time,
        message: cleaned(commit.message, Some(DEFAULT_COMMENT_CHAR.spec_bytes())),
        enrichment: Enrichment {
            todo: enrichment.todo,
            note: match enrichment.note {
                Some(note) => Some(summary_of(note)),
                None => None,
            },
        },
    }
}

/// Writes the document of a commit. If it is plain it can be written, and reads as the people, times,
/// note and message that it was written from.
pub fn document(
    commit: &Described<Vec<u8>>,
    configured_author: Option<&Actor<Vec<u8>>>,
    committer: &Signature<Vec<u8>>,
    enrichment: &Enrichment<Vec<u8>>,
    assisted_by: Option<&Configured<Vec<u8>>>,
    co_authored_by: Option<&Configured<Vec<u8>>>,
) -> (r: Result<Vec<u8>, RewordError>)
    ensures
        ({
            let expected = document_of(
                commit@,
                actor_view(configured_author),
                committer@,
                enrichment@,
                configured_view(assisted_by),
                configured_view(co_authored_by),
            );
            match r {
                Ok(text) => expected == Ok::<_, RewordError>(text@),
                Err(err) => expected == Err::<Seq<u8>, _>(err),
            }
        }),
        plain_document(
            commit@,
            actor_view(configured_author),
            committer@,
            enrichment@,
            configured_view(assisted_by),
            configured_view(co_authored_by),
        ) ==> (r matches Ok(text) && edit_of(text@) == Ok::<_, RewordError>(
            read_of(commit@, committer@, enrichment@),
        )),
{
    let other = match configured_author {
        Some(configured) => if same_actor(configured, &commit.author.actor) {
            None
        } else {
            Some(configured)
        },
        None => None,
    };
    let mut out: Vec<u8> = Vec::new();
    let headed = write_headers(&mut out, &commit.author, other, committer, enrichment);
    proof {
        if plain_document(
            commit@,
            actor_view(configured_author),
            committer@,
            enrichment@,
            configured_view(assisted_by),
            configured_view(co_authored_by),
        ) {
            plain_documents_read_back(
                commit@,
                actor_view(configured_author),
                committer@,
                enrichment@,
                configured_view(assisted_by),
                configured_view(co_authored_by),
            );
        }
    }
    if let Err(err) = headed {
        return Err(err);
    }
    let ghost headers = out@;
    proof {
        assert(Seq::<u8>::empty() + headers == headers);
        assert(header_lines(
            commit.author@,
            other_author(commit.author.actor@, actor_view(configured_author)),
            committer@,
            enrichment@,
        ) == Some(headers));
    }
    out.push(LF);
    bytes::append(&mut out, commit.message.as_slice());
    assert(out@ == headers + seq![LF] + commit.message@);
    let last: usize = out.len() - 1;
    if out[last] != LF {
        out.push(LF);
    }
    assert(out@ == ended(headers + seq![LF] + commit.message@));
    match write_missing_agent_trailers(
        &mut out,
        commit.message.as_slice(),
        assisted_by,
        co_authored_by,
    ) {
        Ok(()) => Ok(out),
        Err(err) => Err(err),
    }
}

/// The author of a commit, or another one at the same time.
pub open spec fn authored(
    author: Signature<Seq<u8>>,
    other: Option<Seq<u8>>,
) -> Result<Signature<Seq<u8>>, RewordError> {
    match other {
        None => Ok(author),
        Some(text) => match actor_of(text) {
            Ok(actor) => Ok(Signature { actor, time: author.time }),
            Err(err) => Err(err),
        },
    }
}

/// The author of a commit, or another one at the same time if it is given.
pub fn with_author(author: Signature<Vec<u8>>, other: Option<&[u8]>) -> (r: Result<
    Signature<Vec<u8>>,
    RewordError,
>)
    ensures
        match r {
            Ok(signature) => authored(author@, bytes::view_of(other)) == Ok::<_, RewordError>(
                signature@,
            ),
            Err(err) => authored(author@, bytes::view_of(other)) == Err::<Signature<Seq<u8>>, _>(
                err,
            ),
        },
{
    match other {
        None => Ok(author),
        Some(text) => match actor(text) {
            Ok(actor) => Ok(Signature { actor, time: author.time }),
            Err(err) => Err(err),
        },
    }
}

/// What an edited document asks for: to rewrite the commit, or only to note something of it.
#[derive(PartialEq, Eq, Debug)]
pub enum Revision<T> {
    Rewrite {
        author: Signature<T>,
        committer: Signature<T>,
        message: T,
        enrichment: Enrichment<T>,
    },
    Enrich { enrichment: Enrichment<T> },
}

impl<T: View> View for Revision<T> {
    type V = Revision<T::V>;

    open spec fn view(&self) -> Revision<T::V> {
        match self {
            Revision::Rewrite { author, committer, message, enrichment } => Revision::Rewrite {
                author: author@,
                committer: committer@,
                message: message@,
                enrichment: enrichment@,
            },
            Revision::Enrich { enrichment } => Revision::Enrich { enrichment: enrichment@ },
        }
    }
}

/// Checks that a commit with the given headers can be reworded: the title of an automatic merge is
/// generated.
pub fn check_reword(headers: &Vec<Header<Vec<u8>>>) -> (r: Result<(), RewordError>)
    ensures
        r == if automatic(viewed(headers@)) {
            Err::<(), RewordError>(RewordError::Generated)
        } else {
            Ok(())
        },
{
    match ensure_editable(headers) {
        Ok(()) => Ok(()),
        Err(_) => Err(RewordError::Generated),
    }
}

/// What is asked for by what was read of an edited document. A commit is rewritten only if its author
/// or its message is another one, and not if they are generated.
pub open spec fn revision_by(
    edit: Edit<Seq<u8>>,
    commit: Described<Seq<u8>>,
    generated: bool,
) -> Result<Revision<Seq<u8>>, RewordError> {
    if edit.message.len() == 0 {
        Err(RewordError::EmptyMessage)
    } else {
        match actor_of(edit.author) {
            Err(err) => Err(err),
            Ok(actor) => {
                let author = Signature { actor, time: edit.author_time };
                if author == commit.author && edit.message == commit.message {
                    Ok(Revision::Enrich { enrichment: edit.enrichment })
                } else if generated {
                    Err(RewordError::Generated)
                } else {
                    match actor_of(edit.committer) {
                        Err(err) => Err(err),
                        Ok(actor) => Ok(
                            Revision::Rewrite {
                                author,
                                committer: Signature { actor, time: edit.committer_time },
                                message: edit.message,
                                enrichment: edit.enrichment,
                            },
                        ),
                    }
                }
            },
        }
    }
}

/// What an edited document asks for.
pub open spec fn revision_of(
    edited: Seq<u8>,
    commit: Described<Seq<u8>>,
    generated: bool,
) -> Result<Revision<Seq<u8>>, RewordError> {
    match edit_of(edited) {
        Err(err) => Err(err),
        Ok(edit) => revision_by(edit, commit, generated),
    }
}

/// Whether what was read of a document is what a commit says of itself already: its author, who has
/// neither angle brackets nor white space around the name and the email, and its message.
pub open spec fn describes(edit: Edit<Seq<u8>>, commit: Described<Seq<u8>>) -> bool {
    &&& plain_actor(commit.author.actor)
    &&& edit.author == actor_text(commit.author.actor)
    &&& edit.author_time == commit.author.time
    &&& edit.message == commit.message
    &&& edit.message.len() > 0
}

/// What an edited document of a commit with the given headers asks for. One that describes the commit as
/// it is rewrites nothing, and an automatic merge is never rewritten.
pub fn revise(
    edited: &[u8],
    commit: &Described<Vec<u8>>,
    headers: &Vec<Header<Vec<u8>>>,
) -> (r: Result<Revision<Vec<u8>>, RewordError>)
    ensures
        ({
            let expected = revision_of(edited@, commit@, automatic(viewed(headers@)));
            match r {
                Ok(revision) => expected == Ok::<_, RewordError>(revision@),
                Err(err) => expected == Err::<Revision<Seq<u8>>, _>(err),
            }
        }),
        edit_of(edited@) matches Ok(edit) ==> (describes(edit, commit@) ==> (r matches Ok(revision)
            && revision@ == (Revision::Enrich { enrichment: edit.enrichment }))),
        edit_of(edited@) matches Ok(edit) ==> (actor_of(edit.author) matches Ok(author) ==> (actor_of(
            edit.committer,
        ) matches Ok(committer) ==> (edit.message.len() > 0 && !automatic(viewed(headers@)) && (
        author != commit@.author.actor || edit.author_time != commit@.author.time || edit.message
            != commit@.message) ==> (r matches Ok(revision) && revision@ == (Revision::Rewrite {
            author: Signature { actor: author, time: edit.author_time },
            committer: Signature { actor: committer, time: edit.committer_time },
            message: edit.message,
            enrichment: edit.enrichment,
        }))))),
{
    let edit = match parse(edited) {
        Err(err) => return Err(err),
        Ok(edit) => edit,
    };
    if edit.message.len() == 0 {
        return Err(RewordError::EmptyMessage);
    }
    let author = match actor(edit.author.as_slice()) {
        Err(err) => return Err(err),
        Ok(actor) => Signature { actor, time: edit.author_time },
    };
    if same_signature(&author, &commit.author) && bytes::equal(
        edit.message.as_slice(),
        commit.message.as_slice(),
    ) {
        return Ok(Revision::Enrich { enrichment: edit.enrichment });
    }
    if let Err(err) = check_reword(headers) {
        return Err(err);
    }
    match actor(edit.committer.as_slice()) {
        Err(err) => Err(err),
        Ok(actor) => Ok(
            Revision::Rewrite {
                author,
                committer: Signature { actor, time: edit.committer_time },
                message: edit.message,
                enrichment: edit.enrichment,
            },
        ),
    }
}

/// A commit with another message, and possibly another author, or nothing if that changes nothing. What
/// is generated cannot change.
pub open spec fn redescribed(
    message: Seq<u8>,
    author: Option<Seq<u8>>,
    commit: Described<Seq<u8>>,
    generated: bool,
) -> Result<Option<Described<Seq<u8>>>, RewordError> {
    let clean = cleaned(message, None);
    if clean.len() == 0 {
        Err(RewordError::EmptyMessage)
    } else {
        match authored(commit.author, author) {
            Err(err) => Err(err),
            Ok(author) => {
                let described = Described { author, message: clean };
                if described == commit {
                    Ok(None)
                } else if generated {
                    Err(RewordError::Generated)
                } else {
                    Ok(Some(described))
                }
            },
        }
    }
}

/// A commit with another message, and possibly another author, or nothing if that changes nothing. An
/// automatic merge, by its headers, cannot change.
pub fn revise_message(
    message: &[u8],
    author: Option<&[u8]>,
    commit: Described<Vec<u8>>,
    headers: &Vec<Header<Vec<u8>>>,
) -> (r: Result<Option<Described<Vec<u8>>>, RewordError>)
    ensures
        ({
            let expected = redescribed(
                message@,
                bytes::view_of(author),
                commit@,
                automatic(viewed(headers@)),
            );
            match r {
                Ok(described) => expected == Ok::<_, RewordError>(viewed_option(described)),
                Err(err) => expected == Err::<Option<Described<Seq<u8>>>, _>(err),
            }
        }),
{
    let clean = cleanup_message(message, None);
    if clean.len() == 0 {
        return Err(RewordError::EmptyMessage);
    }
    let same_message = bytes::equal(clean.as_slice(), commit.message.as_slice());
    let author = match author {
        None => None,
        Some(text) => match actor(text) {
            Err(err) => return Err(err),
            Ok(actor) => Some(Signature { actor, time: commit.author.time }),
        },
    };
    let same_author = match &author {
        None => true,
        Some(author) => same_signature(author, &commit.author),
    };
    if same_message && same_author {
        return Ok(None);
    }
    if let Err(err) = check_reword(headers) {
        return Err(err);
    }
    match author {
        None => Ok(Some(Described { author: commit.author, message: clean })),
        Some(author) => Ok(Some(Described { author, message: clean })),
    }
}

/// What came of rewording a commit: the commit that took its place, if any did, and the references
/// that changed.
#[derive(PartialEq, Eq, Debug)]
pub struct Outcome<C> {
    pub target: ObjectId,
    pub commit: Option<ObjectId>,
    pub ref_changes: C,
}

/// A commit that took the place of another one, unless it is the same.
pub open spec fn replaced(target: ObjectId, selected: Option<ObjectId>) -> Option<ObjectId> {
    if selected == Some(target) {
        None
    } else {
        selected
    }
}

/// What came of rewriting a commit.
pub fn rewritten(
    target: ObjectId,
    selected: Option<ObjectId>,
    ref_changes: Vec<RefChange<FullName>>,
) -> (r: Outcome<Vec<RefChange<FullName>>>)
    ensures
        r.target == target,
        r.commit == replaced(target, selected),
        r.ref_changes == ref_changes,
{
    let commit = match selected {
        Some(id) => if id == target {
            None
        } else {
            Some(id)
        },
        None => None,
    };
    Outcome { target, commit, ref_changes }
}

/// What came of only noting something of a commit, given what the reference that keeps the notes held
/// before and holds now.
pub fn enriched(
    target: ObjectId,
    name: FullName,
    before: State<FullName>,
    after: State<FullName>,
) -> (r: Outcome<Vec<RefChange<FullName>>>)
    ensures
        r.target == target,
        r.commit == None::<ObjectId>,
        viewed(r.ref_changes@) == (if before@ == after@ {
            Seq::<RefChange<Seq<u8>>>::empty()
        } else {
            seq![RefChange { name: name@, before: before@, after: after@ }]
        }),
{
    let mut ref_changes: Vec<RefChange<FullName>> = Vec::new();
    if !before.same(&after) {
        let change = RefChange { name, before, after };
        proof {
            viewed_push(ref_changes@, change);
        }
        ref_changes.push(change);
        assert(viewed(ref_changes@) == seq![
            RefChange { name: name@, before: before@, after: after@ },
        ]);
    }
    Outcome { target, commit: None, ref_changes }
}

/// A commit and the change that it is a version of.
#[derive(Clone, Copy, PartialEq, Eq, Structural, Debug)]
pub struct Version {
    pub id: ObjectId,
    pub change_id: ChangeId,
}

/// The commits that are versions of a change, in order.
pub open spec fn versions_of(versions: Seq<Version>, change_id: ChangeId) -> Seq<ObjectId>
    decreases versions.len(),
{
    if versions.len() == 0 {
        Seq::<ObjectId>::empty()
    } else {
        let found = versions_of(versions.drop_last(), change_id);
        if versions.last().change_id == change_id {
            found.push(versions.last().id)
        } else {
            found
        }
    }
}

/// Where an edit goes: to the one version of a change, or nowhere if there is none or there are
/// several.
#[derive(PartialEq, Eq, Debug)]
pub enum Relocated<C> {
    Found(ObjectId),
    Missing,
    Ambiguous(C),
}

/// Where an edit of a change goes among the commits of a view.
pub fn relocate(versions: &Vec<Version>, change_id: ChangeId) -> (r: Relocated<Vec<ObjectId>>)
    ensures
        ({
            let found = versions_of(versions@, change_id);
            match r {
                Relocated::Found(id) => found == seq![id],
                Relocated::Missing => found.len() == 0,
                Relocated::Ambiguous(candidates) => candidates@ == found && found.len() > 1,
            }
        }),
{
    let mut found: Vec<ObjectId> = Vec::new();
    let total: usize = versions.len();
    let mut at: usize = 0;
    assert(versions@.take(0) == Seq::<Version>::empty());
    while at < total
        invariant
            at <= total,
            total == versions@.len(),
            found@ == versions_of(versions@.take(at as int), change_id),
        decreases total - at,
    {
        assert(versions@.take(at as int + 1).drop_last() == versions@.take(at as int));
        if versions[at].change_id == change_id {
            found.push(versions[at].id);
        }
        at = at + 1;
    }
    assert(versions@.take(total as int) == versions@);
    if found.len() == 0 {
        Relocated::Missing
    } else if found.len() == 1 {
        assert(found@ == seq![found@[0]]);
        Relocated::Found(found[0])
    } else {
        Relocated::Ambiguous(found)
    }
}

/// An edited document that can be read, whose message says something and whose people can be read, rewrites
/// a commit that is no automatic merge if its author (the name, the email or the time) or its message is
/// another one. The commit then has the author, the committer and the message that the document reads as.
/// If both are what they were, only what is noted of the commit changes.
pub proof fn edited_documents_are_taken_over(
    edited: Seq<u8>,
    commit: Described<Seq<u8>>,
    edit: Edit<Seq<u8>>,
    author: Actor<Seq<u8>>,
    committer: Actor<Seq<u8>>,
)
    requires
        edit_of(edited) == Ok::<_, RewordError>(edit),
        edit.message.len() > 0,
        actor_of(edit.author) == Ok::<_, RewordError>(author),
        actor_of(edit.committer) == Ok::<_, RewordError>(committer),
    ensures
        ({
            let other = author.name != commit.author.actor.name || author.email
                != commit.author.actor.email || edit.author_time != commit.author.time
                || edit.message != commit.message;
            let revised = revision_of(edited, commit, false);
            &&& revised is Ok
            &&& revised->Ok_0 is Rewrite <==> other
            &&& revised matches Ok(Revision::Rewrite {
                author: by,
                committer: through,
                message,
                enrichment,
            }) ==> by.actor == author && by.time == edit.author_time && through.actor == committer
                && through.time == edit.committer_time && message == edit.message && enrichment
                == edit.enrichment
            &&& revised matches Ok(Revision::Enrich { enrichment }) ==> enrichment
                == edit.enrichment
            &&& other ==> revision_of(edited, commit, true) == Err::<Revision<Seq<u8>>, _>(
                RewordError::Generated,
            )
            &&& !other ==> revision_of(edited, commit, true) == revised
        }),
{
    if author.name == commit.author.actor.name && author.email == commit.author.actor.email
        && edit.author_time == commit.author.time {
        assert(author == commit.author.actor);
        assert(Signature { actor: author, time: edit.author_time } == commit.author);
    }
}

/// A document that cannot be read, that has an empty message, or whose author cannot be read, changes
/// nothing, whatever the commit is.
pub proof fn unreadable_documents_are_refused(
    edited: Seq<u8>,
    commit: Described<Seq<u8>>,
    generated: bool,
)
    requires
        ({
            ||| edit_of(edited) is Err
            ||| edit_of(edited)->Ok_0.message.len() == 0
            ||| actor_of(edit_of(edited)->Ok_0.author) is Err
        }),
    ensures
        revision_of(edited, commit, generated) is Err,
        edit_of(edited) matches Ok(edit) ==> (edit.message.len() == 0 ==> revision_of(
            edited,
            commit,
            generated,
        ) == Err::<Revision<Seq<u8>>, _>(RewordError::EmptyMessage)),
{
}

/// A new message is cleaned up before it is compared and taken over, the time of the author stays, and an
/// author is taken over as it reads. Nothing is rewritten that stays the same, and an automatic merge
/// refuses anything else.
pub proof fn new_messages_are_taken_over(
    message: Seq<u8>,
    author: Option<Seq<u8>>,
    commit: Described<Seq<u8>>,
    by: Actor<Seq<u8>>,
)
    requires
        cleaned(message, None).len() > 0,
        match author {
            Some(text) => actor_of(text) == Ok::<_, RewordError>(by),
            None => by == commit.author.actor,
        },
    ensures
        ({
            let other = by.name != commit.author.actor.name || by.email
                != commit.author.actor.email || cleaned(message, None) != commit.message;
            let described = redescribed(message, author, commit, false);
            &&& described is Ok
            &&& described->Ok_0 is Some <==> other
            &&& described matches Ok(Some(described)) ==> described.message == cleaned(message, None)
                && described.author.actor == by && described.author.time == commit.author.time
            &&& other ==> redescribed(message, author, commit, true) == Err::<
                Option<Described<Seq<u8>>>,
                _,
            >(RewordError::Generated)
            &&& !other ==> redescribed(message, author, commit, true) == described
        }),
{
    if by.name == commit.author.actor.name && by.email == commit.author.actor.email {
        assert(by == commit.author.actor);
        assert(Signature { actor: by, time: commit.author.time } == commit.author);
    }
    let same = Described { author: commit.author, message: commit.message };
    assert(same == commit);
}

/// An empty message is refused however it is written, and so is an author that cannot be read.
pub proof fn empty_messages_are_refused(
    message: Seq<u8>,
    author: Option<Seq<u8>>,
    commit: Described<Seq<u8>>,
    generated: bool,
)
    ensures
        cleaned(message, None).len() == 0 ==> redescribed(message, author, commit, generated)
            == Err::<Option<Described<Seq<u8>>>, _>(RewordError::EmptyMessage),
        author matches Some(text) ==> (actor_of(text) is Err ==> redescribed(
            message,
            author,
            commit,
            generated,
        ) is Err),
{
}

/// The versions of a change are the commits that say so, each of them and no other.
pub proof fn versions_are_of_the_change(versions: Seq<Version>, change_id: ChangeId)
    ensures
        forall|id: ObjectId| #[trigger]
            versions_of(versions, change_id).contains(id) <==> exists|i: int|
                0 <= i < versions.len() && (#[trigger] versions[i]).id == id && versions[i].change_id
                    == change_id,
    decreases versions.len(),
{
    if versions.len() > 0 {
        let rest = versions.drop_last();
        versions_are_of_the_change(rest, change_id);
        let found = versions_of(rest, change_id);
        let last = versions.last();
        assert(versions[versions.len() - 1] == last);
        assert forall|id: ObjectId| #[trigger]
            versions_of(versions, change_id).contains(id) implies exists|i: int|
            0 <= i < versions.len() && (#[trigger] versions[i]).id == id && versions[i].change_id
                == change_id by {
            if found.contains(id) {
                let i = choose|i: int|
                    0 <= i < rest.len() && (#[trigger] rest[i]).id == id && rest[i].change_id
                        == change_id;
                assert(versions[i] == rest[i]);
            }
        }
        assert forall|id: ObjectId|
            exists|i: int|
                0 <= i < versions.len() && (#[trigger] versions[i]).id == id
                    && versions[i].change_id == change_id implies #[trigger] versions_of(
            versions,
            change_id,
        ).contains(id) by {
            let i = choose|i: int|
                0 <= i < versions.len() && (#[trigger] versions[i]).id == id
                    && versions[i].change_id == change_id;
            let all = versions_of(versions, change_id);
            if i < rest.len() {
                assert(rest[i] == versions[i]);
                assert(found.contains(id));
                let j = found.index_of(id);
                assert(all[j] == id);
            } else {
                assert(all.last() == id);
                assert(all[all.len() - 1] == id);
            }
        }
    }
}

/// The document of a commit offers another configured author, and never the one that the commit has.
pub proof fn offered_authors_are_others(
    author: Actor<Seq<u8>>,
    configured: Option<Actor<Seq<u8>>>,
)
    ensures
        other_author(author, configured) matches Some(other) ==> configured == Some(other) && other
            != author,
        configured matches Some(other) ==> (other != author ==> other_author(author, configured)
            is Some),
{
}

/// Another author has the time of the one before, and is taken over as it reads; without another one the author
/// stays.
pub proof fn other_authors_keep_the_time(author: Signature<Seq<u8>>, other: Option<Seq<u8>>)
    ensures
        other is None ==> authored(author, other) == Ok::<_, RewordError>(author),
        other matches Some(text) ==> (authored(author, other) is Ok <==> actor_of(text) is Ok),
        authored(author, other) matches Ok(found) ==> found.time == author.time,
        other matches Some(text) ==> (authored(author, other) matches Ok(found) ==> Ok::<
            _,
            RewordError,
        >(found.actor) == actor_of(text)),
{
}

/// A commit took the place of another one only if it is another one.
pub proof fn commits_replace_others(target: ObjectId, selected: Option<ObjectId>)
    ensures
        replaced(target, selected) is Some <==> selected is Some && selected != Some(target),
        replaced(target, selected) is Some ==> replaced(target, selected) == selected,
{
}

} // verus!
