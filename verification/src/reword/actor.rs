//! People and dates, as documents write them.
use vstd::prelude::*;
use vstd::string::StringSliceAdditionalSpecFns;
use vstd::utf8::valid_utf8;
use crate::bytes;
use crate::bytes::{one_line, trimmed};
use crate::reword::RewordError;
use crate::text::is_utf8;

verus! {

/// A time: seconds since the start of the epoch, and the offset of the time zone in seconds.
#[derive(Clone, Copy, PartialEq, Eq, Structural, Debug)]
pub struct Time {
    pub seconds: i64,
    pub offset: i32,
}

/// A person.
#[derive(PartialEq, Eq, Debug)]
pub struct Actor<T> {
    pub name: T,
    pub email: T,
}

impl<T: View> View for Actor<T> {
    type V = Actor<T::V>;

    open spec fn view(&self) -> Actor<T::V> {
        Actor { name: self.name@, email: self.email@ }
    }
}

/// The time that a text stands for, if it is one.
pub uninterp spec fn parsed_date(text: Seq<u8>) -> Option<Time>;

/// A time in the format of ISO 8601, if it can be written.
pub uninterp spec fn iso_date(time: Time) -> Option<Seq<u8>>;

/// The name, the email and the time that a signature holds, if it is one.
pub uninterp spec fn signature_parts(text: Seq<u8>) -> Option<(Seq<u8>, Seq<u8>, Seq<u8>)>;

/// The parts of a signature in specifications.
pub open spec fn parts_view(parts: Option<(Vec<u8>, Vec<u8>, Vec<u8>)>) -> Option<
    (Seq<u8>, Seq<u8>, Seq<u8>),
> {
    match parts {
        Some((name, email, time)) => Some((name@, email@, time@)),
        None => None,
    }
}

/// `gix::date::parse` without a current time: the time that a text stands for.
#[verifier::external_body]
fn date_from_text(text: &[u8]) -> (r: Option<Time>)
    ensures
        r == parsed_date(text@),
{
    let time = gix::date::parse(std::str::from_utf8(text).ok()?, None).ok()?;
    Some(Time { seconds: time.seconds, offset: time.offset })
}

/// Whether a time is between the second day of the year one and the end of the year 9998, at an
/// offset of less than a day and of whole minutes.
pub open spec fn plain_time(time: Time) -> bool {
    &&& -62_135_510_400 <= time.seconds <= 253_370_764_799
    &&& -86_340 <= time.offset <= 86_340
    &&& time.offset % 60 == 0
}

/// `gix::date::Time::format` in the format of ISO 8601, which is printable. A plain time can be
/// written, and `gix::date::parse` reads it back.
#[verifier::external_body]
fn date_to_text(time: Time) -> (r: Option<Vec<u8>>)
    ensures
        crate::plan::viewed_option(r) == iso_date(time),
        r matches Some(text) ==> text@.len() > 0 && valid_utf8(text@) && forall|i: int|
            0 <= i < text@.len() ==> 32 <= #[trigger] text@[i] <= 126,
        plain_time(time) ==> r is Some,
        plain_time(time) ==> parsed_date(r->0@) == Some(time),
{
    let time = gix::date::Time { seconds: time.seconds, offset: time.offset };
    Some(time.format(gix::date::time::format::ISO8601).ok()?.into_bytes())
}

/// Whether a text can be the name or the email of a signature as it is: without angle brackets and
/// line feeds.
pub open spec fn unbracketed(text: Seq<u8>) -> bool {
    forall|i: int| 0 <= i < text.len() ==> #[trigger] text[i] != 60 && text[i] != 62 && text[i] != 10
}

/// A person as it is written.
pub open spec fn actor_text(actor: Actor<Seq<u8>>) -> Seq<u8> {
    actor.name + " <".spec_bytes() + actor.email + ">".spec_bytes()
}

/// `gix::actor::SignatureRef::from_bytes`: the name, the email and the time of a signature. One of a
/// name and an email without angle brackets and line feeds holds these, and no time.
#[verifier::external_body]
fn signature_from_bytes(text: &[u8]) -> (r: Option<(Vec<u8>, Vec<u8>, Vec<u8>)>)
    ensures
        parts_view(r) == signature_parts(text@),
        forall|actor: Actor<Seq<u8>>|
            unbracketed(actor.name) && unbracketed(actor.email) && text@ == #[trigger] actor_text(
                actor,
            ) ==> parts_view(r) == Some((actor.name, actor.email, Seq::<u8>::empty())),
{
    let parts = gix::actor::SignatureRef::from_bytes(text).ok()?;
    Some((parts.name.to_vec(), parts.email.to_vec(), parts.time.as_bytes().to_vec()))
}

/// The time that a header gives.
pub open spec fn date_of(value: Seq<u8>) -> Result<Time, RewordError> {
    if !valid_utf8(value) {
        Err(RewordError::DateNotUtf8)
    } else {
        match parsed_date(value) {
            Some(time) => Ok(time),
            None => Err(RewordError::InvalidDate),
        }
    }
}

/// Reads the time that a header gives.
pub fn date(value: &[u8]) -> (r: Result<Time, RewordError>)
    ensures
        r == date_of(value@),
{
    if !is_utf8(value) {
        return Err(RewordError::DateNotUtf8);
    }
    match date_from_text(value) {
        Some(time) => Ok(time),
        None => Err(RewordError::InvalidDate),
    }
}

/// The person that a header names: a name and an email, neither of them empty, and no time.
pub open spec fn actor_of(value: Seq<u8>) -> Result<Actor<Seq<u8>>, RewordError> {
    match signature_parts(value) {
        None => Err(RewordError::InvalidActor),
        Some(parts) => actor_from(parts),
    }
}

/// The person that the parts of a signature name.
pub open spec fn actor_from(parts: (Seq<u8>, Seq<u8>, Seq<u8>)) -> Result<
    Actor<Seq<u8>>,
    RewordError,
> {
    let (name, email, time) = parts;
    if trimmed(name).len() == 0 || trimmed(email).len() == 0 || trimmed(time).len() > 0 {
        Err(RewordError::IncompleteActor)
    } else {
        Ok(Actor { name: trimmed(name), email: trimmed(email) })
    }
}

/// The person that the parts of a signature name.
pub fn actor_from_parts(name: &[u8], email: &[u8], time: &[u8]) -> (r: Result<
    Actor<Vec<u8>>,
    RewordError,
>)
    ensures
        match r {
            Ok(actor) => actor_from((name@, email@, time@)) == Ok::<_, RewordError>(actor@),
            Err(err) => actor_from((name@, email@, time@)) == Err::<Actor<Seq<u8>>, _>(err),
        },
{
    let name = bytes::trim(name);
    let email = bytes::trim(email);
    if name.len() == 0 || email.len() == 0 || bytes::trim(time).len() > 0 {
        return Err(RewordError::IncompleteActor);
    }
    Ok(Actor { name: bytes::copied(name), email: bytes::copied(email) })
}

/// Whether a person has a name and an email, neither of them with angle brackets or line feeds, nor
/// with white space around it.
pub open spec fn plain_actor(actor: Actor<Seq<u8>>) -> bool {
    &&& unbracketed(actor.name) && actor.name.len() > 0 && trimmed(actor.name) == actor.name
    &&& unbracketed(actor.email) && actor.email.len() > 0 && trimmed(actor.email) == actor.email
}

/// Reads the person that a header names. One that is written as it is, without angle brackets and
/// without white space around its name and email, reads back.
pub fn actor(value: &[u8]) -> (r: Result<Actor<Vec<u8>>, RewordError>)
    ensures
        match r {
            Ok(actor) => actor_of(value@) == Ok::<_, RewordError>(actor@),
            Err(err) => actor_of(value@) == Err::<Actor<Seq<u8>>, _>(err),
        },
        forall|actor: Actor<Seq<u8>>|
            plain_actor(actor) && value@ == #[trigger] actor_text(actor) ==> actor_of(value@) == Ok::<
                _,
                RewordError,
            >(actor),
{
    match signature_from_bytes(value) {
        None => Err(RewordError::InvalidActor),
        Some((name, email, time)) => {
            actor_from_parts(name.as_slice(), email.as_slice(), time.as_slice())
        },
    }
}

/// A line that names a person.
pub open spec fn actor_line(label: Seq<u8>, actor: Actor<Seq<u8>>) -> Seq<u8> {
    label + actor_text(actor) + seq![bytes::LF]
}

/// Writes a line that names a person.
pub fn write_actor(out: &mut Vec<u8>, label: &[u8], actor: &Actor<Vec<u8>>)
    ensures
        final(out)@ == old(out)@ + actor_line(label@, actor@),
{
    let ghost before = out@;
    bytes::append(out, label);
    bytes::append(out, actor.name.as_slice());
    bytes::append(out, " <".as_bytes());
    bytes::append(out, actor.email.as_slice());
    bytes::append(out, ">".as_bytes());
    out.push(bytes::LF);
    assert(out@ == before + actor_line(label@, actor@));
}

/// Whether the text of a time can be written, and reads as that time.
pub open spec fn reads_back(time: Time) -> bool {
    iso_date(time) matches Some(text) && one_line(text) && date_of(text) == Ok::<_, RewordError>(time)
}

/// Writes a line that gives a time, if it can be written. The text of a time is printable, and that of a
/// plain one reads back.
pub fn write_date(out: &mut Vec<u8>, label: &[u8], time: Time) -> (r: Result<(), RewordError>)
    ensures
        match iso_date(time) {
            Some(text) => r is Ok && final(out)@ == old(out)@ + (label@ + text + seq![bytes::LF])
                && text.len() > 0 && (forall|i: int|
                0 <= i < text.len() ==> 32 <= #[trigger] text[i] <= 126),
            None => r == Err::<(), _>(RewordError::UnwritableDate) && final(out)@ == old(out)@,
        },
        plain_time(time) ==> reads_back(time),
{
    let ghost before = out@;
    match date_to_text(time) {
        None => Err(RewordError::UnwritableDate),
        Some(text) => {
            bytes::append(out, label);
            bytes::append(out, text.as_slice());
            out.push(bytes::LF);
            assert(out@ == before + (label@ + text@ + seq![bytes::LF]));
            Ok(())
        },
    }
}

} // verus!
