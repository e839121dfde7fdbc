//! Trailers that credit an agent, which documents offer where a message does not hold them.
use vstd::prelude::*;
use vstd::string::StringSliceAdditionalSpecFns;
use crate::bytes;
use crate::bytes::{has_suffix, one_line, trimmed, unbroken, CR, LF};
use crate::plan::{viewed, viewed_option};
use crate::reword::document::DEFAULT_COMMENT_CHAR;
use crate::reword::RewordError;
use crate::text::{message_parts, title_and_body};

verus! {

/// A trailer that credits an agent.
#[derive(Clone, Copy, PartialEq, Eq, Structural, Debug)]
pub enum Agent {
    AssistedBy,
    CoAuthoredBy,
}

impl Agent {
    /// The key in the configuration that sets the trailer.
    pub open spec fn key_text(self) -> Seq<u8> {
        match self {
            Agent::AssistedBy => "tix.trailer.assistedBy".spec_bytes(),
            Agent::CoAuthoredBy => "tix.trailer.coAuthoredBy".spec_bytes(),
        }
    }

    /// The token of the trailer.
    pub open spec fn token_text(self) -> Seq<u8> {
        match self {
            Agent::AssistedBy => "Assisted-by".spec_bytes(),
            Agent::CoAuthoredBy => "Co-authored-by".spec_bytes(),
        }
    }

    /// The value of the trailer if none is configured.
    pub open spec fn default_text(self) -> Seq<u8> {
        match self {
            Agent::AssistedBy => "GPT 5.6".spec_bytes(),
            Agent::CoAuthoredBy => "GPT 5.6 <codex@openai.com>".spec_bytes(),
        }
    }

    /// The key in the configuration that sets the trailer.
    pub fn key(self) -> (r: &'static [u8])
        ensures
            r@ == self.key_text(),
    {
        match self {
            Agent::AssistedBy => "tix.trailer.assistedBy".as_bytes(),
            Agent::CoAuthoredBy => "tix.trailer.coAuthoredBy".as_bytes(),
        }
    }

    /// The token of the trailer.
    pub fn token(self) -> (r: &'static [u8])
        ensures
            r@ == self.token_text(),
    {
        match self {
            Agent::AssistedBy => "Assisted-by".as_bytes(),
            Agent::CoAuthoredBy => "Co-authored-by".as_bytes(),
        }
    }

    fn default_value(self) -> (r: &'static [u8])
        ensures
            r@ == self.default_text(),
    {
        match self {
            Agent::AssistedBy => "GPT 5.6".as_bytes(),
            Agent::CoAuthoredBy => "GPT 5.6 <codex@openai.com>".as_bytes(),
        }
    }
}

/// Where a value of the configuration comes from.
#[derive(Clone, Copy, PartialEq, Eq, Structural, Debug)]
pub enum Source {
    GitInstallation,
    System,
    Git,
    User,
    Local,
    Worktree,
    Env,
    Cli,
    Api,
    EnvOverride,
}

/// What a source of configuration is called.
pub open spec fn source_name(source: Source) -> Seq<u8> {
    match source {
        Source::Env => "the environment".spec_bytes(),
        Source::Cli => "a command-line override".spec_bytes(),
        Source::Api => "an API override".spec_bytes(),
        Source::EnvOverride => "an environment override".spec_bytes(),
        _ => "Git configuration".spec_bytes(),
    }
}

/// What a source of configuration is called.
pub fn config_source_name(source: Source) -> (r: &'static [u8])
    ensures
        r@ == source_name(source),
{
    match source {
        Source::Env => "the environment".as_bytes(),
        Source::Cli => "a command-line override".as_bytes(),
        Source::Api => "an API override".as_bytes(),
        Source::EnvOverride => "an environment override".as_bytes(),
        Source::GitInstallation
        | Source::System
        | Source::Git
        | Source::User
        | Source::Local
        | Source::Worktree => "Git configuration".as_bytes(),
    }
}

/// The origin of a value in the configuration: a file, or only a kind of source.
#[derive(PartialEq, Eq, Debug)]
pub struct Origin<T> {
    pub path: Option<T>,
    pub source: Source,
}

impl<T: View> View for Origin<T> {
    type V = Origin<T::V>;

    open spec fn view(&self) -> Origin<T::V> {
        Origin { path: viewed_option(self.path), source: self.source }
    }
}

/// A value of the configuration and where it comes from.
#[derive(PartialEq, Eq, Debug)]
pub struct Configured<T> {
    pub value: T,
    pub origin: Origin<T>,
}

impl<T: View> View for Configured<T> {
    type V = Configured<T::V>;

    open spec fn view(&self) -> Configured<T::V> {
        Configured { value: self.value@, origin: self.origin@ }
    }
}

/// A trailer that is offered: the value that it has, and where that comes from unless it is built
/// in.
#[derive(PartialEq, Eq, Debug)]
pub struct AgentTrailer<T> {
    pub agent: Agent,
    pub value: T,
    pub origin: Option<Origin<T>>,
}

impl<T: View> View for AgentTrailer<T> {
    type V = AgentTrailer<T::V>;

    open spec fn view(&self) -> AgentTrailer<T::V> {
        AgentTrailer { agent: self.agent, value: self.value@, origin: viewed_option(self.origin) }
    }
}

/// The tokens of the trailers at the end of the body of a message, in order.
pub uninterp spec fn trailer_tokens(body: Seq<u8>) -> Seq<Seq<u8>>;

/// `gix::objs::commit::message::BodyRef::trailers`: the trailers of a body, of which the tokens are
/// kept.
#[verifier::external_body]
fn body_trailers(body: &[u8]) -> (r: Vec<Vec<u8>>)
    ensures
        viewed(r@) == trailer_tokens(body@),
{
    gix::objs::commit::message::BodyRef::from_bytes(body)
        .trailers()
        .map(|trailer| trailer.token.to_vec())
        .collect()
}

/// Whether a trailer is offered on one line, and so is its origin.
pub open spec fn plain_trailer(trailer: AgentTrailer<Seq<u8>>) -> bool {
    one_line(trailer.value) && (trailer.origin matches Some(origin) ==> (origin.path matches Some(
        path,
    ) ==> unbroken(path)))
}

/// Whether all trailers are offered on one line each.
pub open spec fn plain_trailers(trailers: Seq<AgentTrailer<Seq<u8>>>) -> bool {
    forall|i: int| 0 <= i < trailers.len() ==> plain_trailer(#[trigger] trailers[i])
}

/// An ASCII letter in lower case, and any other byte as it is.
pub open spec fn lower(byte: u8) -> u8 {
    if 65 <= byte <= 90 {
        (byte + 32) as u8
    } else {
        byte
    }
}

/// Whether two texts are the same but for the case of ASCII letters.
pub open spec fn same_letters(a: Seq<u8>, b: Seq<u8>) -> bool {
    a.len() == b.len() && forall|i: int| 0 <= i < a.len() ==> lower(#[trigger] a[i]) == lower(b[i])
}

fn to_lower(byte: u8) -> (r: u8)
    ensures
        r == lower(byte),
{
    if 65 <= byte && byte <= 90 {
        byte + 32
    } else {
        byte
    }
}

/// Compares two texts but for the case of ASCII letters.
pub fn equal_ignoring_case(a: &[u8], b: &[u8]) -> (r: bool)
    ensures
        r == same_letters(a@, b@),
{
    if a.len() != b.len() {
        return false;
    }
    let mut at: usize = 0;
    while at < a.len()
        invariant
            at <= a@.len(),
            a@.len() == b@.len(),
            forall|i: int| 0 <= i < at ==> lower(#[trigger] a@[i]) == lower(b@[i]),
        decreases a@.len() - at,
    {
        if to_lower(a[at]) != to_lower(b[at]) {
            assert(lower(a@[at as int]) != lower(b@[at as int]));
            return false;
        }
        at = at + 1;
    }
    true
}

/// Whether one of the tokens is that of the trailer.
pub open spec fn has_token(tokens: Seq<Seq<u8>>, agent: Agent) -> bool {
    exists|i: int| 0 <= i < tokens.len() && same_letters(#[trigger] tokens[i], agent.token_text())
}

/// The tokens of the trailers that a message holds.
pub open spec fn tokens_of(message: Seq<u8>) -> Seq<Seq<u8>> {
    match title_and_body(message).1 {
        Some(body) => trailer_tokens(body),
        None => Seq::<Seq<u8>>::empty(),
    }
}

/// Whether one of the tokens is that of the trailer.
pub fn contains_token(tokens: &Vec<Vec<u8>>, agent: Agent) -> (r: bool)
    ensures
        r == has_token(viewed(tokens@), agent),
{
    let ghost all = viewed(tokens@);
    let mut at: usize = 0;
    while at < tokens.len()
        invariant
            at <= tokens@.len(),
            all == viewed(tokens@),
            forall|i: int| 0 <= i < at ==> !same_letters(#[trigger] all[i], agent.token_text()),
        decreases tokens@.len() - at,
    {
        if equal_ignoring_case(tokens[at].as_slice(), agent.token()) {
            assert(same_letters(all[at as int], agent.token_text()));
            return true;
        }
        assert(all[at as int] == tokens@[at as int]@);
        at = at + 1;
    }
    false
}

/// Which of the two trailers, `Assisted-by` and `Co-authored-by`, a message does not hold.
pub fn missing_agent_trailers(message: &[u8]) -> (r: (bool, bool))
    ensures
        r.0 == !has_token(tokens_of(message@), Agent::AssistedBy),
        r.1 == !has_token(tokens_of(message@), Agent::CoAuthoredBy),
{
    let (_, body) = message_parts(message);
    match body {
        None => (true, true),
        Some(body) => {
            let tokens = body_trailers(body.as_slice());
            (
                !contains_token(&tokens, Agent::AssistedBy),
                !contains_token(&tokens, Agent::CoAuthoredBy),
            )
        },
    }
}

/// The trailer to offer: as it is configured, on one line that is not blank, or as it is built in.
pub open spec fn offered(agent: Agent, configured: Option<Configured<Seq<u8>>>) -> Result<
    AgentTrailer<Seq<u8>>,
    RewordError,
> {
    match configured {
        None => Ok(AgentTrailer { agent, value: agent.default_text(), origin: None }),
        Some(found) => if trimmed(found.value).len() == 0 || found.value.contains(LF)
            || found.value.contains(CR) {
            Err(RewordError::InvalidTrailer(agent))
        } else {
            Ok(AgentTrailer { agent, value: found.value, origin: Some(found.origin) })
        },
    }
}

fn contains(text: &[u8], byte: u8) -> (r: bool)
    ensures
        r == text@.contains(byte),
{
    let found = bytes::find_byte(text, byte);
    proof {
        bytes::find_byte_bounds(text@, byte, 0);
        if let Some(i) = found {
            assert(text@[i as int] == byte);
        }
    }
    found.is_some()
}

fn copy_origin(origin: &Origin<Vec<u8>>) -> (r: Origin<Vec<u8>>)
    ensures
        r@ == origin@,
{
    let path = match &origin.path {
        Some(path) => Some(bytes::copied(path.as_slice())),
        None => None,
    };
    Origin { path, source: origin.source }
}

/// A value of the configuration in specifications.
pub open spec fn configured_view(configured: Option<&Configured<Vec<u8>>>) -> Option<
    Configured<Seq<u8>>,
> {
    match configured {
        Some(found) => Some(found@),
        None => None,
    }
}

/// The trailer to offer, given what is configured.
pub fn agent_trailer(agent: Agent, configured: Option<&Configured<Vec<u8>>>) -> (r: Result<
    AgentTrailer<Vec<u8>>,
    RewordError,
>)
    ensures
        match r {
            Ok(trailer) => offered(agent, configured_view(configured)) == Ok::<_, RewordError>(
                trailer@,
            ),
            Err(err) => offered(agent, configured_view(configured)) == Err::<
                AgentTrailer<Seq<u8>>,
                _,
            >(err),
        },
{
    match configured {
        None => Ok(
            AgentTrailer { agent, value: bytes::copied(agent.default_value()), origin: None },
        ),
        Some(found) => {
            let value = found.value.as_slice();
            if bytes::trim(value).len() == 0 || contains(value, LF) || contains(value, CR) {
                return Err(RewordError::InvalidTrailer(agent));
            }
            Ok(
                AgentTrailer {
                    agent,
                    value: bytes::copied(value),
                    origin: Some(copy_origin(&found.origin)),
                },
            )
        },
    }
}

/// The trailers to offer for a message that holds the given tokens.
pub open spec fn offers(
    tokens: Seq<Seq<u8>>,
    assisted_by: Option<Configured<Seq<u8>>>,
    co_authored_by: Option<Configured<Seq<u8>>>,
) -> Result<Seq<AgentTrailer<Seq<u8>>>, RewordError> {
    let first = if has_token(tokens, Agent::AssistedBy) {
        Ok(Seq::<AgentTrailer<Seq<u8>>>::empty())
    } else {
        match offered(Agent::AssistedBy, assisted_by) {
            Ok(trailer) => Ok(seq![trailer]),
            Err(err) => Err(err),
        }
    };
    match first {
        Err(err) => Err(err),
        Ok(trailers) => if has_token(tokens, Agent::CoAuthoredBy) {
            Ok(trailers)
        } else {
            match offered(Agent::CoAuthoredBy, co_authored_by) {
                Ok(trailer) => Ok(trailers.push(trailer)),
                Err(err) => Err(err),
            }
        },
    }
}

/// The line that offers a trailer.
pub open spec fn offer_line(trailer: AgentTrailer<Seq<u8>>) -> Seq<u8> {
    DEFAULT_COMMENT_CHAR.spec_bytes() + trailer.agent.token_text() + ": ".spec_bytes()
        + trailer.value + seq![LF]
}

/// The line that says where a trailer comes from.
pub open spec fn origin_line(trailer: AgentTrailer<Seq<u8>>) -> Seq<u8> {
    let origin = match trailer.origin {
        Some(origin) => match origin.path {
            Some(path) => " is configured in ".spec_bytes() + path,
            None => " is configured via ".spec_bytes() + source_name(origin.source),
        },
        None => " is unset; using the built-in default".spec_bytes(),
    };
    "; ".spec_bytes() + trailer.agent.key_text() + origin + ".\n".spec_bytes()
}

/// The lines that offer trailers.
pub open spec fn offer_lines(trailers: Seq<AgentTrailer<Seq<u8>>>) -> Seq<u8>
    decreases trailers.len(),
{
    if trailers.len() == 0 {
        Seq::<u8>::empty()
    } else {
        offer_lines(trailers.drop_last()) + offer_line(trailers.last())
    }
}

/// The lines that say where trailers come from.
pub open spec fn origin_lines(trailers: Seq<AgentTrailer<Seq<u8>>>) -> Seq<u8>
    decreases trailers.len(),
{
    if trailers.len() == 0 {
        Seq::<u8>::empty()
    } else {
        origin_lines(trailers.drop_last()) + origin_line(trailers.last())
    }
}

/// A text with trailers offered behind it and a blank line.
pub open spec fn with_offers(text: Seq<u8>, trailers: Seq<AgentTrailer<Seq<u8>>>) -> Seq<u8> {
    if trailers.len() == 0 {
        text
    } else {
        let gap = if has_suffix(text, "\n\n".spec_bytes()) {
            Seq::<u8>::empty()
        } else {
            seq![LF]
        };
        text + gap + offer_lines(trailers) + origin_lines(trailers)
    }
}

fn write_offer(out: &mut Vec<u8>, trailer: &AgentTrailer<Vec<u8>>)
    ensures
        final(out)@ == old(out)@ + offer_line(trailer@),
{
    let ghost before = out@;
    bytes::append(out, DEFAULT_COMMENT_CHAR.as_bytes());
    bytes::append(out, trailer.agent.token());
    bytes::append(out, ": ".as_bytes());
    bytes::append(out, trailer.value.as_slice());
    out.push(LF);
    assert(out@ == before + offer_line(trailer@));
}

fn write_origin(out: &mut Vec<u8>, trailer: &AgentTrailer<Vec<u8>>)
    ensures
        final(out)@ == old(out)@ + origin_line(trailer@),
{
    let ghost before = out@;
    bytes::append(out, "; ".as_bytes());
    bytes::append(out, trailer.agent.key());
    match &trailer.origin {
        Some(origin) => match &origin.path {
            Some(path) => {
                bytes::append(out, " is configured in ".as_bytes());
                bytes::append(out, path.as_slice());
            },
            None => {
                bytes::append(out, " is configured via ".as_bytes());
                bytes::append(out, config_source_name(origin.source));
            },
        },
        None => {
            bytes::append(out, " is unset; using the built-in default".as_bytes());
        },
    }
    bytes::append(out, ".\n".as_bytes());
    assert(out@ == before + origin_line(trailer@));
}

/// Offers trailers behind a text.
pub fn write_trailers(out: &mut Vec<u8>, trailers: &Vec<AgentTrailer<Vec<u8>>>)
    ensures
        final(out)@ == with_offers(old(out)@, viewed(trailers@)),
{
    let ghost text = out@;
    let ghost all = viewed(trailers@);
    if trailers.len() == 0 {
        return ;
    }
    if !bytes::ends_with(out.as_slice(), "\n\n".as_bytes()) {
        out.push(LF);
    }
    let ghost start = out@;
    let total: usize = trailers.len();
    let mut at: usize = 0;
    assert(all.take(0) == Seq::<AgentTrailer<Seq<u8>>>::empty());
    assert(out@ == start + offer_lines(all.take(0)));
    while at < total
        invariant
            at <= total,
            total == trailers@.len(),
            all == viewed(trailers@),
            out@ == start + offer_lines(all.take(at as int)),
        decreases total - at,
    {
        proof {
            assert(all.take(at as int + 1).drop_last() == all.take(at as int));
            assert(all[at as int] == trailers@[at as int]@);
        }
        write_offer(out, &trailers[at]);
        assert(out@ == start + offer_lines(all.take(at as int + 1)));
        at = at + 1;
    }
    assert(all.take(total as int) == all);
    let ghost offering = out@;
    let mut at: usize = 0;
    assert(out@ == offering + origin_lines(all.take(0)));
    while at < total
        invariant
            at <= total,
            total == trailers@.len(),
            all == viewed(trailers@),
            out@ == offering + origin_lines(all.take(at as int)),
        decreases total - at,
    {
        proof {
            assert(all.take(at as int + 1).drop_last() == all.take(at as int));
            assert(all[at as int] == trailers@[at as int]@);
        }
        write_origin(out, &trailers[at]);
        assert(out@ == offering + origin_lines(all.take(at as int + 1)));
        at = at + 1;
    }
    assert(all.take(total as int) == all);
    assert(out@ == with_offers(text, all));
}

/// The trailers to offer behind a message, of those that it does not hold.
pub fn missing_trailers(
    missing: (bool, bool),
    assisted_by: Option<&Configured<Vec<u8>>>,
    co_authored_by: Option<&Configured<Vec<u8>>>,
) -> (r: Result<Vec<AgentTrailer<Vec<u8>>>, RewordError>)
    ensures
        forall|tokens: Seq<Seq<u8>>|
            #![trigger offers(
                tokens,
                configured_view(assisted_by),
                configured_view(co_authored_by),
            )]
            missing.0 == !has_token(tokens, Agent::AssistedBy) && missing.1 == !has_token(
                tokens,
                Agent::CoAuthoredBy,
            ) ==> {
                let expected = offers(
                    tokens,
                    configured_view(assisted_by),
                    configured_view(co_authored_by),
                );
                match r {
                    Ok(trailers) => expected == Ok::<_, RewordError>(viewed(trailers@)),
                    Err(err) => expected == Err::<Seq<AgentTrailer<Seq<u8>>>, _>(err),
                }
            },
{
    let mut trailers: Vec<AgentTrailer<Vec<u8>>> = Vec::new();
    assert(viewed(trailers@) == Seq::<AgentTrailer<Seq<u8>>>::empty());
    if missing.0 {
        match agent_trailer(Agent::AssistedBy, assisted_by) {
            Ok(trailer) => {
                proof {
                    crate::plan::viewed_push(trailers@, trailer);
                }
                trailers.push(trailer);
                assert(viewed(trailers@) == seq![trailer@]);
            },
            Err(err) => {
                return Err(err);
            },
        }
    }
    if missing.1 {
        match agent_trailer(Agent::CoAuthoredBy, co_authored_by) {
            Ok(trailer) => {
                proof {
                    crate::plan::viewed_push(trailers@, trailer);
                }
                trailers.push(trailer);
            },
            Err(err) => {
                return Err(err);
            },
        }
    }
    Ok(trailers)
}

/// Offers the trailers behind a text that a message does not hold, given what is configured.
pub fn write_missing_agent_trailers(
    out: &mut Vec<u8>,
    message: &[u8],
    assisted_by: Option<&Configured<Vec<u8>>>,
    co_authored_by: Option<&Configured<Vec<u8>>>,
) -> (r: Result<(), RewordError>)
    ensures
        match offers(
            tokens_of(message@),
            configured_view(assisted_by),
            configured_view(co_authored_by),
        ) {
            Ok(trailers) => r is Ok && final(out)@ == with_offers(old(out)@, trailers),
            Err(err) => r == Err::<(), _>(err) && final(out)@ == old(out)@,
        },
{
    let missing = missing_agent_trailers(message);
    match missing_trailers(missing, assisted_by, co_authored_by) {
        Ok(trailers) => {
            write_trailers(out, &trailers);
            Ok(())
        },
        Err(err) => Err(err),
    }
}

} // verus!
