//! Reference names: which byte strings are one, what kind of reference they name, and how
//! they are shown and quoted.
use vstd::prelude::*;
use vstd::string::StringSliceAdditionalSpecFns;
use crate::bytes;

verus! {

/// The full name of a reference, such as `refs/heads/main` or `HEAD`.
#[derive(Debug, PartialEq, Eq, PartialOrd, Ord, Hash)]
pub struct FullName {
    bytes: Vec<u8>,
}

/// What a reference's name says of its kind.
#[derive(Clone, Copy, PartialEq, Eq, Structural, Debug)]
pub enum Category {
    LocalBranch,
    RemoteBranch,
    Tag,
    Other,
}

/// Where pins are kept: references that keep a commit in view.
pub const PIN_PREFIX: &'static str = "refs/worktree/tix/pins/";

/// The pin that remembers the branch which HEAD left.
pub const HEAD_PIN_NAME: &'static str = "refs/worktree/tix/pins/HEAD";

/// Where the pins are kept that reviews return to.
pub const REVIEW_PIN_PREFIX: &'static str = "refs/worktree/tix/pins/review/";

/// Where reviews are kept.
pub const REVIEW_PREFIX: &'static str = "refs/worktree/tix/review/";

/// Where the worktree state of reviews is kept.
pub const REVIEW_STASH_PREFIX: &'static str = "refs/worktree/tix/review/stashes/";

/// Whether git accepts a byte string as the full name of a reference.
pub uninterp spec fn valid_name(name: Seq<u8>) -> bool;

/// Whether a byte string is not empty, and holds no space, no control and no delete byte.
pub open spec fn graphic(name: Seq<u8>) -> bool {
    name.len() > 0 && forall|i: int| 0 <= i < name.len() ==> 32 < #[trigger] name[i] && name[i] != 127
}

/// Whether a byte string is made of words that slashes separate, at least two of them, each of lower-case
/// letters, digits and hyphens.
pub open spec fn plain_name(name: Seq<u8>) -> bool {
    &&& forall|i: int|
        0 <= i < name.len() ==> 97 <= #[trigger] name[i] <= 122 || 48 <= name[i] <= 57 || name[i] == 45
            || name[i] == 47
    &&& forall|i: int|
        0 <= i < name.len() && #[trigger] name[i] == 47 ==> 0 < i < name.len() - 1 && name[i + 1] != 47
    &&& exists|i: int| 0 <= i < name.len() && #[trigger] name[i] == 47
}

/// The name without the prefix that is well known for references of its kind.
pub uninterp spec fn short_name(name: Seq<u8>) -> Seq<u8>;

/// What a byte string in C-style quotation stands for, with the number of bytes that the
/// quotation takes up.
pub uninterp spec fn unquoted(input: Seq<u8>) -> Option<(Seq<u8>, nat)>;

impl View for FullName {
    type V = Seq<u8>;

    closed spec fn view(&self) -> Seq<u8> {
        self.bytes@
    }
}

impl Clone for FullName {
    fn clone(&self) -> (r: FullName)
        ensures
            r@ == self@,
    {
        proof {
            use_type_invariant(self);
        }
        FullName { bytes: bytes::copied(self.bytes.as_slice()) }
    }
}

impl FullName {
    #[verifier::type_invariant]
    spec fn valid(self) -> bool {
        valid_name(self.bytes@) && graphic(self.bytes@)
    }

    /// The byte string as a full name, if it is one.
    pub fn new(name: &[u8]) -> (r: Option<FullName>)
        ensures
            r is Some == valid_name(name@),
            r matches Some(full) ==> full@ == name@,
            plain_name(name@) ==> r is Some,
    {
        if is_full_name(name) {
            Some(FullName { bytes: bytes::copied(name) })
        } else {
            None
        }
    }

    /// The name's bytes.
    pub fn as_bytes(&self) -> (r: &[u8])
        ensures
            r@ == self@,
            valid_name(self@),
            graphic(self@),
    {
        proof {
            use_type_invariant(self);
        }
        self.bytes.as_slice()
    }

    /// Compares two names.
    pub fn same(&self, other: &FullName) -> (r: bool)
        ensures
            r == (self@ == other@),
    {
        bytes::equal(self.bytes.as_slice(), other.bytes.as_slice())
    }

    /// The kind of reference that has this name.
    pub fn category(&self) -> (r: Category)
        ensures
            r == category_of(self@),
    {
        full_name_category(self.as_bytes())
    }

    /// The name without its well known prefix.
    pub fn shorten(&self) -> (r: Vec<u8>)
        ensures
            r@ == short_name(self@),
            category_of(self@) !is Other ==> short_name(self@) == self@.skip(
                category_prefix(category_of(self@)).len() as int,
            ),
    {
        full_name_shorten(self.as_bytes())
    }
}

/// The kind of reference that has the given name.
pub open spec fn category_of(name: Seq<u8>) -> Category {
    if bytes::has_prefix(name, "refs/tags/".spec_bytes()) {
        Category::Tag
    } else if bytes::has_prefix(name, "refs/heads/".spec_bytes()) {
        Category::LocalBranch
    } else if bytes::has_prefix(name, "refs/remotes/".spec_bytes()) {
        Category::RemoteBranch
    } else {
        Category::Other
    }
}

/// The prefix that the names of local branches, remote-tracking branches and tags have.
pub open spec fn category_prefix(category: Category) -> Seq<u8> {
    match category {
        Category::Tag => "refs/tags/".spec_bytes(),
        Category::LocalBranch => "refs/heads/".spec_bytes(),
        Category::RemoteBranch => "refs/remotes/".spec_bytes(),
        Category::Other => Seq::empty(),
    }
}

/// Whether a byte needs no quotation.
pub open spec fn plain(byte: u8) -> bool {
    32 <= byte <= 126 && byte != 34 && byte != 92
}

/// A byte in C-style quotation: printable ASCII as it is, a quote and a backslash behind a
/// backslash, the common control bytes by a letter and all other bytes by three octal digits.
pub open spec fn escaped(byte: u8) -> Seq<u8> {
    if byte == 7 {
        seq![92, 97]
    } else if byte == 8 {
        seq![92, 98]
    } else if byte == 9 {
        seq![92, 116]
    } else if byte == 10 {
        seq![92, 110]
    } else if byte == 11 {
        seq![92, 118]
    } else if byte == 12 {
        seq![92, 102]
    } else if byte == 13 {
        seq![92, 114]
    } else if byte == 34 || byte == 92 {
        seq![92, byte]
    } else if 32 <= byte <= 126 {
        seq![byte]
    } else {
        seq![92, (48 + byte / 64) as u8, (48 + byte / 8 % 8) as u8, (48 + byte % 8) as u8]
    }
}

/// Bytes in C-style quotation, without the quotes around them.
pub open spec fn escapes(input: Seq<u8>) -> Seq<u8>
    decreases input.len(),
{
    if input.len() == 0 {
        Seq::empty()
    } else {
        escapes(input.drop_last()) + escaped(input.last())
    }
}

/// A byte string in C-style quotation; as it is where it needs none.
pub open spec fn quoted(input: Seq<u8>) -> Seq<u8> {
    if forall|i: int| 0 <= i < input.len() ==> plain(#[trigger] input[i]) {
        input
    } else {
        seq![34u8] + escapes(input) + seq![34u8]
    }
}

/// Quotes a byte string.
pub fn quote(input: &[u8]) -> (r: Vec<u8>)
    ensures
        r@ == quoted(input@),
        unquoted(r@) == Some((input@, r@.len())),
{
    ansi_c_quote(input)
}

/// The result of undoing a quotation, in specifications.
pub open spec fn unquote_view(result: Option<(Vec<u8>, usize)>) -> Option<(Seq<u8>, nat)> {
    match result {
        Some((name, consumed)) => Some((name@, consumed as nat)),
        None => None,
    }
}

/// Undoes a quotation at the start of a byte string, and says how many bytes it took up. What does not
/// start with a quote is not quoted, and comes back whole.
pub fn unquote(input: &[u8]) -> (r: Option<(Vec<u8>, usize)>)
    ensures
        unquote_view(r) == unquoted(input@),
        r matches Some((_, consumed)) ==> consumed <= input@.len(),
        input@.len() == 0 || input@[0] != 34 ==> unquote_view(r) == Some((input@, input@.len())),
{
    ansi_c_undo(input)
}

/// `gix::refs::FullName::try_from`: accepts the byte strings that git accepts as the full name
/// of a reference, and keeps their bytes. None of them is empty or holds a space or a control
/// byte. Among them are all that are made of plain words and slashes between them.
#[verifier::external_body]
fn is_full_name(name: &[u8]) -> (r: bool)
    ensures
        r == valid_name(name@),
        r ==> graphic(name@),
        plain_name(name@) ==> r,
{
    gix::refs::FullName::try_from(gix::bstr::BString::from(name)).is_ok()
}

/// `gix::refs::FullName::category`: tells tags, local branches and remote-tracking branches
/// apart by the prefix of the name; the kinds that this library makes no use of are one here.
#[verifier::external_body]
fn full_name_category(name: &[u8]) -> (r: Category)
    requires
        valid_name(name@),
    ensures
        r == category_of(name@),
{
    let name = gix::refs::FullName::try_from(gix::bstr::BString::from(name));
    match name.as_ref().ok().and_then(gix::refs::FullName::category) {
        Some(gix::refs::Category::LocalBranch) => Category::LocalBranch,
        Some(gix::refs::Category::RemoteBranch) => Category::RemoteBranch,
        Some(gix::refs::Category::Tag) => Category::Tag,
        _ => Category::Other,
    }
}

/// `gix::refs::FullName::shorten`: the name without the prefix of its kind; for local branches,
/// remote-tracking branches and tags that is all of `refs/heads/`, `refs/remotes/` or
/// `refs/tags/`.
#[verifier::external_body]
fn full_name_shorten(name: &[u8]) -> (r: Vec<u8>)
    requires
        valid_name(name@),
    ensures
        r@ == short_name(name@),
        category_of(name@) !is Other ==> r@ == name@.skip(
            category_prefix(category_of(name@)).len() as int,
        ),
{
    match gix::refs::FullName::try_from(gix::bstr::BString::from(name)) {
        Ok(name) => name.shorten().to_vec(),
        Err(_) => Vec::new(),
    }
}

/// `gix::quote::ansi_c::quote`: quotes by the rules that `quoted` states. What it writes,
/// `gix::quote::ansi_c::undo` reads back, consuming all of it.
#[verifier::external_body]
fn ansi_c_quote(input: &[u8]) -> (r: Vec<u8>)
    ensures
        r@ == quoted(input@),
        unquoted(r@) == Some((input@, r@.len())),
{
    gix::quote::ansi_c::quote(input.into()).to_vec()
}

/// `gix::quote::ansi_c::undo`: the unquoted bytes and how many bytes of the input the quotation
/// took up, which is all of an input that does not start with a quote; fails on a quotation
/// that is malformed.
#[verifier::external_body]
fn ansi_c_undo(input: &[u8]) -> (r: Option<(Vec<u8>, usize)>)
    ensures
        unquote_view(r) == unquoted(input@),
        r matches Some((_, consumed)) ==> consumed <= input@.len(),
        input@.len() == 0 || input@[0] != 34 ==> unquote_view(r) == Some((input@, input@.len())),
{
    let (name, consumed) = gix::quote::ansi_c::undo(input.into()).ok()?;
    Some((name.to_vec(), consumed))
}

/// What quotation writes is printable ASCII.
pub proof fn quoted_is_printable(input: Seq<u8>)
    ensures
        forall|i: int| 0 <= i < quoted(input).len() ==> 32 <= #[trigger] quoted(input)[i] <= 126,
{
    escapes_are_printable(input);
}

proof fn escapes_are_printable(input: Seq<u8>)
    ensures
        forall|i: int| 0 <= i < escapes(input).len() ==> 32 <= #[trigger] escapes(input)[i] <= 126,
    decreases input.len(),
{
    if input.len() > 0 {
        escapes_are_printable(input.drop_last());
        let byte = input.last();
        assert forall|i: int| 0 <= i < escaped(byte).len() implies 32 <= #[trigger] escaped(byte)[i]
            <= 126 by {}
        let head = escapes(input.drop_last());
        assert forall|i: int| 0 <= i < escapes(input).len() implies 32 <= #[trigger] escapes(
            input,
        )[i] <= 126 by {
            if i >= head.len() {
                assert(escapes(input)[i] == escaped(byte)[i - head.len()]);
            } else {
                assert(escapes(input)[i] == head[i]);
            }
        }
    }
}

} // verus!
