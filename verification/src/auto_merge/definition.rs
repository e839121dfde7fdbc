//! The inputs of an automatic merge, as the headers of its commit list them.
use vstd::prelude::*;
use vstd::string::StringSliceAdditionalSpecFns;
use crate::auto_merge::MergeError;
use crate::bytes;
use crate::bytes::{find_byte_from, has_prefix, split_at_byte, without_prefix};
use crate::ids::{
    hex_of, hex_round_trip, parsed_hex, parsed_reverse_hex, reverse_hex_of, reverse_hex_round_trip,
    ChangeId, ObjectId,
};
use crate::names::{
    category_of, short_name, valid_name, Category, FullName, HEAD_PIN_NAME, PIN_PREFIX,
    REVIEW_PIN_PREFIX,
};
use crate::plan::{viewed, viewed_push};
use crate::text::{lossy, to_str_lossy};

verus! {

/// The name of the headers that list inputs.
pub const HEADER: &'static str = "tix-auto-merge";

/// The byte between the fields of a header.
pub const SPACE: u8 = 32;

/// What an input follows: a reference, or a change across its rewrites.
#[derive(PartialEq, Eq, Debug)]
pub enum InputSource<N> {
    Reference(N),
    Change(ChangeId),
}

impl<N: View> View for InputSource<N> {
    type V = InputSource<N::V>;

    open spec fn view(&self) -> InputSource<N::V> {
        match self {
            InputSource::Reference(name) => InputSource::Reference(name@),
            InputSource::Change(change) => InputSource::Change(*change),
        }
    }
}

/// An input: what it follows, the commit that it was last, and whether it is left out.
#[derive(PartialEq, Eq, Debug)]
pub struct Input<N> {
    pub source: InputSource<N>,
    pub commit_id: ObjectId,
    pub muted: bool,
}

impl<N: View> View for Input<N> {
    type V = Input<N::V>;

    open spec fn view(&self) -> Input<N::V> {
        Input { source: self.source@, commit_id: self.commit_id, muted: self.muted }
    }
}

/// A header of a commit.
#[derive(PartialEq, Eq, Debug)]
pub struct Header<T> {
    pub name: T,
    pub value: T,
}

impl<T: View> View for Header<T> {
    type V = Header<T::V>;

    open spec fn view(&self) -> Header<T::V> {
        Header { name: self.name@, value: self.value@ }
    }
}

/// The inputs of an automatic merge.
#[derive(PartialEq, Eq, Debug)]
pub struct Definition {
    pub inputs: Vec<Input<FullName>>,
}

impl View for Definition {
    type V = Seq<Input<Seq<u8>>>;

    open spec fn view(&self) -> Seq<Input<Seq<u8>>> {
        viewed(self.inputs@)
    }
}

/// Whether an automatic merge can follow a reference: a branch, a tag, or a pin that does not
/// belong to HEAD or to a review.
pub open spec fn allowed(name: Seq<u8>) -> bool {
    has_prefix(name, "refs/heads/".spec_bytes()) || has_prefix(name, "refs/remotes/".spec_bytes())
        || has_prefix(name, "refs/tags/".spec_bytes()) || (has_prefix(name, PIN_PREFIX.spec_bytes())
        && name != HEAD_PIN_NAME.spec_bytes() && !has_prefix(name, REVIEW_PIN_PREFIX.spec_bytes()))
}

/// Whether an automatic merge can follow a reference.
pub fn allowed_ref(name: &[u8]) -> (r: bool)
    ensures
        r == allowed(name@),
{
    bytes::starts_with(name, "refs/heads/".as_bytes()) || bytes::starts_with(
        name,
        "refs/remotes/".as_bytes(),
    ) || bytes::starts_with(name, "refs/tags/".as_bytes()) || (bytes::starts_with(
        name,
        PIN_PREFIX.as_bytes(),
    ) && !bytes::equal(name, HEAD_PIN_NAME.as_bytes()) && !bytes::starts_with(
        name,
        REVIEW_PIN_PREFIX.as_bytes(),
    ))
}

/// Whether a reference only moves from outside: a tag or a remote-tracking branch.
pub open spec fn fixed(name: Seq<u8>) -> bool {
    category_of(name) == Category::Tag || category_of(name) == Category::RemoteBranch
}

/// The label of an input.
pub open spec fn label_of(source: InputSource<Seq<u8>>) -> Seq<u8> {
    match source {
        InputSource::Change(change) => reverse_hex_of(change).take(7),
        InputSource::Reference(name) => if has_prefix(name, PIN_PREFIX.spec_bytes()) {
            "📌".spec_bytes()
        } else if category_of(name) == Category::Tag {
            "tag: ".spec_bytes() + lossy(short_name(name))
        } else {
            short_name(name)
        },
    }
}

impl InputSource<FullName> {
    /// A copy of the source.
    pub fn copy(&self) -> (r: InputSource<FullName>)
        ensures
            r@ == self@,
    {
        match self {
            InputSource::Reference(name) => InputSource::Reference(name.clone()),
            InputSource::Change(change) => InputSource::Change(*change),
        }
    }

    /// Whether two inputs follow the same.
    pub fn same(&self, other: &InputSource<FullName>) -> (r: bool)
        ensures
            r == (self@ == other@),
    {
        match (self, other) {
            (InputSource::Reference(a), InputSource::Reference(b)) => a.same(b),
            (InputSource::Change(a), InputSource::Change(b)) => *a == *b,
            _ => false,
        }
    }

    /// The reference that is followed.
    pub fn reference(&self) -> (r: Option<&FullName>)
        ensures
            match self@ {
                InputSource::Reference(name) => r matches Some(found) && found@ == name,
                InputSource::Change(_) => r is None,
            },
    {
        match self {
            InputSource::Reference(name) => Some(name),
            InputSource::Change(_) => None,
        }
    }

    /// Whether what is followed only moves from outside.
    pub fn is_static(&self) -> (r: bool)
        ensures
            r == (self@ matches InputSource::Reference(name) && fixed(name)),
    {
        match self {
            InputSource::Reference(name) => {
                let category = name.category();
                category == Category::Tag || category == Category::RemoteBranch
            },
            InputSource::Change(_) => false,
        }
    }

    /// The label of the input.
    pub fn label(&self) -> (r: Vec<u8>)
        ensures
            r@ == label_of(self@),
    {
        match self {
            InputSource::Change(change) => change.to_reverse_hex_with_len(7),
            InputSource::Reference(name) => {
                if bytes::starts_with(name.as_bytes(), PIN_PREFIX.as_bytes()) {
                    bytes::copied("📌".as_bytes())
                } else if name.category() == Category::Tag {
                    let short = name.shorten();
                    let shown = to_str_lossy(short.as_slice());
                    bytes::joined("tag: ".as_bytes(), shown.as_slice())
                } else {
                    name.shorten()
                }
            },
        }
    }
}

impl Input<FullName> {
    /// A copy of the input.
    pub fn copy(&self) -> (r: Input<FullName>)
        ensures
            r@ == self@,
    {
        Input { source: self.source.copy(), commit_id: self.commit_id, muted: self.muted }
    }
}

/// What an input follows, by the last field of its header.
pub open spec fn source_of(text: Seq<u8>) -> Result<InputSource<Seq<u8>>, MergeError> {
    match without_prefix(text, "change-id ".spec_bytes()) {
        Some(hex) => match parsed_reverse_hex(hex) {
            Some(change) => Ok(InputSource::Change(change)),
            None => Err(MergeError::InvalidChangeId),
        },
        None => if !valid_name(text) {
            Err(MergeError::InvalidReference)
        } else if !allowed(text) {
            Err(MergeError::UnsupportedReference)
        } else {
            Ok(InputSource::Reference(text))
        },
    }
}

/// Whether an input is left out, by a field of its header.
pub open spec fn muted_of(text: Seq<u8>) -> Option<bool> {
    if text == "included".spec_bytes() {
        Some(false)
    } else if text == "muted".spec_bytes() {
        Some(true)
    } else {
        None
    }
}

/// The field before a space and what follows it, if there is a space.
pub open spec fn field(text: Seq<u8>) -> (Seq<u8>, Option<Seq<u8>>) {
    match split_at_byte(text, SPACE) {
        Some((first, rest)) => (first, Some(rest)),
        None => (text, None),
    }
}

/// The input that the value of a header describes: a version, the commit, whether it is left out,
/// and what it follows.
pub open spec fn input_of(value: Seq<u8>) -> Result<Input<Seq<u8>>, MergeError> {
    let (version, rest) = field(value);
    if version != "1".spec_bytes() {
        Err(MergeError::UnsupportedVersion)
    } else {
        match rest {
            None => Err(MergeError::NoCommitId),
            Some(rest) => {
                let (hex, rest) = field(rest);
                match parsed_hex(hex) {
                    None => Err(MergeError::InvalidCommitId),
                    Some(commit_id) => match rest {
                        None => Err(MergeError::InvalidMergeState),
                        Some(rest) => {
                            let (state, rest) = field(rest);
                            match muted_of(state) {
                                None => Err(MergeError::InvalidMergeState),
                                Some(muted) => match rest {
                                    None => Err(MergeError::NoIdentity),
                                    Some(text) => match source_of(text) {
                                        Err(err) => Err(err),
                                        Ok(source) => Ok(Input { source, commit_id, muted }),
                                    },
                                },
                            }
                        },
                    },
                }
            },
        }
    }
}

/// Whether one of several inputs follows a source.
pub open spec fn follows(inputs: Seq<Input<Seq<u8>>>, source: InputSource<Seq<u8>>) -> bool {
    exists|i: int| 0 <= i < inputs.len() && (#[trigger] inputs[i]).source == source
}

/// The inputs that the headers from `at` on list, behind `done`.
pub open spec fn inputs_from(
    headers: Seq<Header<Seq<u8>>>,
    at: int,
    done: Seq<Input<Seq<u8>>>,
) -> Result<Seq<Input<Seq<u8>>>, MergeError>
    decreases headers.len() - at,
{
    if at < 0 || at >= headers.len() {
        Ok(done)
    } else if headers[at].name != HEADER.spec_bytes() {
        inputs_from(headers, at + 1, done)
    } else {
        match input_of(headers[at].value) {
            Err(err) => Err(err),
            Ok(input) => if follows(done, input.source) {
                Err(MergeError::DuplicateInput)
            } else {
                inputs_from(headers, at + 1, done.push(input))
            },
        }
    }
}

/// The inputs that the headers of a commit list; none if it is no automatic merge.
pub open spec fn definition_of(headers: Seq<Header<Seq<u8>>>) -> Result<
    Option<Seq<Input<Seq<u8>>>>,
    MergeError,
> {
    match inputs_from(headers, 0, Seq::empty()) {
        Err(err) => Err(err),
        Ok(inputs) => Ok(
            if inputs.len() > 0 {
                Some(inputs)
            } else {
                None
            },
        ),
    }
}

/// A definition in specifications.
pub open spec fn definition_view(definition: Option<Definition>) -> Option<Seq<Input<Seq<u8>>>> {
    match definition {
        Some(definition) => Some(definition@),
        None => None,
    }
}

fn read_field<'a>(text: &'a [u8]) -> (r: (&'a [u8], Option<&'a [u8]>))
    ensures
        (r.0@, bytes::view_of(r.1)) == field(text@),
{
    match bytes::split_once(text, SPACE) {
        Some((first, rest)) => (first, Some(rest)),
        None => (text, None),
    }
}

fn parse_source(text: &[u8]) -> (r: Result<InputSource<FullName>, MergeError>)
    ensures
        match r {
            Ok(source) => source_of(text@) == Ok::<_, MergeError>(source@),
            Err(err) => source_of(text@) == Err::<InputSource<Seq<u8>>, _>(err),
        },
{
    if let Some(hex) = bytes::strip_prefix(text, "change-id ".as_bytes()) {
        return match ChangeId::from_reverse_hex(hex) {
            Some(change) => Ok(InputSource::Change(change)),
            None => Err(MergeError::InvalidChangeId),
        };
    }
    match FullName::new(text) {
        None => Err(MergeError::InvalidReference),
        Some(name) => if allowed_ref(text) {
            Ok(InputSource::Reference(name))
        } else {
            Err(MergeError::UnsupportedReference)
        },
    }
}

fn parse_muted(text: &[u8]) -> (r: Option<bool>)
    ensures
        r == muted_of(text@),
{
    if bytes::equal(text, "included".as_bytes()) {
        Some(false)
    } else if bytes::equal(text, "muted".as_bytes()) {
        Some(true)
    } else {
        None
    }
}

fn parse_input(value: &[u8]) -> (r: Result<Input<FullName>, MergeError>)
    ensures
        match r {
            Ok(input) => input_of(value@) == Ok::<_, MergeError>(input@),
            Err(err) => input_of(value@) == Err::<Input<Seq<u8>>, _>(err),
        },
{
    let (version, rest) = read_field(value);
    if !bytes::equal(version, "1".as_bytes()) {
        return Err(MergeError::UnsupportedVersion);
    }
    let (hex, rest) = match rest {
        None => return Err(MergeError::NoCommitId),
        Some(rest) => read_field(rest),
    };
    let commit_id = match ObjectId::from_hex(hex) {
        None => return Err(MergeError::InvalidCommitId),
        Some(commit_id) => commit_id,
    };
    let (state, rest) = match rest {
        None => return Err(MergeError::InvalidMergeState),
        Some(rest) => read_field(rest),
    };
    let muted = match parse_muted(state) {
        None => return Err(MergeError::InvalidMergeState),
        Some(muted) => muted,
    };
    match rest {
        None => Err(MergeError::NoIdentity),
        Some(text) => match parse_source(text) {
            Err(err) => Err(err),
            Ok(source) => Ok(Input { source, commit_id, muted }),
        },
    }
}

/// Where the input is that follows a source, at or after `from`.
pub open spec fn input_slot(
    inputs: Seq<Input<Seq<u8>>>,
    source: InputSource<Seq<u8>>,
    from: int,
) -> Option<int>
    decreases inputs.len() - from,
{
    if from < 0 || from >= inputs.len() {
        None
    } else if inputs[from].source == source {
        Some(from)
    } else {
        input_slot(inputs, source, from + 1)
    }
}

/// Finds the input that follows a source.
pub fn find_input(inputs: &Vec<Input<FullName>>, source: &InputSource<FullName>) -> (r: Option<
    usize,
>)
    ensures
        bytes::index_of(r) == input_slot(viewed(inputs@), source@, 0),
        r is Some == follows(viewed(inputs@), source@),
        r matches Some(index) ==> index < inputs@.len(),
{
    let mut i: usize = 0;
    while i < inputs.len()
        invariant
            i <= inputs@.len(),
            input_slot(viewed(inputs@), source@, 0) == input_slot(
                viewed(inputs@),
                source@,
                i as int,
            ),
            forall|j: int| 0 <= j < i ==> (#[trigger] viewed(inputs@)[j]).source != source@,
        decreases inputs.len() - i,
    {
        if inputs[i].source.same(source) {
            assert(viewed(inputs@)[i as int].source == source@);
            return Some(i);
        }
        i = i + 1;
    }
    None
}

impl Definition {
    /// Reads the inputs that the headers of a commit list.
    pub fn from_headers(headers: &Vec<Header<Vec<u8>>>) -> (r: Result<
        Option<Definition>,
        MergeError,
    >)
        ensures
            match r {
                Ok(definition) => definition_of(viewed(headers@)) == Ok::<_, MergeError>(
                    definition_view(definition),
                ),
                Err(err) => definition_of(viewed(headers@)) == Err::<
                    Option<Seq<Input<Seq<u8>>>>,
                    _,
                >(err),
            },
    {
        let mut inputs: Vec<Input<FullName>> = Vec::new();
        let mut at: usize = 0;
        assert(viewed(inputs@) == Seq::<Input<Seq<u8>>>::empty());
        while at < headers.len()
            invariant
                at <= headers@.len(),
                inputs_from(viewed(headers@), 0, Seq::empty()) == inputs_from(
                    viewed(headers@),
                    at as int,
                    viewed(inputs@),
                ),
            decreases headers.len() - at,
        {
            let header = &headers[at];
            if bytes::equal(header.name.as_slice(), HEADER.as_bytes()) {
                let input = match parse_input(header.value.as_slice()) {
                    Err(err) => return Err(err),
                    Ok(input) => input,
                };
                if find_input(&inputs, &input.source).is_some() {
                    return Err(MergeError::DuplicateInput);
                }
                proof {
                    viewed_push(inputs@, input);
                }
                inputs.push(input);
            }
            at = at + 1;
        }
        if inputs.len() > 0 {
            Ok(Some(Definition { inputs }))
        } else {
            Ok(None)
        }
    }

    /// Lists the inputs in the headers of a commit, in place of those that they listed before.
    pub fn store(&self, headers: Vec<Header<Vec<u8>>>) -> (r: Vec<Header<Vec<u8>>>)
        ensures
            viewed(r@) == stored(self@, viewed(headers@)),
    {
        let mut out = without_recipe(headers);
        let ghost kept = viewed(out@);
        let mut i: usize = 0;
        assert(viewed(out@) == kept + headers_of(self@.take(0)));
        while i < self.inputs.len()
            invariant
                i <= self.inputs@.len(),
                viewed(out@) == kept + headers_of(self@.take(i as int)),
            decreases self.inputs.len() - i,
        {
            let header = Header {
                name: bytes::copied(HEADER.as_bytes()),
                value: input_value(&self.inputs[i]),
            };
            proof {
                viewed_push(out@, header);
                assert(self@.take(i + 1).drop_last() == self@.take(i as int));
                assert(headers_of(self@.take(i + 1)) == headers_of(self@.take(i as int)).push(
                    header@,
                ));
            }
            out.push(header);
            assert(viewed(out@) == kept + headers_of(self@.take(i + 1)));
            i = i + 1;
        }
        assert(self@.take(i as int) == self@);
        out
    }

    /// The title of the merge: its inputs with whether they are merged or left out.
    pub fn title(&self) -> (r: Vec<u8>)
        ensures
            r@ == title_of(self@),
    {
        let mut title: Vec<u8> = Vec::new();
        let mut i: usize = 0;
        assert(self@.take(0) == Seq::<Input<Seq<u8>>>::empty());
        while i < self.inputs.len()
            invariant
                i <= self.inputs@.len(),
                title@ == title_of(self@.take(i as int)),
            decreases self.inputs.len() - i,
        {
            let input = &self.inputs[i];
            if title.len() > 0 {
                title.push(SPACE);
            }
            bytes::append(
                &mut title,
                if input.muted {
                    "💥 ".as_bytes()
                } else {
                    "✔️ ".as_bytes()
                },
            );
            let label = input.source.label();
            bytes::append(&mut title, label.as_slice());
            assert(self@.take(i + 1).drop_last() == self@.take(i as int));
            assert(title@ == title_of(self@.take(i + 1)));
            i = i + 1;
        }
        assert(self@.take(i as int) == self@);
        title
    }
}

/// The title of a merge with the given inputs.
pub open spec fn title_of(inputs: Seq<Input<Seq<u8>>>) -> Seq<u8>
    decreases inputs.len(),
{
    if inputs.len() == 0 {
        Seq::empty()
    } else {
        let before = title_of(inputs.drop_last());
        let input = inputs.last();
        let separated = if before.len() > 0 {
            before.push(SPACE)
        } else {
            before
        };
        separated + if input.muted {
            "💥 ".spec_bytes()
        } else {
            "✔️ ".spec_bytes()
        } + label_of(input.source)
    }
}

/// The text of what an input follows.
pub open spec fn source_text(source: InputSource<Seq<u8>>) -> Seq<u8> {
    match source {
        InputSource::Reference(name) => name,
        InputSource::Change(change) => "change-id ".spec_bytes() + reverse_hex_of(change),
    }
}

/// The value of the header that lists an input.
pub open spec fn value_of(input: Input<Seq<u8>>) -> Seq<u8> {
    "1".spec_bytes() + (seq![SPACE] + (hex_of(input.commit_id) + (seq![SPACE] + (if input.muted {
        "muted".spec_bytes()
    } else {
        "included".spec_bytes()
    } + (seq![SPACE] + source_text(input.source))))))
}

fn input_value(input: &Input<FullName>) -> (r: Vec<u8>)
    ensures
        r@ == value_of(input@),
{
    let mut out = bytes::copied("1".as_bytes());
    out.push(SPACE);
    let hex = input.commit_id.to_hex();
    bytes::append(&mut out, hex.as_slice());
    out.push(SPACE);
    bytes::append(
        &mut out,
        if input.muted {
            "muted".as_bytes()
        } else {
            "included".as_bytes()
        },
    );
    out.push(SPACE);
    match &input.source {
        InputSource::Reference(name) => bytes::append(&mut out, name.as_bytes()),
        InputSource::Change(change) => {
            bytes::append(&mut out, "change-id ".as_bytes());
            let hex = change.to_reverse_hex();
            bytes::append(&mut out, hex.as_slice());
        },
    }
    assert(out@ == value_of(input@));
    out
}

/// The headers that list inputs.
pub open spec fn headers_of(inputs: Seq<Input<Seq<u8>>>) -> Seq<Header<Seq<u8>>> {
    Seq::new(
        inputs.len(),
        |i: int| Header { name: HEADER.spec_bytes(), value: value_of(inputs[i]) },
    )
}

/// The headers that do not list inputs.
pub open spec fn other_headers(headers: Seq<Header<Seq<u8>>>) -> Seq<Header<Seq<u8>>>
    decreases headers.len(),
{
    if headers.len() == 0 {
        Seq::empty()
    } else {
        let before = other_headers(headers.drop_last());
        if headers.last().name == HEADER.spec_bytes() {
            before
        } else {
            before.push(headers.last())
        }
    }
}

/// The headers of a commit once they list the given inputs.
pub open spec fn stored(inputs: Seq<Input<Seq<u8>>>, headers: Seq<Header<Seq<u8>>>) -> Seq<
    Header<Seq<u8>>,
> {
    other_headers(headers) + headers_of(inputs)
}

fn copy_header(header: &Header<Vec<u8>>) -> (r: Header<Vec<u8>>)
    ensures
        r@ == header@,
{
    Header {
        name: bytes::copied(header.name.as_slice()),
        value: bytes::copied(header.value.as_slice()),
    }
}

fn without_recipe(headers: Vec<Header<Vec<u8>>>) -> (r: Vec<Header<Vec<u8>>>)
    ensures
        viewed(r@) == other_headers(viewed(headers@)),
{
    let mut out: Vec<Header<Vec<u8>>> = Vec::new();
    let mut i: usize = 0;
    assert(viewed(out@) == Seq::<Header<Seq<u8>>>::empty());
    assert(viewed(headers@).take(0) == Seq::<Header<Seq<u8>>>::empty());
    while i < headers.len()
        invariant
            i <= headers@.len(),
            viewed(out@) == other_headers(viewed(headers@).take(i as int)),
        decreases headers.len() - i,
    {
        assert(viewed(headers@).take(i + 1).drop_last() == viewed(headers@).take(i as int));
        if !bytes::equal(headers[i].name.as_slice(), HEADER.as_bytes()) {
            let header = copy_header(&headers[i]);
            proof {
                viewed_push(out@, header);
            }
            out.push(header);
        }
        i = i + 1;
    }
    assert(viewed(headers@).take(i as int) == viewed(headers@));
    out
}

/// Whether a commit with the given headers is an automatic merge.
pub open spec fn automatic(headers: Seq<Header<Seq<u8>>>) -> bool {
    exists|i: int| 0 <= i < headers.len() && (#[trigger] headers[i]).name == HEADER.spec_bytes()
}

/// Whether a commit with the given headers is an automatic merge.
pub fn is_auto_merge(headers: &Vec<Header<Vec<u8>>>) -> (r: bool)
    ensures
        r == automatic(viewed(headers@)),
{
    let mut i: usize = 0;
    while i < headers.len()
        invariant
            i <= headers@.len(),
            forall|j: int|
                0 <= j < i ==> (#[trigger] viewed(headers@)[j]).name != HEADER.spec_bytes(),
        decreases headers.len() - i,
    {
        if bytes::equal(headers[i].name.as_slice(), HEADER.as_bytes()) {
            assert(viewed(headers@)[i as int].name == HEADER.spec_bytes());
            return true;
        }
        i = i + 1;
    }
    false
}

/// Rejects what would change the tree or the title of an automatic merge, which are generated.
pub fn ensure_editable(headers: &Vec<Header<Vec<u8>>>) -> (r: Result<(), MergeError>)
    ensures
        r == if automatic(viewed(headers@)) {
            Err::<(), MergeError>(MergeError::Generated)
        } else {
            Ok(())
        },
{
    if is_auto_merge(headers) {
        Err(MergeError::Generated)
    } else {
        Ok(())
    }
}

/// Whether an automatic merge can have the given inputs: it can follow each of them, and none
/// twice.
pub open spec fn proper(inputs: Seq<Input<Seq<u8>>>) -> bool {
    listable(inputs) && distinct(inputs)
}

/// Whether the references that inputs follow are ones that an automatic merge may follow.
pub open spec fn listable(inputs: Seq<Input<Seq<u8>>>) -> bool {
    forall|i: int|
        #![trigger inputs[i]]
        0 <= i < inputs.len() ==> (inputs[i].source matches InputSource::Reference(name)
            ==> valid_name(name) && allowed(name))
}

/// Whether no two inputs follow the same source.
pub open spec fn distinct(inputs: Seq<Input<Seq<u8>>>) -> bool {
    forall|i: int, j: int|
        0 <= i < j < inputs.len() ==> (#[trigger] inputs[i]).source != (#[trigger] inputs[j]).source
}

proof fn fields_split(first: Seq<u8>, rest: Seq<u8>)
    requires
        forall|i: int| 0 <= i < first.len() ==> first[i] != SPACE,
    ensures
        field(first + (seq![SPACE] + rest)) == (first, Some(rest)),
{
    let text = first + (seq![SPACE] + rest);
    first_space(first, rest, 0);
    assert(text.take(first.len() as int) == first);
    assert(text.skip(first.len() as int + 1) == rest);
}

proof fn first_space(first: Seq<u8>, rest: Seq<u8>, from: int)
    requires
        forall|i: int| 0 <= i < first.len() ==> first[i] != SPACE,
        0 <= from <= first.len(),
    ensures
        find_byte_from(first + (seq![SPACE] + rest), SPACE, from) == Some(first.len() as int),
    decreases first.len() - from,
{
    let text = first + (seq![SPACE] + rest);
    if from < first.len() {
        assert(text[from] == first[from]);
        first_space(first, rest, from + 1);
    } else {
        assert(text[from] == SPACE);
    }
}

proof fn words()
    ensures
        "1".spec_bytes() == seq![49u8],
        "muted".spec_bytes() == seq![109u8, 117, 116, 101, 100],
        "included".spec_bytes() == seq![105u8, 110, 99, 108, 117, 100, 101, 100],
        "change-id ".spec_bytes() == seq![99u8, 104, 97, 110, 103, 101, 45, 105, 100, 32],
{
    broadcast use vstd::string::is_ascii_spec_bytes;

    reveal_strlit("1");
    assert(vstd::string::is_ascii("1"));
    assert("1".spec_bytes() =~= seq![49u8]);
    reveal_strlit("muted");
    assert(vstd::string::is_ascii("muted"));
    assert("muted".spec_bytes() =~= seq![109u8, 117, 116, 101, 100]);
    reveal_strlit("included");
    assert(vstd::string::is_ascii("included"));
    assert("included".spec_bytes() =~= seq![105u8, 110, 99, 108, 117, 100, 101, 100]);
    reveal_strlit("change-id ");
    assert(vstd::string::is_ascii("change-id "));
    assert("change-id ".spec_bytes() =~= seq![99u8, 104, 97, 110, 103, 101, 45, 105, 100, 32]);
}

proof fn allowed_names_begin(name: Seq<u8>)
    requires
        allowed(name),
    ensures
        name.len() > 0,
        name[0] == 114,
{
    broadcast use vstd::string::is_ascii_spec_bytes;

    reveal_strlit("refs/heads/");
    assert(vstd::string::is_ascii("refs/heads/"));
    reveal_strlit("refs/remotes/");
    assert(vstd::string::is_ascii("refs/remotes/"));
    reveal_strlit("refs/tags/");
    assert(vstd::string::is_ascii("refs/tags/"));
    reveal_strlit("refs/worktree/tix/pins/");
    assert(vstd::string::is_ascii(PIN_PREFIX));
    let prefix = if has_prefix(name, "refs/heads/".spec_bytes()) {
        "refs/heads/".spec_bytes()
    } else if has_prefix(name, "refs/remotes/".spec_bytes()) {
        "refs/remotes/".spec_bytes()
    } else if has_prefix(name, "refs/tags/".spec_bytes()) {
        "refs/tags/".spec_bytes()
    } else {
        PIN_PREFIX.spec_bytes()
    };
    assert(prefix.len() > 0 && prefix[0] == 114);
    assert(name.take(prefix.len() as int)[0] == name[0]);
}

proof fn source_reads_back(source: InputSource<Seq<u8>>)
    requires
        source matches InputSource::Reference(name) ==> valid_name(name) && allowed(name),
    ensures
        source_of(source_text(source)) == Ok::<_, MergeError>(source),
{
    words();
    let text = source_text(source);
    let prefix = "change-id ".spec_bytes();
    match source {
        InputSource::Reference(name) => {
            allowed_names_begin(name);
            if has_prefix(name, prefix) {
                assert(name.take(10)[0] == name[0]);
            }
        },
        InputSource::Change(change) => {
            reverse_hex_round_trip(change);
            assert(text.take(10) == prefix);
            assert(text.skip(10) == reverse_hex_of(change));
        },
    }
}

/// An input reads back from the header that lists it.
pub proof fn input_reads_back(input: Input<Seq<u8>>)
    requires
        input.source matches InputSource::Reference(name) ==> valid_name(name) && allowed(name),
    ensures
        input_of(value_of(input)) == Ok::<_, MergeError>(input),
{
    words();
    let state = if input.muted {
        "muted".spec_bytes()
    } else {
        "included".spec_bytes()
    };
    let text = source_text(input.source);
    let hex = hex_of(input.commit_id);
    hex_round_trip(input.commit_id);
    source_reads_back(input.source);
    fields_split(state, text);
    assert forall|i: int| 0 <= i < hex.len() implies hex[i] != SPACE by {}
    fields_split(hex, state + (seq![SPACE] + text));
    fields_split("1".spec_bytes(), hex + (seq![SPACE] + (state + (seq![SPACE] + text))));
    assert("muted".spec_bytes() != "included".spec_bytes());
}

proof fn other_headers_list_nothing(headers: Seq<Header<Seq<u8>>>)
    ensures
        forall|i: int|
            0 <= i < other_headers(headers).len() ==> (#[trigger] other_headers(headers)[i]).name
                != HEADER.spec_bytes(),
    decreases headers.len(),
{
    if headers.len() > 0 {
        let before = other_headers(headers.drop_last());
        other_headers_list_nothing(headers.drop_last());
        assert forall|i: int| 0 <= i < other_headers(headers).len() implies (
        #[trigger] other_headers(headers)[i]).name != HEADER.spec_bytes() by {
            if i < before.len() {
                assert(other_headers(headers)[i] == before[i]);
            }
        }
    }
}

proof fn skip_others(
    others: Seq<Header<Seq<u8>>>,
    listed: Seq<Header<Seq<u8>>>,
    at: int,
    done: Seq<Input<Seq<u8>>>,
)
    requires
        0 <= at <= others.len(),
        forall|i: int| 0 <= i < others.len() ==> (#[trigger] others[i]).name != HEADER.spec_bytes(),
    ensures
        inputs_from(others + listed, at, done) == inputs_from(
            others + listed,
            others.len() as int,
            done,
        ),
    decreases others.len() - at,
{
    if at < others.len() {
        assert((others + listed)[at] == others[at]);
        skip_others(others, listed, at + 1, done);
    }
}

proof fn listed_inputs_read_back(
    others: Seq<Header<Seq<u8>>>,
    inputs: Seq<Input<Seq<u8>>>,
    at: int,
)
    requires
        0 <= at <= inputs.len(),
        proper(inputs),
    ensures
        inputs_from(others + headers_of(inputs), others.len() + at, inputs.take(at)) == Ok::<
            _,
            MergeError,
        >(inputs),
    decreases inputs.len() - at,
{
    let headers = others + headers_of(inputs);
    if at < inputs.len() {
        assert(headers[others.len() + at] == headers_of(inputs)[at]);
        input_reads_back(inputs[at]);
        if follows(inputs.take(at), inputs[at].source) {
            let i = choose|i: int|
                0 <= i < at && (#[trigger] inputs.take(at)[i]).source == inputs[at].source;
            assert(inputs[i].source != inputs[at].source);
        }
        assert(inputs.take(at).push(inputs[at]) == inputs.take(at + 1));
        listed_inputs_read_back(others, inputs, at + 1);
    } else {
        assert(inputs.take(at) == inputs);
    }
}

proof fn repeated_inputs_are_refused(
    others: Seq<Header<Seq<u8>>>,
    inputs: Seq<Input<Seq<u8>>>,
    at: int,
    first: int,
    second: int,
)
    requires
        0 <= at <= second,
        0 <= first < second < inputs.len(),
        inputs[first].source == inputs[second].source,
        listable(inputs),
    ensures
        inputs_from(others + headers_of(inputs), others.len() + at, inputs.take(at)) == Err::<
            Seq<Input<Seq<u8>>>,
            _,
        >(MergeError::DuplicateInput),
    decreases inputs.len() - at,
{
    let headers = others + headers_of(inputs);
    assert(headers[others.len() + at] == headers_of(inputs)[at]);
    input_reads_back(inputs[at]);
    if !follows(inputs.take(at), inputs[at].source) {
        assert(inputs.take(at).push(inputs[at]) == inputs.take(at + 1));
        if at == second {
            assert(inputs.take(at)[first].source == inputs[at].source);
        }
        repeated_inputs_are_refused(others, inputs, at + 1, first, second);
    }
}

/// A definition that was stored in any commit is what is read from it, in order, if no two of its inputs
/// follow the same source, and is refused if two do. All other headers of the commit stay, in order.
pub proof fn stored_definitions_are_read(
    inputs: Seq<Input<Seq<u8>>>,
    headers: Seq<Header<Seq<u8>>>,
)
    requires
        listable(inputs),
        inputs.len() > 0,
    ensures
        distinct(inputs) ==> definition_of(stored(inputs, headers)) == Ok::<_, MergeError>(
            Some(inputs),
        ),
        !distinct(inputs) ==> definition_of(stored(inputs, headers)) == Err::<
            Option<Seq<Input<Seq<u8>>>>,
            _,
        >(MergeError::DuplicateInput),
        other_headers(stored(inputs, headers)) == other_headers(headers),
{
    let others = other_headers(headers);
    other_headers_list_nothing(headers);
    others_of_stored(others, inputs, inputs.len() as int);
    assert(inputs.take(inputs.len() as int) == inputs);
    if distinct(inputs) {
        definitions_read_back(inputs, headers);
    } else {
        let (i, j) = choose|i: int, j: int|
            0 <= i < j < inputs.len() && (#[trigger] inputs[i]).source == (
            #[trigger] inputs[j]).source;
        skip_others(others, headers_of(inputs), 0, Seq::empty());
        assert(inputs.take(0) == Seq::<Input<Seq<u8>>>::empty());
        repeated_inputs_are_refused(others, inputs, 0, i, j);
    }
}

/// The inputs that are listed in the headers of a commit read back from them, and the other
/// headers stay.
pub proof fn definitions_read_back(inputs: Seq<Input<Seq<u8>>>, headers: Seq<Header<Seq<u8>>>)
    requires
        proper(inputs),
        inputs.len() > 0,
    ensures
        definition_of(stored(inputs, headers)) == Ok::<_, MergeError>(Some(inputs)),
        automatic(stored(inputs, headers)),
        other_headers(stored(inputs, headers)) == other_headers(headers),
{
    let others = other_headers(headers);
    other_headers_list_nothing(headers);
    skip_others(others, headers_of(inputs), 0, Seq::empty());
    assert(inputs.take(0) == Seq::<Input<Seq<u8>>>::empty());
    listed_inputs_read_back(others, inputs, 0);
    assert(stored(inputs, headers)[others.len() as int] == headers_of(inputs)[0]);
    others_of_stored(others, inputs, inputs.len() as int);
    assert(inputs.take(inputs.len() as int) == inputs);
}

proof fn others_stay(others: Seq<Header<Seq<u8>>>)
    requires
        forall|i: int| 0 <= i < others.len() ==> (#[trigger] others[i]).name != HEADER.spec_bytes(),
    ensures
        other_headers(others) == others,
    decreases others.len(),
{
    if others.len() > 0 {
        others_stay(others.drop_last());
        assert(others.drop_last().push(others.last()) == others);
    }
}

proof fn others_of_stored(others: Seq<Header<Seq<u8>>>, inputs: Seq<Input<Seq<u8>>>, n: int)
    requires
        0 <= n <= inputs.len(),
        forall|i: int| 0 <= i < others.len() ==> (#[trigger] others[i]).name != HEADER.spec_bytes(),
    ensures
        other_headers(others + headers_of(inputs.take(n))) == others,
    decreases n,
{
    let all = others + headers_of(inputs.take(n));
    if n == 0 {
        assert(all == others);
        others_stay(others);
    } else {
        assert(all.drop_last() == others + headers_of(inputs.take(n - 1)));
        assert(all.last() == headers_of(inputs.take(n))[n - 1]);
        others_of_stored(others, inputs, n - 1);
    }
}

/// What is read from the headers of a commit is what an automatic merge can have.
pub proof fn read_definitions_are_proper(headers: Seq<Header<Seq<u8>>>)
    requires
        definition_of(headers) matches Ok(Some(_)),
    ensures
        proper(definition_of(headers)->Ok_0->0),
{
    read_inputs_are_proper(headers, 0, Seq::empty());
}

proof fn read_inputs_are_proper(
    headers: Seq<Header<Seq<u8>>>,
    at: int,
    done: Seq<Input<Seq<u8>>>,
)
    requires
        proper(done),
        inputs_from(headers, at, done) is Ok,
    ensures
        proper(inputs_from(headers, at, done)->Ok_0),
    decreases headers.len() - at,
{
    if 0 <= at < headers.len() {
        if headers[at].name == HEADER.spec_bytes() {
            let input = input_of(headers[at].value)->Ok_0;
            let next = done.push(input);
            assert forall|i: int, j: int| 0 <= i < j < next.len() implies (
            #[trigger] next[i]).source != (#[trigger] next[j]).source by {
                if j == done.len() {
                    assert(done[i].source != input.source);
                }
            }
            read_inputs_are_proper(headers, at + 1, next);
        } else {
            read_inputs_are_proper(headers, at + 1, done);
        }
    }
}

} // verus!
