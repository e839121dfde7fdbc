//! The metadata of an entry of the undo queue: its changes, in the format of git's configuration
//! files.
use vstd::prelude::*;
use vstd::string::StringSliceAdditionalSpecFns;
use crate::bytes;
use crate::bytes::{before, has_prefix, is_before, without_prefix};
use crate::ids::{hex_of, hex_round_trip, parsed_hex, ObjectId};
use crate::names::{graphic, valid_name, FullName};
use crate::plan::{viewed, viewed_option, viewed_push};
use crate::refs::State;
use crate::undo::changes::{in_order, RefChange};
use crate::undo::{is_queue_ref, queue_ref, UndoError};

verus! {

/// The version of the format.
pub const VERSION: &'static str = "1";

/// A key of a section, with its value if it has one.
#[derive(PartialEq, Eq, Debug)]
pub struct Entry<T> {
    pub key: T,
    pub value: Option<T>,
}

impl<T: View> View for Entry<T> {
    type V = Entry<T::V>;

    open spec fn view(&self) -> Entry<T::V> {
        Entry { key: self.key@, value: viewed_option(self.value) }
    }
}

/// A section of a configuration file.
#[derive(PartialEq, Eq, Debug)]
pub struct Section<T, E> {
    pub name: T,
    pub subsection: Option<T>,
    pub entries: E,
}

/// A section as it is read.
pub type ConfigSection = Section<Vec<u8>, Vec<Entry<Vec<u8>>>>;

/// A section in specifications.
pub type SectionView = Section<Seq<u8>, Seq<Entry<Seq<u8>>>>;

impl View for Section<Vec<u8>, Vec<Entry<Vec<u8>>>> {
    type V = SectionView;

    open spec fn view(&self) -> SectionView {
        Section {
            name: self.name@,
            subsection: viewed_option(self.subsection),
            entries: viewed(self.entries@),
        }
    }
}

/// The sections of a configuration file, unless it is malformed.
pub uninterp spec fn parsed_config(text: Seq<u8>) -> Option<Seq<SectionView>>;

/// The sections of a file, in specifications.
pub open spec fn sections_view(sections: Option<Vec<ConfigSection>>) -> Option<Seq<SectionView>> {
    match sections {
        Some(sections) => Some(viewed(sections@)),
        None => None,
    }
}

/// Whether a text is a word of lower-case letters.
pub open spec fn word(text: Seq<u8>) -> bool {
    text.len() > 0 && forall|i: int| 0 <= i < text.len() ==> 97 <= #[trigger] text[i] <= 122
}

/// Whether a section holds nothing that its format could not carry: words for its name and its
/// keys, no key twice, and values and a subsection that are not empty and without spaces and
/// control bytes.
pub open spec fn plain_section(section: SectionView) -> bool {
    &&& word(section.name)
    &&& section.subsection matches Some(subsection) ==> graphic(subsection)
    &&& forall|i: int|
        0 <= i < section.entries.len() ==> word((#[trigger] section.entries[i]).key)
            && section.entries[i].value is Some && graphic(section.entries[i].value->0)
    &&& forall|i: int, j: int|
        0 <= i < j < section.entries.len() ==> (#[trigger] section.entries[i]).key != (
        #[trigger] section.entries[j]).key
}

/// Whether a file is short enough to be read, which counts its bytes in 32 bits.
pub open spec fn fits(text: Seq<u8>) -> bool {
    text.len() <= 0xffff_ffff
}

/// `gix::config::File::try_from`: the sections of a configuration file in order, each with its
/// keys in order and for each key the last value that the section gives it. A file that is too long is
/// refused.
#[verifier::external_body]
fn config_sections(text: &[u8]) -> (r: Option<Vec<ConfigSection>>)
    ensures
        sections_view(r) == parsed_config(text@),
        !fits(text@) ==> r is None,
{
    let config = gix::config::File::try_from(gix::bstr::BStr::new(text)).ok()?;
    let read = |section: gix::config::file::SectionRef<'_>| Section {
        name: section.header().name().to_vec(),
        subsection: section.header().subsection_name().map(|name| name.to_vec()),
        entries: section.value_names().map(|key| Entry {
            value: section.value(&key).map(|value| value.to_vec()),
            key: key.into_bytes(),
        }).collect(),
    };
    Some(config.sections().map(read).collect())
}

/// What the keys and values from `at` on take up in a file at most, with what is written around them.
pub open spec fn entries_size(entries: Seq<Entry<Seq<u8>>>, at: int) -> nat
    decreases entries.len() - at,
{
    if at < 0 || at >= entries.len() {
        0
    } else {
        let value = match entries[at].value {
            Some(value) => value.len(),
            None => 0,
        };
        16 + entries[at].key.len() + 2 * value + entries_size(entries, at + 1)
    }
}

/// What the sections from `at` on take up in a file at most, with what is written around them.
pub open spec fn sections_size(sections: Seq<SectionView>, at: int) -> nat
    decreases sections.len() - at,
{
    if at < 0 || at >= sections.len() {
        0
    } else {
        let subsection = match sections[at].subsection {
            Some(subsection) => subsection.len(),
            None => 0,
        };
        16 + sections[at].name.len() + 2 * subsection + entries_size(sections[at].entries, 0)
            + sections_size(sections, at + 1)
    }
}

/// Whether sections are sure to make a file that is short enough to be read.
pub open spec fn writable(sections: Seq<SectionView>) -> bool {
    sections_size(sections, 0) <= 0xffff_ffff
}

/// `gix::config::File::new_section`, `gix::config::file::SectionMut::set` and
/// `gix::config::File::to_bstring`: a configuration file with the given sections. If they are plain
/// and what they take up fits, it can be written and is short enough to be read. What was written and is
/// short enough reads back as those sections if they are plain, and it is not empty if there are sections.
/// Not said: the line endings, which depend on the platform, and whether sections beyond that size or that
/// are not plain can be written.
#[verifier::external_body]
fn config_text(sections: &Vec<ConfigSection>) -> (r: Option<Vec<u8>>)
    ensures
        r matches Some(text) ==> (fits(text@) && (forall|i: int|
            0 <= i < sections@.len() ==> plain_section(#[trigger] viewed(sections@)[i]))
            ==> parsed_config(text@) == Some(viewed(sections@))),
        r matches Some(text) ==> (sections@.len() > 0 ==> text@.len() > 0),
        (forall|i: int|
            0 <= i < sections@.len() ==> plain_section(#[trigger] viewed(sections@)[i])) && writable(
            viewed(sections@),
        ) ==> r is Some,
        r matches Some(text) ==> (writable(viewed(sections@)) && (forall|i: int|
            0 <= i < sections@.len() ==> plain_section(#[trigger] viewed(sections@)[i])) ==> fits(
            text@,
        )),
{
    let mut config = gix::config::File::default();
    for section in sections {
        let subsection = section.subsection.clone().map(gix::bstr::BString::from);
        let mut out = config.new_section(std::str::from_utf8(&section.name).ok()?, subsection).ok()?;
        for entry in &section.entries {
            let value = gix::bstr::BStr::new(entry.value.as_deref()?);
            out.set(std::str::from_utf8(&entry.key).ok()?, value).ok()?;
        }
    }
    Some(config.to_bstring().into())
}

/// The encoding of what a reference holds.
pub open spec fn encoded_state(state: State<Seq<u8>>) -> Seq<u8> {
    match state {
        State::Missing => "missing".spec_bytes(),
        State::Object(id) => "object:".spec_bytes() + hex_of(id),
        State::Symbolic(name) => "symbolic:".spec_bytes() + name,
    }
}

/// Encodes what a reference holds.
pub fn encode_state(state: &State<FullName>) -> (r: Vec<u8>)
    ensures
        r@ == encoded_state(state@),
{
    match state {
        State::Missing => bytes::copied("missing".as_bytes()),
        State::Object(id) => {
            let hex = id.to_hex();
            bytes::joined("object:".as_bytes(), hex.as_slice())
        },
        State::Symbolic(name) => bytes::joined("symbolic:".as_bytes(), name.as_bytes()),
    }
}

/// What a reference holds by its encoding.
pub open spec fn decoded_state(value: Seq<u8>) -> Result<State<Seq<u8>>, UndoError> {
    if value == "missing".spec_bytes() {
        Ok(State::Missing)
    } else {
        match without_prefix(value, "object:".spec_bytes()) {
            Some(hex) => match parsed_hex(hex) {
                Some(id) => Ok(State::Object(id)),
                None => Err(UndoError::InvalidObjectId),
            },
            None => match without_prefix(value, "symbolic:".spec_bytes()) {
                Some(name) => if valid_name(name) {
                    Ok(State::Symbolic(name))
                } else {
                    Err(UndoError::InvalidSymbolicTarget)
                },
                None => Err(UndoError::UnknownEncoding),
            },
        }
    }
}

/// Decodes what a reference holds.
pub fn parse_state(value: &[u8]) -> (r: Result<State<FullName>, UndoError>)
    ensures
        match r {
            Ok(state) => decoded_state(value@) == Ok::<_, UndoError>(state@),
            Err(err) => decoded_state(value@) == Err::<State<Seq<u8>>, _>(err),
        },
{
    if bytes::equal(value, "missing".as_bytes()) {
        return Ok(State::Missing);
    }
    if let Some(hex) = bytes::strip_prefix(value, "object:".as_bytes()) {
        return match ObjectId::from_hex(hex) {
            Some(id) => Ok(State::Object(id)),
            None => Err(UndoError::InvalidObjectId),
        };
    }
    if let Some(name) = bytes::strip_prefix(value, "symbolic:".as_bytes()) {
        return match FullName::new(name) {
            Some(name) => Ok(State::Symbolic(name)),
            None => Err(UndoError::InvalidSymbolicTarget),
        };
    }
    Err(UndoError::UnknownEncoding)
}

/// The section that gives the version of the format.
pub open spec fn version_section() -> SectionView {
    Section {
        name: "undo".spec_bytes(),
        subsection: None,
        entries: seq![
            Entry { key: "version".spec_bytes(), value: Some(VERSION.spec_bytes()) },
        ],
    }
}

/// The section of a change.
pub open spec fn change_section(change: RefChange<Seq<u8>>) -> SectionView {
    Section {
        name: "ref".spec_bytes(),
        subsection: Some(change.name),
        entries: seq![
            Entry { key: "before".spec_bytes(), value: Some(encoded_state(change.before)) },
            Entry { key: "after".spec_bytes(), value: Some(encoded_state(change.after)) },
        ],
    }
}

/// The sections of several changes, the version first.
pub open spec fn sections_of(changes: Seq<RefChange<Seq<u8>>>) -> Seq<SectionView> {
    seq![version_section()] + Seq::new(changes.len(), |i: int| change_section(changes[i]))
}

/// Whether the keys of a section are exactly the given ones.
pub open spec fn has_keys(section: SectionView, keys: Seq<Seq<u8>>) -> bool {
    section.entries.len() == keys.len() && forall|i: int|
        0 <= i < keys.len() ==> (#[trigger] section.entries[i]).key == keys[i]
}

/// The change that a section describes, where the one before it was of `previous`.
pub open spec fn section_change(
    section: SectionView,
    previous: Option<Seq<u8>>,
) -> Result<RefChange<Seq<u8>>, UndoError> {
    if section.name != "ref".spec_bytes() {
        Err(UndoError::UnknownSection)
    } else {
        match section.subsection {
            None => Err(UndoError::SectionWithoutName),
            Some(name) => if !valid_name(name) {
                Err(UndoError::InvalidName)
            } else if queue_ref(name) {
                Err(UndoError::RecordsItself)
            } else if previous is Some && !before(previous->0, name) {
                Err(UndoError::SectionsOutOfOrder)
            } else if !has_keys(section, seq!["before".spec_bytes(), "after".spec_bytes()]) {
                Err(UndoError::UnexpectedKeys)
            } else {
                match (section.entries[0].value, section.entries[1].value) {
                    (None, _) => Err(UndoError::MissingBefore),
                    (Some(old_value), new_value) => match decoded_state(old_value) {
                        Err(err) => Err(err),
                        Ok(old_state) => match new_value {
                            None => Err(UndoError::MissingAfter),
                            Some(new_value) => match decoded_state(new_value) {
                                Err(err) => Err(err),
                                Ok(new_state) => if old_state == new_state {
                                    Err(UndoError::ChangesNothing)
                                } else {
                                    Ok(
                                        RefChange {
                                            name,
                                            before: old_state,
                                            after: new_state,
                                        },
                                    )
                                },
                            },
                        },
                    },
                }
            },
        }
    }
}

/// The changes that the sections from `at` on describe, behind `done`.
pub open spec fn section_changes(
    sections: Seq<SectionView>,
    at: int,
    done: Seq<RefChange<Seq<u8>>>,
) -> Result<Seq<RefChange<Seq<u8>>>, UndoError>
    decreases sections.len() - at,
{
    if at < 0 || at >= sections.len() {
        Ok(done)
    } else {
        let previous = if done.len() > 0 {
            Some(done.last().name)
        } else {
            None
        };
        match section_change(sections[at], previous) {
            Ok(change) => section_changes(sections, at + 1, done.push(change)),
            Err(err) => Err(err),
        }
    }
}

/// The changes that the sections of an entry describe: a version that is understood, and then a
/// section for each change, in the order of the references.
pub open spec fn changes_of(sections: Seq<SectionView>) -> Result<
    Seq<RefChange<Seq<u8>>>,
    UndoError,
> {
    if sections.len() == 0 {
        Err(UndoError::NoVersion)
    } else if sections[0].name != "undo".spec_bytes() || sections[0].subsection is Some {
        Err(UndoError::NoUndoSection)
    } else if !has_keys(sections[0], seq!["version".spec_bytes()]) {
        Err(UndoError::UnexpectedKeys)
    } else if sections[0].entries[0].value != Some(VERSION.spec_bytes()) {
        Err(UndoError::UnsupportedVersion)
    } else {
        section_changes(sections, 1, Seq::empty())
    }
}

/// The changes that the metadata of an entry describes.
pub open spec fn config_changes(text: Seq<u8>) -> Result<Seq<RefChange<Seq<u8>>>, UndoError> {
    match parsed_config(text) {
        Some(sections) => changes_of(sections),
        None => Err(UndoError::MalformedConfig),
    }
}

fn ensure_exact_keys(section: &ConfigSection, keys: &[&[u8]]) -> (r: bool)
    ensures
        r == has_keys(section@, bytes::views(keys@)),
{
    let ghost expected = bytes::views(keys@);
    if section.entries.len() != keys.len() {
        return false;
    }
    let mut i: usize = 0;
    while i < keys.len()
        invariant
            expected == bytes::views(keys@),
            section.entries@.len() == keys@.len(),
            i <= keys@.len(),
            forall|j: int| 0 <= j < i ==> (#[trigger] section@.entries[j]).key == expected[j],
        decreases keys.len() - i,
    {
        if !bytes::equal(section.entries[i].key.as_slice(), keys[i]) {
            assert(section@.entries[i as int].key != expected[i as int]);
            return false;
        }
        assert(section@.entries[i as int].key == expected[i as int]);
        i = i + 1;
    }
    true
}

fn entry_value(section: &ConfigSection, index: usize) -> (r: Option<&[u8]>)
    requires
        index < section.entries@.len(),
    ensures
        bytes::view_of(r) == section@.entries[index as int].value,
{
    match &section.entries[index].value {
        Some(value) => Some(value.as_slice()),
        None => None,
    }
}

fn parse_section(section: &ConfigSection, previous: Option<&FullName>) -> (r: Result<
    RefChange<FullName>,
    UndoError,
>)
    ensures
        ({
            let expected = section_change(
                section@,
                match previous {
                    Some(name) => Some(name@),
                    None => None,
                },
            );
            match r {
                Ok(change) => expected == Ok::<_, UndoError>(change@),
                Err(err) => expected == Err::<RefChange<Seq<u8>>, _>(err),
            }
        }),
{
    if !bytes::equal(section.name.as_slice(), "ref".as_bytes()) {
        return Err(UndoError::UnknownSection);
    }
    let subsection = match &section.subsection {
        Some(subsection) => subsection,
        None => return Err(UndoError::SectionWithoutName),
    };
    let name = match FullName::new(subsection.as_slice()) {
        Some(name) => name,
        None => return Err(UndoError::InvalidName),
    };
    if is_queue_ref(name.as_bytes()) {
        return Err(UndoError::RecordsItself);
    }
    if let Some(previous) = previous {
        if !is_before(previous.as_bytes(), name.as_bytes()) {
            return Err(UndoError::SectionsOutOfOrder);
        }
    }
    let keys: [&[u8]; 2] = ["before".as_bytes(), "after".as_bytes()];
    let exact = ensure_exact_keys(section, &keys);
    assert(bytes::views(keys@) == seq!["before".spec_bytes(), "after".spec_bytes()]);
    if !exact {
        return Err(UndoError::UnexpectedKeys);
    }
    let old_state = match entry_value(section, 0) {
        Some(value) => match parse_state(value) {
            Ok(state) => state,
            Err(err) => return Err(err),
        },
        None => return Err(UndoError::MissingBefore),
    };
    let new_state = match entry_value(section, 1) {
        Some(value) => match parse_state(value) {
            Ok(state) => state,
            Err(err) => return Err(err),
        },
        None => return Err(UndoError::MissingAfter),
    };
    if old_state.same(&new_state) {
        return Err(UndoError::ChangesNothing);
    }
    Ok(RefChange { name, before: old_state, after: new_state })
}

/// Reads the changes that the sections of an entry describe.
pub fn parse_sections(sections: &Vec<ConfigSection>) -> (r: Result<
    Vec<RefChange<FullName>>,
    UndoError,
>)
    ensures
        match r {
            Ok(changes) => changes_of(viewed(sections@)) == Ok::<_, UndoError>(viewed(changes@)),
            Err(err) => changes_of(viewed(sections@)) == Err::<Seq<RefChange<Seq<u8>>>, _>(err),
        },
{
    if sections.len() == 0 {
        return Err(UndoError::NoVersion);
    }
    let first = &sections[0];
    assert(viewed(sections@)[0] == first@);
    if !bytes::equal(first.name.as_slice(), "undo".as_bytes()) || first.subsection.is_some() {
        return Err(UndoError::NoUndoSection);
    }
    let keys: [&[u8]; 1] = ["version".as_bytes()];
    let exact = ensure_exact_keys(first, &keys);
    assert(bytes::views(keys@) == seq!["version".spec_bytes()]);
    if !exact {
        return Err(UndoError::UnexpectedKeys);
    }
    let version = match entry_value(first, 0) {
        Some(version) => version,
        None => return Err(UndoError::UnsupportedVersion),
    };
    if !bytes::equal(version, VERSION.as_bytes()) {
        return Err(UndoError::UnsupportedVersion);
    }
    let mut changes: Vec<RefChange<FullName>> = Vec::new();
    let mut at: usize = 1;
    assert(viewed(changes@) == Seq::<RefChange<Seq<u8>>>::empty());
    while at < sections.len()
        invariant
            1 <= at <= sections@.len(),
            changes_of(viewed(sections@)) == section_changes(
                viewed(sections@),
                at as int,
                viewed(changes@),
            ),
        decreases sections.len() - at,
    {
        let previous = if changes.len() > 0 {
            Some(&changes[changes.len() - 1].name)
        } else {
            None
        };
        match parse_section(&sections[at], previous) {
            Ok(change) => {
                proof {
                    viewed_push(changes@, change);
                }
                changes.push(change);
            },
            Err(err) => return Err(err),
        }
        at = at + 1;
    }
    Ok(changes)
}

/// Reads the changes that the metadata of an entry describes. What is too long is malformed.
pub fn parse_config(body: &[u8]) -> (r: Result<Vec<RefChange<FullName>>, UndoError>)
    ensures
        match r {
            Ok(changes) => config_changes(body@) == Ok::<_, UndoError>(viewed(changes@)),
            Err(err) => config_changes(body@) == Err::<Seq<RefChange<Seq<u8>>>, _>(err),
        },
        !fits(body@) ==> (r matches Err(err) && err == UndoError::MalformedConfig),
{
    match config_sections(body) {
        Some(sections) => parse_sections(&sections),
        None => Err(UndoError::MalformedConfig),
    }
}

fn entry(key: &[u8], value: Vec<u8>) -> (r: Entry<Vec<u8>>)
    ensures
        r@ == (Entry { key: key@, value: Some(value@) }),
{
    Entry { key: bytes::copied(key), value: Some(value) }
}

/// The sections of several changes, the version first.
pub fn config_of(changes: &Vec<RefChange<FullName>>) -> (r: Vec<ConfigSection>)
    ensures
        viewed(r@) == sections_of(viewed(changes@)),
{
    let mut out: Vec<ConfigSection> = Vec::new();
    let mut entries: Vec<Entry<Vec<u8>>> = Vec::new();
    entries.push(entry("version".as_bytes(), bytes::copied(VERSION.as_bytes())));
    assert(viewed(entries@) == version_section().entries);
    out.push(Section { name: bytes::copied("undo".as_bytes()), subsection: None, entries });
    assert(out@[0]@ == version_section());
    let mut i: usize = 0;
    while i < changes.len()
        invariant
            i <= changes@.len(),
            out@.len() == i + 1,
            out@[0]@ == version_section(),
            forall|j: int| 0 <= j < i ==> (#[trigger] out@[j + 1])@ == change_section(changes@[j]@),
        decreases changes.len() - i,
    {
        let change = &changes[i];
        let mut entries: Vec<Entry<Vec<u8>>> = Vec::new();
        entries.push(entry("before".as_bytes(), encode_state(&change.before)));
        entries.push(entry("after".as_bytes(), encode_state(&change.after)));
        assert(viewed(entries@) == change_section(change@).entries);
        out.push(
            Section {
                name: bytes::copied("ref".as_bytes()),
                subsection: Some(bytes::copied(change.name.as_bytes())),
                entries,
            },
        );
        assert(out@[i + 1]@ == change_section(changes@[i as int]@));
        i = i + 1;
    }
    proof {
        let expected = sections_of(viewed(changes@));
        assert forall|j: int| 0 <= j < out@.len() implies viewed(out@)[j] == expected[j] by {
            if j > 0 {
                assert(out@[(j - 1) + 1]@ == change_section(changes@[j - 1]@));
            }
        }
        assert(viewed(out@) == expected);
    }
    out
}

/// Whether a state names only references with valid names.
pub open spec fn proper_state(state: State<Seq<u8>>) -> bool {
    state matches State::Symbolic(name) ==> valid_name(name) && graphic(name)
}

/// Whether a change is of references with valid names.
pub open spec fn proper_change(change: RefChange<Seq<u8>>) -> bool {
    &&& valid_name(change.name)
    &&& graphic(change.name)
    &&& proper_state(change.before)
    &&& proper_state(change.after)
}

/// Whether changes are as an entry holds them: in the order of the references, not of the queue
/// itself, and each of them changes something.
pub open spec fn storable(changes: Seq<RefChange<Seq<u8>>>) -> bool {
    &&& in_order(changes)
    &&& forall|i: int|
        0 <= i < changes.len() ==> !queue_ref((#[trigger] changes[i]).name) && changes[i].before
            != changes[i].after
}

proof fn config_bytes()
    ensures
        "missing".spec_bytes() == seq![109u8, 105, 115, 115, 105, 110, 103],
        "object:".spec_bytes() == seq![111u8, 98, 106, 101, 99, 116, 58],
        "symbolic:".spec_bytes() == seq![115u8, 121, 109, 98, 111, 108, 105, 99, 58],
        "undo".spec_bytes() == seq![117u8, 110, 100, 111],
        "ref".spec_bytes() == seq![114u8, 101, 102],
        "version".spec_bytes() == seq![118u8, 101, 114, 115, 105, 111, 110],
        "before".spec_bytes() == seq![98u8, 101, 102, 111, 114, 101],
        "after".spec_bytes() == seq![97u8, 102, 116, 101, 114],
        VERSION.spec_bytes() == seq![49u8],
{
    broadcast use vstd::string::is_ascii_spec_bytes;

    reveal_strlit("missing");
    assert(vstd::string::is_ascii("missing"));
    assert("missing".spec_bytes() =~= seq![109u8, 105, 115, 115, 105, 110, 103]);
    reveal_strlit("object:");
    assert(vstd::string::is_ascii("object:"));
    assert("object:".spec_bytes() =~= seq![111u8, 98, 106, 101, 99, 116, 58]);
    reveal_strlit("symbolic:");
    assert(vstd::string::is_ascii("symbolic:"));
    assert("symbolic:".spec_bytes() =~= seq![115u8, 121, 109, 98, 111, 108, 105, 99, 58]);
    reveal_strlit("undo");
    assert(vstd::string::is_ascii("undo"));
    assert("undo".spec_bytes() =~= seq![117u8, 110, 100, 111]);
    reveal_strlit("ref");
    assert(vstd::string::is_ascii("ref"));
    assert("ref".spec_bytes() =~= seq![114u8, 101, 102]);
    reveal_strlit("version");
    assert(vstd::string::is_ascii("version"));
    assert("version".spec_bytes() =~= seq![118u8, 101, 114, 115, 105, 111, 110]);
    reveal_strlit("before");
    assert(vstd::string::is_ascii("before"));
    assert("before".spec_bytes() =~= seq![98u8, 101, 102, 111, 114, 101]);
    reveal_strlit("after");
    assert(vstd::string::is_ascii("after"));
    assert("after".spec_bytes() =~= seq![97u8, 102, 116, 101, 114]);
    reveal_strlit("1");
    assert(vstd::string::is_ascii(VERSION));
    assert(VERSION.spec_bytes() =~= seq![49u8]);
}

proof fn prefix_comes_off(prefix: Seq<u8>, rest: Seq<u8>)
    ensures
        without_prefix(prefix + rest, prefix) == Some(rest),
{
    assert((prefix + rest).take(prefix.len() as int) == prefix);
    assert((prefix + rest).skip(prefix.len() as int) == rest);
}

/// What a reference holds reads back from its encoding, if it names a reference with a valid
/// name or none.
pub proof fn state_reads_back(state: State<Seq<u8>>)
    requires
        state matches State::Symbolic(name) ==> valid_name(name),
    ensures
        decoded_state(encoded_state(state)) == Ok::<_, UndoError>(state),
{
    config_bytes();
    let value = encoded_state(state);
    match state {
        State::Missing => {},
        State::Object(id) => {
            hex_round_trip(id);
            prefix_comes_off("object:".spec_bytes(), hex_of(id));
            assert(value[0] == 111);
            assert(value != "missing".spec_bytes());
        },
        State::Symbolic(name) => {
            prefix_comes_off("symbolic:".spec_bytes(), name);
            assert(value[0] == 115);
            assert(value != "missing".spec_bytes());
            assert(without_prefix(value, "object:".spec_bytes()) is None) by {
                if has_prefix(value, "object:".spec_bytes()) {
                    assert(value.take(7)[0] == value[0]);
                }
            }
        },
    }
}

proof fn encoding_is_graphic(state: State<Seq<u8>>)
    requires
        proper_state(state),
    ensures
        graphic(encoded_state(state)),
{
    config_bytes();
    let value = encoded_state(state);
    match state {
        State::Missing => {},
        State::Object(id) => {
            hex_round_trip(id);
            assert forall|i: int| 0 <= i < value.len() implies 32 < #[trigger] value[i] && value[i]
                != 127 by {
                if i >= 7 {
                    assert(value[i] == hex_of(id)[i - 7]);
                }
            }
        },
        State::Symbolic(name) => {
            assert forall|i: int| 0 <= i < value.len() implies 32 < #[trigger] value[i] && value[i]
                != 127 by {
                if i >= 9 {
                    assert(value[i] == name[i - 9]);
                }
            }
        },
    }
}

proof fn sections_are_plain(changes: Seq<RefChange<Seq<u8>>>)
    requires
        forall|i: int| 0 <= i < changes.len() ==> proper_change(#[trigger] changes[i]),
    ensures
        forall|i: int|
            0 <= i < sections_of(changes).len() ==> plain_section(#[trigger] sections_of(changes)[i]),
{
    config_bytes();
    let sections = sections_of(changes);
    assert forall|i: int| 0 <= i < sections.len() implies plain_section(#[trigger] sections[i]) by {
        if i == 0 {
            assert(sections[0] == version_section());
        } else {
            let change = changes[i - 1];
            assert(proper_change(change));
            assert(sections[i] == change_section(change));
            encoding_is_graphic(change.before);
            encoding_is_graphic(change.after);
            assert("before".spec_bytes().len() != "after".spec_bytes().len());
        }
    }
}

proof fn change_reads_back(change: RefChange<Seq<u8>>, previous: Option<Seq<u8>>)
    requires
        proper_change(change),
        !queue_ref(change.name),
        change.before != change.after,
        previous is Some ==> before(previous->0, change.name),
    ensures
        section_change(change_section(change), previous) == Ok::<_, UndoError>(change),
{
    state_reads_back(change.before);
    state_reads_back(change.after);
    let keys = seq!["before".spec_bytes(), "after".spec_bytes()];
    let section = change_section(change);
    assert(has_keys(section, keys));
}

proof fn changes_read_back(changes: Seq<RefChange<Seq<u8>>>, at: int)
    requires
        1 <= at <= changes.len() + 1,
        storable(changes),
        forall|i: int| 0 <= i < changes.len() ==> proper_change(#[trigger] changes[i]),
    ensures
        section_changes(sections_of(changes), at, changes.take(at - 1)) == Ok::<_, UndoError>(
            changes,
        ),
    decreases changes.len() + 1 - at,
{
    let sections = sections_of(changes);
    let done = changes.take(at - 1);
    if at <= changes.len() {
        let change = changes[at - 1];
        assert(sections[at] == change_section(change));
        let previous = if done.len() > 0 {
            Some(done.last().name)
        } else {
            None
        };
        if done.len() > 0 {
            assert(done.last() == changes[at - 2]);
            assert(before(changes[at - 2].name, changes[at - 1].name));
        }
        change_reads_back(change, previous);
        assert(done.push(change) == changes.take(at));
        changes_read_back(changes, at + 1);
    } else {
        assert(done == changes);
    }
}

/// The changes of an entry read back from its sections.
pub proof fn sections_read_back(changes: Seq<RefChange<Seq<u8>>>)
    requires
        storable(changes),
        forall|i: int| 0 <= i < changes.len() ==> proper_change(#[trigger] changes[i]),
    ensures
        changes_of(sections_of(changes)) == Ok::<_, UndoError>(changes),
{
    let sections = sections_of(changes);
    assert(sections[0] == version_section());
    assert(has_keys(sections[0], seq!["version".spec_bytes()]));
    assert(changes.take(0) == Seq::<RefChange<Seq<u8>>>::empty());
    changes_read_back(changes, 1);
}

/// The metadata of no changes fits into a file.
pub proof fn start_is_writable()
    ensures
        writable(sections_of(Seq::<RefChange<Seq<u8>>>::empty())),
{
    config_bytes();
    let sections = sections_of(Seq::<RefChange<Seq<u8>>>::empty());
    assert(sections == seq![version_section()]);
    reveal_with_fuel(sections_size, 2);
    reveal_with_fuel(entries_size, 2);
}

fn state_is_proper(state: &State<FullName>)
    ensures
        proper_state(state@),
{
    if let State::Symbolic(name) = state {
        let _bytes = name.as_bytes();
    }
}

fn changes_are_proper(changes: &Vec<RefChange<FullName>>)
    ensures
        forall|i: int| 0 <= i < changes@.len() ==> proper_change(#[trigger] viewed(changes@)[i]),
{
    let mut i: usize = 0;
    while i < changes.len()
        invariant
            i <= changes@.len(),
            forall|j: int| 0 <= j < i ==> proper_change(#[trigger] viewed(changes@)[j]),
        decreases changes.len() - i,
    {
        let change = &changes[i];
        let _bytes = change.name.as_bytes();
        state_is_proper(&change.before);
        state_is_proper(&change.after);
        assert(proper_change(viewed(changes@)[i as int]));
        i = i + 1;
    }
}

/// Writes the metadata of an entry, if it fits into a file. Changes as an entry holds them read back from
/// what is written, unless that is too long to be read.
pub fn serialize_config(changes: &Vec<RefChange<FullName>>) -> (r: Result<Vec<u8>, UndoError>)
    ensures
        writable(sections_of(viewed(changes@))) ==> (r matches Ok(text) && fits(text@)),
        r matches Err(err) ==> err == UndoError::NotSerializable,
        r matches Ok(text) ==> text@.len() > 0,
        r matches Ok(text) ==> (fits(text@) ==> parsed_config(text@) == Some(
            sections_of(viewed(changes@)),
        )),
        r matches Ok(text) ==> (fits(text@) && storable(viewed(changes@)) ==> config_changes(text@)
            == Ok::<_, UndoError>(viewed(changes@))),
{
    changes_are_proper(changes);
    let sections = config_of(changes);
    proof {
        sections_are_plain(viewed(changes@));
        if storable(viewed(changes@)) {
            sections_read_back(viewed(changes@));
        }
        assert(viewed(sections@).len() == sections@.len());
    }
    match config_text(&sections) {
        Some(text) => Ok(text),
        None => Err(UndoError::NotSerializable),
    }
}

} // verus!
