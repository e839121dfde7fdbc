//! The state that a rebase todo carries along with its plan.
use vstd::prelude::*;
use vstd::string::StringSliceAdditionalSpecFns;
use crate::bytes;
use crate::bytes::{find_from, lines, split_at_byte};
use crate::history::{distinct, find_parents, parents_of, CommitNode};
use crate::ids::{contains_id, parsed_hex, ObjectId};
use crate::names;
use crate::names::{unquoted, valid_name, FullName};
use crate::plan::{viewed, viewed_option, viewed_push, ExpectedRef};
use crate::todo::TodoError;

verus! {

/// What a todo is about: the base and the commit to rebase onto, the tips and all commits of
/// the history, whether the checkout must be marked and whether it may be, the branch that
/// HEAD is on, whether references are edited, the captured references, the commit whose
/// conflict was materialized, and the commits that a continuation squashes.
#[derive(PartialEq, Eq, Debug)]
pub struct TodoState {
    pub base: ObjectId,
    pub onto: ObjectId,
    pub tips: Vec<ObjectId>,
    pub scope: Vec<ObjectId>,
    pub marker_required: bool,
    pub checkout_allowed: bool,
    pub head_ref: Option<FullName>,
    pub edit_refs: bool,
    pub expected_refs: Vec<ExpectedRef<FullName>>,
    pub resolved: Option<ObjectId>,
    pub continuation_sources: Vec<ObjectId>,
}

/// The state in specifications.
pub struct TodoStateView {
    pub base: ObjectId,
    pub onto: ObjectId,
    pub tips: Seq<ObjectId>,
    pub scope: Seq<ObjectId>,
    pub marker_required: bool,
    pub checkout_allowed: bool,
    pub head_ref: Option<Seq<u8>>,
    pub edit_refs: bool,
    pub expected_refs: Seq<ExpectedRef<Seq<u8>>>,
    pub resolved: Option<ObjectId>,
    pub continuation_sources: Seq<ObjectId>,
}

impl View for TodoState {
    type V = TodoStateView;

    open spec fn view(&self) -> TodoStateView {
        TodoStateView {
            base: self.base,
            onto: self.onto,
            tips: self.tips@,
            scope: self.scope@,
            marker_required: self.marker_required,
            checkout_allowed: self.checkout_allowed,
            head_ref: viewed_option(self.head_ref),
            edit_refs: self.edit_refs,
            expected_refs: viewed(self.expected_refs@),
            resolved: self.resolved,
            continuation_sources: self.continuation_sources@,
        }
    }
}

/// What opens the state in a todo.
pub const STATE_START: &'static str = "<!-- tix-rebase-state-v2\n";

/// What opens a state of any version.
pub const STATE_ANY: &'static str = "<!-- tix-rebase-state-";

/// What closes the state.
pub const STATE_END: &'static str = "-->";

/// What closes the state, with the line feed before it.
pub const STATE_CLOSE: &'static str = "\n-->";

/// One line of the state.
#[derive(PartialEq, Eq, Debug)]
pub enum Field<N> {
    Base(ObjectId),
    Onto(ObjectId),
    Tip(ObjectId),
    Scope(ObjectId),
    MarkerRequired(bool),
    CheckoutAllowed(bool),
    HeadRef(N),
    EditRefs(bool),
    Ref { old: Option<ObjectId>, target: ObjectId, follows_tip: bool, editable: bool, name: N },
    Resolved(ObjectId),
    ContinuationSource(ObjectId),
}

impl<N: View> View for Field<N> {
    type V = Field<N::V>;

    open spec fn view(&self) -> Field<N::V> {
        match self {
            Field::Base(id) => Field::Base(*id),
            Field::Onto(id) => Field::Onto(*id),
            Field::Tip(id) => Field::Tip(*id),
            Field::Scope(id) => Field::Scope(*id),
            Field::MarkerRequired(value) => Field::MarkerRequired(*value),
            Field::CheckoutAllowed(value) => Field::CheckoutAllowed(*value),
            Field::HeadRef(name) => Field::HeadRef(name@),
            Field::EditRefs(value) => Field::EditRefs(*value),
            Field::Ref { old, target, follows_tip, editable, name } => Field::Ref {
                old: *old,
                target: *target,
                follows_tip: *follows_tip,
                editable: *editable,
                name: name@,
            },
            Field::Resolved(id) => Field::Resolved(*id),
            Field::ContinuationSource(id) => Field::ContinuationSource(*id),
        }
    }
}

/// The object id that a value writes.
pub open spec fn id_value(value: Seq<u8>) -> Result<ObjectId, TodoError> {
    match parsed_hex(value) {
        Some(id) => Ok(id),
        None => Err(TodoError::InvalidObjectId),
    }
}

/// The truth value that a value writes.
pub open spec fn bool_value(value: Seq<u8>) -> Result<bool, TodoError> {
    if value == "true".spec_bytes() {
        Ok(true)
    } else if value == "false".spec_bytes() {
        Ok(false)
    } else {
        Err(TodoError::InvalidBoolean)
    }
}

/// The reference name that a quoted value writes.
pub open spec fn name_value(
    value: Seq<u8>,
    malformed: TodoError,
    trailing: TodoError,
    invalid: TodoError,
) -> Result<Seq<u8>, TodoError> {
    match unquoted(value) {
        None => Err(malformed),
        Some((name, consumed)) => if bytes::trimmed(value.skip(consumed as int)).len() > 0 {
            Err(trailing)
        } else if !valid_name(name) {
            Err(invalid)
        } else {
            Ok(name)
        },
    }
}

/// Whether a captured reference may be edited, and the rest of its line. What does not say so
/// is the name.
pub open spec fn editable_value(value: Seq<u8>) -> (bool, Seq<u8>) {
    match split_at_byte(value, 32) {
        Some((editable, name)) => match bool_value(editable) {
            Ok(editable) => (editable, name),
            Err(_) => (false, value),
        },
        None => (false, value),
    }
}

/// The captured reference that a value writes.
pub open spec fn ref_value(value: Seq<u8>) -> Result<Field<Seq<u8>>, TodoError> {
    match split_at_byte(value, 32) {
        None => Err(TodoError::RefWithoutTarget),
        Some((old, value)) => match split_at_byte(value, 32) {
            None => Err(TodoError::RefWithoutFollowMode),
            Some((target, value)) => {
                let old = if old == "-".spec_bytes() {
                    Ok(None)
                } else {
                    match id_value(old) {
                        Ok(id) => Ok(Some(id)),
                        Err(err) => Err(err),
                    }
                };
                match (old, id_value(target)) {
                    (Err(err), _) => Err(err),
                    (_, Err(err)) => Err(err),
                    (Ok(old), Ok(target)) => match split_at_byte(value, 32) {
                        None => Err(TodoError::RefWithoutName),
                        Some((follows_tip, value)) => match bool_value(follows_tip) {
                            Err(err) => Err(err),
                            Ok(follows_tip) => {
                                let (editable, name) = editable_value(value);
                                match name_value(
                                    name,
                                    TodoError::MalformedRef,
                                    TodoError::RefTrailingData,
                                    TodoError::InvalidRef,
                                ) {
                                    Err(err) => Err(err),
                                    Ok(name) => Ok(
                                        Field::Ref { old, target, follows_tip, editable, name },
                                    ),
                                }
                            },
                        },
                    },
                }
            },
        },
    }
}

/// The field that an id makes under a key.
pub open spec fn id_field(key: Seq<u8>, id: ObjectId) -> Field<Seq<u8>> {
    if key == "base".spec_bytes() {
        Field::Base(id)
    } else if key == "onto".spec_bytes() {
        Field::Onto(id)
    } else if key == "tip".spec_bytes() {
        Field::Tip(id)
    } else if key == "scope".spec_bytes() {
        Field::Scope(id)
    } else if key == "resolved".spec_bytes() {
        Field::Resolved(id)
    } else {
        Field::ContinuationSource(id)
    }
}

/// Whether the value of a key is an object id.
pub open spec fn id_key(key: Seq<u8>) -> bool {
    ||| key == "base".spec_bytes()
    ||| key == "onto".spec_bytes()
    ||| key == "tip".spec_bytes()
    ||| key == "scope".spec_bytes()
    ||| key == "resolved".spec_bytes()
    ||| key == "continuation-source".spec_bytes()
}

/// Whether the value of a key is a truth value.
pub open spec fn bool_key(key: Seq<u8>) -> bool {
    ||| key == "marker-required".spec_bytes()
    ||| key == "checkout-allowed".spec_bytes()
    ||| key == "edit-refs".spec_bytes()
}

/// The field that a truth value makes under a key.
pub open spec fn bool_field(key: Seq<u8>, value: bool) -> Field<Seq<u8>> {
    if key == "marker-required".spec_bytes() {
        Field::MarkerRequired(value)
    } else if key == "checkout-allowed".spec_bytes() {
        Field::CheckoutAllowed(value)
    } else {
        Field::EditRefs(value)
    }
}

/// The field that a line writes.
pub open spec fn field_of(line: Seq<u8>) -> Result<Field<Seq<u8>>, TodoError> {
    match split_at_byte(line, 32) {
        None => Err(TodoError::StateLineWithoutValue),
        Some((key, value)) => if id_key(key) {
            match id_value(value) {
                Ok(id) => Ok(id_field(key, id)),
                Err(err) => Err(err),
            }
        } else if bool_key(key) {
            match bool_value(value) {
                Ok(value) => Ok(bool_field(key, value)),
                Err(err) => Err(err),
            }
        } else if key == "head-ref".spec_bytes() {
            match name_value(
                value,
                TodoError::MalformedHeadRef,
                TodoError::HeadRefTrailingData,
                TodoError::InvalidHeadRef,
            ) {
                Ok(name) => Ok(Field::HeadRef(name)),
                Err(err) => Err(err),
            }
        } else if key == "ref".spec_bytes() {
            ref_value(value)
        } else {
            Err(TodoError::UnsupportedField)
        },
    }
}

fn parse_id(value: &[u8]) -> (r: Result<ObjectId, TodoError>)
    ensures
        r == id_value(value@),
{
    match ObjectId::from_hex(value) {
        Some(id) => Ok(id),
        None => Err(TodoError::InvalidObjectId),
    }
}

fn parse_bool(value: &[u8]) -> (r: Result<bool, TodoError>)
    ensures
        r == bool_value(value@),
{
    if bytes::equal(value, "true".as_bytes()) {
        Ok(true)
    } else if bytes::equal(value, "false".as_bytes()) {
        Ok(false)
    } else {
        Err(TodoError::InvalidBoolean)
    }
}

fn parse_name(
    value: &[u8],
    malformed: TodoError,
    trailing: TodoError,
    invalid: TodoError,
) -> (r: Result<FullName, TodoError>)
    ensures
        match r {
            Ok(name) => name_value(value@, malformed, trailing, invalid) == Ok::<_, TodoError>(
                name@,
            ),
            Err(err) => name_value(value@, malformed, trailing, invalid) == Err::<Seq<u8>, _>(err),
        },
{
    match names::unquote(value) {
        None => Err(malformed),
        Some((name, consumed)) => {
            if bytes::trim(bytes::tail_of(value, consumed)).len() > 0 {
                return Err(trailing);
            }
            match FullName::new(name.as_slice()) {
                Some(name) => Ok(name),
                None => Err(invalid),
            }
        },
    }
}

fn parse_ref(value: &[u8]) -> (r: Result<Field<FullName>, TodoError>)
    ensures
        match r {
            Ok(field) => ref_value(value@) == Ok::<_, TodoError>(field@),
            Err(err) => ref_value(value@) == Err::<Field<Seq<u8>>, _>(err),
        },
{
    let (old, value) = match bytes::split_once(value, 32) {
        Some(pair) => pair,
        None => return Err(TodoError::RefWithoutTarget),
    };
    let (target, value) = match bytes::split_once(value, 32) {
        Some(pair) => pair,
        None => return Err(TodoError::RefWithoutFollowMode),
    };
    let old_id = if bytes::equal(old, "-".as_bytes()) {
        None
    } else {
        match parse_id(old) {
            Ok(id) => Some(id),
            Err(err) => return Err(err),
        }
    };
    let target_id = match parse_id(target) {
        Ok(id) => id,
        Err(err) => return Err(err),
    };
    let (follows_tip, value) = match bytes::split_once(value, 32) {
        Some(pair) => pair,
        None => return Err(TodoError::RefWithoutName),
    };
    let follows_tip = match parse_bool(follows_tip) {
        Ok(value) => value,
        Err(err) => return Err(err),
    };
    let (editable, name) = match bytes::split_once(value, 32) {
        Some((editable, name)) => match parse_bool(editable) {
            Ok(editable) => (editable, name),
            Err(_) => (false, value),
        },
        None => (false, value),
    };
    match parse_name(
        name,
        TodoError::MalformedRef,
        TodoError::RefTrailingData,
        TodoError::InvalidRef,
    ) {
        Ok(name) => Ok(Field::Ref { old: old_id, target: target_id, follows_tip, editable, name }),
        Err(err) => Err(err),
    }
}

/// Reads one line of the state.
pub fn parse_field(line: &[u8]) -> (r: Result<Field<FullName>, TodoError>)
    ensures
        match r {
            Ok(field) => field_of(line@) == Ok::<_, TodoError>(field@),
            Err(err) => field_of(line@) == Err::<Field<Seq<u8>>, _>(err),
        },
{
    let (key, value) = match bytes::split_once(line, 32) {
        Some(pair) => pair,
        None => return Err(TodoError::StateLineWithoutValue),
    };
    let base = bytes::equal(key, "base".as_bytes());
    let onto = bytes::equal(key, "onto".as_bytes());
    let tip = bytes::equal(key, "tip".as_bytes());
    let scope = bytes::equal(key, "scope".as_bytes());
    let resolved = bytes::equal(key, "resolved".as_bytes());
    let source = bytes::equal(key, "continuation-source".as_bytes());
    if base || onto || tip || scope || resolved || source {
        let id = match parse_id(value) {
            Ok(id) => id,
            Err(err) => return Err(err),
        };
        return Ok(
            if base {
                Field::Base(id)
            } else if onto {
                Field::Onto(id)
            } else if tip {
                Field::Tip(id)
            } else if scope {
                Field::Scope(id)
            } else if resolved {
                Field::Resolved(id)
            } else {
                Field::ContinuationSource(id)
            },
        );
    }
    let marker = bytes::equal(key, "marker-required".as_bytes());
    let allowed = bytes::equal(key, "checkout-allowed".as_bytes());
    let edit_refs = bytes::equal(key, "edit-refs".as_bytes());
    if marker || allowed || edit_refs {
        let value = match parse_bool(value) {
            Ok(value) => value,
            Err(err) => return Err(err),
        };
        return Ok(
            if marker {
                Field::MarkerRequired(value)
            } else if allowed {
                Field::CheckoutAllowed(value)
            } else {
                Field::EditRefs(value)
            },
        );
    }
    if bytes::equal(key, "head-ref".as_bytes()) {
        return match parse_name(
            value,
            TodoError::MalformedHeadRef,
            TodoError::HeadRefTrailingData,
            TodoError::InvalidHeadRef,
        ) {
            Ok(name) => Ok(Field::HeadRef(name)),
            Err(err) => Err(err),
        };
    }
    if bytes::equal(key, "ref".as_bytes()) {
        return parse_ref(value);
    }
    Err(TodoError::UnsupportedField)
}

/// What is known of the state after some of its lines.
pub struct Partial {
    pub base: Option<ObjectId>,
    pub onto: Option<ObjectId>,
    pub tips: Vec<ObjectId>,
    pub scope: Vec<ObjectId>,
    pub marker_required: Option<bool>,
    pub checkout_allowed: Option<bool>,
    pub head_ref: Option<FullName>,
    pub edit_refs: bool,
    pub expected_refs: Vec<ExpectedRef<FullName>>,
    pub resolved: Option<ObjectId>,
    pub continuation_sources: Vec<ObjectId>,
}

/// What is known of the state, in specifications.
pub struct PartialView {
    pub base: Option<ObjectId>,
    pub onto: Option<ObjectId>,
    pub tips: Seq<ObjectId>,
    pub scope: Seq<ObjectId>,
    pub marker_required: Option<bool>,
    pub checkout_allowed: Option<bool>,
    pub head_ref: Option<Seq<u8>>,
    pub edit_refs: bool,
    pub expected_refs: Seq<ExpectedRef<Seq<u8>>>,
    pub resolved: Option<ObjectId>,
    pub continuation_sources: Seq<ObjectId>,
}

impl View for Partial {
    type V = PartialView;

    open spec fn view(&self) -> PartialView {
        PartialView {
            base: self.base,
            onto: self.onto,
            tips: self.tips@,
            scope: self.scope@,
            marker_required: self.marker_required,
            checkout_allowed: self.checkout_allowed,
            head_ref: viewed_option(self.head_ref),
            edit_refs: self.edit_refs,
            expected_refs: viewed(self.expected_refs@),
            resolved: self.resolved,
            continuation_sources: self.continuation_sources@,
        }
    }
}

/// Nothing known of the state.
pub open spec fn nothing() -> PartialView {
    PartialView {
        base: None,
        onto: None,
        tips: Seq::empty(),
        scope: Seq::empty(),
        marker_required: None,
        checkout_allowed: None,
        head_ref: None,
        edit_refs: false,
        expected_refs: Seq::empty(),
        resolved: None,
        continuation_sources: Seq::empty(),
    }
}

/// What is known of the state with one field more; most fields may be given once.
pub open spec fn with_field(state: PartialView, field: Field<Seq<u8>>) -> Result<
    PartialView,
    TodoError,
> {
    match field {
        Field::Base(id) => if state.base is Some {
            Err(TodoError::RepeatedBase)
        } else {
            Ok(PartialView { base: Some(id), ..state })
        },
        Field::Onto(id) => if state.onto is Some {
            Err(TodoError::RepeatedOnto)
        } else {
            Ok(PartialView { onto: Some(id), ..state })
        },
        Field::Tip(id) => Ok(PartialView { tips: state.tips.push(id), ..state }),
        Field::Scope(id) => Ok(PartialView { scope: state.scope.push(id), ..state }),
        Field::MarkerRequired(value) => if state.marker_required is Some {
            Err(TodoError::RepeatedMarkerRequired)
        } else {
            Ok(PartialView { marker_required: Some(value), ..state })
        },
        Field::CheckoutAllowed(value) => if state.checkout_allowed is Some {
            Err(TodoError::RepeatedCheckoutAllowed)
        } else {
            Ok(PartialView { checkout_allowed: Some(value), ..state })
        },
        Field::HeadRef(name) => if state.head_ref is Some {
            Err(TodoError::RepeatedHeadRef)
        } else {
            Ok(PartialView { head_ref: Some(name), ..state })
        },
        Field::EditRefs(value) => Ok(PartialView { edit_refs: value, ..state }),
        Field::Ref { old, target, follows_tip, editable, name } => Ok(
            PartialView {
                expected_refs: state.expected_refs.push(
                    ExpectedRef {
                        name,
                        old,
                        target,
                        new: old,
                        follows_tip,
                        editable,
                        placement: None,
                    },
                ),
                ..state
            },
        ),
        Field::Resolved(id) => if state.resolved is Some {
            Err(TodoError::RepeatedResolved)
        } else {
            Ok(PartialView { resolved: Some(id), ..state })
        },
        Field::ContinuationSource(id) => Ok(
            PartialView { continuation_sources: state.continuation_sources.push(id), ..state },
        ),
    }
}

/// What is known of the state after the lines from `at` on.
pub open spec fn with_lines(state: PartialView, all: Seq<Seq<u8>>, at: int) -> Result<
    PartialView,
    TodoError,
>
    decreases all.len() - at,
{
    if at < 0 || at >= all.len() {
        Ok(state)
    } else {
        match field_of(all[at]) {
            Err(err) => Err(err),
            Ok(field) => match with_field(state, field) {
                Err(err) => Err(err),
                Ok(state) => with_lines(state, all, at + 1),
            },
        }
    }
}

/// The state, if all that it needs is known.
pub open spec fn completed(state: PartialView) -> Result<TodoStateView, TodoError> {
    match (state.base, state.onto, state.marker_required, state.checkout_allowed) {
        (None, _, _, _) => Err(TodoError::MissingBase),
        (_, None, _, _) => Err(TodoError::MissingOnto),
        (_, _, None, _) => Err(TodoError::MissingMarkerRequired),
        (_, _, _, None) => Err(TodoError::MissingCheckoutAllowed),
        (Some(base), Some(onto), Some(marker_required), Some(checkout_allowed)) => Ok(
            TodoStateView {
                base,
                onto,
                tips: state.tips,
                scope: state.scope,
                marker_required,
                checkout_allowed,
                head_ref: state.head_ref,
                edit_refs: state.edit_refs,
                expected_refs: state.expected_refs,
                resolved: state.resolved,
                continuation_sources: state.continuation_sources,
            },
        ),
    }
}

/// The text of the state in a todo: what stands between its start and its end. A todo without
/// a state has none; one with a state of another version, with a state that is not closed, or
/// with several of them cannot be read.
pub open spec fn state_text(input: Seq<u8>) -> Result<Option<Seq<u8>>, TodoError> {
    match find_from(input, STATE_START.spec_bytes(), 0) {
        None => if find_from(input, STATE_ANY.spec_bytes(), 0) is Some {
            Err(TodoError::UnsupportedStateVersion)
        } else {
            Ok(None)
        },
        Some(start) => {
            let body = input.skip(start + STATE_START.spec_bytes().len());
            match find_from(body, STATE_CLOSE.spec_bytes(), 0) {
                None => Err(TodoError::UnclosedState),
                Some(end) => if find_from(
                    body.skip(end + STATE_CLOSE.spec_bytes().len()),
                    STATE_START.spec_bytes(),
                    0,
                ) is Some {
                    Err(TodoError::RepeatedState)
                } else {
                    Ok(Some(body.take(end)))
                },
            }
        },
    }
}

/// The state that a todo carries.
pub open spec fn recorded(input: Seq<u8>) -> Result<Option<TodoStateView>, TodoError> {
    match state_text(input) {
        Err(err) => Err(err),
        Ok(None) => Ok(None),
        Ok(Some(text)) => match with_lines(nothing(), lines(text), 0) {
            Err(err) => Err(err),
            Ok(state) => match completed(state) {
                Err(err) => Err(err),
                Ok(state) => Ok(Some(state)),
            },
        },
    }
}

fn add_field(state: &mut Partial, field: Field<FullName>) -> (r: Result<(), TodoError>)
    ensures
        match r {
            Ok(_) => with_field(old(state)@, field@) == Ok::<_, TodoError>(final(state)@),
            Err(err) => with_field(old(state)@, field@) == Err::<PartialView, _>(err),
        },
{
    match field {
        Field::Base(id) => {
            if state.base.is_some() {
                return Err(TodoError::RepeatedBase);
            }
            state.base = Some(id);
        },
        Field::Onto(id) => {
            if state.onto.is_some() {
                return Err(TodoError::RepeatedOnto);
            }
            state.onto = Some(id);
        },
        Field::Tip(id) => state.tips.push(id),
        Field::Scope(id) => state.scope.push(id),
        Field::MarkerRequired(value) => {
            if state.marker_required.is_some() {
                return Err(TodoError::RepeatedMarkerRequired);
            }
            state.marker_required = Some(value);
        },
        Field::CheckoutAllowed(value) => {
            if state.checkout_allowed.is_some() {
                return Err(TodoError::RepeatedCheckoutAllowed);
            }
            state.checkout_allowed = Some(value);
        },
        Field::HeadRef(name) => {
            if state.head_ref.is_some() {
                return Err(TodoError::RepeatedHeadRef);
            }
            state.head_ref = Some(name);
        },
        Field::EditRefs(value) => {
            state.edit_refs = value;
        },
        Field::Ref { old, target, follows_tip, editable, name } => {
            let reference = ExpectedRef {
                name,
                old,
                target,
                new: old,
                follows_tip,
                editable,
                placement: None,
            };
            proof {
                viewed_push(state.expected_refs@, reference);
            }
            state.expected_refs.push(reference);
        },
        Field::Resolved(id) => {
            if state.resolved.is_some() {
                return Err(TodoError::RepeatedResolved);
            }
            state.resolved = Some(id);
        },
        Field::ContinuationSource(id) => state.continuation_sources.push(id),
    }
    Ok(())
}

fn find_state_text<'a>(input: &'a [u8]) -> (r: Result<Option<&'a [u8]>, TodoError>)
    ensures
        match r {
            Ok(text) => state_text(input@) == Ok::<_, TodoError>(bytes::view_of(text)),
            Err(err) => state_text(input@) == Err::<Option<Seq<u8>>, _>(err),
        },
{
    let start: usize = match bytes::find(input, STATE_START.as_bytes()) {
        Some(start) => start,
        None => {
            return if bytes::find(input, STATE_ANY.as_bytes()).is_some() {
                Err(TodoError::UnsupportedStateVersion)
            } else {
                Ok(None)
            };
        },
    };
    let total: usize = input.len();
    let body = bytes::tail_of(input, start + STATE_START.as_bytes().len());
    let end: usize = match bytes::find(body, STATE_CLOSE.as_bytes()) {
        Some(end) => end,
        None => return Err(TodoError::UnclosedState),
    };
    let left: usize = body.len();
    let rest = bytes::tail_of(body, end + STATE_CLOSE.as_bytes().len());
    if bytes::find(rest, STATE_START.as_bytes()).is_some() {
        return Err(TodoError::RepeatedState);
    }
    Ok(Some(bytes::head_of(body, end)))
}

/// Reads the state that a todo carries, without holding it against the repository.
pub fn read_recorded(input: &[u8]) -> (r: Result<Option<TodoState>, TodoError>)
    ensures
        match r {
            Ok(state) => recorded(input@) == Ok::<_, TodoError>(viewed_option(state)),
            Err(err) => recorded(input@) == Err::<Option<TodoStateView>, _>(err),
        },
{
    let text = match find_state_text(input) {
        Ok(Some(text)) => text,
        Ok(None) => return Ok(None),
        Err(err) => return Err(err),
    };
    let all = bytes::split_lines(text);
    let mut state = Partial {
        base: None,
        onto: None,
        tips: Vec::new(),
        scope: Vec::new(),
        marker_required: None,
        checkout_allowed: None,
        head_ref: None,
        edit_refs: false,
        expected_refs: Vec::new(),
        resolved: None,
        continuation_sources: Vec::new(),
    };
    proof {
        assert(viewed(state.expected_refs@) == Seq::<ExpectedRef<Seq<u8>>>::empty());
        assert(state@ == nothing());
    }
    let mut at: usize = 0;
    while at < all.len()
        invariant
            at <= all@.len(),
            state_text(input@) == Ok::<_, TodoError>(Some(text@)),
            bytes::views(all@) == lines(text@),
            with_lines(nothing(), lines(text@), 0) == with_lines(
                state@,
                lines(text@),
                at as int,
            ),
        decreases all.len() - at,
    {
        let line = all[at];
        assert(line@ == lines(text@)[at as int]) by {
            assert(bytes::views(all@)[at as int] == line@);
        }
        let field = match parse_field(line) {
            Ok(field) => field,
            Err(err) => return Err(err),
        };
        match add_field(&mut state, field) {
            Ok(_) => {},
            Err(err) => return Err(err),
        }
        at = at + 1;
    }
    assert(lines(text@).len() == all@.len()) by {
        assert(bytes::views(all@).len() == all@.len());
    }
    let base = match state.base {
        Some(base) => base,
        None => return Err(TodoError::MissingBase),
    };
    let onto = match state.onto {
        Some(onto) => onto,
        None => return Err(TodoError::MissingOnto),
    };
    let marker_required = match state.marker_required {
        Some(value) => value,
        None => return Err(TodoError::MissingMarkerRequired),
    };
    let checkout_allowed = match state.checkout_allowed {
        Some(value) => value,
        None => return Err(TodoError::MissingCheckoutAllowed),
    };
    Ok(
        Some(
            TodoState {
                base,
                onto,
                tips: state.tips,
                scope: state.scope,
                marker_required,
                checkout_allowed,
                head_ref: state.head_ref,
                edit_refs: state.edit_refs,
                expected_refs: state.expected_refs,
                resolved: state.resolved,
                continuation_sources: state.continuation_sources,
            },
        ),
    )
}

/// The captured references from `at` on name each reference once, and logically point into
/// the history that the todo is about.
pub open spec fn refs_valid(state: TodoStateView, at: int) -> Result<(), TodoError>
    decreases state.expected_refs.len() - at,
{
    if at < 0 || at >= state.expected_refs.len() {
        Ok(())
    } else {
        let reference = state.expected_refs[at];
        if exists|i: int| 0 <= i < at && (#[trigger] state.expected_refs[i]).name == reference.name {
            Err(TodoError::DuplicateRefs)
        } else if !state.scope.contains(reference.target) && reference.target != state.base
            && reference.target != state.onto {
            Err(TodoError::RefOutsideScope)
        } else {
            refs_valid(state, at + 1)
        }
    }
}

/// The branch that HEAD is on is captured and editable.
pub open spec fn head_ref_valid(state: TodoStateView) -> bool {
    state.head_ref matches Some(name) ==> exists|i: int|
        0 <= i < state.expected_refs.len() && (#[trigger] state.expected_refs[i]).editable
            && state.expected_refs[i].name == name
}

/// The commits of the history from `at` on exist, and each continues another of them or the
/// base, unless a continuation squashes it.
pub open spec fn scope_valid(
    state: TodoStateView,
    commits: Seq<CommitNode<Seq<ObjectId>>>,
    at: int,
) -> Result<(), TodoError>
    decreases state.scope.len() - at,
{
    if at < 0 || at >= state.scope.len() {
        Ok(())
    } else {
        let id = state.scope[at];
        match parents_of(commits, id) {
            None => Err(TodoError::UnknownScopeCommit),
            Some(parents) => if parents.len() == 0 {
                Err(TodoError::ScopeCommitWithoutParent)
            } else if parents[0] != state.base && !state.scope.contains(parents[0])
                && !state.continuation_sources.contains(id) {
                Err(TodoError::DisconnectedScopeCommit)
            } else {
                scope_valid(state, commits, at + 1)
            },
        }
    }
}

/// Whether a commit is known.
pub open spec fn known(commits: Seq<CommitNode<Seq<ObjectId>>>, id: ObjectId) -> bool {
    parents_of(commits, id) is Some
}

/// Whether the state fits the commits of the repository, and itself.
pub open spec fn valid(state: TodoStateView, commits: Seq<CommitNode<Seq<ObjectId>>>) -> Result<
    (),
    TodoError,
> {
    if !known(commits, state.base) {
        Err(TodoError::UnknownBase)
    } else if !known(commits, state.onto) {
        Err(TodoError::UnknownOnto)
    } else if !state.scope.no_duplicates() {
        Err(TodoError::DuplicateScope)
    } else if !state.tips.no_duplicates() {
        Err(TodoError::DuplicateTips)
    } else {
        match refs_valid(state, 0) {
            Err(err) => Err(err),
            Ok(_) => if !head_ref_valid(state) {
                Err(TodoError::HeadRefNotEditable)
            } else if exists|i: int|
                0 <= i < state.tips.len() && !known(commits, #[trigger] state.tips[i]) {
                Err(TodoError::UnknownTip)
            } else {
                match scope_valid(state, commits, 0) {
                    Err(err) => Err(err),
                    Ok(_) => if state.resolved is Some && !state.scope.contains(
                        state.resolved->0,
                    ) {
                        Err(TodoError::ResolvedOutsideScope)
                    } else if exists|i: int|
                        0 <= i < state.continuation_sources.len() && !state.scope.contains(
                            #[trigger] state.continuation_sources[i],
                        ) {
                        Err(TodoError::SourceOutsideScope)
                    } else {
                        Ok(())
                    },
                }
            },
        }
    }
}

fn check_refs(state: &TodoState) -> (r: Result<(), TodoError>)
    ensures
        r == refs_valid(state@, 0),
{
    let refs = &state.expected_refs;
    let mut at: usize = 0;
    while at < refs.len()
        invariant
            refs == &state.expected_refs,
            at <= refs@.len(),
            refs_valid(state@, 0) == refs_valid(state@, at as int),
        decreases refs.len() - at,
    {
        let mut i: usize = 0;
        while i < at
            invariant
                refs == &state.expected_refs,
                i <= at < refs@.len(),
                refs_valid(state@, 0) == refs_valid(state@, at as int),
                forall|j: int|
                    0 <= j < i ==> (#[trigger] state@.expected_refs[j]).name
                        != state@.expected_refs[at as int].name,
            decreases at - i,
        {
            if refs[i].name.same(&refs[at].name) {
                assert(state@.expected_refs[i as int].name
                    == state@.expected_refs[at as int].name);
                return Err(TodoError::DuplicateRefs);
            }
            i = i + 1;
        }
        let target = refs[at].target;
        assert(state@.expected_refs[at as int].target == target);
        if !contains_id(state.scope.as_slice(), target) && target != state.base && target
            != state.onto {
            return Err(TodoError::RefOutsideScope);
        }
        at = at + 1;
    }
    Ok(())
}

fn check_head_ref(state: &TodoState) -> (r: bool)
    ensures
        r == head_ref_valid(state@),
{
    let name = match &state.head_ref {
        Some(name) => name,
        None => return true,
    };
    let refs = &state.expected_refs;
    let mut i: usize = 0;
    while i < refs.len()
        invariant
            refs == &state.expected_refs,
            state@.head_ref == Some(name@),
            i <= refs@.len(),
            forall|j: int|
                0 <= j < i ==> !((#[trigger] state@.expected_refs[j]).editable
                    && state@.expected_refs[j].name == name@),
        decreases refs.len() - i,
    {
        if refs[i].editable && refs[i].name.same(name) {
            assert(state@.expected_refs[i as int].name == name@);
            return true;
        }
        i = i + 1;
    }
    false
}

fn check_scope(state: &TodoState, commits: &Vec<CommitNode<Vec<ObjectId>>>) -> (r: Result<
    (),
    TodoError,
>)
    ensures
        r == scope_valid(state@, viewed(commits@), 0),
{
    let mut at: usize = 0;
    while at < state.scope.len()
        invariant
            at <= state.scope@.len(),
            scope_valid(state@, viewed(commits@), 0) == scope_valid(
                state@,
                viewed(commits@),
                at as int,
            ),
        decreases state.scope.len() - at,
    {
        let id = state.scope[at];
        let parents = match find_parents(commits, id) {
            Some(parents) => parents,
            None => return Err(TodoError::UnknownScopeCommit),
        };
        if parents.len() == 0 {
            return Err(TodoError::ScopeCommitWithoutParent);
        }
        let parent = parents[0];
        if parent != state.base && !contains_id(state.scope.as_slice(), parent) && !contains_id(
            state.continuation_sources.as_slice(),
            id,
        ) {
            return Err(TodoError::DisconnectedScopeCommit);
        }
        at = at + 1;
    }
    Ok(())
}

/// Holds the state against the commits of the repository, and against itself.
pub fn validate_state(state: &TodoState, commits: &Vec<CommitNode<Vec<ObjectId>>>) -> (r: Result<
    (),
    TodoError,
>)
    ensures
        r == valid(state@, viewed(commits@)),
{
    if find_parents(commits, state.base).is_none() {
        return Err(TodoError::UnknownBase);
    }
    if find_parents(commits, state.onto).is_none() {
        return Err(TodoError::UnknownOnto);
    }
    if !distinct(state.scope.as_slice()) {
        return Err(TodoError::DuplicateScope);
    }
    if !distinct(state.tips.as_slice()) {
        return Err(TodoError::DuplicateTips);
    }
    match check_refs(state) {
        Ok(_) => {},
        Err(err) => return Err(err),
    }
    if !check_head_ref(state) {
        return Err(TodoError::HeadRefNotEditable);
    }
    let mut i: usize = 0;
    while i < state.tips.len()
        invariant
            i <= state.tips@.len(),
            forall|j: int| 0 <= j < i ==> known(viewed(commits@), #[trigger] state@.tips[j]),
            known(viewed(commits@), state@.base),
            known(viewed(commits@), state@.onto),
            state@.scope.no_duplicates(),
            state@.tips.no_duplicates(),
            refs_valid(state@, 0) is Ok,
            head_ref_valid(state@),
        decreases state.tips.len() - i,
    {
        if find_parents(commits, state.tips[i]).is_none() {
            assert(!known(viewed(commits@), state@.tips[i as int]));
            return Err(TodoError::UnknownTip);
        }
        i = i + 1;
    }
    match check_scope(state, commits) {
        Ok(_) => {},
        Err(err) => return Err(err),
    }
    if let Some(id) = state.resolved {
        if !contains_id(state.scope.as_slice(), id) {
            return Err(TodoError::ResolvedOutsideScope);
        }
    }
    let sources = &state.continuation_sources;
    let mut i: usize = 0;
    while i < sources.len()
        invariant
            sources == &state.continuation_sources,
            i <= sources@.len(),
            forall|j: int|
                0 <= j < i ==> state@.scope.contains(#[trigger] state@.continuation_sources[j]),
            forall|j: int|
                0 <= j < state@.tips.len() ==> known(viewed(commits@), #[trigger] state@.tips[j]),
            known(viewed(commits@), state@.base),
            known(viewed(commits@), state@.onto),
            state@.scope.no_duplicates(),
            state@.tips.no_duplicates(),
            refs_valid(state@, 0) is Ok,
            head_ref_valid(state@),
            scope_valid(state@, viewed(commits@), 0) is Ok,
            state@.resolved is Some ==> state@.scope.contains(state@.resolved->0),
        decreases sources.len() - i,
    {
        if !contains_id(state.scope.as_slice(), sources[i]) {
            assert(!state@.scope.contains(state@.continuation_sources[i as int]));
            return Err(TodoError::SourceOutsideScope);
        }
        i = i + 1;
    }
    Ok(())
}

/// The state that a todo carries, if it fits the repository.
pub open spec fn state_of(input: Seq<u8>, commits: Seq<CommitNode<Seq<ObjectId>>>) -> Result<
    Option<TodoStateView>,
    TodoError,
> {
    match recorded(input) {
        Ok(Some(state)) => match valid(state, commits) {
            Ok(_) => Ok(Some(state)),
            Err(err) => Err(err),
        },
        other => other,
    }
}

/// Reads the state that a todo carries. A todo without one is cancelled.
pub fn parse_state(input: &[u8], commits: &Vec<CommitNode<Vec<ObjectId>>>) -> (r: Result<
    Option<TodoState>,
    TodoError,
>)
    ensures
        match r {
            Ok(state) => state_of(input@, viewed(commits@)) == Ok::<_, TodoError>(
                viewed_option(state),
            ),
            Err(err) => state_of(input@, viewed(commits@)) == Err::<Option<TodoStateView>, _>(err),
        },
{
    match read_recorded(input) {
        Ok(Some(state)) => match validate_state(&state, commits) {
            Ok(_) => Ok(Some(state)),
            Err(err) => Err(err),
        },
        Ok(None) => Ok(None),
        Err(err) => Err(err),
    }
}

} // verus!
