//! Writing the state of a rebase todo, so that it reads back.
use vstd::prelude::*;
use vstd::string::StringSliceAdditionalSpecFns;
use crate::bytes;
use crate::bytes::{find_byte_bounds, find_byte_from, find_from, lines, split_at_byte, LF};
use crate::ids::{hex_of, hex_round_trip, ObjectId};
use crate::names;
use crate::names::{graphic, quoted, unquoted, valid_name, FullName};
use crate::plan::{viewed, viewed_push, ExpectedRef};
use crate::todo::state::{bool_value, completed, editable_value, field_of, id_value, name_value};
use crate::todo::state::{nothing, recorded, ref_value, state_text, with_field, with_lines};
use crate::todo::state::{Field, PartialView, TodoState, TodoStateView};
use crate::todo::state::{STATE_CLOSE, STATE_END, STATE_START};
use crate::todo::TodoError;

verus! {

/// A truth value, written out.
pub open spec fn bool_text(value: bool) -> Seq<u8> {
    if value {
        "true".spec_bytes()
    } else {
        "false".spec_bytes()
    }
}

/// What a reference held, written out.
pub open spec fn old_text(old: Option<ObjectId>) -> Seq<u8> {
    match old {
        Some(id) => hex_of(id),
        None => "-".spec_bytes(),
    }
}

/// Two texts with a space between them.
pub open spec fn spaced(a: Seq<u8>, b: Seq<u8>) -> Seq<u8> {
    a + seq![32u8] + b
}

/// The line of a field, without its ending.
pub open spec fn field_text(field: Field<Seq<u8>>) -> Seq<u8> {
    match field {
        Field::Base(id) => spaced("base".spec_bytes(), hex_of(id)),
        Field::Onto(id) => spaced("onto".spec_bytes(), hex_of(id)),
        Field::Tip(id) => spaced("tip".spec_bytes(), hex_of(id)),
        Field::Scope(id) => spaced("scope".spec_bytes(), hex_of(id)),
        Field::MarkerRequired(value) => spaced("marker-required".spec_bytes(), bool_text(value)),
        Field::CheckoutAllowed(value) => spaced("checkout-allowed".spec_bytes(), bool_text(value)),
        Field::HeadRef(name) => spaced("head-ref".spec_bytes(), quoted(name)),
        Field::EditRefs(value) => spaced("edit-refs".spec_bytes(), bool_text(value)),
        Field::Ref { old, target, follows_tip, editable, name } => spaced(
            "ref".spec_bytes(),
            spaced(
                old_text(old),
                spaced(
                    hex_of(target),
                    spaced(bool_text(follows_tip), spaced(bool_text(editable), quoted(name))),
                ),
            ),
        ),
        Field::Resolved(id) => spaced("resolved".spec_bytes(), hex_of(id)),
        Field::ContinuationSource(id) => spaced("continuation-source".spec_bytes(), hex_of(id)),
    }
}

/// The lines of several fields, without their endings.
pub open spec fn field_texts(fields: Seq<Field<Seq<u8>>>) -> Seq<Seq<u8>> {
    Seq::new(fields.len(), |i: int| field_text(fields[i]))
}

/// Lines with their endings, one after the other.
pub open spec fn terminated(texts: Seq<Seq<u8>>) -> Seq<u8>
    decreases texts.len(),
{
    if texts.len() == 0 {
        Seq::empty()
    } else {
        terminated(texts.drop_last()) + texts.last() + seq![LF]
    }
}

/// A field for each of several ids.
pub open spec fn tip_fields(ids: Seq<ObjectId>) -> Seq<Field<Seq<u8>>> {
    Seq::new(ids.len(), |i: int| Field::Tip(ids[i]))
}

/// A field for each of several ids.
pub open spec fn scope_fields(ids: Seq<ObjectId>) -> Seq<Field<Seq<u8>>> {
    Seq::new(ids.len(), |i: int| Field::Scope(ids[i]))
}

/// A field for each of several ids.
pub open spec fn source_fields(ids: Seq<ObjectId>) -> Seq<Field<Seq<u8>>> {
    Seq::new(ids.len(), |i: int| Field::ContinuationSource(ids[i]))
}

/// The field of a captured reference.
pub open spec fn ref_field(reference: ExpectedRef<Seq<u8>>) -> Field<Seq<u8>> {
    Field::Ref {
        old: reference.old,
        target: reference.target,
        follows_tip: reference.follows_tip,
        editable: reference.editable,
        name: reference.name,
    }
}

/// A field for each of several references.
pub open spec fn ref_fields(refs: Seq<ExpectedRef<Seq<u8>>>) -> Seq<Field<Seq<u8>>> {
    Seq::new(refs.len(), |i: int| ref_field(refs[i]))
}

/// The field of the branch that HEAD is on.
pub open spec fn head_fields(head_ref: Option<Seq<u8>>) -> Seq<Field<Seq<u8>>> {
    match head_ref {
        Some(name) => seq![Field::HeadRef(name)],
        None => Seq::empty(),
    }
}

/// The field of the commit whose conflict was materialized.
pub open spec fn resolved_fields(resolved: Option<ObjectId>) -> Seq<Field<Seq<u8>>> {
    match resolved {
        Some(id) => seq![Field::Resolved(id)],
        None => Seq::empty(),
    }
}

/// The fields of a state, in the order in which they are written.
pub open spec fn fields(state: TodoStateView) -> Seq<Field<Seq<u8>>> {
    seq![Field::Base(state.base), Field::Onto(state.onto)] + tip_fields(state.tips) + scope_fields(
        state.scope,
    ) + seq![
        Field::MarkerRequired(state.marker_required),
        Field::CheckoutAllowed(state.checkout_allowed),
    ] + head_fields(state.head_ref) + seq![Field::EditRefs(state.edit_refs)] + ref_fields(
        state.expected_refs,
    ) + resolved_fields(state.resolved) + source_fields(state.continuation_sources)
}

/// The state as a todo carries it.
pub open spec fn written(state: TodoStateView) -> Seq<u8> {
    STATE_START.spec_bytes() + terminated(field_texts(fields(state))) + STATE_END.spec_bytes()
        + seq![LF]
}

/// The state as it reads back: references as they were captured, without what a plan decides
/// about them.
pub open spec fn as_captured(state: TodoStateView) -> TodoStateView {
    TodoStateView {
        expected_refs: Seq::new(
            state.expected_refs.len(),
            |i: int|
                ExpectedRef {
                    new: state.expected_refs[i].old,
                    placement: None,
                    ..state.expected_refs[i]
                },
        ),
        ..state
    }
}

/// Whether a name is one of a reference, which has no spaces, and reads back from its quotation.
pub open spec fn name_reads_back(name: Seq<u8>) -> bool {
    valid_name(name) && graphic(name) && unquoted(quoted(name)) == Some((name, quoted(name).len()))
}

/// Whether the names of a field read back.
pub open spec fn names_read_back(field: Field<Seq<u8>>) -> bool {
    match field {
        Field::HeadRef(name) => name_reads_back(name),
        Field::Ref { name, .. } => name_reads_back(name),
        _ => true,
    }
}

/// Whether the start of a state would be found behind the given text, and not within it.
pub open spec fn starts_behind(text: Seq<u8>) -> bool {
    find_from(text + STATE_START.spec_bytes(), STATE_START.spec_bytes(), 0) == Some(
        text.len() as int,
    )
}

fn append_bool(out: &mut Vec<u8>, value: bool)
    ensures
        final(out)@ == old(out)@ + bool_text(value),
{
    if value {
        bytes::append(out, "true".as_bytes());
    } else {
        bytes::append(out, "false".as_bytes());
    }
}

fn append_id(out: &mut Vec<u8>, key: &[u8], id: ObjectId)
    ensures
        final(out)@ == old(out)@ + (spaced(key@, hex_of(id)) + seq![LF]),
{
    bytes::append(out, key);
    out.push(32);
    let hex = id.to_hex();
    bytes::append(out, hex.as_slice());
    out.push(LF);
    assert(out@ == old(out)@ + (spaced(key@, hex_of(id)) + seq![LF]));
}

fn append_flag(out: &mut Vec<u8>, key: &[u8], value: bool)
    ensures
        final(out)@ == old(out)@ + (spaced(key@, bool_text(value)) + seq![LF]),
{
    bytes::append(out, key);
    out.push(32);
    append_bool(out, value);
    out.push(LF);
    assert(out@ == old(out)@ + (spaced(key@, bool_text(value)) + seq![LF]));
}

fn append_name(out: &mut Vec<u8>, name: &FullName)
    ensures
        final(out)@ == old(out)@ + quoted(name@),
        name_reads_back(name@),
{
    let text = names::quote(name.as_bytes());
    bytes::append(out, text.as_slice());
}

fn append_ref(
    out: &mut Vec<u8>,
    held: Option<ObjectId>,
    target: ObjectId,
    follows_tip: bool,
    editable: bool,
    name: &FullName,
)
    ensures
        final(out)@ == old(out)@ + spaced(
            old_text(held),
            spaced(
                hex_of(target),
                spaced(bool_text(follows_tip), spaced(bool_text(editable), quoted(name@))),
            ),
        ),
        name_reads_back(name@),
{
    match held {
        Some(id) => {
            let hex = id.to_hex();
            bytes::append(out, hex.as_slice());
        },
        None => bytes::append(out, "-".as_bytes()),
    }
    out.push(32);
    let hex = target.to_hex();
    bytes::append(out, hex.as_slice());
    out.push(32);
    append_bool(out, follows_tip);
    out.push(32);
    append_bool(out, editable);
    out.push(32);
    append_name(out, name);
    proof {
        let last = spaced(bool_text(editable), quoted(name@));
        let third = spaced(bool_text(follows_tip), last);
        let second = spaced(hex_of(target), third);
        assert(out@ == old(out)@ + spaced(old_text(held), second));
    }
}

fn write_field(out: &mut Vec<u8>, field: &Field<FullName>)
    ensures
        final(out)@ == old(out)@ + (field_text(field@) + seq![LF]),
        names_read_back(field@),
{
    match field {
        Field::Base(id) => append_id(out, "base".as_bytes(), *id),
        Field::Onto(id) => append_id(out, "onto".as_bytes(), *id),
        Field::Tip(id) => append_id(out, "tip".as_bytes(), *id),
        Field::Scope(id) => append_id(out, "scope".as_bytes(), *id),
        Field::MarkerRequired(value) => append_flag(out, "marker-required".as_bytes(), *value),
        Field::CheckoutAllowed(value) => append_flag(out, "checkout-allowed".as_bytes(), *value),
        Field::HeadRef(name) => {
            bytes::append(out, "head-ref".as_bytes());
            out.push(32);
            append_name(out, name);
            out.push(LF);
            assert(out@ == old(out)@ + (field_text(field@) + seq![LF]));
        },
        Field::EditRefs(value) => append_flag(out, "edit-refs".as_bytes(), *value),
        Field::Ref { old: held, target, follows_tip, editable, name } => {
            bytes::append(out, "ref".as_bytes());
            out.push(32);
            append_ref(out, *held, *target, *follows_tip, *editable, name);
            out.push(LF);
            assert(out@ == old(out)@ + (field_text(field@) + seq![LF]));
        },
        Field::Resolved(id) => append_id(out, "resolved".as_bytes(), *id),
        Field::ContinuationSource(id) => append_id(out, "continuation-source".as_bytes(), *id),
    }
}

fn push_field(out: &mut Vec<Field<FullName>>, field: Field<FullName>)
    ensures
        viewed(final(out)@) == viewed(old(out)@).push(field@),
{
    proof {
        viewed_push(out@, field);
    }
    out.push(field);
}

/// The fields of a state, in the order in which they are written.
#[verifier::loop_isolation(false)]
fn state_fields(state: &TodoState) -> (r: Vec<Field<FullName>>)
    ensures
        viewed(r@) == fields(state@),
{
    let mut out: Vec<Field<FullName>> = Vec::new();
    assert(viewed(out@) == Seq::<Field<Seq<u8>>>::empty());
    push_field(&mut out, Field::Base(state.base));
    push_field(&mut out, Field::Onto(state.onto));
    let ghost before = viewed(out@);
    assert(before == seq![Field::<Seq<u8>>::Base(state@.base), Field::Onto(state@.onto)]);
    let mut i: usize = 0;
    while i < state.tips.len()
        invariant
            i <= state.tips@.len(),
            viewed(out@) == before + tip_fields(state.tips@.take(i as int)),
        decreases state.tips.len() - i,
    {
        push_field(&mut out, Field::Tip(state.tips[i]));
        i = i + 1;
        assert(viewed(out@) == before + tip_fields(state.tips@.take(i as int)));
    }
    assert(state.tips@.take(i as int) == state.tips@);
    let ghost before = viewed(out@);
    let mut i: usize = 0;
    while i < state.scope.len()
        invariant
            i <= state.scope@.len(),
            viewed(out@) == before + scope_fields(state.scope@.take(i as int)),
        decreases state.scope.len() - i,
    {
        push_field(&mut out, Field::Scope(state.scope[i]));
        i = i + 1;
        assert(viewed(out@) == before + scope_fields(state.scope@.take(i as int)));
    }
    assert(state.scope@.take(i as int) == state.scope@);
    let ghost before = viewed(out@);
    push_field(&mut out, Field::MarkerRequired(state.marker_required));
    push_field(&mut out, Field::CheckoutAllowed(state.checkout_allowed));
    assert(viewed(out@) == before + seq![
        Field::MarkerRequired(state@.marker_required),
        Field::CheckoutAllowed(state@.checkout_allowed),
    ]);
    let ghost before = viewed(out@);
    if let Some(name) = &state.head_ref {
        push_field(&mut out, Field::HeadRef(name.clone()));
    }
    assert(viewed(out@) == before + head_fields(state@.head_ref));
    let ghost before = viewed(out@);
    push_field(&mut out, Field::EditRefs(state.edit_refs));
    assert(viewed(out@) == before + seq![Field::EditRefs(state@.edit_refs)]);
    let ghost before = viewed(out@);
    let refs = &state.expected_refs;
    let mut i: usize = 0;
    while i < refs.len()
        invariant
            i <= refs@.len(),
            viewed(out@) == before + ref_fields(viewed(refs@).take(i as int)),
        decreases refs.len() - i,
    {
        let reference = &refs[i];
        push_field(
            &mut out,
            Field::Ref {
                old: reference.old,
                target: reference.target,
                follows_tip: reference.follows_tip,
                editable: reference.editable,
                name: reference.name.clone(),
            },
        );
        i = i + 1;
        assert(viewed(out@) == before + ref_fields(viewed(refs@).take(i as int)));
    }
    assert(viewed(refs@).take(i as int) == viewed(refs@));
    let ghost before = viewed(out@);
    if let Some(id) = state.resolved {
        push_field(&mut out, Field::Resolved(id));
    }
    assert(viewed(out@) == before + resolved_fields(state@.resolved));
    let ghost before = viewed(out@);
    let sources = &state.continuation_sources;
    let mut i: usize = 0;
    while i < sources.len()
        invariant
            i <= sources@.len(),
            viewed(out@) == before + source_fields(sources@.take(i as int)),
        decreases sources.len() - i,
    {
        push_field(&mut out, Field::ContinuationSource(sources[i]));
        i = i + 1;
        assert(viewed(out@) == before + source_fields(sources@.take(i as int)));
    }
    assert(sources@.take(i as int) == sources@);
    out
}

/// Writes the state to the end of a todo. Unless the text before it could be taken for the start
/// of a state, the todo then carries that state.
pub fn write_state(out: &mut Vec<u8>, state: &TodoState)
    ensures
        final(out)@ == old(out)@ + written(state@),
        starts_behind(old(out)@) ==> recorded(final(out)@) == Ok::<_, TodoError>(
            Some(as_captured(state@)),
        ),
        forall|i: int|
            0 <= i < fields(state@).len() ==> names_read_back(#[trigger] fields(state@)[i]),
{
    let fields = state_fields(state);
    bytes::append(out, STATE_START.as_bytes());
    let ghost start = out@;
    let ghost texts = field_texts(viewed(fields@));
    let mut i: usize = 0;
    assert(texts.take(0) == Seq::<Seq<u8>>::empty());
    assert(out@ == start + terminated(texts.take(0)));
    while i < fields.len()
        invariant
            texts == field_texts(viewed(fields@)),
            i <= fields@.len(),
            out@ == start + terminated(texts.take(i as int)),
            forall|j: int| 0 <= j < i ==> names_read_back(#[trigger] viewed(fields@)[j]),
        decreases fields.len() - i,
    {
        let ghost before = out@;
        write_field(out, &fields[i]);
        proof {
            assert(texts.take(i + 1).drop_last() == texts.take(i as int));
            assert(texts.take(i + 1).last() == field_text(fields@[i as int]@));
            assert(out@ == start + terminated(texts.take(i + 1)));
        }
        i = i + 1;
    }
    assert(texts.take(i as int) == texts);
    bytes::append(out, STATE_END.as_bytes());
    out.push(LF);
    proof {
        assert(out@ == old(out)@ + written(state@));
        if starts_behind(old(out)@) {
            state_reads_back(old(out)@, state@);
        }
    }
}

pub(crate) proof fn key_bytes()
    ensures
        "base".spec_bytes() == seq![98u8, 97, 115, 101],
        "onto".spec_bytes() == seq![111u8, 110, 116, 111],
        "tip".spec_bytes() == seq![116u8, 105, 112],
        "scope".spec_bytes() == seq![115u8, 99, 111, 112, 101],
        "marker-required".spec_bytes() == seq![109u8, 97, 114, 107, 101, 114, 45, 114, 101, 113, 117, 105, 114, 101, 100],
        "checkout-allowed".spec_bytes() == seq![99u8, 104, 101, 99, 107, 111, 117, 116, 45, 97, 108, 108, 111, 119, 101, 100],
        "head-ref".spec_bytes() == seq![104u8, 101, 97, 100, 45, 114, 101, 102],
        "edit-refs".spec_bytes() == seq![101u8, 100, 105, 116, 45, 114, 101, 102, 115],
        "ref".spec_bytes() == seq![114u8, 101, 102],
        "resolved".spec_bytes() == seq![114u8, 101, 115, 111, 108, 118, 101, 100],
        "continuation-source".spec_bytes() == seq![99u8, 111, 110, 116, 105, 110, 117, 97, 116, 105, 111, 110, 45, 115, 111, 117, 114, 99, 101],
        "true".spec_bytes() == seq![116u8, 114, 117, 101],
        "false".spec_bytes() == seq![102u8, 97, 108, 115, 101],
        "-".spec_bytes() == seq![45u8],
{
    broadcast use vstd::string::is_ascii_spec_bytes;

    reveal_strlit("base");
    assert(vstd::string::is_ascii("base"));
    assert("base".spec_bytes() =~= seq![98u8, 97, 115, 101]);
    reveal_strlit("onto");
    assert(vstd::string::is_ascii("onto"));
    assert("onto".spec_bytes() =~= seq![111u8, 110, 116, 111]);
    reveal_strlit("tip");
    assert(vstd::string::is_ascii("tip"));
    assert("tip".spec_bytes() =~= seq![116u8, 105, 112]);
    reveal_strlit("scope");
    assert(vstd::string::is_ascii("scope"));
    assert("scope".spec_bytes() =~= seq![115u8, 99, 111, 112, 101]);
    reveal_strlit("marker-required");
    assert(vstd::string::is_ascii("marker-required"));
    assert("marker-required".spec_bytes() =~= seq![109u8, 97, 114, 107, 101, 114, 45, 114, 101, 113, 117, 105, 114, 101, 100]);
    reveal_strlit("checkout-allowed");
    assert(vstd::string::is_ascii("checkout-allowed"));
    assert("checkout-allowed".spec_bytes() =~= seq![99u8, 104, 101, 99, 107, 111, 117, 116, 45, 97, 108, 108, 111, 119, 101, 100]);
    reveal_strlit("head-ref");
    assert(vstd::string::is_ascii("head-ref"));
    assert("head-ref".spec_bytes() =~= seq![104u8, 101, 97, 100, 45, 114, 101, 102]);
    reveal_strlit("edit-refs");
    assert(vstd::string::is_ascii("edit-refs"));
    assert("edit-refs".spec_bytes() =~= seq![101u8, 100, 105, 116, 45, 114, 101, 102, 115]);
    reveal_strlit("ref");
    assert(vstd::string::is_ascii("ref"));
    assert("ref".spec_bytes() =~= seq![114u8, 101, 102]);
    reveal_strlit("resolved");
    assert(vstd::string::is_ascii("resolved"));
    assert("resolved".spec_bytes() =~= seq![114u8, 101, 115, 111, 108, 118, 101, 100]);
    reveal_strlit("continuation-source");
    assert(vstd::string::is_ascii("continuation-source"));
    assert("continuation-source".spec_bytes() =~= seq![99u8, 111, 110, 116, 105, 110, 117, 97, 116, 105, 111, 110, 45, 115, 111, 117, 114, 99, 101]);
    reveal_strlit("true");
    assert(vstd::string::is_ascii("true"));
    assert("true".spec_bytes() =~= seq![116u8, 114, 117, 101]);
    reveal_strlit("false");
    assert(vstd::string::is_ascii("false"));
    assert("false".spec_bytes() =~= seq![102u8, 97, 108, 115, 101]);
    reveal_strlit("-");
    assert(vstd::string::is_ascii("-"));
    assert("-".spec_bytes() =~= seq![45u8]);
}

proof fn anchor_bytes()
    ensures
        STATE_END.spec_bytes() == seq![45u8, 45, 62],
        STATE_CLOSE.spec_bytes() == seq![10u8, 45, 45, 62],
        STATE_START.spec_bytes().len() == 25,
{
    broadcast use vstd::string::is_ascii_spec_bytes;

    reveal_strlit("-->");
    reveal_strlit("\n-->");
    reveal_strlit("<!-- tix-rebase-state-v2\n");
    assert(vstd::string::is_ascii(STATE_END));
    assert(vstd::string::is_ascii(STATE_CLOSE));
    assert(STATE_END.spec_bytes() =~= seq![45u8, 45, 62]);
    assert(STATE_CLOSE.spec_bytes() =~= seq![10u8, 45, 45, 62]);
    assert(vstd::string::is_ascii(STATE_START));
}

/// What stands before the first occurrence of a byte is split off.
proof fn split_behind(a: Seq<u8>, b: Seq<u8>, byte: u8)
    requires
        forall|i: int| 0 <= i < a.len() ==> a[i] != byte,
    ensures
        find_byte_from(a + seq![byte] + b, byte, 0) == Some(a.len() as int),
        split_at_byte(a + seq![byte] + b, byte) == Some((a, b)),
{
    let all = a + seq![byte] + b;
    find_byte_bounds(all, byte, 0);
    assert(all[a.len() as int] == byte);
    let found = find_byte_from(all, byte, 0);
    if let Some(i) = found {
        if i < a.len() {
            assert(all[i] == a[i]);
        }
    }
    assert(all.take(a.len() as int) == a);
    assert(all.skip(a.len() as int + 1) == b);
}

pub(crate) proof fn hex_has_no_space(id: ObjectId)
    ensures
        forall|i: int| 0 <= i < hex_of(id).len() ==> hex_of(id)[i] != 32 && hex_of(id)[i] >= 45,
        hex_of(id).len() == 40,
        id_value(hex_of(id)) == Ok::<_, TodoError>(id),
        hex_of(id) != "-".spec_bytes(),
{
    hex_round_trip(id);
    key_bytes();
    assert(seq![45u8].len() == 1);
}

proof fn bool_reads_back(value: bool)
    ensures
        bool_value(bool_text(value)) == Ok::<_, TodoError>(value),
        forall|i: int| 0 <= i < bool_text(value).len() ==> bool_text(value)[i] != 32,
{
    key_bytes();
    assert("true".spec_bytes().len() != "false".spec_bytes().len());
}

proof fn name_value_reads_back(name: Seq<u8>, a: TodoError, b: TodoError, c: TodoError)
    requires
        name_reads_back(name),
    ensures
        name_value(quoted(name), a, b, c) == Ok::<_, TodoError>(name),
{
    let rest = quoted(name).skip(quoted(name).len() as int);
    assert(rest == Seq::<u8>::empty());
    assert(bytes::trimmed_start(rest) == rest);
    assert(bytes::trimmed_end(rest) == rest);
}

/// The keys are different from each other.
proof fn keys_differ()
    ensures
        "base".spec_bytes() != "onto".spec_bytes(),
        "base".spec_bytes() != "tip".spec_bytes(),
        "base".spec_bytes() != "scope".spec_bytes(),
        "base".spec_bytes() != "resolved".spec_bytes(),
        "base".spec_bytes() != "continuation-source".spec_bytes(),
        "base".spec_bytes() != "marker-required".spec_bytes(),
        "base".spec_bytes() != "checkout-allowed".spec_bytes(),
        "base".spec_bytes() != "edit-refs".spec_bytes(),
        "base".spec_bytes() != "head-ref".spec_bytes(),
        "base".spec_bytes() != "ref".spec_bytes(),
        "onto".spec_bytes() != "tip".spec_bytes(),
        "onto".spec_bytes() != "scope".spec_bytes(),
        "onto".spec_bytes() != "resolved".spec_bytes(),
        "onto".spec_bytes() != "continuation-source".spec_bytes(),
        "onto".spec_bytes() != "marker-required".spec_bytes(),
        "onto".spec_bytes() != "checkout-allowed".spec_bytes(),
        "onto".spec_bytes() != "edit-refs".spec_bytes(),
        "onto".spec_bytes() != "head-ref".spec_bytes(),
        "onto".spec_bytes() != "ref".spec_bytes(),
        "tip".spec_bytes() != "scope".spec_bytes(),
        "tip".spec_bytes() != "resolved".spec_bytes(),
        "tip".spec_bytes() != "continuation-source".spec_bytes(),
        "tip".spec_bytes() != "marker-required".spec_bytes(),
        "tip".spec_bytes() != "checkout-allowed".spec_bytes(),
        "tip".spec_bytes() != "edit-refs".spec_bytes(),
        "tip".spec_bytes() != "head-ref".spec_bytes(),
        "tip".spec_bytes() != "ref".spec_bytes(),
        "scope".spec_bytes() != "resolved".spec_bytes(),
        "scope".spec_bytes() != "continuation-source".spec_bytes(),
        "scope".spec_bytes() != "marker-required".spec_bytes(),
        "scope".spec_bytes() != "checkout-allowed".spec_bytes(),
        "scope".spec_bytes() != "edit-refs".spec_bytes(),
        "scope".spec_bytes() != "head-ref".spec_bytes(),
        "scope".spec_bytes() != "ref".spec_bytes(),
        "resolved".spec_bytes() != "continuation-source".spec_bytes(),
        "resolved".spec_bytes() != "marker-required".spec_bytes(),
        "resolved".spec_bytes() != "checkout-allowed".spec_bytes(),
        "resolved".spec_bytes() != "edit-refs".spec_bytes(),
        "resolved".spec_bytes() != "head-ref".spec_bytes(),
        "resolved".spec_bytes() != "ref".spec_bytes(),
        "continuation-source".spec_bytes() != "marker-required".spec_bytes(),
        "continuation-source".spec_bytes() != "checkout-allowed".spec_bytes(),
        "continuation-source".spec_bytes() != "edit-refs".spec_bytes(),
        "continuation-source".spec_bytes() != "head-ref".spec_bytes(),
        "continuation-source".spec_bytes() != "ref".spec_bytes(),
        "marker-required".spec_bytes() != "checkout-allowed".spec_bytes(),
        "marker-required".spec_bytes() != "edit-refs".spec_bytes(),
        "marker-required".spec_bytes() != "head-ref".spec_bytes(),
        "marker-required".spec_bytes() != "ref".spec_bytes(),
        "checkout-allowed".spec_bytes() != "edit-refs".spec_bytes(),
        "checkout-allowed".spec_bytes() != "head-ref".spec_bytes(),
        "checkout-allowed".spec_bytes() != "ref".spec_bytes(),
        "edit-refs".spec_bytes() != "head-ref".spec_bytes(),
        "edit-refs".spec_bytes() != "ref".spec_bytes(),
        "head-ref".spec_bytes() != "ref".spec_bytes(),
{
    key_bytes();
    assert("base".spec_bytes()[0] != "onto".spec_bytes()[0]);
    assert("tip".spec_bytes()[0] != "ref".spec_bytes()[0]);
    assert("head-ref".spec_bytes()[0] != "resolved".spec_bytes()[0]);
    assert("base".spec_bytes().len() == 4);
    assert("tip".spec_bytes().len() == 3);
    assert("ref".spec_bytes().len() == 3);
    assert("onto".spec_bytes().len() == 4);
    assert("scope".spec_bytes().len() == 5);
    assert("resolved".spec_bytes().len() == 8);
    assert("head-ref".spec_bytes().len() == 8);
    assert("continuation-source".spec_bytes().len() == 19);
    assert("marker-required".spec_bytes().len() == 15);
    assert("checkout-allowed".spec_bytes().len() == 16);
    assert("edit-refs".spec_bytes().len() == 9);
}

/// No key has a space.
proof fn keys_split(key: Seq<u8>, value: Seq<u8>)
    requires
        forall|i: int| 0 <= i < key.len() ==> key[i] != 32,
    ensures
        split_at_byte(spaced(key, value), 32) == Some((key, value)),
{
    split_behind(key, value, 32);
}

proof fn ref_reads_back(
    old: Option<ObjectId>,
    target: ObjectId,
    follows_tip: bool,
    editable: bool,
    name: Seq<u8>,
)
    requires
        name_reads_back(name),
    ensures
        ref_value(
            spaced(
                old_text(old),
                spaced(
                    hex_of(target),
                    spaced(bool_text(follows_tip), spaced(bool_text(editable), quoted(name))),
                ),
            ),
        ) == Ok::<_, TodoError>(Field::Ref { old, target, follows_tip, editable, name }),
{
    name_value_reads_back(
        name,
        TodoError::MalformedRef,
        TodoError::RefTrailingData,
        TodoError::InvalidRef,
    );
    bool_reads_back(follows_tip);
    bool_reads_back(editable);
    hex_has_no_space(target);
    if let Some(id) = old {
        hex_has_no_space(id);
    } else {
        key_bytes();
    }
    let last = spaced(bool_text(editable), quoted(name));
    let third = spaced(bool_text(follows_tip), last);
    let second = spaced(hex_of(target), third);
    let first = spaced(old_text(old), second);
    keys_split(bool_text(editable), quoted(name));
    keys_split(bool_text(follows_tip), last);
    keys_split(hex_of(target), third);
    keys_split(old_text(old), second);
    assert(editable_value(last) == (editable, quoted(name)));
}

/// The line of a field that holds an id splits into its key and that id.
proof fn id_line_splits(key: Seq<u8>, id: ObjectId)
    requires
        forall|i: int| 0 <= i < key.len() ==> key[i] != 32,
    ensures
        split_at_byte(spaced(key, hex_of(id)), 32) == Some((key, hex_of(id))),
        id_value(hex_of(id)) == Ok::<_, TodoError>(id),
{
    hex_has_no_space(id);
    keys_split(key, hex_of(id));
}

/// The line of a field that holds a truth value splits into its key and that value.
proof fn bool_line_splits(key: Seq<u8>, value: bool)
    requires
        forall|i: int| 0 <= i < key.len() ==> key[i] != 32,
    ensures
        split_at_byte(spaced(key, bool_text(value)), 32) == Some((key, bool_text(value))),
        bool_value(bool_text(value)) == Ok::<_, TodoError>(value),
{
    bool_reads_back(value);
    keys_split(key, bool_text(value));
}

/// No key has a space.
proof fn keys_have_no_space()
    ensures
        forall|i: int| 0 <= i < "base".spec_bytes().len() ==> "base".spec_bytes()[i] != 32,
        forall|i: int| 0 <= i < "onto".spec_bytes().len() ==> "onto".spec_bytes()[i] != 32,
        forall|i: int| 0 <= i < "tip".spec_bytes().len() ==> "tip".spec_bytes()[i] != 32,
        forall|i: int| 0 <= i < "scope".spec_bytes().len() ==> "scope".spec_bytes()[i] != 32,
        forall|i: int| 0 <= i < "resolved".spec_bytes().len() ==> "resolved".spec_bytes()[i] != 32,
        forall|i: int| 0 <= i < "continuation-source".spec_bytes().len() ==> "continuation-source".spec_bytes()[i] != 32,
        forall|i: int| 0 <= i < "marker-required".spec_bytes().len() ==> "marker-required".spec_bytes()[i] != 32,
        forall|i: int| 0 <= i < "checkout-allowed".spec_bytes().len() ==> "checkout-allowed".spec_bytes()[i] != 32,
        forall|i: int| 0 <= i < "edit-refs".spec_bytes().len() ==> "edit-refs".spec_bytes()[i] != 32,
        forall|i: int| 0 <= i < "head-ref".spec_bytes().len() ==> "head-ref".spec_bytes()[i] != 32,
        forall|i: int| 0 <= i < "ref".spec_bytes().len() ==> "ref".spec_bytes()[i] != 32,
{
    key_bytes();
}

/// A field reads back from its line.
proof fn field_reads_back(field: Field<Seq<u8>>)
    requires
        names_read_back(field),
    ensures
        field_of(field_text(field)) == Ok::<_, TodoError>(field),
{
    keys_differ();
    keys_have_no_space();
    match field {
        Field::Base(id) => id_line_splits("base".spec_bytes(), id),
        Field::Onto(id) => id_line_splits("onto".spec_bytes(), id),
        Field::Tip(id) => id_line_splits("tip".spec_bytes(), id),
        Field::Scope(id) => id_line_splits("scope".spec_bytes(), id),
        Field::Resolved(id) => id_line_splits("resolved".spec_bytes(), id),
        Field::ContinuationSource(id) => id_line_splits("continuation-source".spec_bytes(), id),
        Field::MarkerRequired(value) => bool_line_splits("marker-required".spec_bytes(), value),
        Field::CheckoutAllowed(value) => bool_line_splits("checkout-allowed".spec_bytes(), value),
        Field::EditRefs(value) => bool_line_splits("edit-refs".spec_bytes(), value),
        Field::HeadRef(name) => {
            name_value_reads_back(
                name,
                TodoError::MalformedHeadRef,
                TodoError::HeadRefTrailingData,
                TodoError::InvalidHeadRef,
            );
            keys_split("head-ref".spec_bytes(), quoted(name));
        },
        Field::Ref { old, target, follows_tip, editable, name } => {
            ref_reads_back(old, target, follows_tip, editable, name);
            keys_split(
                "ref".spec_bytes(),
                spaced(
                    old_text(old),
                    spaced(
                        hex_of(target),
                        spaced(bool_text(follows_tip), spaced(bool_text(editable), quoted(name))),
                    ),
                ),
            );
        },
    }
}

/// A line that can be told from the ends of lines around it, and from what closes the state.
spec fn proper(text: Seq<u8>) -> bool {
    &&& text.len() > 0
    &&& text[0] != 45
    &&& text.last() != bytes::CR
    &&& forall|i: int| 0 <= i < text.len() ==> text[i] != LF
}

proof fn spaced_is_proper(key: Seq<u8>, value: Seq<u8>)
    requires
        proper(key),
        value.len() > 0 ==> value.last() != bytes::CR,
        forall|i: int| 0 <= i < value.len() ==> value[i] != LF,
    ensures
        proper(spaced(key, value)),
{
    let text = spaced(key, value);
    assert forall|i: int| 0 <= i < text.len() implies text[i] != LF by {
        if i < key.len() {
            assert(text[i] == key[i]);
        } else if i > key.len() {
            assert(text[i] == value[i - key.len() - 1]);
        }
    }
    if value.len() > 0 {
        assert(text.last() == value.last());
    } else {
        assert(text.last() == 32);
    }
}

spec fn printable(text: Seq<u8>) -> bool {
    forall|i: int| 0 <= i < text.len() ==> 32 <= text[i]
}

proof fn spaced_is_printable(a: Seq<u8>, b: Seq<u8>)
    requires
        printable(a),
        printable(b),
    ensures
        printable(spaced(a, b)),
{
    let text = spaced(a, b);
    assert forall|i: int| 0 <= i < text.len() implies 32 <= text[i] by {
        if i < a.len() {
            assert(text[i] == a[i]);
        } else if i > a.len() {
            assert(text[i] == b[i - a.len() - 1]);
        }
    }
}

proof fn value_is_proper(key: Seq<u8>, value: Seq<u8>)
    requires
        proper(key),
        printable(value),
    ensures
        proper(spaced(key, value)),
{
    if value.len() > 0 {
        assert(32 <= value[value.len() - 1]);
    }
    spaced_is_proper(key, value);
}

proof fn keys_are_proper()
    ensures
        proper("base".spec_bytes()),
        proper("onto".spec_bytes()),
        proper("tip".spec_bytes()),
        proper("scope".spec_bytes()),
        proper("resolved".spec_bytes()),
        proper("continuation-source".spec_bytes()),
        proper("marker-required".spec_bytes()),
        proper("checkout-allowed".spec_bytes()),
        proper("edit-refs".spec_bytes()),
        proper("head-ref".spec_bytes()),
        proper("ref".spec_bytes()),
{
    key_bytes();
}

proof fn values_are_printable(id: ObjectId, value: bool, name: Seq<u8>)
    ensures
        printable(hex_of(id)),
        printable(bool_text(value)),
        printable(quoted(name)),
        printable("-".spec_bytes()),
{
    hex_has_no_space(id);
    key_bytes();
    names::quoted_is_printable(name);
}

proof fn ref_is_printable(
    old: Option<ObjectId>,
    target: ObjectId,
    follows_tip: bool,
    editable: bool,
    name: Seq<u8>,
)
    ensures
        printable(
            spaced(
                old_text(old),
                spaced(
                    hex_of(target),
                    spaced(bool_text(follows_tip), spaced(bool_text(editable), quoted(name))),
                ),
            ),
        ),
{
    values_are_printable(target, follows_tip, name);
    values_are_printable(target, editable, name);
    if let Some(id) = old {
        values_are_printable(id, editable, name);
    }
    let last = spaced(bool_text(editable), quoted(name));
    spaced_is_printable(bool_text(editable), quoted(name));
    let third = spaced(bool_text(follows_tip), last);
    spaced_is_printable(bool_text(follows_tip), last);
    spaced_is_printable(hex_of(target), third);
    spaced_is_printable(old_text(old), spaced(hex_of(target), third));
}

proof fn id_line_is_proper(key: Seq<u8>, id: ObjectId)
    requires
        proper(key),
    ensures
        proper(spaced(key, hex_of(id))),
{
    values_are_printable(id, true, Seq::empty());
    value_is_proper(key, hex_of(id));
}

proof fn bool_line_is_proper(key: Seq<u8>, value: bool)
    requires
        proper(key),
    ensures
        proper(spaced(key, bool_text(value))),
{
    values_are_printable(ObjectId { high: 0, low: 0 }, value, Seq::empty());
    value_is_proper(key, bool_text(value));
}

proof fn field_is_proper(field: Field<Seq<u8>>)
    ensures
        proper(field_text(field)),
{
    keys_are_proper();
    match field {
        Field::Base(id) => id_line_is_proper("base".spec_bytes(), id),
        Field::Onto(id) => id_line_is_proper("onto".spec_bytes(), id),
        Field::Tip(id) => id_line_is_proper("tip".spec_bytes(), id),
        Field::Scope(id) => id_line_is_proper("scope".spec_bytes(), id),
        Field::Resolved(id) => id_line_is_proper("resolved".spec_bytes(), id),
        Field::ContinuationSource(id) => id_line_is_proper("continuation-source".spec_bytes(), id),
        Field::MarkerRequired(value) => bool_line_is_proper("marker-required".spec_bytes(), value),
        Field::CheckoutAllowed(value) => bool_line_is_proper(
            "checkout-allowed".spec_bytes(),
            value,
        ),
        Field::EditRefs(value) => bool_line_is_proper("edit-refs".spec_bytes(), value),
        Field::HeadRef(name) => {
            names::quoted_is_printable(name);
            value_is_proper("head-ref".spec_bytes(), quoted(name));
        },
        Field::Ref { old, target, follows_tip, editable, name } => {
            ref_is_printable(old, target, follows_tip, editable, name);
            value_is_proper(
                "ref".spec_bytes(),
                spaced(
                    old_text(old),
                    spaced(
                        hex_of(target),
                        spaced(bool_text(follows_tip), spaced(bool_text(editable), quoted(name))),
                    ),
                ),
            );
        },
    }
}

proof fn terminated_front(texts: Seq<Seq<u8>>)
    requires
        texts.len() > 0,
    ensures
        terminated(texts) == texts[0] + seq![LF] + terminated(texts.skip(1)),
    decreases texts.len(),
{
    if texts.len() == 1 {
        assert(texts.drop_last() == Seq::<Seq<u8>>::empty());
        assert(texts.skip(1) == Seq::<Seq<u8>>::empty());
    } else {
        terminated_front(texts.drop_last());
        assert(texts.skip(1).drop_last() == texts.drop_last().skip(1));
        assert(texts.skip(1).last() == texts.last());
    }
}

pub(crate) proof fn fields_fit_lines(field: Field<Seq<u8>>)
    ensures
        field_text(field).len() > 0,
        field_text(field).last() != bytes::CR,
        bytes::unbroken(field_text(field)),
{
    field_is_proper(field);
}

proof fn lines_of_terminated(texts: Seq<Seq<u8>>)
    requires
        texts.len() > 0,
        forall|i: int| 0 <= i < texts.len() ==> proper(#[trigger] texts[i]),
    ensures
        terminated(texts).len() > 0,
        lines(terminated(texts).drop_last()) == texts,
    decreases texts.len(),
{
    terminated_front(texts);
    let text = texts[0];
    let rest = terminated(texts.skip(1));
    assert(proper(text));
    if texts.len() == 1 {
        assert(texts.skip(1) == Seq::<Seq<u8>>::empty());
        assert(terminated(texts).drop_last() == text);
        find_byte_bounds(text, LF, 0);
        assert(lines(text) == seq![text]);
        assert(texts == seq![text]);
    } else {
        assert forall|i: int| 0 <= i < texts.skip(1).len() implies proper(
            #[trigger] texts.skip(1)[i],
        ) by {
            assert(proper(texts[i + 1]));
        }
        lines_of_terminated(texts.skip(1));
        let all = terminated(texts).drop_last();
        assert(all == text + seq![LF] + rest.drop_last());
        split_behind(text, rest.drop_last(), LF);
        assert(all.take(text.len() as int) == text);
        assert(all.skip(text.len() as int + 1) == rest.drop_last());
        assert(bytes::without_cr(text) == text);
        assert(lines(all) == seq![text] + lines(rest.drop_last()));
        assert(texts == seq![text] + texts.skip(1));
    }
}

proof fn dash_never_follows(texts: Seq<Seq<u8>>, at: int)
    requires
        forall|i: int| 0 <= i < texts.len() ==> proper(#[trigger] texts[i]),
        0 <= at,
        at + 1 < terminated(texts).len(),
        terminated(texts)[at] == LF,
    ensures
        terminated(texts)[at + 1] != 45,
    decreases texts.len(),
{
    terminated_front(texts);
    let text = texts[0];
    let rest = terminated(texts.skip(1));
    assert(proper(text));
    assert forall|i: int| 0 <= i < texts.skip(1).len() implies proper(
        #[trigger] texts.skip(1)[i],
    ) by {
        assert(proper(texts[i + 1]));
    }
    if at < text.len() {
        assert(terminated(texts)[at] == text[at]);
    } else if at == text.len() {
        assert(terminated(texts)[at + 1] == rest[0]);
        assert(texts.skip(1).len() > 0);
        terminated_front(texts.skip(1));
        assert(proper(texts.skip(1)[0]));
        assert(rest[0] == texts.skip(1)[0][0]);
    } else {
        assert(rest[at - text.len() - 1] == terminated(texts)[at]);
        dash_never_follows(texts.skip(1), at - text.len() - 1);
        assert(terminated(texts)[at + 1] == rest[at - text.len()]);
    }
}

pub(crate) proof fn found_first(all: Seq<u8>, pattern: Seq<u8>, from: int, at: int)
    requires
        0 <= from <= at,
        at + pattern.len() <= all.len(),
        all.subrange(at, at + pattern.len()) == pattern,
        forall|j: int| from <= j < at ==> #[trigger] all.subrange(j, j + pattern.len()) != pattern,
    ensures
        find_from(all, pattern, from) == Some(at),
    decreases at - from,
{
    if from < at {
        assert(all.subrange(from, from + pattern.len()) != pattern);
        found_first(all, pattern, from + 1, at);
    }
}

proof fn not_found_before(all: Seq<u8>, pattern: Seq<u8>, from: int, at: int, j: int)
    requires
        0 <= from <= j < at,
        find_from(all, pattern, from) == Some(at),
    ensures
        all.subrange(j, j + pattern.len()) != pattern,
        at + pattern.len() <= all.len(),
    decreases at - from,
{
    if from + pattern.len() <= all.len() && all.subrange(from, from + pattern.len()) != pattern {
        if from < j {
            not_found_before(all, pattern, from + 1, at, j);
        } else if from + 1 < at {
            not_found_before(all, pattern, from + 1, at, from + 1);
        }
    }
}

pub(crate) proof fn found_bounds(all: Seq<u8>, pattern: Seq<u8>, from: int)
    requires
        0 <= from,
    ensures
        find_from(all, pattern, from) matches Some(at) ==> from <= at && at + pattern.len()
            <= all.len() && all.subrange(at, at + pattern.len()) == pattern,
    decreases all.len() + 1 - from,
{
    if from + pattern.len() <= all.len() && all.subrange(from, from + pattern.len()) != pattern {
        found_bounds(all, pattern, from + 1);
    }
}

/// What a todo carries from the start of its state on says what state that is, whatever stands before it,
/// unless that looks like the start of a state.
pub proof fn starts_are_found(text: Seq<u8>, carried: Seq<u8>)
    requires
        starts_behind(text),
        bytes::has_prefix(carried, STATE_START.spec_bytes()),
    ensures
        state_text(text + carried) == state_text(carried),
        recorded(text + carried) == recorded(carried),
{
    let start = STATE_START.spec_bytes();
    let input = text + carried;
    let head = text + start;
    let behind = carried.skip(start.len() as int);
    assert(carried == carried.take(start.len() as int) + behind);
    assert(input == head + behind);
    assert forall|j: int| 0 <= j < text.len() implies #[trigger] input.subrange(
        j,
        j + start.len(),
    ) != start by {
        not_found_before(head, start, 0, text.len() as int, j);
        assert(input.subrange(j, j + start.len()) == head.subrange(j, j + start.len()));
    }
    assert(input.subrange(text.len() as int, text.len() as int + start.len()) == start);
    found_first(input, start, 0, text.len() as int);
    assert(carried.subrange(0, start.len() as int) == start);
    found_first(carried, start, 0, 0);
    assert(input.skip(text.len() as int + start.len()) == behind);
}

/// The text of the state that is written behind other text.
proof fn written_text(text: Seq<u8>, texts: Seq<Seq<u8>>)
    requires
        starts_behind(text),
        texts.len() > 0,
        forall|i: int| 0 <= i < texts.len() ==> proper(#[trigger] texts[i]),
    ensures
        state_text(
            text + (STATE_START.spec_bytes() + terminated(texts) + STATE_END.spec_bytes()
                + seq![LF]),
        ) == Ok::<_, TodoError>(Some(terminated(texts).drop_last())),
{
    anchor_bytes();
    let start = STATE_START.spec_bytes();
    let close = STATE_CLOSE.spec_bytes();
    let middle = terminated(texts);
    let input = text + (start + middle + STATE_END.spec_bytes() + seq![LF]);
    let head = text + start;
    lines_of_terminated(texts);
    // The state starts behind the text.
    assert forall|j: int| 0 <= j < text.len() implies #[trigger] input.subrange(
        j,
        j + start.len(),
    ) != start by {
        not_found_before(head, start, 0, text.len() as int, j);
        assert(input.subrange(j, j + start.len()) == head.subrange(j, j + start.len()));
    }
    assert(input.subrange(text.len() as int, text.len() as int + start.len()) == start);
    found_first(input, start, 0, text.len() as int);
    let body = input.skip(text.len() as int + start.len());
    assert(body == middle + STATE_END.spec_bytes() + seq![LF]);
    // It is closed behind the last line.
    let end = middle.len() - 1;
    terminated_ends(texts);
    assert(body.subrange(end, end + close.len()) == close);
    assert forall|j: int| 0 <= j < end implies #[trigger] body.subrange(j, j + close.len())
        != close by {
        if body.subrange(j, j + close.len()) == close {
            assert(body[j] == body.subrange(j, j + close.len())[0]);
            assert(body[j + 1] == body.subrange(j, j + close.len())[1]);
            assert(middle[j] == LF);
            dash_never_follows(texts, j);
            assert(middle[j + 1] == body[j + 1]);
        }
    }
    found_first(body, close, 0, end);
    // Nothing but a line feed follows.
    let rest = body.skip(end + close.len());
    assert(rest.len() == 1);
    found_bounds(rest, start, 0);
    assert(find_from(rest, start, 0) is None);
    assert(body.take(end) == middle.drop_last());
}

proof fn terminated_ends(texts: Seq<Seq<u8>>)
    requires
        texts.len() > 0,
    ensures
        terminated(texts).len() > 0,
        terminated(texts).last() == LF,
{
}

/// What is known of the state after several fields.
spec fn with_fields(state: PartialView, fields: Seq<Field<Seq<u8>>>) -> Result<
    PartialView,
    TodoError,
>
    decreases fields.len(),
{
    if fields.len() == 0 {
        Ok(state)
    } else {
        match with_field(state, fields[0]) {
            Ok(state) => with_fields(state, fields.skip(1)),
            Err(err) => Err(err),
        }
    }
}

proof fn lines_are_fields(state: PartialView, fields: Seq<Field<Seq<u8>>>, at: int)
    requires
        0 <= at <= fields.len(),
        forall|i: int| 0 <= i < fields.len() ==> names_read_back(#[trigger] fields[i]),
    ensures
        with_lines(state, field_texts(fields), at) == with_fields(state, fields.skip(at)),
    decreases fields.len() - at,
{
    if at < fields.len() {
        field_reads_back(fields[at]);
        assert(fields.skip(at)[0] == fields[at]);
        assert(fields.skip(at).skip(1) == fields.skip(at + 1));
        if let Ok(next) = with_field(state, fields[at]) {
            lines_are_fields(next, fields, at + 1);
        }
    }
}

proof fn with_fields_split(state: PartialView, a: Seq<Field<Seq<u8>>>, b: Seq<Field<Seq<u8>>>)
    ensures
        with_fields(state, a + b) == match with_fields(state, a) {
            Ok(state) => with_fields(state, b),
            Err(err) => Err(err),
        },
    decreases a.len(),
{
    if a.len() == 0 {
        assert(a + b == b);
    } else {
        assert((a + b)[0] == a[0]);
        assert((a + b).skip(1) == a.skip(1) + b);
        if let Ok(next) = with_field(state, a[0]) {
            with_fields_split(next, a.skip(1), b);
        }
    }
}

proof fn with_tips(state: PartialView, ids: Seq<ObjectId>)
    ensures
        with_fields(state, tip_fields(ids)) == Ok::<_, TodoError>(
            PartialView { tips: state.tips + ids, ..state },
        ),
    decreases ids.len(),
{
    if ids.len() == 0 {
        assert(state.tips + ids == state.tips);
    } else {
        let next = PartialView { tips: state.tips.push(ids[0]), ..state };
        assert(tip_fields(ids).skip(1) == tip_fields(ids.skip(1)));
        with_tips(next, ids.skip(1));
        assert(next.tips + ids.skip(1) == state.tips + ids);
    }
}

proof fn with_scope(state: PartialView, ids: Seq<ObjectId>)
    ensures
        with_fields(state, scope_fields(ids)) == Ok::<_, TodoError>(
            PartialView { scope: state.scope + ids, ..state },
        ),
    decreases ids.len(),
{
    if ids.len() == 0 {
        assert(state.scope + ids == state.scope);
    } else {
        let next = PartialView { scope: state.scope.push(ids[0]), ..state };
        assert(scope_fields(ids).skip(1) == scope_fields(ids.skip(1)));
        with_scope(next, ids.skip(1));
        assert(next.scope + ids.skip(1) == state.scope + ids);
    }
}

proof fn with_sources(state: PartialView, ids: Seq<ObjectId>)
    ensures
        with_fields(state, source_fields(ids)) == Ok::<_, TodoError>(
            PartialView { continuation_sources: state.continuation_sources + ids, ..state },
        ),
    decreases ids.len(),
{
    if ids.len() == 0 {
        assert(state.continuation_sources + ids == state.continuation_sources);
    } else {
        let next = PartialView {
            continuation_sources: state.continuation_sources.push(ids[0]),
            ..state
        };
        assert(source_fields(ids).skip(1) == source_fields(ids.skip(1)));
        with_sources(next, ids.skip(1));
        assert(next.continuation_sources + ids.skip(1) == state.continuation_sources + ids);
    }
}

spec fn captured_refs(refs: Seq<ExpectedRef<Seq<u8>>>) -> Seq<ExpectedRef<Seq<u8>>> {
    Seq::new(
        refs.len(),
        |i: int| ExpectedRef { new: refs[i].old, placement: None, ..refs[i] },
    )
}

proof fn with_refs(state: PartialView, refs: Seq<ExpectedRef<Seq<u8>>>)
    ensures
        with_fields(state, ref_fields(refs)) == Ok::<_, TodoError>(
            PartialView { expected_refs: state.expected_refs + captured_refs(refs), ..state },
        ),
    decreases refs.len(),
{
    if refs.len() == 0 {
        assert(state.expected_refs + captured_refs(refs) == state.expected_refs);
    } else {
        let first = ExpectedRef { new: refs[0].old, placement: None, ..refs[0] };
        let next = PartialView { expected_refs: state.expected_refs.push(first), ..state };
        assert(ref_fields(refs).skip(1) == ref_fields(refs.skip(1)));
        with_refs(next, refs.skip(1));
        assert(next.expected_refs + captured_refs(refs.skip(1)) == state.expected_refs
            + captured_refs(refs));
    }
}

proof fn with_one(state: PartialView, field: Field<Seq<u8>>)
    ensures
        with_fields(state, seq![field]) == with_field(state, field),
{
    assert(seq![field].skip(1) == Seq::<Field<Seq<u8>>>::empty());
    reveal_with_fuel(with_fields, 2);
}

/// The fields of a state make up that state.
proof fn fields_make_state(state: TodoStateView)
    ensures
        with_fields(nothing(), fields(state)) matches Ok(known) && completed(known) == Ok::<
            _,
            TodoError,
        >(as_captured(state)),
{
    let none = nothing();
    let s1 = PartialView { base: Some(state.base), ..none };
    let s2 = PartialView { onto: Some(state.onto), ..s1 };
    let ends = seq![Field::<Seq<u8>>::Base(state.base), Field::Onto(state.onto)];
    with_one(none, Field::Base(state.base));
    with_one(s1, Field::Onto(state.onto));
    with_fields_split(none, seq![Field::Base(state.base)], seq![Field::Onto(state.onto)]);
    assert(ends == seq![Field::<Seq<u8>>::Base(state.base)] + seq![Field::Onto(state.onto)]);
    let f2 = ends + tip_fields(state.tips);
    with_fields_split(none, ends, tip_fields(state.tips));
    with_tips(s2, state.tips);
    let s3 = PartialView { tips: state.tips, ..s2 };
    assert(s2.tips + state.tips == state.tips);
    let f3 = f2 + scope_fields(state.scope);
    with_fields_split(none, f2, scope_fields(state.scope));
    with_scope(s3, state.scope);
    let s4 = PartialView { scope: state.scope, ..s3 };
    assert(s3.scope + state.scope == state.scope);
    let marker = Field::<Seq<u8>>::MarkerRequired(state.marker_required);
    let allowed = Field::<Seq<u8>>::CheckoutAllowed(state.checkout_allowed);
    let f4 = f3 + seq![marker, allowed];
    with_fields_split(none, f3, seq![marker, allowed]);
    let s5 = PartialView { marker_required: Some(state.marker_required), ..s4 };
    let s6 = PartialView { checkout_allowed: Some(state.checkout_allowed), ..s5 };
    with_one(s4, marker);
    with_one(s5, allowed);
    with_fields_split(s4, seq![marker], seq![allowed]);
    assert(seq![marker, allowed] == seq![marker] + seq![allowed]);
    let f5 = f4 + head_fields(state.head_ref);
    with_fields_split(none, f4, head_fields(state.head_ref));
    let s7 = PartialView { head_ref: state.head_ref, ..s6 };
    if let Some(name) = state.head_ref {
        with_one(s6, Field::HeadRef(name));
    }
    assert(with_fields(none, f5) == Ok::<_, TodoError>(s7));
    let edit = Field::<Seq<u8>>::EditRefs(state.edit_refs);
    let f6 = f5 + seq![edit];
    with_fields_split(none, f5, seq![edit]);
    with_one(s7, edit);
    let s8 = PartialView { edit_refs: state.edit_refs, ..s7 };
    let f7 = f6 + ref_fields(state.expected_refs);
    with_fields_split(none, f6, ref_fields(state.expected_refs));
    with_refs(s8, state.expected_refs);
    let s9 = PartialView { expected_refs: captured_refs(state.expected_refs), ..s8 };
    assert(s8.expected_refs + captured_refs(state.expected_refs) == captured_refs(
        state.expected_refs,
    ));
    let f8 = f7 + resolved_fields(state.resolved);
    with_fields_split(none, f7, resolved_fields(state.resolved));
    let s10 = PartialView { resolved: state.resolved, ..s9 };
    if let Some(id) = state.resolved {
        with_one(s9, Field::Resolved(id));
    }
    assert(with_fields(none, f8) == Ok::<_, TodoError>(s10));
    let f9 = f8 + source_fields(state.continuation_sources);
    with_fields_split(none, f8, source_fields(state.continuation_sources));
    with_sources(s10, state.continuation_sources);
    assert(s10.continuation_sources + state.continuation_sources == state.continuation_sources);
    assert(f9 == fields(state));
    assert(captured_refs(state.expected_refs) == as_captured(state).expected_refs);
}

/// A state that is written behind text which cannot be taken for its start is read back from
/// there, if its names read back from their quotation.
pub proof fn state_reads_back(text: Seq<u8>, state: TodoStateView)
    requires
        starts_behind(text),
        forall|i: int| 0 <= i < fields(state).len() ==> names_read_back(#[trigger] fields(state)[i]),
    ensures
        recorded(text + written(state)) == Ok::<_, TodoError>(Some(as_captured(state))),
{
    let all = fields(state);
    let texts = field_texts(all);
    assert(all.len() > 0);
    assert forall|i: int| 0 <= i < texts.len() implies proper(#[trigger] texts[i]) by {
        field_is_proper(all[i]);
    }
    written_text(text, texts);
    lines_of_terminated(texts);
    lines_are_fields(nothing(), all, 0);
    assert(all.skip(0) == all);
    fields_make_state(state);
}

} // verus!
