//! States come back from the todos that carry them.
use vstd::prelude::*;
use vstd::string::StringSliceAdditionalSpecFns;
use crate::bytes::{find_from, LF};
use crate::history::CommitNode;
use crate::ids::{hex_of, hex_round_trip, ObjectId};
use crate::names::{escaped, escapes, graphic, quoted};
use crate::todo::record::{
    as_captured, bool_text, field_text, field_texts, fields, found_bounds, found_first,
    key_bytes, names_read_back, old_text, spaced, starts_behind, state_reads_back,
    terminated, written,
};
use crate::todo::state::{
    recorded, state_of, valid, Field, TodoStateView, STATE_ANY, STATE_END, STATE_START,
};
use crate::todo::TodoError;

verus! {

/// Whether a state holds its references as they were captured, without what a plan decides about them.
pub open spec fn is_captured(state: TodoStateView) -> bool {
    forall|i: int|
        0 <= i < state.expected_refs.len() ==> (#[trigger] state.expected_refs[i]).new
            == state.expected_refs[i].old && state.expected_refs[i].placement is None
}

/// A state as todos of the version before carried it.
pub open spec fn written_before(state: TodoStateView) -> Seq<u8> {
    "<!-- tix-rebase-state-v1\n".spec_bytes() + terminated(field_texts(fields(state)))
        + STATE_END.spec_bytes() + seq![LF]
}

proof fn version_bytes()
    ensures
        STATE_START.spec_bytes() == seq![
            60u8, 33, 45, 45, 32, 116, 105, 120, 45, 114, 101, 98, 97, 115, 101, 45, 115, 116, 97,
            116, 101, 45, 118, 50, 10,
        ],
        "<!-- tix-rebase-state-v1\n".spec_bytes() == seq![
            60u8, 33, 45, 45, 32, 116, 105, 120, 45, 114, 101, 98, 97, 115, 101, 45, 115, 116, 97,
            116, 101, 45, 118, 49, 10,
        ],
        STATE_ANY.spec_bytes() == seq![
            60u8, 33, 45, 45, 32, 116, 105, 120, 45, 114, 101, 98, 97, 115, 101, 45, 115, 116, 97,
            116, 101, 45,
        ],
        STATE_END.spec_bytes() == seq![45u8, 45, 62],
{
    broadcast use vstd::string::is_ascii_spec_bytes;

    reveal_strlit("<!-- tix-rebase-state-v2\n");
    assert(vstd::string::is_ascii(STATE_START));
    assert(STATE_START.spec_bytes() =~= seq![
        60u8, 33, 45, 45, 32, 116, 105, 120, 45, 114, 101, 98, 97, 115, 101, 45, 115, 116, 97, 116,
        101, 45, 118, 50, 10,
    ]);
    reveal_strlit("<!-- tix-rebase-state-v1\n");
    assert(vstd::string::is_ascii("<!-- tix-rebase-state-v1\n"));
    assert("<!-- tix-rebase-state-v1\n".spec_bytes() =~= seq![
        60u8, 33, 45, 45, 32, 116, 105, 120, 45, 114, 101, 98, 97, 115, 101, 45, 115, 116, 97, 116,
        101, 45, 118, 49, 10,
    ]);
    reveal_strlit("<!-- tix-rebase-state-");
    assert(vstd::string::is_ascii(STATE_ANY));
    assert(STATE_ANY.spec_bytes() =~= seq![
        60u8, 33, 45, 45, 32, 116, 105, 120, 45, 114, 101, 98, 97, 115, 101, 45, 115, 116, 97, 116,
        101, 45,
    ]);
    reveal_strlit("-->");
    assert(vstd::string::is_ascii(STATE_END));
    assert(STATE_END.spec_bytes() =~= seq![45u8, 45, 62]);
}

/// Whether a text holds no space behind two dashes, as the start of a state does.
#[verifier::opaque]
spec fn calm(text: Seq<u8>) -> bool {
    forall|i: int|
        0 <= i < text.len() - 2 ==> !(#[trigger] text[i] == 45 && text[i + 1] == 45 && text[i + 2]
            == 32)
}

/// Whether a text holds no space.
#[verifier::opaque]
spec fn dense(text: Seq<u8>) -> bool {
    forall|i: int| 0 <= i < text.len() ==> text[i] != 32
}

/// Whether a text holds no space and does not end with two dashes.
#[verifier::opaque]
spec fn leading(text: Seq<u8>) -> bool {
    dense(text) && !(text.len() > 1 && text[text.len() - 2] == 45 && text.last() == 45)
}

proof fn spaced_is_calm(a: Seq<u8>, b: Seq<u8>)
    requires
        leading(a),
        calm(b),
    ensures
        calm(spaced(a, b)),
{
    reveal(calm);
    reveal(dense);
    reveal(leading);
    let text = spaced(a, b);
    assert forall|i: int| 0 <= i < text.len() - 2 implies !(#[trigger] text[i] == 45 && text[i + 1]
        == 45 && text[i + 2] == 32) by {
        if i > a.len() {
            assert(text[i] == b[i - a.len() - 1]);
            assert(text[i + 1] == b[i + 1 - a.len() - 1]);
            assert(text[i + 2] == b[i + 2 - a.len() - 1]);
        } else if i + 2 < a.len() {
            assert(text[i + 2] == a[i + 2]);
        } else if i + 2 == a.len() {
            assert(text[i] == a[a.len() - 2] && text[i + 1] == a.last());
        }
    }
}

proof fn escapes_are_dense(input: Seq<u8>)
    requires
        dense(input),
    ensures
        dense(escapes(input)),
    decreases input.len(),
{
    reveal(dense);
    if input.len() > 0 {
        assert(dense(input.drop_last()));
        escapes_are_dense(input.drop_last());
        let before = escapes(input.drop_last());
        let last = escaped(input.last());
        assert forall|i: int| 0 <= i < escapes(input).len() implies escapes(input)[i] != 32 by {
            if i < before.len() {
                assert(escapes(input)[i] == before[i]);
            } else {
                assert(escapes(input)[i] == last[i - before.len()]);
            }
        }
    }
}

proof fn quoted_is_dense(name: Seq<u8>)
    requires
        graphic(name),
    ensures
        dense(quoted(name)),
{
    reveal(dense);
    assert(dense(name));
    escapes_are_dense(name);
    let text = quoted(name);
    assert forall|i: int| 0 <= i < text.len() implies text[i] != 32 by {
        if text != name && 0 < i < text.len() - 1 {
            assert(text[i] == escapes(name)[i - 1]);
        }
    }
}

proof fn keys_lead()
    ensures
        leading("base".spec_bytes()),
        leading("onto".spec_bytes()),
        leading("tip".spec_bytes()),
        leading("scope".spec_bytes()),
        leading("marker-required".spec_bytes()),
        leading("checkout-allowed".spec_bytes()),
        leading("head-ref".spec_bytes()),
        leading("edit-refs".spec_bytes()),
        leading("ref".spec_bytes()),
        leading("resolved".spec_bytes()),
        leading("continuation-source".spec_bytes()),
        leading("true".spec_bytes()),
        leading("false".spec_bytes()),
        leading("-".spec_bytes()),
{
    reveal(dense);
    reveal(leading);
    key_bytes();
}

proof fn hex_leads(id: ObjectId)
    ensures
        leading(hex_of(id)),
{
    reveal(dense);
    reveal(leading);
    hex_round_trip(id);
}

proof fn dense_is_calm(text: Seq<u8>)
    requires
        dense(text),
    ensures
        calm(text),
{
    reveal(calm);
    reveal(dense);
}

proof fn id_line_is_calm(key: Seq<u8>, id: ObjectId)
    requires
        leading(key),
    ensures
        calm(spaced(key, hex_of(id))),
{
    reveal(leading);
    hex_leads(id);
    dense_is_calm(hex_of(id));
    spaced_is_calm(key, hex_of(id));
}

proof fn flag_line_is_calm(key: Seq<u8>, value: bool)
    requires
        leading(key),
    ensures
        calm(spaced(key, bool_text(value))),
{
    reveal(leading);
    keys_lead();
    dense_is_calm(bool_text(value));
    spaced_is_calm(key, bool_text(value));
}

proof fn ref_line_is_calm(
    old: Option<ObjectId>,
    target: ObjectId,
    follows_tip: bool,
    editable: bool,
    name: Seq<u8>,
)
    requires
        graphic(name),
    ensures
        calm(field_text(Field::Ref { old, target, follows_tip, editable, name })),
{
    keys_lead();
    quoted_is_dense(name);
    dense_is_calm(quoted(name));
    hex_leads(target);
    if let Some(id) = old {
        hex_leads(id);
    }
    let last = spaced(bool_text(editable), quoted(name));
    let third = spaced(bool_text(follows_tip), last);
    let second = spaced(hex_of(target), third);
    let first = spaced(old_text(old), second);
    spaced_is_calm(bool_text(editable), quoted(name));
    spaced_is_calm(bool_text(follows_tip), last);
    spaced_is_calm(hex_of(target), third);
    spaced_is_calm(old_text(old), second);
    spaced_is_calm("ref".spec_bytes(), first);
}

proof fn field_is_calm(field: Field<Seq<u8>>)
    requires
        names_read_back(field),
    ensures
        calm(field_text(field)),
{
    keys_lead();
    match field {
        Field::Base(id) => id_line_is_calm("base".spec_bytes(), id),
        Field::Onto(id) => id_line_is_calm("onto".spec_bytes(), id),
        Field::Tip(id) => id_line_is_calm("tip".spec_bytes(), id),
        Field::Scope(id) => id_line_is_calm("scope".spec_bytes(), id),
        Field::MarkerRequired(value) => flag_line_is_calm("marker-required".spec_bytes(), value),
        Field::CheckoutAllowed(value) => flag_line_is_calm("checkout-allowed".spec_bytes(), value),
        Field::HeadRef(name) => {
            quoted_is_dense(name);
            dense_is_calm(quoted(name));
            spaced_is_calm("head-ref".spec_bytes(), quoted(name));
        },
        Field::EditRefs(value) => flag_line_is_calm("edit-refs".spec_bytes(), value),
        Field::Ref { old, target, follows_tip, editable, name } => ref_line_is_calm(
            old,
            target,
            follows_tip,
            editable,
            name,
        ),
        Field::Resolved(id) => id_line_is_calm("resolved".spec_bytes(), id),
        Field::ContinuationSource(id) => id_line_is_calm("continuation-source".spec_bytes(), id),
    }
}

proof fn terminated_is_calm(texts: Seq<Seq<u8>>)
    requires
        forall|i: int| 0 <= i < texts.len() ==> calm(#[trigger] texts[i]),
    ensures
        calm(terminated(texts)),
    decreases texts.len(),
{
    reveal(calm);
    if texts.len() > 0 {
        let less = texts.drop_last();
        assert forall|i: int| 0 <= i < less.len() implies calm(#[trigger] less[i]) by {
            assert(less[i] == texts[i]);
        }
        terminated_is_calm(less);
        let first = terminated(less);
        let last = texts.last();
        assert(calm(texts[texts.len() - 1]));
        let text = terminated(texts);
        let n = first.len();
        assert(n > 0 ==> first.last() == LF);
        assert forall|i: int| 0 <= i < text.len() - 2 implies !(#[trigger] text[i] == 45 && text[i
            + 1] == 45 && text[i + 2] == 32) by {
            if i >= n {
                assert(text[i] == last[i - n]);
                if i + 2 - n < last.len() {
                    assert(text[i + 1] == last[i + 1 - n]);
                    assert(text[i + 2] == last[i + 2 - n]);
                } else {
                    assert(text[i + 2] == LF || text[i + 1] == LF);
                }
            } else if i + 2 < n {
                assert(text[i] == first[i] && text[i + 1] == first[i + 1] && text[i + 2] == first[i
                    + 2]);
            } else if i + 1 < n {
                assert(text[i + 1] == first.last());
            } else {
                assert(text[i] == first.last());
            }
        }
    }
}

/// A todo with a state of another version, and none of this one, cannot be read.
pub proof fn other_versions_are_refused(input: Seq<u8>)
    requires
        find_from(input, STATE_START.spec_bytes(), 0) is None,
        find_from(input, STATE_ANY.spec_bytes(), 0) is Some,
    ensures
        recorded(input) == Err::<Option<TodoStateView>, _>(TodoError::UnsupportedStateVersion),
{
}

proof fn later_starts_are_none(middle: Seq<u8>, at: int)
    requires
        calm(middle),
        0 <= at,
        at + 25 <= 25 + middle.len() + 4,
    ensures
        ({
            let text = "<!-- tix-rebase-state-v1\n".spec_bytes() + middle + STATE_END.spec_bytes()
                + seq![LF];
            text.subrange(at, at + 25) != STATE_START.spec_bytes()
        }),
{
    reveal(calm);
    version_bytes();
    let first = "<!-- tix-rebase-state-v1\n".spec_bytes();
    let text = first + middle + STATE_END.spec_bytes() + seq![LF];
    let part = text.subrange(at, at + 25);
    let start = STATE_START.spec_bytes();
    let i = at + 2;
    if part == start {
        assert(text[i] == part[2] && text[i + 1] == part[3] && text[i + 2] == part[4]);
        assert(text[i] == 45 && text[i + 1] == 45 && text[i + 2] == 32);
        if at == 0 {
            assert(part[23] == text[23]);
            assert(text[23] == first[23]);
        } else if i + 2 < 25 {
            assert(text[i] == first[i] && text[i + 1] == first[i + 1] && text[i + 2] == first[i + 2]);
        } else if i < 25 {
            assert(text[24] == first[24]);
        } else if i + 2 < 25 + middle.len() {
            assert(text[i] == middle[i - 25]);
            assert(text[i + 1] == middle[i + 1 - 25]);
            assert(text[i + 2] == middle[i + 2 - 25]);
        }
    }
}

proof fn versions_before_are_others(state: TodoStateView)
    requires
        forall|i: int| 0 <= i < fields(state).len() ==> names_read_back(#[trigger] fields(state)[i]),
    ensures
        find_from(written_before(state), STATE_START.spec_bytes(), 0) is None,
        find_from(written_before(state), STATE_ANY.spec_bytes(), 0) is Some,
{
    version_bytes();
    let texts = field_texts(fields(state));
    assert forall|i: int| 0 <= i < texts.len() implies calm(#[trigger] texts[i]) by {
        field_is_calm(fields(state)[i]);
    }
    terminated_is_calm(texts);
    let text = written_before(state);
    let any = STATE_ANY.spec_bytes();
    assert(text.subrange(0, 22) == any);
    found_first(text, any, 0, 0);
    found_bounds(text, STATE_START.spec_bytes(), 0);
    if let Some(at) = find_from(text, STATE_START.spec_bytes(), 0) {
        later_starts_are_none(terminated(texts), at);
    }
}

/// A state comes back from a todo that holds nothing else: with every id, flag and name, the name of the
/// branch that HEAD is on among them, and with its references as they were captured. A valid state is
/// accepted as it is, and one that carries the version before is refused.
pub proof fn states_come_back(state: TodoStateView, commits: Seq<CommitNode<Seq<ObjectId>>>)
    requires
        is_captured(state),
        forall|i: int| 0 <= i < fields(state).len() ==> names_read_back(#[trigger] fields(state)[i]),
    ensures
        recorded(written(state)) == Ok::<_, TodoError>(Some(state)),
        valid(state, commits) is Ok ==> state_of(written(state), commits) == Ok::<_, TodoError>(
            Some(state),
        ),
        state_of(written_before(state), commits) == Err::<Option<TodoStateView>, _>(
            TodoError::UnsupportedStateVersion,
        ),
{
    let none = Seq::<u8>::empty();
    let start = STATE_START.spec_bytes();
    assert(none + start == start);
    assert(start.subrange(0, start.len() as int) == start);
    found_first(start, start, 0, 0);
    assert(starts_behind(none));
    state_reads_back(none, state);
    assert(none + written(state) == written(state));
    assert(as_captured(state).expected_refs == state.expected_refs);
    versions_before_are_others(state);
    other_versions_are_refused(written_before(state));
}

} // verus!
