//! Todos are UTF-8 if what they show is.
use vstd::prelude::*;
use vstd::string::StringSliceAdditionalSpecFns;
use vstd::utf8::{
    is_char_boundary, is_char_boundary_iff_not_is_continuation_byte, length_of_first_scalar,
    pop_first_scalar, valid_utf8, valid_utf8_concat, valid_utf8_split,
};
use crate::bytes::{find_byte_bounds, find_byte_from, has_prefix, lines, without_cr, CR, LF};
use crate::ids::{hex_of, hex_round_trip};
use crate::names::{escaped, escapes, plain, quoted};
use crate::todo::lines::RAIL;
use crate::todo::record::{
    bool_text, field_text, field_texts, fields, key_bytes, old_text, spaced, terminated, written,
};
use crate::todo::state::{Field, TodoStateView, STATE_END, STATE_START};
use crate::todo::write::{bottom_up, rail_count, rails, shown_line};

verus! {

pub(crate) proof fn ascii_bytes_are_utf8(byte: u8)
    requires
        byte < 128,
    ensures
        valid_utf8(seq![byte]),
{
    let one = seq![byte];
    reveal_with_fuel(valid_utf8, 2);
    assert(pop_first_scalar(one).len() == 0);
}

pub(crate) proof fn ascii_is_utf8(text: Seq<u8>)
    requires
        forall|i: int| 0 <= i < text.len() ==> text[i] < 128,
    ensures
        valid_utf8(text),
    decreases text.len(),
{
    if text.len() > 0 {
        ascii_is_utf8(text.drop_last());
        ascii_bytes_are_utf8(text.last());
        valid_utf8_concat(text.drop_last(), seq![text.last()]);
        assert(text == text.drop_last() + seq![text.last()]);
    }
}

proof fn utf8_splits(text: Seq<u8>, at: int)
    requires
        valid_utf8(text),
        0 <= at < text.len(),
        text[at] < 128,
    ensures
        valid_utf8(text.take(at)),
        valid_utf8(text.skip(at + 1)),
{
    is_char_boundary_iff_not_is_continuation_byte(text, at);
    assert(is_char_boundary(text, at));
    valid_utf8_split(text, at);
    assert(text.subrange(0, at) == text.take(at));
    let rest = text.subrange(at, text.len() as int);
    assert(rest[0] == text[at]);
    assert(length_of_first_scalar(rest) == 1);
    assert(pop_first_scalar(rest) == text.skip(at + 1));
}

proof fn lines_are_utf8(text: Seq<u8>, at: int)
    requires
        valid_utf8(text),
        0 <= at < lines(text).len(),
    ensures
        valid_utf8(lines(text)[at]),
    decreases text.len(),
{
    find_byte_bounds(text, LF, 0);
    if let Some(i) = find_byte_from(text, LF, 0) {
        utf8_splits(text, i);
        let first = text.take(i);
        let rest = text.skip(i + 1);
        if at == 0 {
            if first.len() > 0 && first.last() == CR {
                utf8_splits(first, first.len() - 1);
                assert(first.take(first.len() - 1) == first.drop_last());
            }
            assert(lines(text)[0] == without_cr(first));
        } else {
            assert(lines(text)[at] == lines(rest)[at - 1]);
            lines_are_utf8(rest, at - 1);
        }
    }
}

pub(crate) proof fn literals_are_utf8(text: &str)
    ensures
        valid_utf8(text.spec_bytes()),
{
    vstd::utf8::encode_utf8_valid_utf8(text@);
}

proof fn rails_are_utf8(count: nat)
    ensures
        valid_utf8(rails(count)),
    decreases count,
{
    if count > 0 {
        rails_are_utf8((count - 1) as nat);
        literals_are_utf8(RAIL);
        valid_utf8_concat(rails((count - 1) as nat), RAIL.spec_bytes());
    }
}

proof fn shown_lines_are_utf8(line: Seq<u8>, width: nat)
    requires
        valid_utf8(line),
    ensures
        valid_utf8(shown_line(line, width)),
{
    ascii_bytes_are_utf8(LF);
    ascii_bytes_are_utf8(32);
    if has_prefix(line, "fork ".spec_bytes()) {
        let count = rail_count(line, width);
        let first = rails(count / 2);
        let last = rails((count - count / 2) as nat);
        rails_are_utf8(count / 2);
        rails_are_utf8((count - count / 2) as nat);
        valid_utf8_concat(first, seq![32u8]);
        valid_utf8_concat(first + seq![32u8], line);
        valid_utf8_concat(first + seq![32u8] + line, seq![32u8]);
        valid_utf8_concat(first + seq![32u8] + line + seq![32u8], last);
        valid_utf8_concat(first + seq![32u8] + line + seq![32u8] + last, seq![LF]);
    } else {
        valid_utf8_concat(line, seq![LF]);
    }
}

/// The lines of UTF-8 are UTF-8 as they are shown, from the last to the first.
pub proof fn shown_bodies_are_utf8(body: Seq<u8>, left: int, width: nat)
    requires
        valid_utf8(body),
        0 <= left <= lines(body).len(),
    ensures
        valid_utf8(bottom_up(lines(body), left, width)),
    decreases left,
{
    if left > 0 {
        shown_bodies_are_utf8(body, left - 1, width);
        lines_are_utf8(body, left - 1);
        shown_lines_are_utf8(lines(body)[left - 1], width);
        valid_utf8_concat(
            shown_line(lines(body)[left - 1], width),
            bottom_up(lines(body), left - 1, width),
        );
    }
}

/// Whether a text is ASCII.
#[verifier::opaque]
spec fn ascii(text: Seq<u8>) -> bool {
    forall|i: int| 0 <= i < text.len() ==> text[i] < 128
}

proof fn ascii_joins(a: Seq<u8>, b: Seq<u8>)
    requires
        ascii(a),
        ascii(b),
    ensures
        ascii(a + b),
        ascii(spaced(a, b)),
{
    reveal(ascii);
    let text = spaced(a, b);
    assert forall|i: int| 0 <= i < text.len() implies text[i] < 128 by {
        if i < a.len() {
            assert(text[i] == a[i]);
        } else if i > a.len() {
            assert(text[i] == b[i - a.len() - 1]);
        }
    }
}

proof fn escapes_are_ascii(input: Seq<u8>)
    ensures
        ascii(escapes(input)),
    decreases input.len(),
{
    reveal(ascii);
    if input.len() > 0 {
        escapes_are_ascii(input.drop_last());
        assert(ascii(escaped(input.last())));
        ascii_joins(escapes(input.drop_last()), escaped(input.last()));
    }
}

proof fn quoted_is_ascii(name: Seq<u8>)
    ensures
        ascii(quoted(name)),
{
    reveal(ascii);
    escapes_are_ascii(name);
    if forall|i: int| 0 <= i < name.len() ==> plain(#[trigger] name[i]) {
        assert forall|i: int| 0 <= i < name.len() implies name[i] < 128 by {
            assert(plain(name[i]));
        }
    } else {
        assert(ascii(seq![34u8]));
        ascii_joins(seq![34u8], escapes(name));
        ascii_joins(seq![34u8] + escapes(name), seq![34u8]);
    }
}

proof fn keys_are_ascii()
    ensures
        ascii("base".spec_bytes()),
        ascii("onto".spec_bytes()),
        ascii("tip".spec_bytes()),
        ascii("scope".spec_bytes()),
        ascii("marker-required".spec_bytes()),
        ascii("checkout-allowed".spec_bytes()),
        ascii("head-ref".spec_bytes()),
        ascii("edit-refs".spec_bytes()),
        ascii("ref".spec_bytes()),
        ascii("resolved".spec_bytes()),
        ascii("continuation-source".spec_bytes()),
        ascii("true".spec_bytes()),
        ascii("false".spec_bytes()),
        ascii("-".spec_bytes()),
{
    reveal(ascii);
    key_bytes();
}

proof fn hex_is_ascii(id: crate::ids::ObjectId)
    ensures
        ascii(hex_of(id)),
{
    reveal(ascii);
    hex_round_trip(id);
}

proof fn field_is_ascii(field: Field<Seq<u8>>)
    ensures
        ascii(field_text(field)),
{
    keys_are_ascii();
    match field {
        Field::Base(id) => {
            hex_is_ascii(id);
            ascii_joins("base".spec_bytes(), hex_of(id));
        },
        Field::Onto(id) => {
            hex_is_ascii(id);
            ascii_joins("onto".spec_bytes(), hex_of(id));
        },
        Field::Tip(id) => {
            hex_is_ascii(id);
            ascii_joins("tip".spec_bytes(), hex_of(id));
        },
        Field::Scope(id) => {
            hex_is_ascii(id);
            ascii_joins("scope".spec_bytes(), hex_of(id));
        },
        Field::MarkerRequired(value) => ascii_joins(
            "marker-required".spec_bytes(),
            bool_text(value),
        ),
        Field::CheckoutAllowed(value) => ascii_joins(
            "checkout-allowed".spec_bytes(),
            bool_text(value),
        ),
        Field::HeadRef(name) => {
            quoted_is_ascii(name);
            ascii_joins("head-ref".spec_bytes(), quoted(name));
        },
        Field::EditRefs(value) => ascii_joins("edit-refs".spec_bytes(), bool_text(value)),
        Field::Ref { old, target, follows_tip, editable, name } => {
            quoted_is_ascii(name);
            hex_is_ascii(target);
            if let Some(id) = old {
                hex_is_ascii(id);
            }
            let last = spaced(bool_text(editable), quoted(name));
            let third = spaced(bool_text(follows_tip), last);
            let second = spaced(hex_of(target), third);
            ascii_joins(bool_text(editable), quoted(name));
            ascii_joins(bool_text(follows_tip), last);
            ascii_joins(hex_of(target), third);
            ascii_joins(old_text(old), second);
            ascii_joins("ref".spec_bytes(), spaced(old_text(old), second));
        },
        Field::Resolved(id) => {
            hex_is_ascii(id);
            ascii_joins("resolved".spec_bytes(), hex_of(id));
        },
        Field::ContinuationSource(id) => {
            hex_is_ascii(id);
            ascii_joins("continuation-source".spec_bytes(), hex_of(id));
        },
    }
}

proof fn terminated_is_ascii(texts: Seq<Seq<u8>>)
    requires
        forall|i: int| 0 <= i < texts.len() ==> ascii(#[trigger] texts[i]),
    ensures
        ascii(terminated(texts)),
    decreases texts.len(),
{
    reveal(ascii);
    if texts.len() > 0 {
        let less = texts.drop_last();
        assert forall|i: int| 0 <= i < less.len() implies ascii(#[trigger] less[i]) by {
            assert(less[i] == texts[i]);
        }
        terminated_is_ascii(less);
        assert(ascii(texts[texts.len() - 1]));
        ascii_joins(terminated(less), texts.last());
        assert(ascii(seq![LF]));
        ascii_joins(terminated(less) + texts.last(), seq![LF]);
    }
}

/// A state is UTF-8 as todos carry it.
pub proof fn states_are_utf8(state: TodoStateView)
    ensures
        valid_utf8(written(state)),
{
    let texts = field_texts(fields(state));
    assert forall|i: int| 0 <= i < texts.len() implies ascii(#[trigger] texts[i]) by {
        field_is_ascii(fields(state)[i]);
    }
    terminated_is_ascii(texts);
    let middle = terminated(texts);
    assert(valid_utf8(middle)) by {
        reveal(ascii);
        ascii_is_utf8(middle);
    }
    literals_are_utf8(STATE_START);
    literals_are_utf8(STATE_END);
    ascii_bytes_are_utf8(LF);
    valid_utf8_concat(STATE_START.spec_bytes(), middle);
    valid_utf8_concat(STATE_START.spec_bytes() + middle, STATE_END.spec_bytes());
    valid_utf8_concat(
        STATE_START.spec_bytes() + middle + STATE_END.spec_bytes(),
        seq![LF],
    );
}

/// What stands around the lines of a body and the state behind it is UTF-8 if the lines and what stands
/// before them are.
pub proof fn todos_are_utf8(
    before: Seq<u8>,
    body: Seq<u8>,
    width: nat,
    after: &str,
    state: TodoStateView,
)
    requires
        valid_utf8(before),
        valid_utf8(body),
    ensures
        valid_utf8(
            before + bottom_up(lines(body), lines(body).len() as int, width) + after.spec_bytes()
                + written(state),
        ),
{
    let shown = bottom_up(lines(body), lines(body).len() as int, width);
    shown_bodies_are_utf8(body, lines(body).len() as int, width);
    states_are_utf8(state);
    literals_are_utf8(after);
    valid_utf8_concat(before, shown);
    valid_utf8_concat(before + shown, after.spec_bytes());
    valid_utf8_concat(before + shown + after.spec_bytes(), written(state));
}

} // verus!
