//! Text for people: its encoding, its width on screen, the summary of a message, and numbers.
use vstd::prelude::*;
use vstd::utf8::valid_utf8;
use crate::bytes::{trimmed, CR, LF};
use crate::plan::viewed_option;

verus! {

/// The text with what is not UTF-8 replaced.
pub uninterp spec fn lossy(text: Seq<u8>) -> Seq<u8>;

/// How many columns a line of text takes up on a terminal.
pub uninterp spec fn columns(line: Seq<u8>) -> nat;

/// The subject of a commit message on one line.
pub uninterp spec fn summary_of(message: Seq<u8>) -> Seq<u8>;

/// `std::str::from_utf8`: accepts what is UTF-8.
#[verifier::external_body]
pub(crate) fn is_utf8(text: &[u8]) -> (r: bool)
    ensures
        r == valid_utf8(text@),
{
    std::str::from_utf8(text).is_ok()
}

/// `gix::bstr::ByteSlice::to_str_lossy`: keeps UTF-8 as it is, and replaces what is not, so that
/// the result is UTF-8.
#[verifier::external_body]
pub(crate) fn to_str_lossy(text: &[u8]) -> (r: Vec<u8>)
    ensures
        r@ == lossy(text@),
        valid_utf8(r@),
        valid_utf8(text@) ==> r@ == text@,
{
    gix::bstr::ByteSlice::to_str_lossy(text).as_bytes().to_vec()
}

/// `ratatui::text::Line::width`, of the line that `ratatui::text::Line::raw` makes of the text.
#[verifier::external_body]
pub(crate) fn line_width(line: &[u8]) -> (r: usize)
    ensures
        r == columns(line@),
{
    ratatui::text::Line::raw(String::from_utf8_lossy(line)).width()
}

/// `gix::objs::commit::MessageRef::summary`: the subject of a message, its lines folded into one.
/// It holds no line feed, and no white space is around it.
#[verifier::external_body]
pub(crate) fn message_summary(message: &[u8]) -> (r: Vec<u8>)
    ensures
        r@ == summary_of(message@),
        forall|i: int| 0 <= i < r@.len() ==> #[trigger] r@[i] != LF,
        trimmed(r@) == r@,
{
    gix::objs::commit::MessageRef::from_bytes(message).summary().to_vec()
}

/// How many bytes the line break at `at` takes up, none if there is no line break.
pub open spec fn break_len(text: Seq<u8>, at: int) -> int {
    if 0 <= at && at + 1 < text.len() && text[at] == CR && text[at + 1] == LF {
        2
    } else if 0 <= at < text.len() && text[at] == LF {
        1
    } else {
        0
    }
}

/// Where the first two line breaks in a row at or after `at` begin and end.
pub open spec fn blank_line(text: Seq<u8>, at: int) -> Option<(int, int)>
    decreases text.len() - at,
{
    if at < 0 || at >= text.len() {
        None
    } else {
        let first = break_len(text, at);
        let second = break_len(text, at + first);
        if first > 0 && second > 0 {
            Some((at, at + first + second))
        } else {
            blank_line(text, at + 1)
        }
    }
}

/// The title of a message, which goes up to the first blank line, and the body behind it, unless
/// that is empty.
pub open spec fn title_and_body(message: Seq<u8>) -> (Seq<u8>, Option<Seq<u8>>) {
    match blank_line(message, 0) {
        Some((end, start)) => (
            message.take(end),
            if start < message.len() {
                Some(message.skip(start))
            } else {
                None
            },
        ),
        None => {
            let last = message.len() - 1;
            if last >= 1 && break_len(message, last - 1) == 2 {
                (message.take(last - 1), None)
            } else if last >= 0 && message[last] == LF {
                (message.take(last), None)
            } else {
                (message, None)
            }
        },
    }
}

/// `gix::objs::commit::MessageRef::from_bytes`: the title of a message and its body.
#[verifier::external_body]
pub(crate) fn message_parts(message: &[u8]) -> (r: (Vec<u8>, Option<Vec<u8>>))
    ensures
        (r.0@, viewed_option(r.1)) == title_and_body(message@),
{
    let parts = gix::objs::commit::MessageRef::from_bytes(message);
    (parts.title.to_vec(), parts.body.map(|body| body.to_vec()))
}

/// A title without line breaks and a body that follows it behind a blank line are the title and
/// the body of the message.
pub proof fn parts_come_back(title: Seq<u8>, body: Seq<u8>)
    requires
        forall|i: int| 0 <= i < title.len() ==> title[i] != LF && title[i] != CR,
        body.len() > 0,
    ensures
        title_and_body(title + seq![LF, LF] + body) == (title, Some(body)),
{
    let message = title + seq![LF, LF] + body;
    no_blank_line(title, body, 0);
    assert(message.take(title.len() as int) == title);
    assert(message.skip(title.len() as int + 2) == body);
}

proof fn no_blank_line(title: Seq<u8>, body: Seq<u8>, at: int)
    requires
        forall|i: int| 0 <= i < title.len() ==> title[i] != LF && title[i] != CR,
        0 <= at <= title.len(),
    ensures
        blank_line(title + seq![LF, LF] + body, at) == Some(
            (title.len() as int, title.len() as int + 2),
        ),
    decreases title.len() - at,
{
    let message = title + seq![LF, LF] + body;
    if at < title.len() {
        assert(message[at] == title[at]);
        no_blank_line(title, body, at + 1);
    } else {
        assert(message[at] == LF);
        assert(message[at + 1] == LF);
    }
}

/// A number in decimal notation.
pub open spec fn decimal(number: nat) -> Seq<u8>
    decreases number,
{
    if number < 10 {
        seq![(48 + number) as u8]
    } else {
        decimal(number / 10).push((48 + number % 10) as u8)
    }
}

/// Writes a number in decimal notation.
pub fn to_decimal(number: usize) -> (r: Vec<u8>)
    ensures
        r@ == decimal(number as nat),
    decreases number,
{
    let digit: u8 = (number % 10) as u8;
    if number < 10 {
        let mut out: Vec<u8> = Vec::new();
        out.push(48 + digit);
        assert(out@ == seq![(48 + number) as u8]);
        out
    } else {
        let mut out = to_decimal(number / 10);
        out.push(48 + digit);
        out
    }
}

/// Different numbers are written differently.
pub proof fn decimal_is_injective(a: nat, b: nat)
    requires
        decimal(a) == decimal(b),
    ensures
        a == b,
    decreases a,
{
    decimal_len(a);
    decimal_len(b);
    if a < 10 && b < 10 {
        assert(decimal(a)[0] == 48 + a);
        assert(decimal(b)[0] == 48 + b);
    } else if a >= 10 && b >= 10 {
        assert(decimal(a).last() == 48 + a % 10);
        assert(decimal(b).last() == 48 + b % 10);
        assert(decimal(a).drop_last() == decimal(a / 10));
        assert(decimal(b).drop_last() == decimal(b / 10));
        decimal_is_injective(a / 10, b / 10);
    }
}

/// A number has a digit.
pub proof fn decimal_is_not_empty(number: nat)
    ensures
        decimal(number).len() > 0,
{
    decimal_len(number);
}

proof fn decimal_len(number: nat)
    ensures
        decimal(number).len() >= 1,
        number >= 10 <==> decimal(number).len() >= 2,
    decreases number,
{
    if number >= 10 {
        decimal_len(number / 10);
    }
}

} // verus!
