//! Byte strings: the searches, splits and orderings that the documents and
//! reference names of this library are read with.
use vstd::prelude::*;
use vstd::slice::slice_subrange;

verus! {

/// The contents of each of several byte strings.
pub open spec fn views(parts: Seq<&[u8]>) -> Seq<Seq<u8>> {
    Seq::new(parts.len(), |i: int| parts[i]@)
}

/// Compares two byte strings.
pub fn equal(a: &[u8], b: &[u8]) -> (r: bool)
    ensures
        r == (a@ == b@),
{
    if a.len() != b.len() {
        return false;
    }
    let mut i: usize = 0;
    while i < a.len()
        invariant
            a@.len() == b@.len(),
            i <= a@.len(),
            a@.subrange(0, i as int) == b@.subrange(0, i as int),
        decreases a.len() - i,
    {
        if a[i] != b[i] {
            assert(a@[i as int] != b@[i as int]);
            return false;
        }
        proof {
            assert(a@.subrange(0, i + 1) == a@.subrange(0, i as int).push(a@[i as int]));
            assert(b@.subrange(0, i + 1) == b@.subrange(0, i as int).push(b@[i as int]));
        }
        i = i + 1;
    }
    proof {
        assert(a@.subrange(0, i as int) == a@);
        assert(b@.subrange(0, i as int) == b@);
    }
    true
}

/// Appends a byte string.
pub fn append(out: &mut Vec<u8>, tail: &[u8])
    ensures
        final(out)@ == old(out)@ + tail@,
{
    let mut i: usize = 0;
    while i < tail.len()
        invariant
            i <= tail@.len(),
            out@ == old(out)@ + tail@.subrange(0, i as int),
        decreases tail.len() - i,
    {
        out.push(tail[i]);
        i = i + 1;
        proof {
            assert(out@ == old(out)@ + tail@.subrange(0, i as int));
        }
    }
    proof {
        assert(tail@.subrange(0, i as int) == tail@);
    }
}

/// An owned copy of a byte string.
pub fn copied(bytes: &[u8]) -> (r: Vec<u8>)
    ensures
        r@ == bytes@,
{
    let mut out: Vec<u8> = Vec::new();
    append(&mut out, bytes);
    proof {
        assert(out@ == bytes@);
    }
    out
}

/// Two byte strings, one after the other.
pub fn joined(a: &[u8], b: &[u8]) -> (r: Vec<u8>)
    ensures
        r@ == a@ + b@,
{
    let mut out = copied(a);
    append(&mut out, b);
    out
}

/// The bytes from `from` on.
pub fn tail_of(bytes: &[u8], from: usize) -> (r: &[u8])
    requires
        from <= bytes@.len(),
    ensures
        r@ == bytes@.skip(from as int),
{
    let r = slice_subrange(bytes, from, bytes.len());
    proof {
        assert(r@ == bytes@.skip(from as int));
    }
    r
}

/// The first `to` bytes.
pub fn head_of(bytes: &[u8], to: usize) -> (r: &[u8])
    requires
        to <= bytes@.len(),
    ensures
        r@ == bytes@.take(to as int),
{
    let r = slice_subrange(bytes, 0, to);
    proof {
        assert(r@ == bytes@.take(to as int));
    }
    r
}

/// Whether `prefix` starts `bytes`.
pub open spec fn has_prefix(bytes: Seq<u8>, prefix: Seq<u8>) -> bool {
    prefix.len() <= bytes.len() && bytes.take(prefix.len() as int) == prefix
}

/// Whether `suffix` ends `bytes`.
pub open spec fn has_suffix(bytes: Seq<u8>, suffix: Seq<u8>) -> bool {
    suffix.len() <= bytes.len() && bytes.skip(bytes.len() - suffix.len()) == suffix
}

/// Whether a byte string starts with another.
pub fn starts_with(bytes: &[u8], prefix: &[u8]) -> (r: bool)
    ensures
        r == has_prefix(bytes@, prefix@),
{
    prefix.len() <= bytes.len() && equal(head_of(bytes, prefix.len()), prefix)
}

/// Whether a byte string ends with another.
pub fn ends_with(bytes: &[u8], suffix: &[u8]) -> (r: bool)
    ensures
        r == has_suffix(bytes@, suffix@),
{
    suffix.len() <= bytes.len() && equal(tail_of(bytes, bytes.len() - suffix.len()), suffix)
}

/// What follows `prefix`, if `bytes` starts with it.
pub open spec fn without_prefix(bytes: Seq<u8>, prefix: Seq<u8>) -> Option<Seq<u8>> {
    if has_prefix(bytes, prefix) {
        Some(bytes.skip(prefix.len() as int))
    } else {
        None
    }
}

/// The contents of an optional byte string.
pub open spec fn view_of(part: Option<&[u8]>) -> Option<Seq<u8>> {
    match part {
        Some(part) => Some(part@),
        None => None,
    }
}

/// What follows `prefix`, if `bytes` starts with it.
pub fn strip_prefix<'a>(bytes: &'a [u8], prefix: &[u8]) -> (r: Option<&'a [u8]>)
    ensures
        view_of(r) == without_prefix(bytes@, prefix@),
{
    if starts_with(bytes, prefix) {
        Some(tail_of(bytes, prefix.len()))
    } else {
        None
    }
}

/// The first place at or after `from` where `pattern` occurs.
pub open spec fn find_from(bytes: Seq<u8>, pattern: Seq<u8>, from: int) -> Option<int>
    decreases bytes.len() + 1 - from,
{
    if from < 0 || from + pattern.len() > bytes.len() {
        None
    } else if bytes.subrange(from, from + pattern.len()) == pattern {
        Some(from)
    } else {
        find_from(bytes, pattern, from + 1)
    }
}

/// An optional index as an integer.
pub open spec fn index_of(index: Option<usize>) -> Option<int> {
    match index {
        Some(index) => Some(index as int),
        None => None,
    }
}

/// Finds the first occurrence of `pattern`.
pub fn find(bytes: &[u8], pattern: &[u8]) -> (r: Option<usize>)
    ensures
        index_of(r) == find_from(bytes@, pattern@, 0),
        r matches Some(i) ==> i + pattern@.len() <= bytes@.len() && bytes@.subrange(
            i as int,
            i + pattern@.len(),
        ) == pattern@,
{
    if pattern.len() > bytes.len() {
        return None;
    }
    let total: usize = bytes.len();
    let last: usize = total - pattern.len();
    let mut i: usize = 0;
    loop
        invariant
            total == bytes@.len(),
            pattern@.len() <= bytes@.len(),
            last == bytes@.len() - pattern@.len(),
            i <= last,
            find_from(bytes@, pattern@, 0) == find_from(bytes@, pattern@, i as int),
        decreases last - i,
    {
        if equal(slice_subrange(bytes, i, i + pattern.len()), pattern) {
            return Some(i);
        }
        if i == last {
            return None;
        }
        i = i + 1;
    }
}

/// The first place at or after `from` where `byte` stands.
pub open spec fn find_byte_from(bytes: Seq<u8>, byte: u8, from: int) -> Option<int>
    decreases bytes.len() - from,
{
    if from < 0 || from >= bytes.len() {
        None
    } else if bytes[from] == byte {
        Some(from)
    } else {
        find_byte_from(bytes, byte, from + 1)
    }
}

/// The first place found is at or after the start, within bounds, and holds the byte.
pub proof fn find_byte_bounds(bytes: Seq<u8>, byte: u8, from: int)
    requires
        0 <= from,
    ensures
        find_byte_from(bytes, byte, from) matches Some(i) ==> from <= i < bytes.len() && bytes[i]
            == byte && forall|j: int| from <= j < i ==> bytes[j] != byte,
        find_byte_from(bytes, byte, from) is None ==> forall|j: int|
            from <= j < bytes.len() ==> bytes[j] != byte,
    decreases bytes.len() - from,
{
    if from < bytes.len() && bytes[from] != byte {
        find_byte_bounds(bytes, byte, from + 1);
    }
}

/// Finds the first place where `byte` stands.
pub fn find_byte(bytes: &[u8], byte: u8) -> (r: Option<usize>)
    ensures
        index_of(r) == find_byte_from(bytes@, byte, 0),
        r matches Some(i) ==> i < bytes@.len() && bytes@[i as int] == byte,
{
    let mut i: usize = 0;
    while i < bytes.len()
        invariant
            i <= bytes@.len(),
            find_byte_from(bytes@, byte, 0) == find_byte_from(bytes@, byte, i as int),
        decreases bytes.len() - i,
    {
        if bytes[i] == byte {
            return Some(i);
        }
        i = i + 1;
    }
    None
}

/// What stands before and after the first `byte`.
pub open spec fn split_at_byte(bytes: Seq<u8>, byte: u8) -> Option<(Seq<u8>, Seq<u8>)> {
    match find_byte_from(bytes, byte, 0) {
        Some(i) => Some((bytes.take(i), bytes.skip(i + 1))),
        None => None,
    }
}

/// The contents of an optional pair of byte strings.
pub open spec fn view_of_pair(pair: Option<(&[u8], &[u8])>) -> Option<(Seq<u8>, Seq<u8>)> {
    match pair {
        Some((a, b)) => Some((a@, b@)),
        None => None,
    }
}

/// Splits at the first `byte`.
pub fn split_once<'a>(bytes: &'a [u8], byte: u8) -> (r: Option<(&'a [u8], &'a [u8])>)
    ensures
        view_of_pair(r) == split_at_byte(bytes@, byte),
{
    let total: usize = bytes.len();
    match find_byte(bytes, byte) {
        Some(i) => Some((head_of(bytes, i), tail_of(bytes, i + 1))),
        None => None,
    }
}

/// Line feed.
pub const LF: u8 = 10;

/// Carriage return.
pub const CR: u8 = 13;

/// The line without one carriage return at its end.
pub open spec fn without_cr(line: Seq<u8>) -> Seq<u8> {
    if line.len() > 0 && line.last() == CR {
        line.drop_last()
    } else {
        line
    }
}

/// Removes one carriage return at the end of a line.
pub fn strip_cr(line: &[u8]) -> (r: &[u8])
    ensures
        r@ == without_cr(line@),
{
    if line.len() > 0 && line[line.len() - 1] == CR {
        let r = head_of(line, line.len() - 1);
        proof {
            assert(r@ == line@.drop_last());
        }
        r
    } else {
        line
    }
}

/// The lines of a text: each ends at a line feed, and a carriage return before
/// that line feed is part of the ending. Text after the last line feed is a line
/// of its own, unless it is empty.
pub open spec fn lines(text: Seq<u8>) -> Seq<Seq<u8>>
    decreases text.len(),
{
    if text.len() == 0 {
        Seq::empty()
    } else {
        match find_byte_from(text, LF, 0) {
            Some(i) => if 0 <= i < text.len() {
                seq![without_cr(text.take(i))] + lines(text.skip(i + 1))
            } else {
                Seq::empty()
            },
            None => seq![text],
        }
    }
}

/// Splits a text into its lines.
pub fn split_lines<'a>(text: &'a [u8]) -> (r: Vec<&'a [u8]>)
    ensures
        views(r@) == lines(text@),
{
    let mut out: Vec<&'a [u8]> = Vec::new();
    let mut rest: &'a [u8] = text;
    proof {
        assert(lines(text@) == views(out@) + lines(rest@));
    }
    while rest.len() > 0
        invariant
            lines(text@) == views(out@) + lines(rest@),
        decreases rest@.len(),
    {
        let ghost before = out@;
        let ghost old_rest = rest@;
        match find_byte(rest, LF) {
            Some(i) => {
                let line = strip_cr(head_of(rest, i));
                out.push(line);
                rest = tail_of(rest, i + 1);
                proof {
                    assert(lines(old_rest) == seq![line@] + lines(rest@));
                    assert(views(out@) == views(before) + seq![line@]);
                    assert(lines(text@) == views(out@) + lines(rest@));
                }
            },
            None => {
                let line = rest;
                out.push(line);
                rest = tail_of(rest, rest.len());
                proof {
                    assert(lines(old_rest) == seq![line@] + lines(rest@));
                    assert(views(out@) == views(before) + seq![line@]);
                    assert(lines(text@) == views(out@) + lines(rest@));
                }
            },
        }
    }
    proof {
        assert(lines(text@) == views(out@));
    }
    out
}

/// Lexicographic order on byte strings, a prefix before what it starts.
pub open spec fn before(a: Seq<u8>, b: Seq<u8>) -> bool
    decreases a.len(),
{
    if b.len() == 0 {
        false
    } else if a.len() == 0 {
        true
    } else if a[0] != b[0] {
        a[0] < b[0]
    } else {
        before(a.skip(1), b.skip(1))
    }
}

/// Whether `a` comes before `b`.
pub fn is_before(a: &[u8], b: &[u8]) -> (r: bool)
    ensures
        r == before(a@, b@),
{
    let mut i: usize = 0;
    proof {
        assert(a@.skip(0) == a@);
        assert(b@.skip(0) == b@);
    }
    loop
        invariant
            i <= a@.len(),
            i <= b@.len(),
            before(a@, b@) == before(a@.skip(i as int), b@.skip(i as int)),
        decreases a@.len() - i,
    {
        if i >= b.len() {
            return false;
        }
        if i >= a.len() {
            return true;
        }
        if a[i] != b[i] {
            return a[i] < b[i];
        }
        proof {
            assert(a@.skip(i as int).skip(1) == a@.skip(i + 1));
            assert(b@.skip(i as int).skip(1) == b@.skip(i + 1));
        }
        i = i + 1;
    }
}

/// No byte string comes before itself.
pub proof fn before_irreflexive(a: Seq<u8>)
    ensures
        !before(a, a),
    decreases a.len(),
{
    if a.len() > 0 {
        before_irreflexive(a.skip(1));
    }
}

/// The order is transitive.
pub proof fn before_transitive(a: Seq<u8>, b: Seq<u8>, c: Seq<u8>)
    requires
        before(a, b),
        before(b, c),
    ensures
        before(a, c),
    decreases a.len(),
{
    if a.len() > 0 && a[0] == b[0] && b[0] == c[0] {
        before_transitive(a.skip(1), b.skip(1), c.skip(1));
    }
}

/// Of two different byte strings one comes before the other.
pub proof fn before_total(a: Seq<u8>, b: Seq<u8>)
    ensures
        a == b || before(a, b) || before(b, a),
    decreases a.len(),
{
    if a.len() == 0 {
        if b.len() == 0 {
            assert(a == b);
        }
    } else if b.len() > 0 && a[0] == b[0] {
        before_total(a.skip(1), b.skip(1));
        if a.skip(1) == b.skip(1) {
            assert(a == seq![a[0]] + a.skip(1));
            assert(b == seq![b[0]] + b.skip(1));
        }
    }
}

/// How many bytes the white space at the start of UTF-8 text takes up: the
/// encodings of the characters with the Unicode property `White_Space`, or none.
pub open spec fn space_width(text: Seq<u8>) -> int {
    if text.len() > 0 && (9 <= text[0] <= 13 || text[0] == 32) {
        1
    } else if text.len() > 1 && text[0] == 0xc2 && (text[1] == 0x85 || text[1] == 0xa0) {
        2
    } else if text.len() > 2 && wide_space(text[0], text[1], text[2]) {
        3
    } else {
        0
    }
}

/// How many bytes the white space at the end of UTF-8 text takes up.
pub open spec fn space_width_at_end(text: Seq<u8>) -> int {
    let n = text.len() as int;
    if n > 0 && (9 <= text[n - 1] <= 13 || text[n - 1] == 32) {
        1
    } else if n > 1 && text[n - 2] == 0xc2 && (text[n - 1] == 0x85 || text[n - 1] == 0xa0) {
        2
    } else if n > 2 && wide_space(text[n - 3], text[n - 2], text[n - 1]) {
        3
    } else {
        0
    }
}

/// The white space characters whose encoding takes three bytes: U+1680, U+2000 to
/// U+200A, U+2028, U+2029, U+202F, U+205F and U+3000.
pub open spec fn wide_space(a: u8, b: u8, c: u8) -> bool {
    ||| a == 0xe1 && b == 0x9a && c == 0x80
    ||| a == 0xe2 && b == 0x80 && (0x80 <= c <= 0x8a || c == 0xa8 || c == 0xa9 || c == 0xaf)
    ||| a == 0xe2 && b == 0x81 && c == 0x9f
    ||| a == 0xe3 && b == 0x80 && c == 0x80
}

fn is_wide_space(a: u8, b: u8, c: u8) -> (r: bool)
    ensures
        r == wide_space(a, b, c),
{
    (a == 0xe1 && b == 0x9a && c == 0x80) || (a == 0xe2 && b == 0x80 && ((0x80 <= c && c <= 0x8a)
        || c == 0xa8 || c == 0xa9 || c == 0xaf)) || (a == 0xe2 && b == 0x81 && c == 0x9f) || (a
        == 0xe3 && b == 0x80 && c == 0x80)
}

fn space_at(text: &[u8], at: usize) -> (r: usize)
    requires
        at <= text@.len(),
    ensures
        r == space_width(text@.skip(at as int)),
        at + r <= text@.len(),
{
    let left: usize = text.len() - at;
    if left > 0 && ((9 <= text[at] && text[at] <= 13) || text[at] == 32) {
        1
    } else if left > 1 && text[at] == 0xc2 && (text[at + 1] == 0x85 || text[at + 1] == 0xa0) {
        2
    } else if left > 2 && is_wide_space(text[at], text[at + 1], text[at + 2]) {
        3
    } else {
        0
    }
}

fn space_before(text: &[u8], to: usize) -> (r: usize)
    requires
        to <= text@.len(),
    ensures
        r == space_width_at_end(text@.take(to as int)),
        r <= to,
{
    if to > 0 && ((9 <= text[to - 1] && text[to - 1] <= 13) || text[to - 1] == 32) {
        1
    } else if to > 1 && text[to - 2] == 0xc2 && (text[to - 1] == 0x85 || text[to - 1] == 0xa0) {
        2
    } else if to > 2 && is_wide_space(text[to - 3], text[to - 2], text[to - 1]) {
        3
    } else {
        0
    }
}

/// UTF-8 text without the white space at its start.
pub open spec fn trimmed_start(text: Seq<u8>) -> Seq<u8>
    decreases text.len(),
{
    let width = space_width(text);
    if width > 0 {
        trimmed_start(text.skip(width))
    } else {
        text
    }
}

/// UTF-8 text without the white space at its end.
pub open spec fn trimmed_end(text: Seq<u8>) -> Seq<u8>
    decreases text.len(),
{
    let width = space_width_at_end(text);
    if width > 0 {
        trimmed_end(text.take(text.len() - width))
    } else {
        text
    }
}

/// UTF-8 text without white space around it.
pub open spec fn trimmed(text: Seq<u8>) -> Seq<u8> {
    trimmed_end(trimmed_start(text))
}

/// Removes the white space at the start of UTF-8 text.
pub fn trim_start(text: &[u8]) -> (r: &[u8])
    ensures
        r@ == trimmed_start(text@),
{
    let mut at: usize = 0;
    let total: usize = text.len();
    proof {
        assert(text@.skip(0) == text@);
    }
    loop
        invariant
            total == text@.len(),
            at <= text@.len(),
            trimmed_start(text@) == trimmed_start(text@.skip(at as int)),
        decreases text@.len() - at,
    {
        let width: usize = space_at(text, at);
        if width == 0 {
            return tail_of(text, at);
        }
        proof {
            assert(text@.skip(at as int).skip(width as int) == text@.skip(at + width));
        }
        at = at + width;
    }
}

/// Removes the white space at the end of UTF-8 text.
pub fn trim_end(text: &[u8]) -> (r: &[u8])
    ensures
        r@ == trimmed_end(text@),
{
    let mut to: usize = text.len();
    proof {
        assert(text@.take(to as int) == text@);
    }
    loop
        invariant
            to <= text@.len(),
            trimmed_end(text@) == trimmed_end(text@.take(to as int)),
        decreases to,
    {
        let width: usize = space_before(text, to);
        if width == 0 {
            return head_of(text, to);
        }
        proof {
            assert(text@.take(to as int).take(to - width) == text@.take(to - width));
        }
        to = to - width;
    }
}

/// Removes the white space around UTF-8 text.
pub fn trim(text: &[u8]) -> (r: &[u8])
    ensures
        r@ == trimmed(text@),
{
    trim_end(trim_start(text))
}

/// Where the first white space at or after `from` starts, or the text's length.
pub open spec fn word_end(text: Seq<u8>, from: int) -> int
    decreases text.len() - from,
{
    if from < 0 || from >= text.len() {
        text.len() as int
    } else if space_width(text.skip(from)) > 0 {
        from
    } else {
        word_end(text, from + 1)
    }
}

/// A word ends within the text.
pub proof fn word_end_bounds(text: Seq<u8>, from: int)
    requires
        0 <= from <= text.len(),
    ensures
        from <= word_end(text, from) <= text.len(),
    decreases text.len() - from,
{
    if from < text.len() {
        word_end_bounds(text, from + 1);
    }
}

fn end_of_word(text: &[u8]) -> (r: usize)
    ensures
        r == word_end(text@, 0),
        r <= text@.len(),
{
    let mut i: usize = 0;
    while i < text.len()
        invariant
            i <= text@.len(),
            word_end(text@, 0) == word_end(text@, i as int),
        decreases text.len() - i,
    {
        if space_at(text, i) > 0 {
            return i;
        }
        i = i + 1;
    }
    i
}

/// The first word of UTF-8 text, where words are what white space separates.
pub open spec fn word(text: Seq<u8>) -> Option<Seq<u8>> {
    let text = trimmed_start(text);
    if text.len() == 0 {
        None
    } else {
        Some(text.take(word_end(text, 0)))
    }
}

/// The first word of UTF-8 text.
pub fn first_word(text: &[u8]) -> (r: Option<&[u8]>)
    ensures
        view_of(r) == word(text@),
{
    let text = trim_start(text);
    if text.len() == 0 {
        None
    } else {
        let end: usize = end_of_word(text);
        Some(head_of(text, end))
    }
}

/// UTF-8 text before and after its first white space character; all of it and
/// nothing if it has none.
pub open spec fn split_at_space(text: Seq<u8>) -> (Seq<u8>, Seq<u8>) {
    let end = word_end(text, 0);
    if end < text.len() {
        (text.take(end), text.skip(end + space_width(text.skip(end))))
    } else {
        (text, Seq::empty())
    }
}

/// Splits UTF-8 text at its first white space character.
pub fn split_space<'a>(text: &'a [u8]) -> (r: (&'a [u8], &'a [u8]))
    ensures
        (r.0@, r.1@) == split_at_space(text@),
{
    let end: usize = end_of_word(text);
    if end < text.len() {
        let width: usize = space_at(text, end);
        (head_of(text, end), tail_of(text, end + width))
    } else {
        let rest = tail_of(text, text.len());
        proof {
            assert(rest@ == Seq::<u8>::empty());
        }
        (text, rest)
    }
}

/// Whether a text holds no line feed.
pub open spec fn unbroken(text: Seq<u8>) -> bool {
    forall|i: int| 0 <= i < text.len() ==> text[i] != LF
}

/// Whether a text is a line of its own.
pub open spec fn fits_line(text: Seq<u8>) -> bool {
    unbroken(text) && (text.len() > 0 ==> text.last() != CR)
}

/// Whether a text is a line that a header can hold: not empty, without a line feed, and without a
/// carriage return at its end.
pub open spec fn one_line(text: Seq<u8>) -> bool {
    &&& text.len() > 0
    &&& text.last() != CR
    &&& forall|i: int| 0 <= i < text.len() ==> text[i] != LF
}

proof fn trimmed_start_bounds(text: Seq<u8>)
    ensures
        trimmed_start(text).len() <= text.len(),
        space_width(text) > 0 ==> trimmed_start(text).len() < text.len(),
    decreases text.len(),
{
    let width = space_width(text);
    if width > 0 {
        trimmed_start_bounds(text.skip(width));
    }
}

proof fn trimmed_end_bounds(text: Seq<u8>)
    ensures
        trimmed_end(text).len() <= text.len(),
        space_width_at_end(text) > 0 ==> trimmed_end(text).len() < text.len(),
    decreases text.len(),
{
    let width = space_width_at_end(text);
    if width > 0 {
        trimmed_end_bounds(text.take(text.len() - width));
    }
}

/// A text without white space around it does not end in a carriage return.
pub proof fn trimmed_lines(text: Seq<u8>)
    requires
        trimmed(text) == text,
        text.len() > 0,
    ensures
        text.last() != CR,
{
    trimmed_start_bounds(text);
    trimmed_end_bounds(trimmed_start(text));
}

} // verus!
