//! Object ids and change ids, and their hexadecimal forms.
use vstd::prelude::*;

verus! {

/// The name of an object: the digest of its contents, a SHA-1 of 160 bits, kept as its
/// first 128 and its last 32 bits.
#[derive(Clone, Copy, PartialEq, Eq, Structural, Debug, PartialOrd, Ord, Hash)]
pub struct ObjectId {
    pub high: u128,
    pub low: u32,
}

/// The identity that the versions of a commit share. It is written with letters instead
/// of digits, so that it cannot be taken for an object id.
#[derive(Clone, Copy, PartialEq, Eq, Structural, Debug, PartialOrd, Ord, Hash)]
pub struct ChangeId {
    pub id: ObjectId,
}

/// How many hexadecimal digits an object id has.
pub const HEX_LEN: usize = 40;

impl ObjectId {
    /// The digest, read as one big-endian number.
    pub open spec fn number(self) -> nat {
        (self.high * 0x1_0000_0000 + self.low) as nat
    }

    /// The id whose digest reads as `number`.
    pub open spec fn of_number(number: nat) -> ObjectId {
        ObjectId { high: (number / 0x1_0000_0000) as u128, low: (number % 0x1_0000_0000) as u32 }
    }

    /// The id that stands for no object.
    pub fn null() -> (r: ObjectId)
        ensures
            r.number() == 0,
    {
        ObjectId { high: 0, low: 0 }
    }

    /// Reads a complete id in hexadecimal notation.
    pub fn from_hex(hex: &[u8]) -> (r: Option<ObjectId>)
        ensures
            r == parsed_hex(hex@),
    {
        object_id_from_hex(hex)
    }

    /// Writes the id in hexadecimal notation.
    pub fn to_hex(self) -> (r: Vec<u8>)
        ensures
            r@ == hex_of(self),
    {
        object_id_to_hex(self)
    }

    /// Ids are ordered by their digest.
    pub fn is_before(self, other: ObjectId) -> (r: bool)
        ensures
            r == (self.number() < other.number()),
    {
        self.high < other.high || (self.high == other.high && self.low < other.low)
    }
}

impl ChangeId {
    /// Reads a complete id in reverse hexadecimal notation.
    pub fn from_reverse_hex(hex: &[u8]) -> (r: Option<ChangeId>)
        ensures
            r == parsed_reverse_hex(hex@),
    {
        change_id_from_reverse_hex(hex)
    }

    /// Writes at most `len` letters of the id in reverse hexadecimal notation.
    pub fn to_reverse_hex_with_len(self, len: usize) -> (r: Vec<u8>)
        ensures
            r@ == (if len < HEX_LEN {
                reverse_hex_of(self).take(len as int)
            } else {
                reverse_hex_of(self)
            }),
    {
        change_id_to_reverse_hex(self, len)
    }

    /// Writes the id in reverse hexadecimal notation.
    pub fn to_reverse_hex(self) -> (r: Vec<u8>)
        ensures
            r@ == reverse_hex_of(self),
    {
        change_id_to_reverse_hex(self, HEX_LEN)
    }
}

/// The last `len` digits of a number to the base sixteen, the most significant first.
pub open spec fn nibbles(number: nat, len: nat) -> Seq<nat>
    decreases len,
{
    if len == 0 {
        Seq::empty()
    } else {
        nibbles(number / 16, (len - 1) as nat).push(number % 16)
    }
}

/// The number that has the given digits to the base sixteen.
pub open spec fn nibbles_value(digits: Seq<nat>) -> nat
    decreases digits.len(),
{
    if digits.len() == 0 {
        0
    } else {
        nibbles_value(digits.drop_last()) * 16 + digits.last()
    }
}

/// The lower-case hexadecimal digit of a number below sixteen.
pub open spec fn hex_char(digit: nat) -> u8 {
    if digit < 10 {
        (48 + digit) as u8
    } else {
        (87 + digit) as u8
    }
}

/// The number that a hexadecimal digit of either case stands for.
pub open spec fn hex_digit(byte: u8) -> Option<nat> {
    if 48 <= byte <= 57 {
        Some((byte - 48) as nat)
    } else if 97 <= byte <= 102 {
        Some((byte - 87) as nat)
    } else if 65 <= byte <= 70 {
        Some((byte - 55) as nat)
    } else {
        None
    }
}

/// The reverse hexadecimal digit of a number below sixteen: `z` for none, down to `k`.
pub open spec fn reverse_hex_char(digit: nat) -> u8 {
    (122 - digit) as u8
}

/// The number that a reverse hexadecimal digit of either case stands for.
pub open spec fn reverse_hex_digit(byte: u8) -> Option<nat> {
    if 107 <= byte <= 122 {
        Some((122 - byte) as nat)
    } else if 75 <= byte <= 90 {
        Some((90 - byte) as nat)
    } else {
        None
    }
}

/// The id in hexadecimal notation.
pub open spec fn hex_of(id: ObjectId) -> Seq<u8> {
    Seq::new(40, |i: int| hex_char(nibbles(id.number(), 40)[i]))
}

/// The id that forty hexadecimal digits write.
pub open spec fn parsed_hex(hex: Seq<u8>) -> Option<ObjectId> {
    if hex.len() == 40 && forall|i: int| 0 <= i < 40 ==> hex_digit(#[trigger] hex[i]) is Some {
        Some(ObjectId::of_number(nibbles_value(Seq::new(40, |i: int| hex_digit(hex[i])->0))))
    } else {
        None
    }
}

/// The change id in reverse hexadecimal notation.
pub open spec fn reverse_hex_of(id: ChangeId) -> Seq<u8> {
    Seq::new(40, |i: int| reverse_hex_char(nibbles(id.id.number(), 40)[i]))
}

/// The change id that forty reverse hexadecimal digits write.
pub open spec fn parsed_reverse_hex(hex: Seq<u8>) -> Option<ChangeId> {
    if hex.len() == 40 && forall|i: int|
        0 <= i < 40 ==> reverse_hex_digit(#[trigger] hex[i]) is Some {
        Some(
            ChangeId {
                id: ObjectId::of_number(
                    nibbles_value(Seq::new(40, |i: int| reverse_hex_digit(hex[i])->0)),
                ),
            },
        )
    } else {
        None
    }
}

/// `gix::ObjectId::from_hex`: reads forty hexadecimal digits of either case as a SHA-1,
/// and fails on anything else.
#[verifier::external_body]
fn object_id_from_hex(hex: &[u8]) -> (r: Option<ObjectId>)
    ensures
        r == parsed_hex(hex@),
{
    let gix::ObjectId::Sha1(digest) = gix::ObjectId::from_hex(hex).ok()? else { return None };
    let (high, low) = digest.split_at(16);
    Some(
        ObjectId {
            high: u128::from_be_bytes(high.try_into().ok()?),
            low: u32::from_be_bytes(low.try_into().ok()?),
        },
    )
}

/// The display form of `gix::ObjectId`: the forty lower-case hexadecimal digits of a SHA-1.
#[verifier::external_body]
fn object_id_to_hex(id: ObjectId) -> (r: Vec<u8>)
    ensures
        r@ == hex_of(id),
{
    let mut digest = [0u8; 20];
    digest[..16].copy_from_slice(&id.high.to_be_bytes());
    digest[16..].copy_from_slice(&id.low.to_be_bytes());
    gix::ObjectId::Sha1(digest).to_string().into_bytes()
}

/// `gix::hash::ChangeId::from_reverse_hex`: reads forty reverse hexadecimal digits of
/// either case, and fails on anything else.
#[verifier::external_body]
fn change_id_from_reverse_hex(hex: &[u8]) -> (r: Option<ChangeId>)
    ensures
        r == parsed_reverse_hex(hex@),
{
    let gix::ObjectId::Sha1(digest) = gix::hash::ChangeId::from_reverse_hex(hex).ok()?.into() else {
        return None
    };
    let (high, low) = digest.split_at(16);
    let id = ObjectId {
        high: u128::from_be_bytes(high.try_into().ok()?),
        low: u32::from_be_bytes(low.try_into().ok()?),
    };
    Some(ChangeId { id })
}

/// `gix::hash::ChangeId::to_reverse_hex_with_len`: displays the first `len` of the forty
/// lower-case reverse hexadecimal digits, or all of them.
#[verifier::external_body]
fn change_id_to_reverse_hex(id: ChangeId, len: usize) -> (r: Vec<u8>)
    ensures
        r@ == (if len < HEX_LEN {
            reverse_hex_of(id).take(len as int)
        } else {
            reverse_hex_of(id)
        }),
{
    let mut digest = [0u8; 20];
    digest[..16].copy_from_slice(&id.id.high.to_be_bytes());
    digest[16..].copy_from_slice(&id.id.low.to_be_bytes());
    let id = gix::hash::ChangeId::from(gix::ObjectId::Sha1(digest));
    id.to_reverse_hex_with_len(len).to_string().into_bytes()
}

proof fn nibbles_bounds(number: nat, len: nat)
    ensures
        nibbles(number, len).len() == len,
        forall|i: int| 0 <= i < len ==> #[trigger] nibbles(number, len)[i] < 16,
    decreases len,
{
    if len > 0 {
        nibbles_bounds(number / 16, (len - 1) as nat);
    }
}

spec fn power_of_16(exponent: nat) -> nat
    decreases exponent,
{
    if exponent == 0 {
        1
    } else {
        16 * power_of_16((exponent - 1) as nat)
    }
}

proof fn nibbles_round_trip(number: nat, len: nat)
    requires
        number < power_of_16(len),
    ensures
        nibbles_value(nibbles(number, len)) == number,
    decreases len,
{
    if len > 0 {
        nibbles_round_trip(number / 16, (len - 1) as nat);
        assert(nibbles(number, len).drop_last() == nibbles(number / 16, (len - 1) as nat));
    }
}

proof fn number_bound(id: ObjectId)
    ensures
        id.number() < power_of_16(40),
{
    reveal_with_fuel(power_of_16, 41);
    assert(power_of_16(40) == 0x1_0000_0000_0000_0000_0000_0000_0000_0000_0000_0000);
}

proof fn zero_has_zeros(len: nat)
    ensures
        nibbles(0, len).len() == len,
        forall|i: int| 0 <= i < len ==> #[trigger] nibbles(0, len)[i] == 0,
    decreases len,
{
    if len > 0 {
        zero_has_zeros((len - 1) as nat);
    }
}

/// The null id is forty zeros.
pub proof fn null_is_zeros()
    ensures
        hex_of(ObjectId { high: 0, low: 0 }).len() == 40,
        forall|i: int| 0 <= i < 40 ==> #[trigger] hex_of(ObjectId { high: 0, low: 0 })[i] == 48,
{
    zero_has_zeros(40);
}

/// An object id reads back from its hexadecimal notation, which has forty lower-case
/// hexadecimal digits.
pub proof fn hex_round_trip(id: ObjectId)
    ensures
        parsed_hex(hex_of(id)) == Some(id),
        hex_of(id).len() == 40,
        forall|i: int|
            0 <= i < 40 ==> 48 <= #[trigger] hex_of(id)[i] <= 57 || 97 <= hex_of(id)[i] <= 102,
{
    let number = id.number();
    nibbles_bounds(number, 40);
    number_bound(id);
    nibbles_round_trip(number, 40);
    assert forall|i: int| 0 <= i < 40 implies hex_digit(#[trigger] hex_of(id)[i]) == Some(
        nibbles(number, 40)[i],
    ) by {
        assert(nibbles(number, 40)[i] < 16);
    }
    assert(Seq::new(40, |i: int| hex_digit(hex_of(id)[i])->0) == nibbles(number, 40));
}

/// A change id reads back from its reverse hexadecimal notation, which has forty of the
/// letters from `k` to `z`.
pub proof fn reverse_hex_round_trip(id: ChangeId)
    ensures
        parsed_reverse_hex(reverse_hex_of(id)) == Some(id),
        reverse_hex_of(id).len() == 40,
        forall|i: int| 0 <= i < 40 ==> 107 <= #[trigger] reverse_hex_of(id)[i] <= 122,
{
    let number = id.id.number();
    nibbles_bounds(number, 40);
    number_bound(id.id);
    nibbles_round_trip(number, 40);
    assert forall|i: int| 0 <= i < 40 implies reverse_hex_digit(#[trigger] reverse_hex_of(id)[i])
        == Some(nibbles(number, 40)[i]) by {
        assert(nibbles(number, 40)[i] < 16);
    }
    assert(Seq::new(40, |i: int| reverse_hex_digit(reverse_hex_of(id)[i])->0) == nibbles(
        number,
        40,
    ));
}

/// Whether an id is among several.
pub fn contains_id(ids: &[ObjectId], id: ObjectId) -> (r: bool)
    ensures
        r == ids@.contains(id),
{
    let mut i: usize = 0;
    while i < ids.len()
        invariant
            i <= ids@.len(),
            forall|j: int| 0 <= j < i ==> ids@[j] != id,
        decreases ids.len() - i,
    {
        if ids[i] == id {
            return true;
        }
        i = i + 1;
    }
    false
}

} // verus!
