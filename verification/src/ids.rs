//! Project identifiers: UUIDs held as 128-bit integers.

use vstd::prelude::*;

verus! {

/// The lowercase hexadecimal digit of `n` (below 16).
pub open spec fn hex_digit(n: nat) -> char {
    if n < 10 {
        (48 + n) as char
    } else {
        (87 + n) as char
    }
}

/// The last `count` hexadecimal digits of `x`, most significant first.
pub open spec fn hex_digits(x: nat, count: nat) -> Seq<char>
    decreases count,
{
    if count == 0 {
        Seq::empty()
    } else {
        hex_digits(x / 16, (count - 1) as nat).push(hex_digit(x % 16))
    }
}

/// The hyphenated text of a UUID: its 32 hexadecimal digits in groups of 8,
/// 4, 4, 4 and 12, separated by `-`.
pub open spec fn uuid_hyphenated(id: u128) -> Seq<char> {
    let h = hex_digits(id as nat, 32);
    h.subrange(0, 8) + seq!['-'] + h.subrange(8, 12) + seq!['-'] + h.subrange(12, 16) + seq!['-']
        + h.subrange(16, 20) + seq!['-'] + h.subrange(20, 32)
}

/// Calls `uuid::Uuid::from_u128` and its `Display` (`to_string`): the
/// hyphenated lowercase text of the UUID whose big-endian value is `id`.
#[verifier::external_body]
pub(crate) fn uuid_text(id: u128) -> (s: String)
    ensures
        s@ == uuid_hyphenated(id),
{
    uuid::Uuid::from_u128(id).to_string()
}

/// Calls `uuid::Uuid::from_u128` and the `Display` of its `simple` form: the
/// 32 lowercase hexadecimal digits of the UUID whose big-endian value is `id`.
#[verifier::external_body]
pub(crate) fn uuid_simple_text(id: u128) -> (s: String)
    ensures
        s@ == hex_digits(id as nat, 32),
{
    uuid::Uuid::from_u128(id).simple().to_string()
}

/// Calls `uuid::Uuid::new_v4` (and `as_u128`): a random UUID of version 4
/// and of the RFC 4122 variant. Which one is left open: it is random.
#[verifier::external_body]
pub(crate) fn new_uuid_v4() -> (id: u128)
    ensures
        (id >> 76u128) & 0xfu128 == 4,
        (id >> 62u128) & 0x3u128 == 2,
{
    uuid::Uuid::new_v4().as_u128()
}

} // verus!
