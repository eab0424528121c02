//! Byte-level model of UTF-8 strings and the `String` edits the documents use.

use vstd::prelude::*;
use vstd::utf8::*;

verus! {

broadcast use vstd::utf8::group_utf8_lib;

/// The UTF-8 bytes of a character sequence.
pub open spec fn utf8(s: Seq<char>) -> Seq<u8> {
    encode_utf8(s)
}

/// `bytes` with the range `start..end` replaced by `with`.
pub open spec fn splice(bytes: Seq<u8>, start: int, end: int, with: Seq<u8>) -> Seq<u8> {
    bytes.subrange(0, start) + with + bytes.subrange(end, bytes.len() as int)
}

/// True when `index` is a character boundary of the UTF-8 encoding of `s`.
pub open spec fn boundary(s: Seq<char>, index: int) -> bool {
    is_char_boundary(utf8(s), index)
}

/// Calls `String::insert_str`: the bytes of `text` are inserted at byte
/// position `idx`, which must be a character boundary (the call panics
/// otherwise).
#[verifier::external_body]
pub(crate) fn string_insert_str(s: &mut String, idx: usize, text: &str)
    requires
        boundary(old(s)@, idx as int),
    ensures
        utf8(final(s)@) == splice(utf8(old(s)@), idx as int, idx as int, utf8(text@)),
{
    s.insert_str(idx, text)
}

/// Calls `String::replace_range`: the bytes `start..end` are replaced by
/// `with`. Both ends must be character boundaries and `start <= end` (the
/// call panics otherwise).
#[verifier::external_body]
pub(crate) fn string_replace_range(s: &mut String, start: usize, end: usize, with: &str)
    requires
        start <= end,
        boundary(old(s)@, start as int),
        boundary(old(s)@, end as int),
    ensures
        utf8(final(s)@) == splice(utf8(old(s)@), start as int, end as int, utf8(with@)),
{
    s.replace_range(start..end, with)
}

/// Calls `String::len`, which gives the length of the string in bytes.
#[verifier::external_body]
pub(crate) fn byte_len(s: &String) -> (n: usize)
    ensures
        n == utf8(s@).len(),
{
    s.len()
}

/// Calls `String::push_str`: appends `t`.
#[verifier::external_body]
pub(crate) fn push_str(s: &mut String, t: &str)
    ensures
        final(s)@ == old(s)@ + t@,
{
    s.push_str(t)
}

/// The concatenation of three strings.
pub fn concat3(a: &str, b: &str, c: &str) -> (s: String)
    ensures
        s@ == a@ + b@ + c@,
{
    let mut s = a.to_owned();
    push_str(&mut s, b);
    push_str(&mut s, c);
    s
}

/// Calls `str::is_char_boundary`.
pub fn is_boundary(s: &String, index: usize) -> (b: bool)
    ensures
        b == boundary(s@, index as int),
{
    s.as_str().is_char_boundary(index)
}

} // verus!
