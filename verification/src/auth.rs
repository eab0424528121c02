//! Reading the bearer token of a request and the claims of a new token.

use vstd::prelude::*;
use vstd::utf8::*;
use crate::text::utf8;

verus! {

broadcast use vstd::utf8::group_utf8_lib;

/// The bytes of `Bearer ` (with its trailing space).
pub open spec fn bearer_prefix() -> Seq<u8> {
    seq![66u8, 101u8, 97u8, 114u8, 101u8, 114u8, 32u8]
}

/// Whether `b` starts with `p`.
pub open spec fn starts_with(b: Seq<u8>, p: Seq<u8>) -> bool {
    p.len() <= b.len() && b.take(p.len() as int) == p
}

/// `b` without every leading repetition of the nonempty `p`, as
/// `str::trim_start_matches` does.
pub open spec fn trim_start_all(b: Seq<u8>, p: Seq<u8>) -> Seq<u8>
    decreases b.len(),
{
    if p.len() > 0 && starts_with(b, p) {
        trim_start_all(b.skip(p.len() as int), p)
    } else {
        b
    }
}

/// In valid UTF-8, the end of a run of ASCII bytes at the start is a
/// character boundary.
proof fn lemma_ascii_prefix_boundary(b: Seq<u8>, k: int)
    requires
        valid_utf8(b),
        0 <= k <= b.len(),
        forall|i: int| 0 <= i < k ==> b[i] < 128,
    ensures
        is_char_boundary(b, k),
    decreases k,
{
    if k > 0 {
        assert(is_leading_byte_width_1(b[0]));
        assert(length_of_first_scalar(b) == 1);
        let t = pop_first_scalar(b);
        assert(valid_utf8(t));
        assert forall|i: int| 0 <= i < k - 1 implies t[i] < 128 by {
            assert(t[i] == b[i + 1]);
        }
        lemma_ascii_prefix_boundary(t, k - 1);
    }
}

fn has_bearer_prefix(s: &str) -> (r: bool)
    ensures
        r == starts_with(utf8(s@), bearer_prefix()),
{
    let b = s.as_bytes();
    let r = b.len() >= 7 && b[0] == 66u8 && b[1] == 101u8 && b[2] == 97u8 && b[3] == 114u8 && b[4]
        == 101u8 && b[5] == 114u8 && b[6] == 32u8;
    proof {
        if r {
            assert(b@.take(7) =~= bearer_prefix());
        }
        if starts_with(b@, bearer_prefix()) {
            assert(b@.take(7)[0] == b@[0]);
            assert(b@.take(7)[1] == b@[1]);
            assert(b@.take(7)[2] == b@[2]);
            assert(b@.take(7)[3] == b@[3]);
            assert(b@.take(7)[4] == b@[4]);
            assert(b@.take(7)[5] == b@[5]);
            assert(b@.take(7)[6] == b@[6]);
        }
    }
    r
}

/// The token of an `Authorization` header value: present only when the
/// value starts with `Bearer `, and then the value without every leading
/// `Bearer `.
pub fn bearer_token(header: &str) -> (t: Option<String>)
    ensures
        match t {
            Some(tok) => starts_with(utf8(header@), bearer_prefix()) && utf8(tok@)
                == trim_start_all(utf8(header@), bearer_prefix()),
            None => !starts_with(utf8(header@), bearer_prefix()),
        },
{
    if !has_bearer_prefix(header) {
        return None;
    }
    let mut rest: &str = header;
    while has_bearer_prefix(rest)
        invariant
            trim_start_all(utf8(rest@), bearer_prefix()) == trim_start_all(
                utf8(header@),
                bearer_prefix(),
            ),
        decreases utf8(rest@).len(),
    {
        let ghost b = utf8(rest@);
        proof {
            assert(b.take(7) == bearer_prefix());
            assert(b[6] == 32u8);
            assert forall|i: int| 0 <= i < 7 implies b[i] < 128 by {
                assert(b[i] == b.take(7)[i]);
            }
            lemma_ascii_prefix_boundary(b, 7);
        }
        let (_prefix, after) = rest.split_at(7);
        proof {
            assert(utf8(after@) =~= b.skip(7));
        }
        rest = after;
    }
    Some(rest.to_owned())
}

/// The secret that signs tokens: the configured one, or `secret` when none is
/// configured.
pub fn jwt_secret(configured: Option<String>) -> (s: String)
    ensures
        s@ == match configured {
            Some(c) => c@,
            None => "secret"@,
        },
{
    match configured {
        Some(c) => c,
        None => "secret".to_owned(),
    }
}

/// How long a token stays valid, in seconds: twelve hours.
pub const TOKEN_LIFETIME_SECONDS: i64 = 43200;

/// The expiry of a token issued at Unix time `now` (twelve hours later), as
/// the `usize` that the claims carry: a time before 1970 wraps.
pub fn token_expiration(now: i64) -> (exp: usize)
    requires
        now <= i64::MAX - TOKEN_LIFETIME_SECONDS,
    ensures
        exp == (now + TOKEN_LIFETIME_SECONDS) as usize,
{
    let t = now + TOKEN_LIFETIME_SECONDS;
    #[verifier::truncate]
    (t as usize)
}

} // verus!
