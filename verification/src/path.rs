//! Splitting a file path into its `/`-separated components.

use vstd::prelude::*;
use vstd::utf8::*;
use crate::text::utf8;

verus! {

broadcast use vstd::utf8::group_utf8_lib;

/// The byte `/`.
pub open spec fn slash() -> u8 {
    47
}

/// The pieces of `b` between the `/` bytes: always at least one piece, and
/// one more than there are `/` bytes.
pub open spec fn split_bytes(b: Seq<u8>) -> Seq<Seq<u8>>
    decreases b.len(),
{
    if b.len() == 0 {
        seq![Seq::empty()]
    } else {
        let rest = split_bytes(b.drop_first());
        if b[0] == slash() {
            seq![Seq::<u8>::empty()] + rest
        } else {
            rest.update(0, seq![b[0]] + rest[0])
        }
    }
}

/// The UTF-8 bytes of each string of a sequence.
pub open spec fn strings_bytes(parts: Seq<String>) -> Seq<Seq<u8>> {
    parts.map_values(|s: String| utf8(s@))
}

/// The characters of each string of a sequence.
pub open spec fn strings_view(parts: Seq<String>) -> Seq<Seq<char>> {
    parts.map_values(|s: String| s@)
}

/// The components of a path: the pieces of its text between the `/`
/// characters.
pub open spec fn path_parts(path: Seq<char>) -> Seq<Seq<char>> {
    split_bytes(utf8(path)).map_values(|b: Seq<u8>| decode_utf8(b))
}

pub proof fn lemma_split_len(b: Seq<u8>)
    ensures
        split_bytes(b).len() >= 1,
    decreases b.len(),
{
    if b.len() > 0 {
        lemma_split_len(b.drop_first());
    }
}

/// Splitting at the first `/`.
pub proof fn lemma_split_first_slash(b: Seq<u8>, k: int)
    requires
        0 <= k < b.len(),
        b[k] == slash(),
        forall|j: int| 0 <= j < k ==> b[j] != slash(),
    ensures
        split_bytes(b) == seq![b.take(k)] + split_bytes(b.skip(k + 1)),
    decreases k,
{
    if k == 0 {
        assert(b.drop_first() =~= b.skip(1));
        assert(b.take(0) =~= Seq::<u8>::empty());
    } else {
        let t = b.drop_first();
        lemma_split_first_slash(t, k - 1);
        assert(t.skip(k) =~= b.skip(k + 1));
        assert(seq![b[0]] + t.take(k - 1) =~= b.take(k));
        assert(split_bytes(b) =~= seq![b.take(k)] + split_bytes(b.skip(k + 1)));
    }
}

/// Without a `/`, the whole is the only piece.
pub proof fn lemma_split_no_slash(b: Seq<u8>)
    requires
        forall|j: int| 0 <= j < b.len() ==> b[j] != slash(),
    ensures
        split_bytes(b) == seq![b],
    decreases b.len(),
{
    if b.len() > 0 {
        let t = b.drop_first();
        lemma_split_no_slash(t);
        assert(seq![b[0]] + t =~= b);
        assert(split_bytes(b) =~= seq![b]);
    } else {
        assert(b =~= Seq::<u8>::empty());
    }
}

/// Every piece produced by a split is valid UTF-8 when the whole is, and the
/// characters of the pieces are the path components.
pub proof fn lemma_parts_of_strings(path: Seq<char>, parts: Seq<String>)
    requires
        strings_bytes(parts) == split_bytes(utf8(path)),
    ensures
        strings_view(parts) == path_parts(path),
{
    let sb = split_bytes(utf8(path));
    assert forall|i: int| 0 <= i < parts.len() implies #[trigger] strings_view(parts)[i]
        == path_parts(path)[i] by {
        assert(strings_bytes(parts)[i] == utf8(parts[i]@));
        assert(decode_utf8(encode_utf8(parts[i]@)) == parts[i]@);
    }
    assert(strings_view(parts) =~= path_parts(path));
}

/// Splits `path` at every `/`, as `str::split('/')` does.
pub fn split_path(path: &str) -> (parts: Vec<String>)
    ensures
        strings_bytes(parts@) == split_bytes(utf8(path@)),
        strings_view(parts@) == path_parts(path@),
        parts@.len() >= 1,
{
    let mut parts: Vec<String> = Vec::new();
    let mut rest: &str = path;
    loop
        invariant_except_break
            strings_bytes(parts@) + split_bytes(utf8(rest@)) == split_bytes(utf8(path@)),
        ensures
            strings_bytes(parts@) == split_bytes(utf8(path@)),
        decreases utf8(rest@).len(),
    {
        let ghost rb = utf8(rest@);
        let bytes = rest.as_bytes();
        let mut k: usize = 0;
        while k < bytes.len() && bytes[k] != 47u8
            invariant
                bytes@ == rb,
                k <= bytes@.len(),
                forall|j: int| 0 <= j < k ==> bytes@[j] != slash(),
            decreases bytes@.len() - k,
        {
            k = k + 1;
        }
        if k == bytes.len() {
            proof {
                lemma_split_no_slash(rb);
            }
            let last = rest.to_owned();
            let ghost before = strings_bytes(parts@);
            parts.push(last);
            proof {
                assert(strings_bytes(parts@) =~= before.push(rb));
                assert(before.push(rb) =~= before + seq![rb]);
            }
            break;
        }
        proof {
            lemma_split_first_slash(rb, k as int);
            assert(!is_continuation_byte(rb[k as int]));
            assert(is_char_boundary(rb, k as int));
        }
        let (head, tail) = rest.split_at(k);
        let ghost tb = rb.subrange(k as int, rb.len() as int);
        proof {
            assert(valid_utf8(tb));
            assert(tb[0] == slash());
            assert(is_char_boundary(tb, 1)) by {
                reveal_with_fuel(is_char_boundary, 2);
            }
        }
        let (_sep, after) = tail.split_at(1);
        let piece = head.to_owned();
        let ghost before = strings_bytes(parts@);
        parts.push(piece);
        proof {
            assert(strings_bytes(parts@) =~= before.push(rb.take(k as int)));
            assert(utf8(after@) =~= rb.skip(k as int + 1));
            assert(before.push(rb.take(k as int)) + split_bytes(rb.skip(k as int + 1)) =~= before
                + (seq![rb.take(k as int)] + split_bytes(rb.skip(k as int + 1))));
        }
        rest = after;
    }
    proof {
        lemma_split_len(utf8(path@));
        lemma_parts_of_strings(path@, parts@);
    }
    parts
}

} // verus!
