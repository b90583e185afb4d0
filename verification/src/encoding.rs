//! UTF-8 as far as counting words needs it: the byte length of a text, the
//! byte offsets of its characters, and the decoding of raw bytes.

use vstd::prelude::*;
use vstd::string::StringSliceAdditionalSpecFns;
use vstd::utf8::{
    encode_scalar, encode_utf8, encode_utf8_decode_utf8, encode_utf8_first_scalar,
    encode_utf8_valid_utf8, is_char_boundary, valid_utf8,
};
use core::str::Utf8Error;

verus! {

/// The error of `core::str::from_utf8`. Nothing is read from it.
#[verifier::external_type_specification]
#[verifier::external_body]
pub struct ExUtf8Error(Utf8Error);

/// `core::str::from_utf8` succeeds on the byte sequences that are valid
/// UTF-8 and on no others, and the string slice that it then returns is
/// made of the very bytes it was given.
pub assume_specification[ core::str::from_utf8 ](v: &[u8]) -> (text: Result<&str, Utf8Error>)
    ensures
        text is Ok <==> valid_utf8(v@),
        text matches Ok(t) ==> t.spec_bytes() == v@,
;

/// The number of bytes that `text` takes in UTF-8.
pub open spec fn byte_len(text: Seq<char>) -> nat {
    encode_utf8(text).len()
}

/// The byte offset at which the character of index `i` starts in the
/// encoding of `text`; for `i == text.len()`, the length of the encoding.
pub open spec fn offset(text: Seq<char>, i: int) -> nat {
    byte_len(text.take(i))
}

/// The encoding of a text is the encoding of its parts, one after the other.
pub proof fn lemma_encode_concat(a: Seq<char>, b: Seq<char>)
    ensures
        encode_utf8(a + b) == encode_utf8(a) + encode_utf8(b),
        byte_len(a + b) == byte_len(a) + byte_len(b),
    decreases a.len(),
{
    if a.len() == 0 {
        assert(a + b =~= b);
    } else {
        lemma_encode_concat(a.drop_first(), b);
        assert((a + b).drop_first() =~= a.drop_first() + b);
    }
    assert(encode_utf8(a + b) =~= encode_utf8(a) + encode_utf8(b));
}

/// A character takes between one and four bytes.
pub proof fn lemma_char_len(c: char)
    ensures
        1 <= byte_len(seq![c]) <= 4,
        byte_len(seq![c]) == encode_scalar(c as u32).len(),
{
    assert(seq![c].drop_first() =~= Seq::<char>::empty());
    assert(encode_utf8(seq![c]) =~= encode_scalar(c as u32)) by {
        reveal_with_fuel(encode_utf8, 2);
    }
}

/// The encoding of a prefix ends where a character of the whole text starts.
pub proof fn lemma_prefix_ends_at_boundary(a: Seq<char>, b: Seq<char>)
    ensures
        byte_len(a) <= byte_len(a + b),
        is_char_boundary(encode_utf8(a + b), byte_len(a) as int),
    decreases a.len(),
{
    let whole = a + b;
    let bytes = encode_utf8(whole);
    lemma_encode_concat(a, b);
    encode_utf8_valid_utf8(whole);
    if a.len() > 0 {
        let rest = a.drop_first();
        encode_utf8_first_scalar(whole);
        lemma_char_len(a[0]);
        assert(whole.drop_first() =~= rest + b);
        assert(bytes.subrange(encode_scalar(a[0] as u32).len() as int, bytes.len() as int)
            =~= encode_utf8(rest + b));
        lemma_prefix_ends_at_boundary(rest, b);
    }
}

/// The bytes between two character offsets encode the characters between
/// them.
pub proof fn lemma_encode_subrange(text: Seq<char>, i: int, j: int)
    requires
        0 <= i <= j <= text.len(),
    ensures
        offset(text, i) <= offset(text, j) <= byte_len(text),
        encode_utf8(text).subrange(offset(text, i) as int, offset(text, j) as int) == encode_utf8(
            text.subrange(i, j),
        ),
{
    let head = text.take(i);
    let mid = text.subrange(i, j);
    let tail = text.skip(j);
    assert(text.take(j) =~= head + mid);
    assert(text =~= text.take(j) + tail);
    lemma_encode_concat(head, mid);
    lemma_encode_concat(text.take(j), tail);
    assert(encode_utf8(text).subrange(offset(text, i) as int, offset(text, j) as int)
        =~= encode_utf8(mid));
}

/// Two texts with the same encoding are the same text.
pub proof fn lemma_encode_injective(a: Seq<char>, b: Seq<char>)
    requires
        encode_utf8(a) == encode_utf8(b),
    ensures
        a == b,
{
    encode_utf8_decode_utf8(a);
    encode_utf8_decode_utf8(b);
}

/// The number of bytes that `c` takes in UTF-8.
pub fn utf8_len(c: char) -> (n: usize)
    ensures
        n == byte_len(seq![c]),
        1 <= n <= 4,
{
    proof {
        lemma_char_len(c);
    }
    let v: u32 = c as u32;
    if v < 0x80 {
        1
    } else if v < 0x800 {
        2
    } else if v < 0x10000 {
        3
    } else {
        4
    }
}

/// Tells whether two string slices hold the same text.
pub fn same_text(a: &str, b: &str) -> (same: bool)
    ensures
        same == (a@ == b@),
{
    let x = a.as_bytes();
    let y = b.as_bytes();
    if x.len() != y.len() {
        return false;
    }
    let mut i: usize = 0;
    while i < x.len()
        invariant
            x@.len() == y@.len(),
            x@ == encode_utf8(a@),
            y@ == encode_utf8(b@),
            0 <= i <= x@.len(),
            forall|j: int| 0 <= j < i ==> x@[j] == y@[j],
        decreases x@.len() - i,
    {
        if x[i] != y[i] {
            return false;
        }
        i = i + 1;
    }
    proof {
        assert(x@ =~= y@);
        lemma_encode_injective(a@, b@);
    }
    true
}

/// The part of `text` between the byte offsets `from` and `to`, which are
/// the offsets of its characters `i` and `j`.
pub(crate) fn cut<'a>(
    text: &'a str,
    from: usize,
    to: usize,
    Ghost(i): Ghost<int>,
    Ghost(j): Ghost<int>,
) -> (part: &'a str)
    requires
        0 <= i <= j <= text@.len(),
        from == offset(text@, i),
        to == offset(text@, j),
    ensures
        part@ == text@.subrange(i, j),
{
    proof {
        lemma_encode_subrange(text@, i, j);
        assert(text@ =~= text@.take(j) + text@.skip(j));
        lemma_prefix_ends_at_boundary(text@.take(j), text@.skip(j));
    }
    let (head, _) = text.split_at(to);
    proof {
        lemma_encode_subrange(text@, 0, j);
        assert(text@.take(0) =~= Seq::<char>::empty());
        assert(text@.subrange(0, j) =~= text@.take(j));
        assert(text@.take(j) =~= text@.take(i) + text@.subrange(i, j));
        lemma_prefix_ends_at_boundary(text@.take(i), text@.subrange(i, j));
    }
    let (_, part) = head.split_at(from);
    proof {
        assert(part.spec_bytes() =~= encode_utf8(text@).subrange(from as int, to as int));
        lemma_encode_injective(part@, text@.subrange(i, j));
    }
    part
}

} // verus!
