//! Counts how many of the words of a text are long.
//!
//! A text is split at each whitespace character. The words `the` and `a`
//! are left out. Of the words that remain, those of more than eight bytes
//! are long. The result is the two counts, of the long words and of all the
//! words that remain: the share of long words is their quotient.

use vstd::prelude::*;
use vstd::utf8::{decode_utf8, encode_utf8_decode_utf8, valid_utf8};

pub mod whitespace;
pub mod encoding;
pub mod words;
pub mod tally;

use crate::tally::{count, lemma_none_counted, spec_count, Counts, Tally};
use crate::words::{spec_is_stop_word, spec_split, split};

verus! {

/// Why a buffer could not be counted.
#[derive(Clone, Copy, Debug, PartialEq, Eq)]
pub enum TextError {
    /// The bytes are not valid UTF-8.
    InvalidUtf8,
}

/// What counting the buffer `bytes` gives: the counts of the words of the
/// text that the bytes encode, or the reason why there are none.
pub open spec fn spec_short_long(bytes: Seq<u8>) -> Result<Counts, TextError> {
    if valid_utf8(bytes) {
        Ok(spec_count(spec_split(decode_utf8(bytes))))
    } else {
        Err(TextError::InvalidUtf8)
    }
}

/// Buffers that hold the same bytes are counted alike.
pub proof fn lemma_same_bytes_same_counts(a: Seq<u8>, b: Seq<u8>)
    requires
        a.len() == b.len(),
        forall|i: int| 0 <= i < a.len() ==> a[i] == b[i],
    ensures
        spec_short_long(a) == spec_short_long(b),
{
    assert(a =~= b);
}

/// Counts the words of `text`, and the long ones among them.
pub fn count_words(text: &str) -> (tally: Tally)
    ensures
        tally@ == spec_count(spec_split(text@)),
        tally.long <= tally.total,
        tally.total == 0 <==> forall|i: int|
            0 <= i < spec_split(text@).len() ==> spec_is_stop_word(#[trigger] spec_split(text@)[i]),
{
    let words = split(text);
    proof {
        lemma_none_counted(spec_split(text@));
    }
    count(words.as_slice())
}

/// Counts the words of the text that `bytes` encodes in UTF-8, and the long
/// ones among them. Bytes that are not valid UTF-8 are refused.
pub fn short_long(bytes: &[u8]) -> (outcome: Result<Tally, TextError>)
    ensures
        match outcome {
            Ok(tally) => spec_short_long(bytes@) == Ok::<Counts, TextError>(tally@) && tally.long
                <= tally.total,
            Err(e) => spec_short_long(bytes@) == Err::<Counts, TextError>(e),
        },
{
    match core::str::from_utf8(bytes) {
        Ok(text) => {
            proof {
                encode_utf8_decode_utf8(text@);
            }
            Ok(count_words(text))
        },
        Err(_) => Err(TextError::InvalidUtf8),
    }
}

} // verus!
