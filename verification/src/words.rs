//! Splitting a text into words.

use vstd::prelude::*;
use crate::whitespace::{is_whitespace, spec_is_whitespace};
use crate::encoding::{byte_len, cut, lemma_encode_concat, offset, same_text, utf8_len};

verus! {

/// The words of `text`, in order: a whitespace character ends the word
/// before it and begins a new, empty one; any other character is added to
/// the word that is being read.
pub open spec fn spec_split(text: Seq<char>) -> Seq<Seq<char>>
    decreases text.len(),
{
    if text.len() == 0 {
        seq![Seq::empty()]
    } else {
        let before = spec_split(text.drop_last());
        if is_whitespace(text.last()) {
            before.push(Seq::empty())
        } else {
            before.drop_last().push(before.last().push(text.last()))
        }
    }
}

/// The words that are left out of the count: `the` and `a`, as they are
/// written here and in no other form.
pub open spec fn spec_is_stop_word(word: Seq<char>) -> bool {
    word == "the"@ || word == "a"@
}

/// A word is long when it takes more than this many bytes in UTF-8.
pub const LONG_WORD_BYTES: usize = 8;

/// The long words: those of more than `LONG_WORD_BYTES` bytes.
pub open spec fn spec_is_long(word: Seq<char>) -> bool {
    byte_len(word) > LONG_WORD_BYTES
}

/// The texts of a sequence of string slices.
pub open spec fn texts(words: Seq<&str>) -> Seq<Seq<char>> {
    words.map_values(|w: &str| w@)
}

/// A text has at least one word.
pub proof fn lemma_split_nonempty(text: Seq<char>)
    ensures
        spec_split(text).len() >= 1,
    decreases text.len(),
{
    if text.len() > 0 {
        lemma_split_nonempty(text.drop_last());
    }
}

/// A text without whitespace is one word.
pub proof fn lemma_split_word(word: Seq<char>)
    requires
        forall|i: int| 0 <= i < word.len() ==> !is_whitespace(#[trigger] word[i]),
    ensures
        spec_split(word) == seq![word],
    decreases word.len(),
{
    if word.len() == 0 {
        assert(word =~= Seq::<char>::empty());
    } else {
        let front = word.drop_last();
        lemma_split_word(front);
        assert(!is_whitespace(word[word.len() - 1]));
        assert(front.push(word.last()) =~= word);
        assert(seq![front].drop_last().push(word) =~= seq![word]);
    }
}

/// A whitespace character parts a text into what stands before it and what
/// stands after it: the words of the text are those of the first part,
/// then those of the second. Two whitespace characters in a row so have an
/// empty word between them.
pub proof fn lemma_split_at_whitespace(before: Seq<char>, c: char, after: Seq<char>)
    requires
        is_whitespace(c),
    ensures
        spec_split(before.push(c) + after) == spec_split(before) + spec_split(after),
    decreases after.len(),
{
    let text = before.push(c) + after;
    if after.len() == 0 {
        assert(text =~= before.push(c));
        assert(text.drop_last() =~= before);
        assert(spec_split(before).push(Seq::<char>::empty()) =~= spec_split(before) + seq![
            Seq::<char>::empty(),
        ]);
    } else {
        let front = after.drop_last();
        lemma_split_at_whitespace(before, c, front);
        lemma_split_nonempty(front);
        assert(text.drop_last() =~= before.push(c) + front);
        let left = spec_split(before);
        let right = spec_split(front);
        if is_whitespace(after.last()) {
            assert((left + right).push(Seq::<char>::empty()) =~= left + right.push(
                Seq::<char>::empty(),
            ));
        } else {
            let last = right.last().push(after.last());
            assert((left + right).drop_last().push(last) =~= left + right.drop_last().push(last));
        }
    }
}

/// The number of whitespace characters of `text`.
pub open spec fn whitespace_count(text: Seq<char>) -> nat {
    text.filter(|c: char| is_whitespace(c)).len()
}

/// A text has one word more than it has whitespace characters.
pub proof fn lemma_split_len(text: Seq<char>)
    ensures
        spec_split(text).len() == whitespace_count(text) + 1,
    decreases text.len(),
{
    reveal(Seq::filter);
    if text.len() > 0 {
        lemma_split_len(text.drop_last());
    }
}

/// No word holds a whitespace character.
pub proof fn lemma_words_hold_no_whitespace(text: Seq<char>)
    ensures
        forall|i: int, j: int|
            0 <= i < spec_split(text).len() && 0 <= j < spec_split(text)[i].len()
                ==> !is_whitespace(#[trigger] spec_split(text)[i][j]),
    decreases text.len(),
{
    if text.len() > 0 {
        lemma_words_hold_no_whitespace(text.drop_last());
        lemma_split_nonempty(text.drop_last());
    }
}

/// The stop-words by their characters: a word that differs from `the` and
/// from `a` in any character, in its case or in its length is none.
pub proof fn lemma_stop_word_chars(word: Seq<char>)
    ensures
        spec_is_stop_word(word) <==> word == seq!['t', 'h', 'e'] || word == seq!['a'],
{
    reveal_strlit("the");
    reveal_strlit("a");
    assert("the"@ =~= seq!['t', 'h', 'e']);
    assert("a"@ =~= seq!['a']);
}

/// The empty word is counted, and it is not long.
pub proof fn lemma_empty_word(word: Seq<char>)
    requires
        word.len() == 0,
    ensures
        !spec_is_stop_word(word),
        !spec_is_long(word),
{
    lemma_stop_word_chars(word);
    assert(word =~= Seq::<char>::empty());
}

/// Splits `text` at each of its whitespace characters.
pub fn split<'a>(text: &'a str) -> (words: Vec<&'a str>)
    ensures
        texts(words@) == spec_split(text@),
{
    let end = text.as_bytes().len();
    let mut words: Vec<&str> = Vec::new();
    let mut start: usize = 0;
    let mut pos: usize = 0;
    let ghost mut first: int = 0;
    proof {
        assert(text@.take(0) =~= Seq::<char>::empty());
        assert(texts(words@).push(text@.subrange(0, 0)) =~= spec_split(text@.take(0)));
    }
    for c in it: text.chars()
        invariant
            it.seq() == text@,
            end == byte_len(text@),
            0 <= first <= it.index() <= text@.len(),
            start == offset(text@, first),
            pos == offset(text@, it.index() as int),
            texts(words@).push(text@.subrange(first, it.index() as int)) == spec_split(
                text@.take(it.index() as int),
            ),
    {
        let ghost k = it.index() as int;
        proof {
            let seen = text@.take(k + 1);
            assert(seen.drop_last() =~= text@.take(k));
            assert(seen.last() == c);
            assert(seen =~= text@.take(k) + seq![c]);
            lemma_encode_concat(text@.take(k), seq![c]);
            assert(text@ =~= seen + text@.skip(k + 1));
            lemma_encode_concat(seen, text@.skip(k + 1));
            assert(text@.subrange(first, k + 1) =~= text@.subrange(first, k).push(c));
        }
        let next = pos + utf8_len(c);
        if is_whitespace(c) {
            let word = cut(text, start, pos, Ghost(first), Ghost(k));
            proof {
                assert(texts(words@.push(word)) =~= texts(words@).push(word@));
                assert(text@.subrange(k + 1, k + 1) =~= Seq::<char>::empty());
            }
            words.push(word);
            start = next;
            proof {
                first = k + 1;
            }
        }
        pos = next;
    }
    let ghost n = text@.len() as int;
    proof {
        assert(text@.take(n) =~= text@);
    }
    let word = cut(text, start, end, Ghost(first), Ghost(n));
    proof {
        assert(texts(words@.push(word)) =~= texts(words@).push(word@));
    }
    words.push(word);
    words
}

/// Tells whether `word` is left out of the count.
pub fn is_stop_word(word: &str) -> (stop: bool)
    ensures
        stop == spec_is_stop_word(word@),
{
    same_text(word, "the") || same_text(word, "a")
}

/// Tells whether `word` counts as long.
pub fn is_long(word: &str) -> (long: bool)
    ensures
        long == spec_is_long(word@),
{
    word.as_bytes().len() > LONG_WORD_BYTES
}

} // verus!
