//! Counting the words that are kept, and the long ones among them.

use vstd::prelude::*;
use crate::words::{is_long, is_stop_word, spec_is_long, spec_is_stop_word, texts};

verus! {

/// The words that take part in the count: all but the stop-words, in order.
pub open spec fn spec_kept(words: Seq<Seq<char>>) -> Seq<Seq<char>> {
    words.filter(|w: Seq<char>| !spec_is_stop_word(w))
}

/// The long words among those that take part in the count.
pub open spec fn spec_long(words: Seq<Seq<char>>) -> Seq<Seq<char>> {
    spec_kept(words).filter(|w: Seq<char>| spec_is_long(w))
}

/// Two counts, as numbers without bound.
pub struct Counts {
    /// How many of the counted words are long.
    pub long: nat,
    /// How many words are counted.
    pub total: nat,
}

/// The counts of the words `words`.
pub open spec fn spec_count(words: Seq<Seq<char>>) -> Counts {
    Counts { long: spec_long(words).len(), total: spec_kept(words).len() }
}

/// How many words were counted, and how many of them are long. The share of
/// long words is `long / total`; it is undefined when `total` is zero.
#[derive(Clone, Copy, Debug, PartialEq, Eq)]
pub struct Tally {
    /// How many of the counted words are long.
    pub long: usize,
    /// How many words are counted.
    pub total: usize,
}

impl View for Tally {
    type V = Counts;

    open spec fn view(&self) -> Counts {
        Counts { long: self.long as nat, total: self.total as nat }
    }
}

impl Tally {
    /// The long words are among the counted ones.
    pub open spec fn wf(&self) -> bool {
        self.long <= self.total
    }
}

/// What one more word adds to the count.
pub proof fn lemma_count_push(words: Seq<Seq<char>>, word: Seq<char>)
    ensures
        spec_kept(words.push(word)) == if spec_is_stop_word(word) {
            spec_kept(words)
        } else {
            spec_kept(words).push(word)
        },
        spec_long(words.push(word)) == if !spec_is_stop_word(word) && spec_is_long(word) {
            spec_long(words).push(word)
        } else {
            spec_long(words)
        },
{
    reveal(Seq::filter);
    assert(words.push(word).drop_last() =~= words);
    if !spec_is_stop_word(word) {
        assert(spec_kept(words).push(word).drop_last() =~= spec_kept(words));
    }
}

/// The long words are no more than the counted words, and these no more
/// than all the words.
pub proof fn lemma_counts_ordered(words: Seq<Seq<char>>)
    ensures
        spec_count(words).long <= spec_count(words).total <= words.len(),
{
    words.lemma_filter_len(|w: Seq<char>| !spec_is_stop_word(w));
    spec_kept(words).lemma_filter_len(|w: Seq<char>| spec_is_long(w));
}

/// No word is counted exactly when every word is a stop-word.
pub proof fn lemma_none_counted(words: Seq<Seq<char>>)
    ensures
        spec_count(words).total == 0 <==> forall|i: int|
            0 <= i < words.len() ==> spec_is_stop_word(#[trigger] words[i]),
    decreases words.len(),
{
    if words.len() == 0 {
        reveal(Seq::filter);
    } else {
        let front = words.drop_last();
        lemma_none_counted(front);
        assert(words =~= front.push(words.last()));
        lemma_count_push(front, words.last());
        if spec_kept(words).len() == 0 {
            assert forall|i: int| 0 <= i < words.len() implies spec_is_stop_word(
                #[trigger] words[i],
            ) by {
                if i < front.len() {
                    assert(front[i] == words[i]);
                }
            }
        } else if spec_is_stop_word(words.last()) {
            let i = choose|i: int| 0 <= i < front.len() && !spec_is_stop_word(#[trigger] front[i]);
            assert(!spec_is_stop_word(words[i]));
        } else {
            assert(!spec_is_stop_word(words[words.len() - 1]));
        }
    }
}

/// Counts the words of `words` that are no stop-words, and the long ones
/// among these.
pub fn count(words: &[&str]) -> (tally: Tally)
    ensures
        tally@ == spec_count(texts(words@)),
        tally.wf(),
{
    let mut tally = Tally { long: 0, total: 0 };
    let mut i: usize = 0;
    proof {
        assert(texts(words@.take(0)) =~= Seq::<Seq<char>>::empty());
        reveal(Seq::filter);
    }
    while i < words.len()
        invariant
            0 <= i <= words@.len(),
            tally@ == spec_count(texts(words@.take(i as int))),
            tally.long <= tally.total <= i,
        decreases words@.len() - i,
    {
        let word = words[i];
        proof {
            assert(texts(words@.take(i + 1)) =~= texts(words@.take(i as int)).push(word@));
            lemma_count_push(texts(words@.take(i as int)), word@);
        }
        if !is_stop_word(word) {
            tally.total = tally.total + 1;
            if is_long(word) {
                tally.long = tally.long + 1;
            }
        }
        i = i + 1;
    }
    proof {
        assert(words@.take(i as int) =~= words@);
    }
    tally
}

} // verus!
