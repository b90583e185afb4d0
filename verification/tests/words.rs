use short_long::encoding::{same_text, utf8_len};
use short_long::tally::{count, Tally};
use short_long::whitespace::is_whitespace;
use short_long::words::{is_long, is_stop_word, split, LONG_WORD_BYTES};
use short_long::{count_words, short_long};

fn counts_by_std(text: &str) -> Tally {
    let words: Vec<&str> =
        text.split(char::is_whitespace).filter(|&s| s != "the" && s != "a").collect();
    let mut long = 0;
    for word in &words {
        if word.len() > 8 {
            long += 1;
        }
    }
    Tally { long, total: words.len() }
}

fn sample_texts() -> Vec<String> {
    let alphabet = [
        'a', 't', 'h', 'e', ' ', ' ', '\t', '\n', 'T', 'x', 'y', 'z', '.', '\u{a0}', '\u{e9}',
        '\u{2003}', '\u{3000}', '\u{4e16}', '\u{1f600}', '\u{200b}', '\u{85}', '\u{1680}',
    ];
    let mut texts = Vec::new();
    let mut state: u64 = 0x2545f4914f6cdd1d;
    for round in 0..400usize {
        let len = round % 41;
        let mut text = String::new();
        for _ in 0..len {
            state ^= state << 13;
            state ^= state >> 7;
            state ^= state << 17;
            text.push(alphabet[(state % alphabet.len() as u64) as usize]);
        }
        texts.push(text);
    }
    texts
}

#[test]
fn stop_words_are_matched_exactly() {
    assert!(is_stop_word("the"));
    assert!(is_stop_word("a"));
    assert!(!is_stop_word("The"));
    assert!(!is_stop_word("THE"));
    assert!(!is_stop_word("a."));
    assert!(!is_stop_word("an"));
    assert!(!is_stop_word("A"));
    assert!(!is_stop_word(""));
    assert!(!is_stop_word("th"));
    assert!(!is_stop_word("thee"));
    assert!(!is_stop_word("t\u{68}\u{301}e"));
}

#[test]
fn only_exact_stop_words_are_removed() {
    assert_eq!(count_words("The THE a. an"), Tally { long: 0, total: 4 });
    assert_eq!(count_words("the The a A"), Tally { long: 0, total: 2 });
}

#[test]
fn long_means_more_than_eight_bytes() {
    assert_eq!(LONG_WORD_BYTES, 8);
    assert!(!is_long("12345678"));
    assert!(is_long("123456789"));
    assert!(!is_long(""));
    assert_eq!(count_words("12345678"), Tally { long: 0, total: 1 });
    assert_eq!(count_words("123456789"), Tally { long: 1, total: 1 });
}

#[test]
fn length_is_counted_in_bytes() {
    // four characters of two bytes: eight bytes
    assert!(!is_long("\u{e9}\u{e9}\u{e9}\u{e9}"));
    // three characters of three bytes: nine bytes
    assert!(is_long("\u{4e16}\u{4e16}\u{4e16}"));
    // two characters of four bytes and one of one: nine bytes
    assert!(is_long("\u{1f600}\u{1f600}x"));
    assert!(!is_long("\u{1f600}\u{1f600}"));
    assert_eq!(count_words("\u{4e16}\u{4e16}\u{4e16} \u{e9}\u{e9}"), Tally { long: 1, total: 2 });
}

#[test]
fn split_keeps_empty_words() {
    assert_eq!(split("a   a"), vec!["a", "", "", "a"]);
    assert_eq!(split(""), vec![""]);
    assert_eq!(split(" "), vec!["", ""]);
    assert_eq!(split("  "), vec!["", "", ""]);
    assert_eq!(split(" x"), vec!["", "x"]);
    assert_eq!(split("x "), vec!["x", ""]);
}

#[test]
fn empty_words_count_but_are_not_long() {
    assert_eq!(count_words("   "), Tally { long: 0, total: 4 });
    assert_eq!(count_words("\t\n"), Tally { long: 0, total: 3 });
    assert_eq!(count_words("the  the"), Tally { long: 0, total: 1 });
}

#[test]
fn split_parts_at_every_kind_of_whitespace() {
    assert_eq!(
        split("the quick brown fox jumps over a lazy dog"),
        vec!["the", "quick", "brown", "fox", "jumps", "over", "a", "lazy", "dog"]
    );
    assert_eq!(split("one\ttwo\nthree\r\nfour"), vec!["one", "two", "three", "", "four"]);
    assert_eq!(
        split("\u{e9}t\u{e9}\u{a0}\u{4e16}\u{754c}\u{3000}\u{1f600}"),
        vec!["\u{e9}t\u{e9}", "\u{4e16}\u{754c}", "\u{1f600}"]
    );
    // a zero-width space is no whitespace
    assert_eq!(split("a\u{200b}b"), vec!["a\u{200b}b"]);
}

#[test]
fn split_agrees_with_std() {
    for text in sample_texts() {
        let expected: Vec<&str> = text.split(char::is_whitespace).collect();
        assert_eq!(split(&text), expected);
    }
}

#[test]
fn counts_agree_with_std() {
    for text in sample_texts() {
        assert_eq!(count_words(&text), counts_by_std(&text));
        assert_eq!(short_long(text.as_bytes()), Ok(counts_by_std(&text)));
    }
}

#[test]
fn count_leaves_stop_words_out() {
    assert_eq!(count(&[]), Tally { long: 0, total: 0 });
    assert_eq!(count(&["the", "a"]), Tally { long: 0, total: 0 });
    assert_eq!(count(&["the", "", "a", "hippopotamus", "cat"]), Tally { long: 1, total: 3 });
    assert_eq!(count(&["rhinoceros", "hippopotamus"]), Tally { long: 2, total: 2 });
}

#[test]
fn whitespace_agrees_with_std() {
    let mut found = 0;
    for v in 0..=0x10ffffu32 {
        if let Some(c) = char::from_u32(v) {
            assert_eq!(is_whitespace(c), c.is_whitespace());
            if is_whitespace(c) {
                found += 1;
            }
        }
    }
    assert_eq!(found, 25);
}

#[test]
fn whitespace_by_example() {
    for c in [' ', '\t', '\n', '\u{b}', '\u{c}', '\r', '\u{85}', '\u{a0}', '\u{1680}'] {
        assert!(is_whitespace(c));
    }
    for c in ['\u{2000}', '\u{200a}', '\u{2028}', '\u{2029}', '\u{202f}', '\u{205f}', '\u{3000}'] {
        assert!(is_whitespace(c));
    }
    for c in ['a', '0', '\u{0}', '\u{8}', '\u{e}', '\u{1f}', '\u{200b}', '\u{180e}', '\u{feff}'] {
        assert!(!is_whitespace(c));
    }
}

#[test]
fn utf8_len_agrees_with_std() {
    for v in 0..=0x10ffffu32 {
        if let Some(c) = char::from_u32(v) {
            assert_eq!(utf8_len(c), c.len_utf8());
        }
    }
    assert_eq!(utf8_len('\u{7f}'), 1);
    assert_eq!(utf8_len('\u{80}'), 2);
    assert_eq!(utf8_len('\u{7ff}'), 2);
    assert_eq!(utf8_len('\u{800}'), 3);
    assert_eq!(utf8_len('\u{ffff}'), 3);
    assert_eq!(utf8_len('\u{10000}'), 4);
}

#[test]
fn same_text_is_equality() {
    assert!(same_text("", ""));
    assert!(same_text("the", "the"));
    assert!(!same_text("the", "thE"));
    assert!(!same_text("the", "th"));
    assert!(!same_text("th", "the"));
    assert!(!same_text("a", ""));
    assert!(same_text("\u{4e16}\u{754c}", "\u{4e16}\u{754c}"));
    assert!(!same_text("\u{4e16}\u{754c}", "\u{4e16}\u{754d}"));
}
