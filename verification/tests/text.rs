//! Characters, words and lines agree with the standard library.
use turbo_go::text::{
    is_blank, joined, same, split_lines, split_words, starts_with, strip_suffix, text_of, trimmed,
};

const SAMPLES: [&str; 12] = [
    "",
    " ",
    "word",
    " two words ",
    "\ttabs\tand\u{a0}more\u{3000}",
    "a\nb",
    "a\r\nb\r\n",
    "a\r",
    "\n",
    "\n\n",
    "a\r\r\nb",
    "é ü\u{2028}x",
];

#[test]
fn blanks_are_the_white_space_of_unicode() {
    for code in 0..=0x10ffff_u32 {
        if let Some(c) = char::from_u32(code) {
            assert_eq!(is_blank(c), c.is_whitespace(), "{code:x}");
        }
    }
}

#[test]
fn words_lines_and_trimming_agree() {
    for text in SAMPLES {
        let words: Vec<&str> = text.split_whitespace().collect();
        assert_eq!(split_words(text), words);
        let lines: Vec<&str> = text.lines().collect();
        assert_eq!(split_lines(text), lines);
        assert_eq!(trimmed(text), text.trim());
    }
}

#[test]
fn prefixes_and_suffixes_agree() {
    for text in SAMPLES {
        for part in ["", "a", " ", "word", "\n", "b\r\n"] {
            assert_eq!(starts_with(text, part), text.starts_with(part));
            assert_eq!(strip_suffix(text, part), text.strip_suffix(part).unwrap_or(text));
            assert_eq!(same(text, part), text == part);
        }
    }
}

#[test]
fn characters_become_text() {
    let chars = vec!['a', 'é', '\u{1f600}', 'b'];
    assert_eq!(text_of(&chars, 0, 4), "aé\u{1f600}b");
    assert_eq!(text_of(&chars, 1, 3), "é\u{1f600}");
    assert_eq!(text_of(&chars, 2, 2), "");
}

#[test]
fn parts_are_joined() {
    let parts: Vec<String> = vec!["a".to_string(), String::new(), "b".to_string()];
    assert_eq!(joined(&parts, "/"), "a//b");
    assert_eq!(joined(&parts[..1].to_vec(), "/"), "a");
    assert_eq!(joined(&Vec::new(), "/"), "");
}
