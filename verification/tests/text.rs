use sf::text::{decimal_text, is_blank, join, replace_all, same_text, strip_prefix};

fn words(alphabet: &[char], longest: usize) -> Vec<String> {
    let mut all: Vec<String> = vec![String::new()];
    let mut last: Vec<String> = vec![String::new()];
    for _ in 0..longest {
        let mut next: Vec<String> = Vec::new();
        for w in &last {
            for c in alphabet {
                let mut longer = w.clone();
                longer.push(*c);
                next.push(longer);
            }
        }
        all.extend(next.iter().cloned());
        last = next;
    }
    all
}

#[test]
fn replacing_agrees_with_the_standard_library() {
    let patterns = ["a", "ab", "aa", "aba"];
    let fillings = ["", "x", "ab", "aab"];
    for s in words(&['a', 'b'], 7) {
        for p in patterns {
            for f in fillings {
                assert_eq!(replace_all(&s, p, f), s.replace(p, f), "{} {} {}", s, p, f);
            }
        }
    }
}

#[test]
fn overlapping_occurrences_are_taken_from_the_left() {
    assert_eq!(replace_all("aaa", "aa", "-"), "-a");
    assert_eq!(replace_all("文__X__文", "__X__", "é"), "文é文");
    assert_eq!(replace_all("", "x", "y"), "");
}

#[test]
fn prefixes_are_stripped() {
    assert_eq!(strip_prefix("text:abc", "text:"), Some("abc".to_string()));
    assert_eq!(strip_prefix("text:", "text:"), Some(String::new()));
    assert_eq!(strip_prefix("tex", "text:"), None);
    assert_eq!(strip_prefix("Text:abc", "text:"), None);
    assert_eq!(strip_prefix("消息:好", "消息:"), Some("好".to_string()));
}

#[test]
fn words_are_joined_with_the_separator_between() {
    let args = vec!["a".to_string(), "".to_string(), "文".to_string()];
    assert_eq!(join(&args, " "), "a  文");
    assert_eq!(join(&args[..1], " "), "a");
    assert_eq!(join(&[], " "), "");
}

#[test]
fn numbers_are_written_in_decimal() {
    for n in 0..2000u64 {
        assert_eq!(decimal_text(n), n.to_string());
    }
    assert_eq!(decimal_text(u64::MAX), "18446744073709551615");
    assert_eq!(decimal_text(10_000), "10000");
}

#[test]
fn white_space_is_that_of_unicode() {
    for n in 0..=0x10ffffu32 {
        if let Some(c) = char::from_u32(n) {
            assert_eq!(is_blank(&c.to_string()), c.is_whitespace(), "{:x}", n);
        }
    }
}

#[test]
fn blank_text_is_white_space_throughout() {
    assert!(is_blank(""));
    assert!(is_blank(" \t\r\n\u{3000}"));
    assert!(!is_blank("  x  "));
    assert!(!is_blank("\u{200b}"));
}

#[test]
fn texts_are_compared_by_their_characters() {
    assert!(same_text("get", "get"));
    assert!(!same_text("get", "Get"));
    assert!(!same_text("get", "get "));
}
