use lightning_dictionary::hotkey::is_single_word;

fn by_std(text: &str) -> bool {
    let trimmed = text.trim();
    !trimmed.is_empty()
        && trimmed.split_whitespace().count() == 1
        && trimmed.len() < 50
        && trimmed.chars().all(|c| c.is_alphabetic() || c == '-' || c == '\'')
}

#[test]
fn single_words_are_recognised() {
    assert!(is_single_word("hello"));
    assert!(is_single_word("  hello\n"));
    assert!(is_single_word("well-being"));
    assert!(is_single_word("don't"));
    assert!(is_single_word("naïve"));
    assert!(is_single_word("слово"));
    assert!(is_single_word("-"));
}

#[test]
fn other_text_is_not_a_single_word() {
    assert!(!is_single_word(""));
    assert!(!is_single_word("   "));
    assert!(!is_single_word("two words"));
    assert!(!is_single_word("tab\tbed"));
    assert!(!is_single_word("abc123"));
    assert!(!is_single_word("hello!"));
    assert!(!is_single_word("under_score"));
    assert!(!is_single_word("a\u{a0}b"));
}

#[test]
fn words_of_fifty_bytes_are_too_long() {
    let forty_nine = "a".repeat(49);
    let fifty = "a".repeat(50);
    assert!(is_single_word(&forty_nine));
    assert!(!is_single_word(&fifty));
    assert!(is_single_word(&format!("  {}  ", forty_nine)));
    // 25 letters of two bytes each are 50 bytes
    assert!(!is_single_word(&"é".repeat(25)));
    assert!(is_single_word(&"é".repeat(24)));
}

#[test]
fn single_word_agrees_with_std() {
    let cases = [
        "", " ", "a", " a ", "a b", "a-b", "a'b", "a_b", "1", "é", "\u{3000}x\u{3000}", "x\u{2003}y",
        "x\n", "\nx", "日本語", "a\u{301}", "Ⅷ", "ª", "\u{200b}",
    ];
    for case in cases {
        assert_eq!(is_single_word(case), by_std(case), "{:?}", case);
    }
}
