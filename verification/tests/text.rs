use dontspeak::text::{
    characters, decimal, holds_ignoring_ascii_case, is_blank, is_white_space, same_text,
};

#[test]
fn numbers_are_written_in_decimal() {
    assert_eq!(decimal(0), "0");
    assert_eq!(decimal(9), "9");
    assert_eq!(decimal(10), "10");
    assert_eq!(decimal(407), "407");
    assert_eq!(decimal(18446744073709551615), "18446744073709551615");
}

#[test]
fn a_text_of_white_space_is_blank() {
    assert!(is_blank(""));
    assert!(is_blank(" \t\r\n"));
    assert!(is_blank("\u{a0}\u{2003}\u{3000}"));
    assert!(!is_blank(" a "));
    assert!(!is_blank("\u{200b}"));
}

#[test]
fn white_space_is_what_std_takes_it_to_be() {
    for code in 0..=0x10ffff_u32 {
        if let Some(c) = char::from_u32(code) {
            assert_eq!(is_white_space(c), c.is_whitespace(), "{code:x}");
        }
    }
}

#[test]
fn texts_are_compared_by_their_characters() {
    assert!(same_text("", ""));
    assert!(same_text("naïve", "naïve"));
    assert!(!same_text("a", "b"));
    assert!(!same_text("a", "ab"));
}

#[test]
fn a_search_ignores_the_case_of_the_text() {
    assert!(holds_ignoring_ascii_case("My-QWen-Agent", "qwen"));
    assert!(holds_ignoring_ascii_case("qwen", "qwen"));
    assert!(holds_ignoring_ascii_case("anything", ""));
    assert!(!holds_ignoring_ascii_case("qwe", "qwen"));
    assert!(!holds_ignoring_ascii_case("qweqwe n", "qwen"));
    // What is searched for is taken as it is.
    assert!(!holds_ignoring_ascii_case("QWEN", "QWEN"));
}

#[test]
fn characters_come_in_order() {
    assert_eq!(characters("aé→"), vec!['a', 'é', '→']);
}
