use cute_lib::utils::{
    char_width, exrtact_until_char, extract, extract_keyword, extract_name, extract_number,
    extract_until_whitespace, extract_whitespace, remove_file_extension, same_text, split_first,
    CharClass,
};

#[test]
fn utils_parse_whitespace() {
    assert_eq!(extract_whitespace("    Hi"), ("Hi", "    "));
}

#[test]
fn parse_until_whitespace() {
    assert_eq!(extract_until_whitespace("HelloTher e"), (" e", "HelloTher"));
}

#[test]
fn extract_whitespace_of_blank_and_empty_text() {
    assert_eq!(extract_whitespace(" \t "), ("", " \t "));
    assert_eq!(extract_whitespace(""), ("", ""));
    assert_eq!(extract_whitespace("x "), ("x ", ""));
}

#[test]
fn extract_whitespace_knows_wide_spaces() {
    assert_eq!(extract_whitespace("\u{3000}\u{a0}é"), ("é", "\u{3000}\u{a0}"));
    assert_eq!(extract_until_whitespace("é\u{2003}z"), ("\u{2003}z", "é"));
}

#[test]
fn whitespace_is_what_std_calls_whitespace() {
    let mut code: u32 = 0;
    while code <= 0x10ffff {
        if let Some(c) = char::from_u32(code) {
            let text = c.to_string();
            let taken = extract_whitespace(&text).1.len() > 0;
            assert_eq!(taken, c.is_whitespace(), "code point {code:x}");
        }
        code += 1;
    }
}

#[test]
fn extract_until_char_stops_at_the_first_one() {
    assert_eq!(exrtact_until_char("a.b.c", '.'), (".b.c", "a"));
    assert_eq!(exrtact_until_char("abc", '.'), ("", "abc"));
    assert_eq!(exrtact_until_char(".abc", '.'), (".abc", ""));
}

#[test]
fn extract_number_takes_leading_digits() {
    assert_eq!(extract_number("420 + 1"), (" + 1", "420"));
    assert_eq!(extract_number("x1"), ("x1", ""));
    assert_eq!(extract_number("٣4"), ("٣4", ""));
}

#[test]
fn extract_name_never_fails() {
    assert_eq!(extract_name("i = 3"), Ok((" = 3", "i")));
    assert_eq!(extract_name(""), Ok(("", "")));
}

#[test]
fn extract_keyword_takes_the_keyword_off() {
    assert_eq!(extract_keyword("let i", "let"), Ok(" i"));
    assert_eq!(extract_keyword("let", "let"), Ok(""));
    assert_eq!(extract_keyword("anything", ""), Ok("anything"));
}

#[test]
fn extract_keyword_fails_without_the_keyword() {
    assert_eq!(extract_keyword("le", "let"), Err("Error extracting keyword".to_string()));
    assert_eq!(extract_keyword(" let", "let"), Err("Error extracting keyword".to_string()));
    assert_eq!(extract_keyword("lot i", "let"), Err("Error extracting keyword".to_string()));
}

#[test]
fn same_text_compares_characters() {
    assert!(same_text("", ""));
    assert!(same_text("héllo", "héllo"));
    assert!(!same_text("hello", "hellO"));
    assert!(!same_text("hello", "hell"));
}

#[test]
fn remove_file_extension_cuts_at_the_first_dot() {
    assert_eq!(remove_file_extension("tests/test.cute"), "tests/test");
    assert_eq!(remove_file_extension("a.tar.gz"), "a");
    assert_eq!(remove_file_extension("plain"), "plain");
    assert_eq!(remove_file_extension(".hidden"), "");
}

#[test]
fn extract_splits_texts_of_wide_characters() {
    assert_eq!(extract(CharClass::Except('é'), "añ𝄞é𝄞"), ("é𝄞", "añ𝄞"));
    assert_eq!(extract(CharClass::NonWhitespace, "𝄞𝄞"), ("", "𝄞𝄞"));
    assert_eq!(extract(CharClass::Digit, "12𝄞"), ("𝄞", "12"));
    assert_eq!(
        extract(CharClass::Whitespace, "\u{2000}\u{3000}𝄞"),
        ("𝄞", "\u{2000}\u{3000}")
    );
}

#[test]
fn char_class_tests_characters() {
    assert!(CharClass::Whitespace.test(' '));
    assert!(!CharClass::Whitespace.test('x'));
    assert!(CharClass::NonWhitespace.test('x'));
    assert!(!CharClass::NonWhitespace.test('\n'));
    assert!(CharClass::Digit.test('0'));
    assert!(CharClass::Digit.test('9'));
    assert!(!CharClass::Digit.test('/'));
    assert!(!CharClass::Digit.test(':'));
    assert!(CharClass::Except('.').test(','));
    assert!(!CharClass::Except('.').test('.'));
}

#[test]
fn char_width_is_the_length_in_utf8() {
    let mut code: u32 = 0;
    while code <= 0x10ffff {
        if let Some(c) = char::from_u32(code) {
            assert_eq!(char_width(c), c.len_utf8(), "code point {code:x}");
        }
        code += 1;
    }
}

#[test]
fn split_first_takes_one_character() {
    assert_eq!(split_first(""), None);
    assert_eq!(split_first("a"), Some(('a', "")));
    assert_eq!(split_first("ab"), Some(('a', "b")));
    assert_eq!(split_first("é𝄞"), Some(('é', "𝄞")));
    assert_eq!(split_first("𝄞é"), Some(('𝄞', "é")));
    assert_eq!(split_first("\u{800}x"), Some(('\u{800}', "x")));
}
