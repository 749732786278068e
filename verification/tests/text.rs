use dotfiles::text::{
    char_is_whitespace, find_char, from_chars, insert_text, join_with, remove_prefix, same_text,
    sort_texts, split_at_each, split_lines, split_whitespace, text_before, to_bytes, to_chars,
    trimmed,
};

fn chars(s: &str) -> Vec<char> {
    s.chars().collect()
}

fn texts(items: &[&str]) -> Vec<Vec<char>> {
    items.iter().map(|s| chars(s)).collect()
}

#[test]
fn strings_and_characters() {
    assert_eq!(to_chars("héllo"), chars("héllo"));
    assert_eq!(to_chars(""), chars(""));
    assert_eq!(from_chars(&chars("héllo")), "héllo");
    assert_eq!(from_chars(&vec![]), "");
    assert_eq!(to_bytes(&chars("é€")), "é€".as_bytes().to_vec());
}

#[test]
fn lines_as_the_standard_library_splits_them() {
    for text in [
        "", "a", "a\n", "a\nb", "a\n\nb", "\n", "\n\n", "a\r\nb", "a\r", "a\r\n", "\r\n", "a\r\r\nb",
        "a\n\r", "\r", "a\rb\nc",
    ] {
        let expected: Vec<Vec<char>> = text.lines().map(|l| l.chars().collect()).collect();
        assert_eq!(split_lines(&chars(text)), expected, "{:?}", text);
    }
    assert_eq!(split_lines(&chars("a\n\nb\r\n")), texts(&["a", "", "b"]));
}

#[test]
fn words_as_the_standard_library_splits_them() {
    for text in [
        "", " ", "a", " a ", "a b", "a\u{a0}b", "a\tb\nc\rd", "\u{2003}x\u{3000}", "a\u{85}b\u{1680}c",
        "a\u{200b}b", "a\u{2028}b\u{2029}c\u{202f}d\u{205f}e", "a\u{b}b\u{c}c",
    ] {
        let expected: Vec<Vec<char>> = text
            .split_whitespace()
            .map(|w| w.chars().collect())
            .collect();
        assert_eq!(split_whitespace(&chars(text)), expected, "{:?}", text);
    }
    assert_eq!(split_whitespace(&chars("  b  a ")), texts(&["b", "a"]));
}

#[test]
fn white_space_as_the_standard_library_knows_it() {
    for code in 0..=0x3100u32 {
        if let Some(c) = char::from_u32(code) {
            assert_eq!(char_is_whitespace(c), c.is_whitespace(), "{:x}", code);
        }
    }
}

#[test]
fn texts_are_joined_with_a_separator() {
    assert_eq!(join_with(&texts(&[]), &chars(", ")), chars(""));
    assert_eq!(join_with(&texts(&["a"]), &chars(", ")), chars("a"));
    assert_eq!(join_with(&texts(&["a", "", "b"]), &chars(", ")), chars("a, , b"));
}

#[test]
fn prefix_is_taken_off() {
    assert_eq!(remove_prefix(&chars("key = v"), &chars("key = ")), Some(chars("v")));
    assert_eq!(remove_prefix(&chars("key = "), &chars("key = ")), Some(chars("")));
    assert_eq!(remove_prefix(&chars("key ="), &chars("key = ")), None);
    assert_eq!(remove_prefix(&chars("kex = v"), &chars("key = ")), None);
    assert_eq!(remove_prefix(&chars("x"), &chars("")), Some(chars("x")));
}

#[test]
fn texts_in_dictionary_order() {
    assert!(text_before(&chars("a"), &chars("b")));
    assert!(text_before(&chars(""), &chars("a")));
    assert!(text_before(&chars("a"), &chars("ab")));
    assert!(text_before(&chars("/etc"), &chars("a")));
    assert!(text_before(&chars("Z"), &chars("a")));
    assert!(!text_before(&chars("a"), &chars("a")));
    assert!(!text_before(&chars("b"), &chars("a")));
    assert!(!text_before(&chars(""), &chars("")));
    assert!(same_text(&chars("ab"), &chars("ab")));
    assert!(!same_text(&chars("ab"), &chars("ac")));
    assert!(!same_text(&chars("ab"), &chars("a")));
}

#[test]
fn texts_are_sorted_each_once() {
    let words = ["b", "a", "", "b", "ab", "/x", "a", "é", "z"];
    let mut expected: Vec<String> = words.iter().map(|s| s.to_string()).collect();
    expected.sort();
    expected.dedup();
    let expected: Vec<Vec<char>> = expected.iter().map(|s| chars(s)).collect();
    assert_eq!(sort_texts(texts(&words)), expected);
    assert_eq!(sort_texts(vec![]), texts(&[]));
    let mut list = texts(&["a", "c"]);
    insert_text(&mut list, chars("b"));
    insert_text(&mut list, chars("c"));
    insert_text(&mut list, chars("d"));
    insert_text(&mut list, chars(""));
    assert_eq!(list, texts(&["", "a", "b", "c", "d"]));
}

#[test]
fn text_is_trimmed_as_the_standard_library_trims_it() {
    for text in ["", " ", "a", "  a b \t", "\u{a0}x\u{3000}", "\n\r", " = "] {
        assert_eq!(trimmed(&chars(text)), chars(text.trim()), "{:?}", text);
    }
}

#[test]
fn text_is_split_at_each_separator() {
    for text in ["", " ", "a", "a b", " a  b ", "=", "a=b=c"] {
        for sep in [' ', '='] {
            let expected: Vec<Vec<char>> = text.split(sep).map(|p| p.chars().collect()).collect();
            assert_eq!(split_at_each(&chars(text), sep), expected, "{:?}", text);
        }
    }
    assert_eq!(find_char(&chars("a=b=c"), '='), 1);
    assert_eq!(find_char(&chars("abc"), '='), 3);
    assert_eq!(find_char(&chars(""), '='), 0);
}
