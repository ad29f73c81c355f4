use htmx_tasks::text::{chars_of, contains_chars, is_whitespace, trim_str};

#[test]
fn whitespace_agrees_with_std_for_every_char() {
    for u in 0u32..=0x10ffff {
        if let Some(c) = char::from_u32(u) {
            assert_eq!(is_whitespace(c), c.is_whitespace(), "U+{u:04X}");
        }
    }
}

#[test]
fn trim_agrees_with_std() {
    for s in [
        "",
        "   ",
        "  hello  ",
        "\u{2028}a b\u{205f}",
        "x",
        "\u{feff}bom\u{feff}",
        "\t\r\n mixed \u{85}",
    ] {
        assert_eq!(trim_str(s), s.trim(), "{s:?}");
    }
}

#[test]
fn chars_of_keeps_every_char() {
    assert_eq!(chars_of("aé€😀"), vec!['a', 'é', '€', '😀']);
    assert!(chars_of("").is_empty());
}

#[test]
fn contains_chars_finds_substrings() {
    let hay: Vec<char> = "hello world".chars().collect();
    let yes: Vec<char> = "o w".chars().collect();
    let no: Vec<char> = "ow".chars().collect();
    let empty: Vec<char> = Vec::new();
    assert!(contains_chars(&hay, &yes));
    assert!(!contains_chars(&hay, &no));
    assert!(contains_chars(&hay, &empty));
    assert!(contains_chars(&empty, &empty));
    assert!(!contains_chars(&empty, &yes));
}

#[test]
fn std_lowercases_ascii_letters_only() {
    let all: String = (0u8..0x80).map(char::from).collect();
    let expected: String = all
        .chars()
        .map(|c| if c.is_ascii_uppercase() { char::from(c as u8 + 0x20) } else { c })
        .collect();
    assert_eq!(all.to_lowercase(), expected);
}
