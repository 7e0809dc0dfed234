use ptts::text;

fn chars(s: &str) -> Vec<char> {
    s.chars().collect()
}

#[test]
fn character_classes_are_those_of_the_standard_library() {
    for n in 0..=0x10ffffu32 {
        if let Some(c) = char::from_u32(n) {
            assert_eq!(text::is_whitespace(c), c.is_whitespace(), "{n:x}");
            assert_eq!(text::is_control(c), c.is_control(), "{n:x}");
            assert_eq!(text::is_punctuation(c), c.is_ascii_punctuation(), "{n:x}");
            assert_eq!(text::is_digit(c), c.is_ascii_digit(), "{n:x}");
            assert_eq!(text::width_of(c), c.len_utf8(), "{n:x}");
        }
    }
}

#[test]
fn searching_and_replacing_agree_with_the_standard_library() {
    let texts = ["", "a", "aa", "aaa", "abab", "x.conv.conv.conv.y", "ää.ä"];
    let patterns = ["a", "aa", "ab", ".conv.conv.", "ä.", "zz"];
    for s in texts {
        for p in patterns {
            assert_eq!(text::contains(&chars(s), p), s.contains(p), "{s} {p}");
            assert_eq!(text::starts_with(&chars(s), p), s.starts_with(p), "{s} {p}");
            let replaced: String = text::replace(&chars(s), p, ".a").into_iter().collect();
            assert_eq!(replaced, s.replace(p, ".a"), "{s} {p}");
        }
        let pieces: Vec<String> =
            text::split_on(&chars(s), '.').into_iter().map(|p| p.into_iter().collect()).collect();
        let expected: Vec<String> = s.split('.').map(|p| p.to_string()).collect();
        assert_eq!(pieces, expected);
        assert_eq!(text::join(&pieces, "."), s);
        assert!(text::has_utf8_len(&chars(s), s.len()));
        assert!(!text::has_utf8_len(&chars(s), s.len() + 1));
    }
    assert!(text::contains(&chars("abc"), ""));
}

#[test]
fn trimming_and_lowering_agree_with_the_standard_library() {
    for s in ["", "  ", " a b ", "\u{2003}Q8F16\n", "ÀÉ Z"] {
        let trimmed: String = text::trim(&chars(s)).into_iter().collect();
        assert_eq!(trimmed, s.trim());
        assert_eq!(text::to_ascii_lowercase(s), s.to_ascii_lowercase());
    }
}

#[test]
fn numbers_are_written_in_decimal() {
    for n in [0u64, 9, 10, 99, 100, 12345, u64::MAX] {
        assert_eq!(text::decimal_of(n), format!("{n}"));
    }
    for v in [vec![], vec![3], vec![1, 20, 300]] {
        assert_eq!(text::list_of(&v), format!("{v:?}"));
    }
}

#[test]
fn lists_of_texts_are_quoted() {
    let list = vec!["en".to_string(), "a\"b".to_string(), "tab\t".to_string()];
    assert_eq!(text::show_list(&list), "[\"en\", \"a\\\"b\", \"tab\\t\"]");
    assert_eq!(text::show_list(&vec![]), "[]");
}
