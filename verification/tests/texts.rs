use foundry_compilers::text::{self, Separator};

fn samples() -> Vec<&'static str> {
    vec![
        "", " ", "a", " a ", "a b", "a\nb", "a\r\nb\r\n", "\n", "\n\n", "a\r", "\r", "a\n\n b\t",
        "Version: 0.8.27", "vv1", "v", "a--b-", "-", "\u{2003}x\u{85}y\u{a0}", "ü\u{3000}ß",
        "x.g++.g++", "..", "\u{1680}", "aaaa",
    ]
}

#[test]
fn lines_words_and_trims_are_those_of_std() {
    for s in samples() {
        assert_eq!(text::split_lines(s), s.lines().collect::<Vec<_>>(), "{s:?}");
        assert_eq!(text::split_words(s), s.split_whitespace().collect::<Vec<_>>(), "{s:?}");
        assert_eq!(text::trimmed(s), s.trim(), "{s:?}");
        assert_eq!(text::split(s, Separator::Char('-')), s.split('-').collect::<Vec<_>>());
        assert_eq!(text::split(s, Separator::WhiteSpace).len(), s.split(char::is_whitespace).count());
    }
}

#[test]
fn white_space_is_that_of_std() {
    for code in 0..=0x10FFFFu32 {
        if let Some(c) = char::from_u32(code) {
            assert_eq!(text::white_space(c), c.is_whitespace(), "{code:x}");
        }
    }
}

#[test]
fn prefixes_and_replacements_are_those_of_std() {
    let parts = vec!["a", "v", "Version: ", ".g++", "-", "aa", " "];
    for s in samples() {
        for p in parts.iter() {
            assert_eq!(text::has_prefix(s, p), s.starts_with(p), "{s:?} {p:?}");
            assert_eq!(text::has_suffix(s, p), s.ends_with(p), "{s:?} {p:?}");
            assert_eq!(text::without_prefix(s, p), s.strip_prefix(p).map(str::to_string));
            assert_eq!(text::strip_prefixes(s, p), s.trim_start_matches(p), "{s:?} {p:?}");
            assert_eq!(text::replace_all(s, p, "yz"), s.replace(p, "yz"), "{s:?} {p:?}");
        }
    }
}

#[test]
fn joins_and_numbers_are_those_of_std() {
    let list = vec!["a".to_string(), "".to_string(), "c d".to_string()];
    assert_eq!(text::join(&list, ", "), "a, , c d");
    assert_eq!(text::join(&Vec::new(), ", "), "");
    for n in [0u128, 7, 10, 99, 100, 12345678901234567890, u128::MAX] {
        assert_eq!(text::decimal_text(n), n.to_string());
    }
}

#[test]
fn texts_are_equal_where_their_characters_are() {
    assert!(text::equal("zksolc", "zksolc"));
    assert!(!text::equal("zksolc", "solc"));
    assert!(!text::equal("solc", "solc "));
    assert!(text::equal("", ""));
}
