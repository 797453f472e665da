use std::path::{Component, Path};

use adaptalk::path::{contains_parent_component, join, parent};
use adaptalk::text::{
    all_digits, decimal_text, has_prefix, has_suffix, has_text, replace_all, split_text,
    to_ascii_lowercase, trimmed, whitespace,
};

#[test]
fn whitespace_is_that_of_unicode() {
    for code in 0..=0x10ffff_u32 {
        if let Some(character) = char::from_u32(code) {
            assert_eq!(whitespace(character), character.is_whitespace());
        }
    }
}

#[test]
fn text_operations_agree_with_the_standard_library() {
    let texts = ["", " a ", "aaa", "\u{3000}x\u{85}", "a-b--c", "ÄÖÜ Bearer", "abcabc", "-"];
    for text in texts {
        assert_eq!(trimmed(text), text.trim());
        assert_eq!(to_ascii_lowercase(text), text.to_ascii_lowercase());
        assert_eq!(
            split_text(text, '-'),
            text.split('-').map(str::to_owned).collect::<Vec<_>>()
        );
        for needle in ["a", "aa", "b--", "abc", "Ö", "zz"] {
            assert_eq!(has_text(text, needle), text.contains(needle));
            assert_eq!(has_prefix(text, needle), text.starts_with(needle));
            assert_eq!(has_suffix(text, needle), text.ends_with(needle));
            assert_eq!(
                replace_all(text, needle, "<>"),
                text.replace(needle, "<>")
            );
        }
        assert!(has_text(text, ""));
    }
}

#[test]
fn numbers_are_written_in_decimal() {
    for value in [0, 7, 10, 99, 100, 12345678901234567890, u128::MAX] {
        assert_eq!(decimal_text(value), value.to_string());
        assert!(all_digits(&decimal_text(value)));
    }
    assert!(!all_digits(""));
    assert!(!all_digits("1a"));
}

#[test]
fn paths_agree_with_the_standard_library() {
    let paths = [
        "", "/", ".", "..", "a", "a/", "a/b", "a//b", "a/.", "a/./b", "./a", "./", "./.", "/a",
        "/a/", "/a/b/..", "/./a", "//a", "a/b/./.", ".a", "./a/b", "/.", "///", "a/../b", "../..",
    ];
    for path in paths {
        assert_eq!(
            parent(path).as_deref(),
            Path::new(path).parent().map(|parent| parent.to_str().unwrap()),
            "{path}"
        );
        assert_eq!(
            contains_parent_component(path),
            Path::new(path)
                .components()
                .any(|component| component == Component::ParentDir)
        );
        for other in paths {
            assert_eq!(
                join(path, other),
                Path::new(path).join(other).to_str().unwrap()
            );
        }
    }
}
