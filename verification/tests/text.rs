//! Text and path helpers, held against the standard library.

use std::path::Path;

use runprint::path::{is_absolute, join, lexical_clean, starts_with};
use runprint::text::{
    contains, ends_with, find, from_chars, is_whitespace, leading_word, parse_u32, rfind, split,
    to_chars, trim, trim_end, trim_start,
};

#[test]
fn whitespace_is_that_of_unicode() {
    for c in '\0'..=char::MAX {
        assert_eq!(is_whitespace(c), c.is_whitespace(), "{c:?}");
    }
}

#[test]
fn searching_agrees_with_strings() {
    let texts = ["", "a", "aa", "abab", "xabcabcx", "é/é", "--- x"];
    let patterns = ["", "a", "ab", "abc", "é", "x"];

    for text in texts {
        let chars = to_chars(text);
        for pattern in patterns {
            let before = |at: usize| text[..at].chars().count();

            assert_eq!(find(&chars, pattern), text.find(pattern).map(before));
            assert_eq!(rfind(&chars, pattern), text.rfind(pattern).map(before));
            assert_eq!(contains(&chars, pattern), text.contains(pattern));
            assert_eq!(ends_with(&chars, pattern), text.ends_with(pattern));
            assert_eq!(
                runprint::text::starts_with(&chars, pattern),
                text.starts_with(pattern)
            );
        }
    }
}

#[test]
fn trimming_and_splitting_agree_with_strings() {
    for text in ["", " ", " a b ", "\t\u{a0}x\n", "a,b,,c", ",", "no"] {
        let chars = to_chars(text);

        assert_eq!(from_chars(trim(&chars)), text.trim());
        assert_eq!(from_chars(trim_start(&chars)), text.trim_start());
        assert_eq!(from_chars(trim_end(&chars)), text.trim_end());
        assert_eq!(
            leading_word(&chars).map(from_chars).as_deref(),
            text.split_whitespace().next()
        );
        let pieces: Vec<String> = split(&chars, ',').into_iter().map(from_chars).collect();
        assert_eq!(pieces, text.split(',').collect::<Vec<&str>>());
    }
}

#[test]
fn numbers_agree_with_strings() {
    for text in [
        "", "0", "7", "007", "+7", "-7", "+", "4294967295", "4294967296", "12a", " 1", "99999999999999",
    ] {
        assert_eq!(parse_u32(&to_chars(text)), text.parse::<u32>().ok(), "{text}");
    }
}

#[test]
fn joining_agrees_with_paths() {
    for base in ["", "/", "/a", "/a/", "a/b", "."] {
        for path in ["", "x", "/x", "x/y", "..", "./x"] {
            assert_eq!(
                join(base, path),
                Path::new(base).join(path).to_string_lossy(),
                "{base:?} {path:?}"
            );
            assert_eq!(is_absolute(path), Path::new(path).is_absolute());
        }
    }
}

#[test]
fn prefixes_agree_with_paths() {
    for base in ["/", "/a", "/a/", "/a/b", "/ab", "a", "/a/./b", "."] {
        for path in ["/", "/a", "/a/b", "/a/b/c", "/ab/c", "a/b", "b", "."] {
            assert_eq!(
                starts_with(path, base),
                Path::new(path).starts_with(base),
                "{path:?} {base:?}"
            );
        }
    }
}

#[test]
fn cleaning_is_lexical() {
    let cleaned = [
        ("", "."),
        (".", "."),
        ("/", "/"),
        ("//a//b/", "/a/b"),
        ("/a/./b/../c", "/a/c"),
        ("/..", "/"),
        ("/../a", "/a"),
        ("..", ".."),
        ("../../a", "../../a"),
        ("a/..", "."),
        ("a/../..", ".."),
        ("a/../../b", "../b"),
        ("./a/./", "a"),
    ];

    for (path, wanted) in cleaned {
        assert_eq!(lexical_clean(path), wanted, "{path:?}");
        assert_eq!(lexical_clean(wanted), wanted);
    }
}
