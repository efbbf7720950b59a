//! Characters, numbers and names.

use eva_mcp::collections::{name_before, NameMap, NameSet};
use eva_mcp::error::{ErrorKind, EvaError};
use eva_mcp::text::{
    char_is_whitespace, contains_whitespace, decimal_i64, decimal_u64, find_pattern, parse_i64,
    parse_u64, split_text, to_lower, trim,
};

#[test]
fn whitespace_is_that_of_unicode() {
    for code in 0..=0x10ffff_u32 {
        if let Some(c) = char::from_u32(code) {
            assert_eq!(char_is_whitespace(c), c.is_whitespace(), "{code:x}");
        }
    }
    for text in ["", " ", "a", " a b ", "\u{2003}a\u{a0}", "\t\r\n"] {
        assert_eq!(trim(text), text.trim());
        assert_eq!(contains_whitespace(text), text.chars().any(char::is_whitespace));
    }
}

#[test]
fn numbers_read_back() {
    for n in [0, 9, 10, 99, 100, u64::MAX] {
        assert_eq!(decimal_u64(n), n.to_string());
        assert!(matches!(parse_u64(&n.to_string()), Ok(m) if m == n));
    }
    for n in [0, -1, i64::MIN, i64::MAX] {
        assert_eq!(decimal_i64(n), n.to_string());
        assert!(matches!(parse_i64(&n.to_string()), Ok(m) if m == n));
    }
    for text in ["", "+", "-", "-1", "+7", "007", "1a", "18446744073709551616", " 1"] {
        assert_eq!(parse_u64(text).ok(), text.parse::<u64>().ok(), "{text}");
        assert_eq!(parse_i64(text).ok(), text.parse::<i64>().ok(), "{text}");
        match (parse_u64(text), text.parse::<u64>()) {
            (Err(fault), Err(error)) => assert_eq!(fault.message(), error.to_string(), "{text}"),
            (Ok(a), Ok(b)) => assert_eq!(a, b),
            _ => panic!("{text}"),
        }
    }
}

#[test]
fn texts_are_split_and_searched() {
    assert_eq!(split_text("a,b,,c", ','), vec!["a", "b", "", "c"]);
    assert_eq!(split_text("", ','), vec![""]);
    assert_eq!(to_lower("AbC\u{c9}"), "abc\u{c9}");
    let text: Vec<char> = "abcabd".chars().collect();
    let pattern: Vec<char> = "abd".chars().collect();
    assert_eq!(find_pattern(&text, &pattern, 0), Some(3));
    assert_eq!(find_pattern(&text, &pattern, 4), None);
}

#[test]
fn names_are_kept_in_order() {
    let names = ["b", "a", "", "ab", "\u{e9}", "B"];
    for a in names {
        for b in names {
            assert_eq!(name_before(a, b), a < b);
        }
    }
    let mut map: NameMap<u32> = NameMap::new();
    let mut set = NameSet::new();
    for (i, name) in names.into_iter().enumerate() {
        map.insert(name.to_owned(), i as u32);
        set.insert(name.to_owned());
    }
    let mut sorted = names.to_vec();
    sorted.sort();
    assert_eq!(set.to_vec(), sorted);
    assert_eq!(map.len(), 6);
    assert_eq!(map.get("ab"), Some(&3));
    map.insert("ab".to_owned(), 9);
    assert_eq!(map.len(), 6);
    assert_eq!(map.remove("ab"), Some(9));
    assert_eq!(map.remove("ab"), None);
    assert!(!map.contains("ab"));
}

#[test]
fn errors_keep_what_they_are_told() {
    let error = EvaError::conflict("m")
        .with_provider_code("c")
        .with_context("k", "1")
        .with_context("k", "2")
        .with_retryable(true);
    assert_eq!(error.kind(), ErrorKind::Conflict);
    assert_eq!(error.kind().as_str(), "conflict");
    assert_eq!(error.message(), "m");
    assert_eq!(error.provider_code(), Some("c"));
    assert!(error.is_retryable());
    assert_eq!(error.context_len(), 2);
    assert_eq!(error.context_at(1), ("k", "2"));
    assert_eq!(error.context_value("k"), Some("1"));
    assert_eq!(error.context_value("x"), None);
}
