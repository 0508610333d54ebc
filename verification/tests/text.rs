use iai_callgrind_runner::text::{
    chars_of, concat3, decimal_string, ends_with, find_char, join, module_to_dir, parse_u64,
    reverse_chain, rfind_char, split_lines, starts_with, str_eq, tokenize, truncate_utf8,
};

fn chars(s: &str) -> Vec<char> {
    s.chars().collect()
}

#[test]
fn prefixes_and_suffixes() {
    assert!(starts_with("callgrind.out", "callgrind."));
    assert!(starts_with("abc", ""));
    assert!(starts_with("abc", "abc"));
    assert!(!starts_with("abc", "abcd"));
    assert!(!starts_with("abc", "b"));
    assert!(ends_with("out.old", ".old"));
    assert!(ends_with("old", ""));
    assert!(!ends_with("old", ".old"));
    assert!(!ends_with("out.old", "out"));
    assert!(str_eq("äb", "äb"));
    assert!(!str_eq("ab", "abc"));
    assert_eq!(chars_of("aé"), vec!['a', 'é']);
}

#[test]
fn finding_characters() {
    assert_eq!(find_char(&chars("a.b.c"), '.'), Some(1));
    assert_eq!(rfind_char(&chars("a.b.c"), '.'), Some(3));
    assert_eq!(find_char(&chars("abc"), '.'), None);
    assert_eq!(rfind_char(&chars(""), '.'), None);
}

#[test]
fn joining() {
    assert_eq!(concat3("a", "b", "c"), "abc");
    assert_eq!(join(&vec![], "."), "");
    assert_eq!(join(&vec!["a".to_owned()], "."), "a");
    assert_eq!(join(&vec!["a".to_owned(), "".to_owned(), "c".to_owned()], "::"), "a::::c");
}

#[test]
fn decimal_numbers() {
    assert_eq!(decimal_string(0), "0");
    assert_eq!(decimal_string(7), "7");
    assert_eq!(decimal_string(1050), "1050");
    assert_eq!(decimal_string(u64::MAX), "18446744073709551615");
    assert_eq!(parse_u64(&chars("0")), Some(0));
    assert_eq!(parse_u64(&chars("007")), Some(7));
    assert_eq!(parse_u64(&chars("18446744073709551615")), Some(u64::MAX));
    assert_eq!(parse_u64(&chars("18446744073709551616")), None);
    assert_eq!(parse_u64(&chars("")), None);
    assert_eq!(parse_u64(&chars("+1")), None);
    assert_eq!(parse_u64(&chars("1 ")), None);
    for n in [0u64, 9, 10, 99, 100, 12345, u64::MAX - 1] {
        assert_eq!(parse_u64(&chars(&decimal_string(n))), Some(n));
    }
}

#[test]
fn truncation_keeps_whole_characters() {
    assert_eq!(truncate_utf8("hello", 10), "hello");
    assert_eq!(truncate_utf8("hello", 5), "hello");
    assert_eq!(truncate_utf8("hello", 2), "he");
    assert_eq!(truncate_utf8("hello", 0), "");
    assert_eq!(truncate_utf8("aé", 2), "a");
    assert_eq!(truncate_utf8("aé", 3), "aé");
    assert_eq!(truncate_utf8("€uro", 2), "");
    assert_eq!(truncate_utf8("€uro", 3), "€");
    assert_eq!(truncate_utf8("😀!", 3), "");
    assert_eq!(truncate_utf8("😀!", 4), "😀");
}

#[test]
fn words_and_lines() {
    assert_eq!(tokenize("  16 1000\t200 \r"), vec!["16", "1000", "200"]);
    assert!(tokenize("   ").is_empty());
    assert!(tokenize("").is_empty());
    assert_eq!(tokenize("one"), vec!["one"]);
    assert_eq!(split_lines("a\nb\n"), vec!["a", "b"]);
    assert_eq!(split_lines("a\n\nb"), vec!["a", "", "b"]);
    assert_eq!(split_lines("\n"), vec![""]);
    assert!(split_lines("").is_empty());
}

#[test]
fn chains_and_module_paths() {
    assert_eq!(reverse_chain("callee'caller'main", '\'', ";"), "main;caller;callee");
    assert_eq!(reverse_chain("main", '\'', ";"), "main");
    assert_eq!(reverse_chain("a'", '\'', ";"), ";a");
    assert_eq!(module_to_dir("a::b::c"), "a/b/c");
    assert_eq!(module_to_dir("a:::b"), "a/:b");
}
