use rush::text::{contains, same_text, split, trim};

#[test]
fn split_cuts_at_every_separator() {
    assert_eq!(split("ls -l | wc -c | sort", " | "), vec!["ls -l", "wc -c", "sort"]);
}

#[test]
fn split_keeps_empty_pieces() {
    assert_eq!(split("a  b", " "), vec!["a", "", "b"]);
    assert_eq!(split("", " "), vec![""]);
    assert_eq!(split(" | ", " | "), vec!["", ""]);
}

#[test]
fn split_without_separator_is_one_piece() {
    assert_eq!(split("echo hi", "&"), vec!["echo hi"]);
}

#[test]
fn split_matches_from_the_left_without_overlap() {
    assert_eq!(split("aaa", "aa"), vec!["", "a"]);
}

#[test]
fn split_pieces_join_back() {
    let line = "cat f | grep x |  | wc";
    let pieces = split(line, " | ");
    assert_eq!(pieces.join(" | "), line);
    for piece in &pieces {
        assert!(!piece.contains(" | "));
    }
}

#[test]
fn trim_removes_unicode_whitespace() {
    assert_eq!(trim(" \t hello world\n\u{3000}"), "hello world");
    assert_eq!(trim("\u{A0}x\u{2009}"), "x");
    assert_eq!(trim("   "), "");
    assert_eq!(trim(""), "");
}

#[test]
fn trim_agrees_with_std_and_is_idempotent() {
    for s in [" a ", "\u{85}b\u{1680}", "c", "\r\nd e\u{205F}", "\u{200B}z"] {
        assert_eq!(trim(s), s.trim());
        assert_eq!(trim(trim(s)), trim(s));
    }
}

#[test]
fn contains_finds_patterns() {
    assert!(contains("sleep 5 &", "&"));
    assert!(!contains("sleep 5", "&"));
    assert!(contains("x", "x"));
    assert!(!contains("", "x"));
}

#[test]
fn same_text_compares_characters() {
    assert!(same_text("exit", "exit"));
    assert!(!same_text("exit", "exit "));
    assert!(same_text("", ""));
}
