//! Numbers, texts, orders and records.

use std::collections::BTreeSet;

use echoscribe::order::{ascending_members, distinct_ascending};
use echoscribe::paths::is_contained;
use echoscribe::records::{find_committed_length, is_closed, split_lines, split_records};
use echoscribe::stage::StageError;
use echoscribe::text::{
    characters, decimal_text, eq_ignore_ascii_case, is_blank, is_single_line, is_white_space,
    join, parse_u64, read_u64, same_text, signed_decimal_text, split_once, strip_prefix, trim,
    zero_padded_text,
};
use echoscribe::track_manifest::validate_relative_path;
use echoscribe::transcription::is_safe_relative_path;
use echoscribe::vocabulary::read_vocabulary;

#[test]
fn unreadable_numbers_say_why() {
    for text in [
        "", "+", "-", "++1", "-1", "-0", "x", "1x", "x1", " 1", "1 ", "1_000", "0x1", "\u{ff11}",
        "1\u{661}", "18446744073709551616", "18446744073709551620", "+18446744073709551616",
        "000000000000000000000018446744073709551616", "99999999999999999999x",
        "9999999999999999999x", "18446744073709551615x", "18446744073709551616x",
        "1844674407370955161x6", "x99999999999999999999",
        "340282366920938463463374607431768211456",
    ] {
        let reason = text.parse::<u64>().unwrap_err().to_string();
        assert_eq!(read_u64(text).unwrap_err().text(), reason);
        assert_eq!(parse_u64(text), None);
    }
    for text in ["0", "+0", "007", "18446744073709551615", "+00018446744073709551615"] {
        assert_eq!(read_u64(text).unwrap(), text.parse::<u64>().unwrap());
    }
}

#[test]
fn numbers_are_written_in_decimal() {
    for value in [0u64, 9, 10, 99, 12_345, u64::MAX] {
        assert_eq!(decimal_text(value), value.to_string());
        assert_eq!(zero_padded_text(value, 6), format!("{value:06}"));
        assert_eq!(parse_u64(&decimal_text(value)), Some(value));
        assert_eq!(parse_u64(&zero_padded_text(value, 6)), Some(value));
    }
    for value in [0i32, 17, -9, i32::MIN, i32::MAX] {
        assert_eq!(signed_decimal_text(value), value.to_string());
    }
}

#[test]
fn numbers_are_read_as_the_standard_library_reads_them() {
    for text in [
        "", "+", "-1", "+5", "++5", "007", " 7", "7 ", "1_000", "x", "18446744073709551615",
        "18446744073709551616", "99999999999999999999999", "\u{0661}",
    ] {
        assert_eq!(parse_u64(text), text.parse::<u64>().ok());
    }
}

#[test]
fn white_space_is_that_of_the_standard_library() {
    for code in 0..=0x10ffffu32 {
        if let Some(c) = char::from_u32(code) {
            assert_eq!(is_white_space(c), c.is_whitespace());
        }
    }
}

#[test]
fn texts_are_trimmed_and_compared() {
    for text in ["", "  ", " a b ", "\u{3000}name\t", "plain"] {
        assert_eq!(trim(text), text.trim());
        assert_eq!(is_blank(text), text.trim().is_empty());
    }
    assert!(is_single_line("one line"));
    assert!(!is_single_line("two\nlines"));
    assert!(!is_single_line("two\rlines"));
    assert!(same_text("a", "a") && !same_text("a", "A"));
    for (left, right) in [("GM", "gm"), ("PlAyEr", "player"), ("k", "\u{212a}"), ("a", "ab")] {
        assert_eq!(eq_ignore_ascii_case(left, right), left.eq_ignore_ascii_case(right));
    }
    assert_eq!(characters("aé漢"), vec!['a', 'é', '漢']);
}

#[test]
fn texts_are_split_and_joined() {
    for (text, prefix) in [("prefix_7", "prefix_"), ("pre", "prefix"), ("x", "")] {
        assert_eq!(strip_prefix(text, prefix), text.strip_prefix(prefix));
    }
    for (text, separator) in [("a, b, c", ", "), ("abc", ", "), ("aab", "ab"), (", x", ", ")] {
        assert_eq!(split_once(text, separator), text.split_once(separator));
    }
    assert_eq!(join(&vec![], ", "), "");
    assert_eq!(join(&vec!["a".to_owned(), "".to_owned(), "c".to_owned()], "; "), "a; ; c");
}

#[test]
fn numbers_are_listed_upwards() {
    assert_eq!(distinct_ascending(&vec![22, 11, 22, 7]), vec![7, 11, 22]);
    assert_eq!(ascending_members(&BTreeSet::from([3, 1, 2])), vec![1, 2, 3]);
}

#[test]
fn recorded_paths_stay_in_their_directory() {
    for path in ["tracks/user-1.flac", "a..b/c", "...", "a/.../b", ".hidden/x"] {
        assert!(is_contained(path, false));
    }
    for path in ["", "/a", "..", "../a", "a/../b", "a/..", ".", "./a"] {
        assert!(!is_contained(path, false));
    }
}

#[test]
fn recorded_paths_are_read_as_the_platform_reads_them() {
    for path in ["..\\x", "a\\..", "\\x", "C:\\x", "c:x", "Z:", ".\\x"] {
        assert!(is_contained(path, false));
        assert!(!is_contained(path, true));
    }
    for path in ["tracks/user-1.flac", "tracks\\user-1.flac", "a..b\\c", "1:x", "ab:c"] {
        assert!(is_contained(path, true));
    }
    for path in ["", "/a", "../a", "a/../b", "a\\../b", ".", "./a", "//server/share"] {
        assert!(!is_contained(path, true));
    }
    for path in ["tracks/user-11.flac", "a\\b", "..\\x", "", "/x", "C:/x"] {
        for windows in [false, true] {
            let contained = is_contained(path, windows);
            assert_eq!(is_safe_relative_path(path, windows), contained);
            assert_eq!(validate_relative_path(path, windows).is_ok(), contained);
        }
    }
}

#[test]
fn unfinished_records_are_not_seen() {
    let bytes = b"one\ntwo\nthr".to_vec();
    assert!(!is_closed(&bytes));
    assert_eq!(find_committed_length(&bytes), 8);
    assert_eq!(split_records(&bytes, 8), vec![b"one".to_vec(), b"two".to_vec()]);
    assert_eq!(split_lines(&bytes, bytes.len()).len(), 3);
    assert!(is_closed(&vec![]));
    assert!(is_closed(&b"one\n".to_vec()));
    assert_eq!(find_committed_length(&b"none".to_vec()), 0);
    assert!(split_records(&vec![], 0).is_empty());
}

#[test]
fn stage_errors_keep_their_classification() {
    let refused = StageError::refused("no");
    assert!(!refused.was_accepted());
    assert_eq!(*refused.cause(), "no");
    let accepted = StageError::accepted("late");
    assert!(accepted.was_accepted());
    assert_eq!(accepted.into_anyhow(), "late");
}

#[test]
fn vocabularies_hold_one_phrase_per_line() {
    assert_eq!(
        read_vocabulary(" Emperor Coaltongue \n\nDragon Lance\n"),
        ["Emperor Coaltongue", "Dragon Lance"]
    );
    assert_eq!(
        read_vocabulary("# names\n  # places\nC# minor\r\n\t\nlast # word"),
        ["C# minor", "last # word"]
    );
    assert!(read_vocabulary("").is_empty());
    assert!(read_vocabulary("#").is_empty());
}
