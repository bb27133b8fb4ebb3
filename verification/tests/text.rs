use moa_submitter::order::comes_before;
use moa_submitter::text::{
    characters, contains, decimal, join, pad, repeat, same_text, starts_with, trim, trim_end,
    trim_end_matches, white_space,
};

#[test]
fn white_space_is_that_of_unicode() {
    let mut n: u32 = 0;
    for u in 0..=0x10ffffu32 {
        if let Some(c) = char::from_u32(u) {
            assert_eq!(white_space(c), c.is_whitespace(), "{u:x}");
            if white_space(c) {
                n += 1;
            }
        }
    }
    assert_eq!(n, 25);
}

#[test]
fn trimming_takes_white_space_off_the_ends_only() {
    for s in ["", " ", "a", " a b ", "\t\u{3000}x\u{a0}\n", "\u{2003}\u{2003}", "한 글 "] {
        assert_eq!(trim(s), s.trim());
        assert_eq!(trim_end(s), s.trim_end());
    }
    assert_eq!(trim("  a b\t\r\n"), "a b");
    assert_eq!(trim_end("  a b\t\r\n"), "  a b");
}

#[test]
fn trailing_characters_are_taken_off() {
    assert_eq!(trim_end_matches("http://a//", '/'), "http://a");
    assert_eq!(trim_end_matches("///", '/'), "");
    assert_eq!(trim_end_matches("a/ ", '/'), "a/ ");
}

#[test]
fn prefixes_and_parts_are_found() {
    assert!(starts_with("src/device/a.rs", "src/device/"));
    assert!(!starts_with("src/device", "src/device/"));
    assert!(starts_with("x", ""));
    assert!(contains("the token expired", "token"));
    assert!(contains("token", "token"));
    assert!(contains("", ""));
    assert!(!contains("the toke n expired", "token"));
    assert!(!contains("", "token"));
    assert!(same_text("å", "å"));
    assert!(!same_text("a", "å"));
}

#[test]
fn numbers_are_written_in_decimal() {
    for n in [0u128, 7, 9, 10, 11, 99, 100, 1000, 10240, u64::MAX as u128, u128::MAX] {
        assert_eq!(decimal(n), n.to_string());
    }
}

#[test]
fn cells_are_padded_by_characters() {
    assert_eq!(pad("ab", 4), "ab  ");
    assert_eq!(pad("abcd", 4), "abcd");
    assert_eq!(pad("abcde", 4), "abcde");
    assert_eq!(pad("한글", 4), "한글  ");
    assert_eq!(pad("한글", 4), format!("{:<4}", "한글"));
    assert_eq!(repeat('-', 3), "---");
    assert_eq!(repeat('-', 0), "");
}

#[test]
fn parts_are_joined() {
    let parts: Vec<String> = vec!["src".to_string(), "device".to_string(), "a.rs".to_string()];
    assert_eq!(join(&parts, "/"), "src/device/a.rs");
    assert_eq!(join(&vec!["x".to_string()], "/"), "x");
    assert_eq!(join(&vec![], "/"), "");
    assert_eq!(characters("aå한"), vec!['a', 'å', '한']);
}

#[test]
fn texts_are_ordered_as_strings_are() {
    let samples = [
        "", "a", "b", "ab", "a/b", "a-b", "src/device/a.rs", "src/ops.rs", "z", "å", "\u{ffff}",
        "\u{10000}", "한", "src/device/A.rs",
    ];
    for a in samples {
        for b in samples {
            assert_eq!(comes_before(a, b), a < b, "{a:?} {b:?}");
        }
    }
}
