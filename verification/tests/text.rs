use vertex_ai_proxy::text::{
    decimal_text, has_prefix, join, parse_unsigned, prefix_bytes, same_text, strip_prefix,
    text_len, to_chars, trim, trim_end, trim_start, white_space,
};

#[test]
fn texts_are_compared_by_their_characters() {
    assert!(same_text("", ""));
    assert!(same_text("launch", "launch"));
    assert!(!same_text("launch", "Launch"));
    assert!(!same_text("launch", "launch "));
    assert!(same_text("é…", "é…"));
}

#[test]
fn lengths_count_bytes() {
    assert_eq!(text_len(""), 0);
    assert_eq!(text_len("abc"), 3);
    assert_eq!(text_len("é"), 2);
    assert_eq!(text_len("…"), 3);
    assert_eq!(text_len("😀"), 4);
    assert_eq!(to_chars("aé…"), vec!['a', 'é', '…']);
}

#[test]
fn prefixes_are_found_and_taken_off() {
    assert!(has_prefix("data: x", "data: "));
    assert!(!has_prefix("data:x", "data: "));
    assert!(has_prefix("x", ""));
    assert_eq!(strip_prefix("data: x", "data: "), Some("x".to_string()));
    assert_eq!(strip_prefix("data: ", "data: "), Some(String::new()));
    assert_eq!(strip_prefix("dat", "data: "), None);
    assert_eq!(strip_prefix("é=ü", "é="), Some("ü".to_string()));
}

#[test]
fn white_space_is_trimmed() {
    let samples = [
        "", " ", "a", " a ", "\t\r\n a b \u{a0}", "\u{2003}x\u{3000}", "\u{85}y\u{2029}",
        "\u{200b}z\u{200b}", "\u{b}\u{c}w\u{1680}",
    ];
    for s in samples {
        assert_eq!(trim(s), s.trim());
        assert_eq!(trim_start(s), s.trim_start());
        assert_eq!(trim_end(s), s.trim_end());
    }
    assert_eq!(trim("  data: x \r"), "data: x");
}

#[test]
fn white_space_is_what_std_takes_for_it() {
    for code in 0..=0x10ffffu32 {
        if let Some(c) = char::from_u32(code) {
            assert_eq!(white_space(c), c.is_whitespace(), "{code:x}");
        }
    }
}

#[test]
fn parts_are_joined() {
    let parts = |list: &[&str]| list.iter().map(|s| s.to_string()).collect::<Vec<String>>();
    assert_eq!(join(&parts(&[]), "\n"), "");
    assert_eq!(join(&parts(&["a"]), "\n"), "a");
    assert_eq!(join(&parts(&["a", "", "b"]), "\n"), "a\n\nb");
    assert_eq!(join(&parts(&["a", "b"]), ", "), "a, b");
}

#[test]
fn numbers_are_written_in_decimal() {
    for n in [0u128, 7, 10, 99, 100, 8082, u64::MAX as u128, u128::MAX] {
        assert_eq!(decimal_text(n), n.to_string());
    }
}

#[test]
fn numbers_are_read_as_std_reads_them() {
    let samples = [
        "", "+", "-", "0", "+0", "-0", "007", "8082", "+8082", "65535", "65536", " 1", "1 ",
        "1_0", "0x10", "12a", "++1", "99999999999999999999999999", "４",
    ];
    for s in samples {
        assert_eq!(parse_unsigned(s, 65535), s.parse::<u16>().ok().map(u64::from), "{s}");
        assert_eq!(
            parse_unsigned(s, u32::MAX as u64),
            s.parse::<u32>().ok().map(u64::from),
            "{s}"
        );
        assert_eq!(parse_unsigned(s, u64::MAX), s.parse::<u64>().ok(), "{s}");
    }
    assert_eq!(parse_unsigned("18446744073709551615", u64::MAX), Some(u64::MAX));
    assert_eq!(parse_unsigned("18446744073709551616", u64::MAX), None);
}

#[test]
fn decimals_read_back() {
    for n in [0u64, 1, 9, 10, 12345, u64::MAX] {
        assert_eq!(parse_unsigned(&decimal_text(n as u128), u64::MAX), Some(n));
    }
}

#[test]
fn first_bytes_of_a_text() {
    assert_eq!(prefix_bytes("abcdef", 0), "");
    assert_eq!(prefix_bytes("abcdef", 4), "abcd");
    assert_eq!(prefix_bytes("abcdef", 6), "abcdef");
    assert_eq!(prefix_bytes("aé…b", 3), "aé");
    assert_eq!(prefix_bytes("aé…b", 6), "aé…");
}
