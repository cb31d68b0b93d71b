use vertex_ai_proxy::tokens::{estimate_tokens, format_tokens};

#[test]
fn estimates_count_bytes() {
    assert_eq!(estimate_tokens(""), 1);
    assert_eq!(estimate_tokens("abc"), 1);
    assert_eq!(estimate_tokens("abcd"), 2);
    assert_eq!(estimate_tokens("Hello, world"), 4);
    assert_eq!(estimate_tokens("……"), 2);
}

#[test]
fn pieces_count_no_less_than_the_whole() {
    let whole = "The quick brown fox … jumps";
    for (cut, _) in whole.char_indices() {
        let pieces = estimate_tokens(&whole[..cut]) + estimate_tokens(&whole[cut..]);
        assert!(estimate_tokens(whole) <= pieces);
        assert!(pieces <= estimate_tokens(whole) + 1);
    }
}

#[test]
fn counts_have_a_short_form() {
    assert_eq!(format_tokens(0), "0");
    assert_eq!(format_tokens(999), "999");
    assert_eq!(format_tokens(1_000), "1.0K");
    assert_eq!(format_tokens(1_234), "1.2K");
    assert_eq!(format_tokens(1_250), "1.2K");
    assert_eq!(format_tokens(1_750), "1.8K");
    assert_eq!(format_tokens(999_949), "999.9K");
    assert_eq!(format_tokens(999_999), "1000.0K");
    assert_eq!(format_tokens(1_000_000), "1.0M");
    assert_eq!(format_tokens(2_500_000), "2.5M");
    assert_eq!(format_tokens(u64::MAX), "18446744073709.6M");
}

fn formatted_by_std(n: u64) -> String {
    if n >= 1_000_000 {
        format!("{:.1}M", n as f64 / 1_000_000.0)
    } else if n >= 1_000 {
        format!("{:.1}K", n as f64 / 1_000.0)
    } else {
        n.to_string()
    }
}

#[test]
fn short_forms_agree_with_floating_point() {
    for n in 0..30_000u64 {
        assert_eq!(format_tokens(n), formatted_by_std(n), "{n}");
    }
    for step in 0..4_000u64 {
        let n = 1_000 + step * 250;
        assert_eq!(format_tokens(n), formatted_by_std(n), "{n}");
        let m = 1_000_000 + step * 50_000;
        assert_eq!(format_tokens(m), formatted_by_std(m), "{m}");
        assert_eq!(format_tokens(m - 1), formatted_by_std(m - 1), "{m}");
        assert_eq!(format_tokens(m + 1), formatted_by_std(m + 1), "{m}");
    }
}

#[test]
fn large_counts_agree_with_floating_point() {
    let mut x: u64 = 0x9e37_79b9_7f4a_7c15;
    for _ in 0..20_000 {
        x ^= x << 13;
        x ^= x >> 7;
        x ^= x << 17;
        for shift in [0, 3, 8, 10, 11, 12, 20, 32] {
            let n = x >> shift;
            assert_eq!(format_tokens(n), formatted_by_std(n), "{n}");
        }
    }
    for k in 0..64 {
        for d in 0..3u64 {
            let n = (1u64 << k).wrapping_add(d).wrapping_sub(1);
            assert_eq!(format_tokens(n), formatted_by_std(n), "{n}");
        }
    }
}
