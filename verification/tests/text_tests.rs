use mp3_tag_editor::text::{format_time, i32_text, parse_u32, u32_text};

#[test]
fn format_time_zero() {
    assert_eq!(format_time(0), "00:00.000");
}

#[test]
fn format_time_pads_each_part() {
    assert_eq!(format_time(61_001), "01:01.001");
    assert_eq!(format_time(9_050), "00:09.050");
    assert_eq!(format_time(3_599_999), "59:59.999");
}

#[test]
fn format_time_long_minutes() {
    assert_eq!(format_time(6_000_000), "100:00.000");
    assert_eq!(format_time(u32::MAX), "71582:47.295");
}

#[test]
fn format_time_matches_std_formatting() {
    for ms in [0u32, 1, 999, 1000, 59_999, 60_000, 123_456, 7_654_321, u32::MAX] {
        let seconds = ms / 1000;
        let expected = format!("{:02}:{:02}.{:03}", seconds / 60, seconds % 60, ms % 1000);
        assert_eq!(format_time(ms), expected);
    }
}

#[test]
fn unsigned_decimal_matches_to_string() {
    for n in [0u32, 7, 10, 99, 100, 2024, 4_294_967_295] {
        assert_eq!(u32_text(n), n.to_string());
    }
}

#[test]
fn signed_decimal_matches_to_string() {
    for n in [0i32, 5, -5, 2024, -2024, i32::MAX, i32::MIN] {
        assert_eq!(i32_text(n), n.to_string());
    }
}

#[test]
fn parse_u32_accepts_plain_and_plus() {
    assert_eq!(parse_u32("0"), Some(0));
    assert_eq!(parse_u32("60000"), Some(60000));
    assert_eq!(parse_u32("+5"), Some(5));
    assert_eq!(parse_u32("007"), Some(7));
    assert_eq!(parse_u32("4294967295"), Some(u32::MAX));
}

#[test]
fn parse_u32_rejects_the_rest() {
    assert_eq!(parse_u32(""), None);
    assert_eq!(parse_u32("+"), None);
    assert_eq!(parse_u32("-"), None);
    assert_eq!(parse_u32("-0"), None);
    assert_eq!(parse_u32("-5"), None);
    assert_eq!(parse_u32(" 1"), None);
    assert_eq!(parse_u32("1 "), None);
    assert_eq!(parse_u32("1a"), None);
    assert_eq!(parse_u32("1_000"), None);
    assert_eq!(parse_u32("4294967296"), None);
    assert_eq!(parse_u32("99999999999999999999"), None);
    assert_eq!(parse_u32("\u{0661}"), None);
}

#[test]
fn parse_u32_agrees_with_std() {
    let samples = [
        "", "0", "1", "+1", "-1", "-0", "+", "-", "++1", "12a", "a12", " 12", "12 ", "0012",
        "4294967295", "4294967296", "+4294967295", "18446744073709551616", "1.5", "\u{0663}",
    ];
    for s in samples {
        assert_eq!(parse_u32(s), s.parse::<u32>().ok(), "input {:?}", s);
    }
}

#[test]
fn format_time_reads_back() {
    for ms in [0u32, 1, 61_001, 3_599_999, 6_000_000, u32::MAX] {
        let t = format_time(ms);
        let n = t.len();
        assert_eq!(&t[n - 7..n - 6], ":");
        assert_eq!(&t[n - 4..n - 3], ".");
        let m: u64 = t[..n - 7].parse().unwrap();
        let s: u64 = t[n - 6..n - 4].parse().unwrap();
        let r: u64 = t[n - 3..].parse().unwrap();
        assert_eq!(m * 60_000 + s * 1000 + r, ms as u64);
    }
}

#[test]
fn format_time_orders_like_the_time() {
    let times = [0u32, 999, 1000, 59_999, 60_000, 61_001, 600_000, 3_599_999, 5_999_999];
    for &a in &times {
        for &b in &times {
            assert_eq!(format_time(a).len(), 9);
            assert_eq!(format_time(a) < format_time(b), a < b);
        }
    }
}
