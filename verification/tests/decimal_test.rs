use kvs::decimal::{format_u64, parse_u64_text};

#[test]
fn format_small_and_large() {
    assert_eq!(format_u64(0), "0");
    assert_eq!(format_u64(7), "7");
    assert_eq!(format_u64(10), "10");
    assert_eq!(format_u64(1234567890), "1234567890");
    assert_eq!(format_u64(u64::MAX), "18446744073709551615");
}

#[test]
fn parse_agrees_with_std() {
    let cases = [
        "0", "12", "+5", "+", "", "-1", "007", "18446744073709551615", "18446744073709551616",
        "99999999999999999999x", "1a", " 1", "٣", "+-1", "++1",
    ];
    for c in cases.iter() {
        assert_eq!(parse_u64_text(c), c.parse::<u64>().ok(), "text {:?}", c);
    }
}

#[test]
fn format_then_parse_round_trips() {
    for n in [0u64, 1, 9, 10, 99, 100, 4096, u64::MAX - 1, u64::MAX].iter() {
        assert_eq!(parse_u64_text(&format_u64(*n)), Some(*n));
    }
}
