use galnet::dates::parse_galnet_date;
use galnet::dates::revert_galnet_date;
use galnet::dates::GalnetDate;
use galnet::text::str_le;
use galnet::text::trim_text;
use galnet::text::usize_to_string;

#[test]
fn renders_zero() {
    assert_eq!(usize_to_string(0), "0");
}

#[test]
fn renders_single_digit() {
    assert_eq!(usize_to_string(7), "7");
}

#[test]
fn renders_multi_digit() {
    assert_eq!(usize_to_string(42), "42");
    assert_eq!(usize_to_string(1000), "1000");
    assert_eq!(usize_to_string(90210), "90210");
}

#[test]
fn trims_both_ends() {
    assert_eq!(trim_text("  a b  "), "a b");
    assert_eq!(trim_text("\t\nx\r\n"), "x");
    assert_eq!(trim_text("none"), "none");
    assert_eq!(trim_text("   "), "");
    assert_eq!(trim_text(""), "");
}

#[test]
fn trims_unicode_whitespace() {
    let samples = [
        "\u{a0}title\u{a0}",
        "\u{2028}x\u{3000}",
        "\u{1680}\u{2009}both\u{205f}",
        "inner\u{a0}kept",
    ];
    for s in samples {
        assert_eq!(trim_text(s), s.trim());
    }
}

#[test]
fn orders_strings_lexicographically() {
    assert!(str_le("", "a"));
    assert!(str_le("a", "a"));
    assert!(str_le("abc", "abd"));
    assert!(!str_le("abd", "abc"));
    assert!(str_le("ab", "abc"));
    assert!(!str_le("abc", "ab"));
}

#[test]
fn reformats_space_separated_date() {
    assert_eq!(revert_galnet_date("07 SEP 3301"), "3301 SEP 07");
}

#[test]
fn reformats_hyphen_separated_date() {
    assert_eq!(revert_galnet_date("07-SEP-3301"), "3301 SEP 07");
}

#[test]
fn reformats_date_inside_longer_text() {
    assert_eq!(revert_galnet_date("posted 07 SEP 3301 late"), "3301 SEP 07");
}

#[test]
fn unparseable_date_passes_through() {
    assert_eq!(revert_galnet_date("no date here"), "no date here");
    assert_eq!(revert_galnet_date(""), "");
    assert_eq!(revert_galnet_date("7 SEP 3301"), "7 SEP 3301");
}

#[test]
fn year_capture_is_greedy() {
    assert_eq!(revert_galnet_date("01 JAN 33015"), "33015 JAN 01");
}

#[test]
fn parses_date_fields() {
    let d = parse_galnet_date("07 SEP 3301").expect("date should parse");
    assert_eq!(d.day, "07");
    assert_eq!(d.month, "SEP");
    assert_eq!(d.year, "3301");
    assert_eq!(d.to_string(), "07 SEP 3301");
}

#[test]
fn rejects_text_without_date() {
    assert!(parse_galnet_date("SEP 3301").is_none());
    assert!(parse_galnet_date("07 SEPT 3301").is_none());
}

#[test]
fn date_equality_compares_rendered_text() {
    let a = GalnetDate { day: "07".to_string(), month: "SEP".to_string(), year: "3301".to_string() };
    let b = GalnetDate { day: "07".to_string(), month: "SEP".to_string(), year: "3301".to_string() };
    let c = GalnetDate { day: "08".to_string(), month: "SEP".to_string(), year: "3301".to_string() };
    assert!(a == b);
    assert!(a != c);
}
