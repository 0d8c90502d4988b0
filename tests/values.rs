use splits_parser::model::{ParseError, TimeSpan};
use splits_parser::parser::{decode_image, unwrap_image};
use splits_parser::text::{parse_bool, parse_time_span};
use splits_parser::version::{parse_version, Version};
use splits_parser::reader::parse_date_time;

#[test]
fn versions_order_as_tuples() {
    let a = parse_version("1.4.1.0").unwrap();
    let b = parse_version("1.5.0.0").unwrap();
    assert!(!a.at_least(&b));
    assert!(b.at_least(&a));
    let c = parse_version("1.3.0.0").unwrap();
    assert!(c.at_least(&parse_version("1.3.0.0").unwrap()));
    assert_eq!(c, Version(1, 3, 0, 0));
}

#[test]
fn version_components_default_and_extra_ones_are_ignored() {
    assert_eq!(parse_version("1.6"), Ok(Version(1, 6, 0, 0)));
    assert_eq!(parse_version("2"), Ok(Version(2, 0, 0, 0)));
    assert_eq!(parse_version("1.2.3.4.5"), Ok(Version(1, 2, 3, 4)));
    assert_eq!(parse_version(""), Err(ParseError::IntegerFormat));
    assert_eq!(parse_version("1.x"), Err(ParseError::IntegerFormat));
    assert_eq!(Version::initial(), Version(1, 0, 0, 0));
}

#[test]
fn time_span_encodings() {
    assert_eq!(parse_time_span("12.5"), Ok(TimeSpan { nanos: 12_500_000_000 }));
    assert_eq!(
        parse_time_span("1.02:30:00"),
        Ok(TimeSpan { nanos: (86_400 + 9_000) * 1_000_000_000 })
    );
    assert_eq!(parse_time_span("02:30:00"), Ok(TimeSpan { nanos: 9_000 * 1_000_000_000 }));
    assert_eq!(parse_time_span("-1.25"), Ok(TimeSpan { nanos: -1_250_000_000 }));
    assert_eq!(parse_time_span("0:01.0000000001"), Ok(TimeSpan { nanos: 1_000_000_000 }));
    assert_eq!(parse_time_span("abc"), Err(ParseError::TimeSpanFormat));
    assert_eq!(parse_time_span(""), Err(ParseError::TimeSpanFormat));
    assert_eq!(parse_time_span("99999999999999999999"), Err(ParseError::TimeSpanFormat));
}

#[test]
fn booleans_are_exact_words() {
    assert_eq!(parse_bool("True"), Ok(true));
    assert_eq!(parse_bool("False"), Ok(false));
    assert_eq!(parse_bool("true"), Err(ParseError::InvalidBoolean));
    assert_eq!(parse_bool("Maybe"), Err(ParseError::InvalidBoolean));
}

#[test]
fn dates_follow_the_fixed_layout() {
    let d = parse_date_time("01/02/2020 03:04:05").unwrap();
    assert_eq!(d.nanos, 1_577_934_245 * 1_000_000_000);
    assert_eq!(parse_date_time("2020-01-02"), Err(ParseError::DateFormat));
}

#[test]
fn short_image_text_is_empty() {
    assert!(decode_image("abc").is_empty());
}

#[test]
fn long_image_text_with_bad_base64_is_empty() {
    let text = "!".repeat(300);
    assert!(decode_image(&text).is_empty());
}

#[test]
fn long_image_text_is_decoded_and_trimmed() {
    let mut text = "x".repeat(212);
    // base64 of [1, 2, 3, 4, 5, 6]
    text.push_str("AQIDBAUG");
    assert_eq!(decode_image(&text), vec![3, 4, 5]);
}

#[test]
fn payload_trim_drops_two_head_and_one_tail_bytes() {
    assert_eq!(unwrap_image(Some(vec![9, 9, 7, 8, 9])), vec![7, 8]);
    assert!(unwrap_image(Some(vec![1, 2])).is_empty());
    assert!(unwrap_image(None).is_empty());
}

#[test]
fn icon_threshold_counts_characters() {
    // 212 two-byte characters, then base64 of [1, 2, 3, 4, 5, 6].
    let mut text = "é".repeat(212);
    text.push_str("AQIDBAUG");
    assert_eq!(decode_image(&text), vec![3, 4, 5]);
}
