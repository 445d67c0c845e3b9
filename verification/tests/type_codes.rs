use gdax_feed::field::{has_opening, is_blank, is_word_run, stands_at};
use gdax_feed::matcher::{find, Span};
use gdax_feed::numeral::{parse_numeral, push_padded, Radix};
use gdax_feed::classify::word_from_spans;
use gdax_feed::{dataframe_text, extract_type, Field, OrderKind, Patterns};

#[test]
fn type_code_of_a_compact_message() {
    let text = r#"{"type":"received","time":"2014-11-07T08:19:27.028459Z","order_id":"d50ec984-77a8-460a-b958-66f114b0de9b"}"#;
    assert_eq!(extract_type(text), Some("received"));
}

#[test]
fn type_code_whatever_stands_around_it() {
    for word in ["received", "open", "match", "heartbeat", "done", "x", "A_1", "42"] {
        for (before, after) in [
            ("", ""),
            ("{", "}"),
            ("{\"sequence\": 10, ", ", \"side\": \"buy\"}"),
            ("{\"note\": \"\u{1f600} \\\"quoted\\\"\", ", ", \"tail\": [1, 2, {\"a\": null}]}"),
            ("\n\t ", " \r\n"),
        ] {
            let text = format!("{}\"type\": \"{}\"{}", before, word, after);
            assert_eq!(extract_type(&text), Some(word), "{}", text);
        }
    }
}

#[test]
fn type_code_is_borrowed_from_the_text() {
    let text = String::from("{\"type\":   \"open\"}");
    let word = extract_type(&text).unwrap();
    let offset = word.as_ptr() as usize - text.as_ptr() as usize;
    assert_eq!(offset, 12);
    assert_eq!(&text[offset..offset + word.len()], "open");
}

#[test]
fn text_without_type_field_has_no_type_code() {
    assert_eq!(extract_type(""), None);
    assert_eq!(extract_type("received"), None);
    assert_eq!(extract_type(r#"{"order_type":"limit"}"#), None);
    assert_eq!(extract_type(r#"{"type":received}"#), None);
    assert_eq!(extract_type(r#"{"type":""}"#), None);
    assert_eq!(extract_type(r#"{"type":"two words"}"#), None);
    assert_eq!(extract_type(r#"{"type" : "open"}"#), None);
    assert_eq!(extract_type(r#"{'type':'open'}"#), None);
}

#[test]
fn first_type_field_wins() {
    assert_eq!(extract_type(r#"{"type":"open","type":"done"}"#), Some("open"));
    assert_eq!(extract_type(r#"{"type":null,"type":"done"}"#), Some("done"));
}

#[test]
fn letters_outside_ascii_are_no_type_code() {
    assert_eq!(extract_type("{\"type\":\"caf\u{e9}\"}"), None);
}

#[test]
fn registry_reads_type_code_and_side() {
    let patterns = Patterns::new().unwrap();
    let text = r#"{"type": "received", "side": "buy", "order_type": "limit"}"#;
    assert_eq!(patterns.type_code(text), Some("received"));
    assert_eq!(patterns.type_code(text), extract_type(text));
    assert_eq!(patterns.side(text), Some("buy"));
    assert_eq!(patterns.side(r#"{"type": "received"}"#), None);
    assert_eq!(patterns.type_code(r#"{"side": "sell"}"#), None);
}

#[test]
fn registry_spans_are_those_of_a_fresh_search() {
    let patterns = Patterns::new().unwrap();
    let text = r#"{"type": "match", "side": "sell", "time": "2014-11-07T08:19:27.028459Z", "order_id": "d50ec984-77a8-460a-b958-66f114b0de9b"}"#;
    for field in [
        Field::Type,
        Field::Time,
        Field::Side,
        Field::OrderId,
        Field::MakerOrderId,
        Field::TakerOrderId,
    ] {
        assert_eq!(patterns.spans(field, text), find(field.pattern(), text));
    }
    assert_eq!(patterns.spans(Field::Type, text), Some(vec![Some((1, 16)), Some((10, 15))]));
    assert_eq!(patterns.spans(Field::Side, text), Some(vec![Some((18, 32)), Some((27, 31))]));
    assert_eq!(patterns.spans(Field::MakerOrderId, text), None);
}

#[test]
fn search_reports_byte_offsets() {
    let text = "\u{20ac}\"type\":\"open\"";
    assert_eq!(find(Field::Type.pattern(), text), Some(vec![Some((3, 16)), Some((11, 15))]));
    assert_eq!(extract_type(text), Some("open"));
}

#[test]
fn search_with_a_broken_pattern_finds_nothing() {
    assert_eq!(find("(", "("), None);
    assert_eq!(find("a(b)?", "xa"), Some(vec![Some((1, 2)), None]));
}

#[test]
fn keys_and_kinds() {
    assert_eq!(Field::Type.key(), "\"type\":");
    assert_eq!(Field::Time.key(), "\"time\":");
    assert_eq!(Field::Side.key(), "\"side\":");
    assert_eq!(Field::OrderId.key(), "\"order_id\":");
    assert_eq!(Field::MakerOrderId.key(), "\"maker_order_id\":");
    assert_eq!(Field::TakerOrderId.key(), "\"taker_order_id\":");
    assert_eq!(OrderKind::Normal.field(), Field::OrderId);
    assert_eq!(OrderKind::Maker.field(), Field::MakerOrderId);
    assert_eq!(OrderKind::Taker.field(), Field::TakerOrderId);
    for field in [Field::Type, Field::Time, Field::Side, Field::OrderId] {
        assert!(field.pattern().starts_with(field.key()));
    }
}

#[test]
fn word_spans_are_checked_against_the_text() {
    let text = r#"{"type": "open"}"#;
    let good: Vec<Span> = vec![Some((1, 15)), Some((10, 14))];
    assert_eq!(word_from_spans(text, Field::Type, &good), Some("open"));
    assert_eq!(word_from_spans(text, Field::Side, &good), None);
    assert_eq!(word_from_spans(text, Field::Type, &[Some((1, 15)), Some((10, 13))]), None);
    assert_eq!(word_from_spans(text, Field::Type, &[Some((1, 14)), Some((10, 13))]), None);
    assert_eq!(word_from_spans(text, Field::Type, &[Some((1, 15)), Some((11, 14))]), None);
    assert_eq!(word_from_spans(text, Field::Type, &[Some((1, 15)), Some((10, 10))]), None);
    assert_eq!(word_from_spans(text, Field::Type, &[Some((0, 15)), Some((10, 14))]), None);
    assert_eq!(word_from_spans(text, Field::Type, &[Some((1, 15)), None]), None);
    assert_eq!(word_from_spans(text, Field::Type, &[Some((1, 15))]), None);
    assert_eq!(word_from_spans(text, Field::Type, &[Some((1, 900)), Some((10, 899))]), None);
}

#[test]
fn byte_checks() {
    let text = b"ab \t\ncd_9\"";
    assert!(stands_at(text, 0, b"ab"));
    assert!(stands_at(text, 5, b"cd_9\""));
    assert!(stands_at(text, 10, b""));
    assert!(!stands_at(text, 11, b""));
    assert!(!stands_at(text, 1, b"ab"));
    assert!(!stands_at(text, 9, b"\"x"));
    assert!(!stands_at(text, usize::MAX, b"a"));
    assert!(is_blank(text, 2, 5));
    assert!(is_blank(text, 3, 3));
    assert!(!is_blank(text, 1, 5));
    assert!(!is_blank(text, 5, 2));
    assert!(!is_blank(text, 2, 50));
    assert!(is_blank(b" \x09\x0a\x0b\x0c\x0d", 0, 6));
    assert!(!is_blank(b"\x08", 0, 1));
    assert!(!is_blank(b"\x0e", 0, 1));
    assert!(is_word_run(text, 5, 9));
    assert!(!is_word_run(text, 4, 9));
    assert!(!is_word_run(text, 5, 10));
    assert!(is_word_run(b"azAZ09_", 0, 7));
    assert!(!is_word_run(b"-", 0, 1));
    assert!(has_opening(b"k:  \"v", b"k:", 0, 5));
    assert!(has_opening(b"k:\"v", b"k:", 0, 3));
    assert!(!has_opening(b"k:\"v", b"k:", 0, 2));
    assert!(!has_opening(b"k: x\"v", b"k:", 0, 5));
    assert!(!has_opening(b"k:  \"v", b"k:", 0, 4));
    assert!(!has_opening(b"k:  \"", b"k:", 0, 6));
}

#[test]
fn numerals_read_exactly() {
    let dec = Radix::Decimal;
    let hex = Radix::Hexadecimal;
    assert_eq!(parse_numeral(b"2014", 0, 4, dec, 65535), Some(2014));
    assert_eq!(parse_numeral(b"65535", 0, 5, dec, 65535), Some(65535));
    assert_eq!(parse_numeral(b"65536", 0, 5, dec, 65535), None);
    assert_eq!(parse_numeral(b"000255", 0, 6, dec, 255), Some(255));
    assert_eq!(parse_numeral(b"256", 0, 3, dec, 255), None);
    assert_eq!(parse_numeral(b"", 0, 0, dec, 255), None);
    assert_eq!(parse_numeral(b"12", 1, 1, dec, 255), None);
    assert_eq!(parse_numeral(b"x12y", 1, 3, dec, 255), Some(12));
    assert_eq!(parse_numeral(b"+12", 0, 3, dec, 255), None);
    assert_eq!(parse_numeral(b"1a", 0, 2, dec, 255), None);
    assert_eq!(parse_numeral(b"1a", 0, 2, hex, 255), Some(26));
    assert_eq!(parse_numeral(b"ff", 0, 2, hex, 255), Some(255));
    assert_eq!(parse_numeral(b"FF", 0, 2, hex, 255), None);
    assert_eq!(parse_numeral(b"fg", 0, 2, hex, 255), None);
    assert_eq!(parse_numeral(b"ffffffffffffffff", 0, 16, hex, u64::MAX), Some(u64::MAX));
    assert_eq!(parse_numeral(b"10000000000000000", 0, 17, hex, u64::MAX), None);
    assert_eq!(parse_numeral(b"18446744073709551615", 0, 20, dec, u64::MAX), Some(u64::MAX));
    assert_eq!(parse_numeral(b"18446744073709551616", 0, 20, dec, u64::MAX), None);
    assert_eq!(parse_numeral(b"99999999999999999999999", 0, 23, dec, u64::MAX), None);
}

#[test]
fn ranges_outside_the_text_hold_no_numeral() {
    assert_eq!(parse_numeral(b"2014", 0, 5, Radix::Decimal, 65535), None);
    assert_eq!(parse_numeral(b"2014", 3, 2, Radix::Decimal, 65535), None);
    assert_eq!(parse_numeral(b"2014", 4, 4, Radix::Decimal, 65535), None);
    assert_eq!(parse_numeral(b"2014", usize::MAX, usize::MAX, Radix::Decimal, 65535), None);
    assert_eq!(parse_numeral(b"2014", 3, 4, Radix::Decimal, 65535), Some(4));
}

#[test]
fn numbers_written_with_padding() {
    let written = |n: u32, width: u32| {
        let mut out = String::from(">");
        push_padded(&mut out, n, width);
        out
    };
    assert_eq!(written(0, 0), ">0");
    assert_eq!(written(0, 1), ">0");
    assert_eq!(written(0, 4), ">0000");
    assert_eq!(written(7, 2), ">07");
    assert_eq!(written(42, 2), ">42");
    assert_eq!(written(42, 0), ">42");
    assert_eq!(written(123, 2), ">123");
    assert_eq!(written(28459, 6), ">028459");
    assert_eq!(written(u32::MAX, 6), ">4294967295");
    for d in 0..10u32 {
        assert_eq!(written(d, 1), format!(">{}", d));
        assert_eq!(written(d, 3), format!(">{:03}", d));
    }
    for n in [0u32, 9, 10, 99, 100, 999, 1000, 65535, 999_999, 1_000_000] {
        for width in 0..8u32 {
            assert_eq!(written(n, width), format!(">{:0w$}", n, w = width as usize));
        }
    }
}

#[test]
fn only_text_frames_have_text() {
    let payload = "{\"type\":\"open\",\"note\":\"\u{20ac}\"}".as_bytes();
    assert_eq!(dataframe_text(true, payload), Some("{\"type\":\"open\",\"note\":\"\u{20ac}\"}"));
    assert_eq!(dataframe_text(false, payload), None);
    assert_eq!(dataframe_text(true, b""), Some(""));
    assert_eq!(dataframe_text(false, b""), None);
}

#[test]
fn bytes_that_are_no_text_are_refused() {
    assert_eq!(dataframe_text(true, b"\xff"), None);
    assert_eq!(dataframe_text(true, b"ab\x80"), None);
    assert_eq!(dataframe_text(true, b"\xc0\xaf"), None);
    assert_eq!(dataframe_text(true, b"\xed\xa0\x80"), None);
    assert_eq!(dataframe_text(true, b"\xf4\x90\x80\x80"), None);
    assert_eq!(dataframe_text(true, b"\xe2\x82"), None);
    assert_eq!(dataframe_text(true, b"\xe2\x82\xac"), Some("\u{20ac}"));
    let text = dataframe_text(true, b"{\"type\":\"done\"}").unwrap();
    assert_eq!(extract_type(text), Some("done"));
}
