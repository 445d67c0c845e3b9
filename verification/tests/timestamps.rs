use gdax_feed::matcher::Span;
use gdax_feed::{Date, Patterns};

const RECEIVED: &str = r#"
{
    "type": "received",
    "time": "2014-11-07T08:19:27.028459Z",
    "product_id": "BTC-USD",
    "sequence": 10,
    "order_id": "d50ec984-77a8-460a-b958-66f114b0de9b",
    "size": "1.34",
    "price": "502.1",
    "side": "buy",
    "order_type": "limit"
}"#;

const COMPACT: &str = r#"{"type":"received","time":"2014-11-07T08:19:27.028459Z","order_id":"d50ec984-77a8-460a-b958-66f114b0de9b"}"#;

fn fields(d: &Date) -> (u16, u8, u8, u8, u8, u8, u32) {
    (d.year(), d.month(), d.day(), d.hour(), d.minute(), d.second(), d.microsecond())
}

#[test]
fn test_date_conversion() {
    let test_packet: &'static str = r#"
{
    "type": "received",
    "time": "2014-11-07T08:19:27.028459Z",
    "product_id": "BTC-USD",
    "sequence": 10,
    "order_id": "d50ec984-77a8-460a-b958-66f114b0de9b",
    "size": "1.34",
    "price": "502.1",
    "side": "buy",
    "order_type": "limit"
}"#;

    let date = Date::new(test_packet).unwrap();
    let s = date.to_str();
    assert_eq!(s, "2014-11-07T08:19:27.028459Z".to_string());
}

#[test]
fn compact_message_gives_the_seven_numbers() {
    let date = Date::new(COMPACT).unwrap();
    assert_eq!(fields(&date), (2014, 11, 7, 8, 19, 27, 28459));
    assert_eq!(date.to_str(), "2014-11-07T08:19:27.028459Z");
}

#[test]
fn spaced_message_gives_the_same_numbers() {
    let date = Date::new(RECEIVED).unwrap();
    assert_eq!(fields(&date), (2014, 11, 7, 8, 19, 27, 28459));
}

#[test]
fn text_without_time_field_has_no_timestamp() {
    assert_eq!(Date::new(""), None);
    assert_eq!(Date::new(r#"{"type":"heartbeat","on":true}"#), None);
    assert_eq!(Date::new("2014-11-07T08:19:27.028459Z"), None);
    assert_eq!(Date::new(r#""timer": "2014-11-07T08:19:27.028459Z""#), None);
}

#[test]
fn non_digit_in_year_gives_none() {
    assert_eq!(Date::new(r#"{"time":"20x4-11-07T08:19:27.028459Z"}"#), None);
    assert_eq!(Date::new(r#"{"time":"-014-11-07T08:19:27.028459Z"}"#), None);
    assert_eq!(Date::new(r#"{"time":"+014-11-07T08:19:27.028459Z"}"#), None);
}

#[test]
fn digits_outside_ascii_give_none() {
    // The pattern engine takes these for digits; they spell no numeral.
    let text = "{\"time\":\"\u{ff12}\u{ff10}\u{ff11}\u{ff14}-11-07T08:19:27.028459Z\"}";
    assert_eq!(Date::new(text), None);
    let text = "{\"time\":\"2014-11-07T08:19:27.02845\u{0669}Z\"}";
    assert_eq!(Date::new(text), None);
}

#[test]
fn short_fraction_gives_none() {
    assert_eq!(Date::new(r#"{"time":"2014-11-07T08:19:27.02845Z"}"#), None);
    assert_eq!(Date::new(r#"{"time":"2014-11-07T08:19:27"}"#), None);
}

#[test]
fn fraction_needs_a_full_stop() {
    assert_eq!(Date::new(r#"{"time":"2014-11-07T08:19:27,028459Z"}"#), None);
    assert_eq!(Date::new(r#"{"time":"2014-11-07T08:19:27x028459Z"}"#), None);
}

#[test]
fn whitespace_after_the_colon_is_skipped() {
    let a = Date::new("\"time\":\"2014-11-07T08:19:27.028459Z\"").unwrap();
    let b = Date::new("\"time\": \t\r\n \"2014-11-07T08:19:27.028459Z\"").unwrap();
    assert_eq!(a, b);
    assert_eq!(Date::new("\"time\" :\"2014-11-07T08:19:27.028459Z\""), None);
    assert_eq!(Date::new("\"time\":\u{a0}\"2014-11-07T08:19:27.028459Z\""), None);
}

#[test]
fn first_time_field_wins() {
    let text = r#"{"time":"2001-02-03T04:05:06.000007Z","time":"2014-11-07T08:19:27.028459Z"}"#;
    let date = Date::new(text).unwrap();
    assert_eq!(fields(&date), (2001, 2, 3, 4, 5, 6, 7));
}

#[test]
fn no_calendar_rule_is_applied() {
    let date = Date::new(r#"{"time":"9999-13-32T25:61:99.999999Z"}"#).unwrap();
    assert_eq!(fields(&date), (9999, 13, 32, 25, 61, 99, 999999));
    assert_eq!(date.to_str(), "9999-13-32T25:61:99.999999Z");
}

#[test]
fn small_numbers_are_zero_padded() {
    let date = Date::new(r#"{"time":"0001-02-03T04:05:06.000007Z"}"#).unwrap();
    assert_eq!(date.to_str(), "0001-02-03T04:05:06.000007Z");
    let date = Date::new(r#"{"time":"0000-00-00T00:00:00.000000"}"#).unwrap();
    assert_eq!(fields(&date), (0, 0, 0, 0, 0, 0, 0));
    assert_eq!(date.to_str(), "0000-00-00T00:00:00.000000Z");
}

#[test]
fn written_text_reads_back_to_the_same_value() {
    for text in [
        "2014-11-07T08:19:27.028459Z",
        "0000-00-00T00:00:00.000000Z",
        "9999-99-99T99:99:99.999999Z",
        "1970-01-01T00:00:00.000001Z",
    ] {
        let message = format!("{{\"time\": \"{}\"}}", text);
        let date = Date::new(&message).unwrap();
        assert_eq!(date.to_str(), text);
        let again = format!("\"time\":\"{}\"", date.to_str());
        assert_eq!(Date::new(&again), Some(date));
    }
}

#[test]
fn earlier_timestamp_is_less() {
    let stamps = [
        "2014-11-07T08:19:27.028459Z",
        "2014-11-07T08:19:27.028460Z",
        "2014-11-07T08:19:28.000000Z",
        "2014-11-07T08:20:00.000000Z",
        "2014-11-07T09:00:00.000000Z",
        "2014-11-08T00:00:00.000000Z",
        "2014-12-01T00:00:00.000000Z",
        "2015-01-01T00:00:00.000000Z",
    ];
    let dates: Vec<Date> =
        stamps.iter().map(|s| Date::new(&format!("\"time\":\"{}\"", s)).unwrap()).collect();
    for i in 0..dates.len() {
        for j in 0..dates.len() {
            assert_eq!(dates[i] < dates[j], i < j);
            assert_eq!(dates[i] > dates[j], i > j);
            assert_eq!(dates[i] == dates[j], i == j);
            assert_eq!(dates[i].partial_cmp(&dates[j]), Some(i.cmp(&j)));
            assert_eq!(dates[i].cmp(&dates[j]), i.cmp(&j));
        }
    }
}

#[test]
fn year_outweighs_every_later_field() {
    let a = Date::new(r#""time":"2013-12-31T23:59:59.999999""#).unwrap();
    let b = Date::new(r#""time":"2014-01-01T00:00:00.000000""#).unwrap();
    assert!(a < b);
    assert!(!(b < a));
    assert!(a <= a && a >= a);
}

fn spans_of(m: usize, v: usize) -> Vec<Span> {
    vec![
        Some((m, v + 26)),
        Some((v, v + 4)),
        Some((v + 5, v + 7)),
        Some((v + 8, v + 10)),
        Some((v + 11, v + 13)),
        Some((v + 14, v + 16)),
        Some((v + 17, v + 19)),
        Some((v + 20, v + 26)),
    ]
}

#[test]
fn spans_of_the_field_build_the_timestamp() {
    let text = r#"{"time": "2014-11-07T08:19:27.028459Z"}"#;
    let date = Date::from_spans(text, &spans_of(1, 10)).unwrap();
    assert_eq!(fields(&date), (2014, 11, 7, 8, 19, 27, 28459));
    assert_eq!(Some(date), Date::new(text));
}

#[test]
fn spans_that_miss_the_field_build_nothing() {
    let text = r#"{"time": "2014-11-07T08:19:27.028459Z"}"#;
    assert_eq!(Date::from_spans(text, &[]), None);
    assert_eq!(Date::from_spans(text, &spans_of(0, 10)), None);
    assert_eq!(Date::from_spans(text, &spans_of(1, 9)), None);
    assert_eq!(Date::from_spans(text, &spans_of(1, 11)), None);
    assert_eq!(Date::from_spans(text, &spans_of(1, 1000)), None);
    assert_eq!(Date::from_spans(text, &spans_of(usize::MAX, usize::MAX)), None);
    let mut short = spans_of(1, 10);
    short.pop();
    assert_eq!(Date::from_spans(text, &short), None);
    let mut holed = spans_of(1, 10);
    holed[3] = None;
    assert_eq!(Date::from_spans(text, &holed), None);
    let mut shifted = spans_of(1, 10);
    shifted[7] = Some((30, 35));
    assert_eq!(Date::from_spans(text, &shifted), None);
    let mut long = spans_of(1, 10);
    long.push(None);
    assert_eq!(Date::from_spans(text, &long), None);
}

#[test]
fn spans_are_checked_against_the_text() {
    // The right shape of spans over a text that holds no timestamp there.
    let text = r#"{"time": "2014-11-07 08:19:27.028459Z"}"#;
    assert_eq!(Date::from_spans(text, &spans_of(1, 10)), None);
    let text = r#"{"tame": "2014-11-07T08:19:27.028459Z"}"#;
    assert_eq!(Date::from_spans(text, &spans_of(1, 10)), None);
    let text = r#"{"time":x"2014-11-07T08:19:27.028459Z"}"#;
    assert_eq!(Date::from_spans(text, &spans_of(1, 10)), None);
}

#[test]
fn registry_reads_the_same_timestamp() {
    let patterns = Patterns::new().unwrap();
    assert_eq!(patterns.date(RECEIVED), Date::new(RECEIVED));
    assert_eq!(patterns.date(COMPACT), Date::new(COMPACT));
    assert_eq!(patterns.date("{}"), None);
    assert_eq!(fields(&patterns.date(COMPACT).unwrap()), (2014, 11, 7, 8, 19, 27, 28459));
}

#[test]
fn timestamp_between_multibyte_text() {
    let text = "{\"note\":\"\u{20ac}\u{1f600}\",\"time\":\"2014-11-07T08:19:27.028459Z\",\"x\":\"\u{e9}\"}";
    let date = Date::new(text).unwrap();
    assert_eq!(date.to_str(), "2014-11-07T08:19:27.028459Z");
}
