//! The timestamp of a message.

use crate::field::{
    has_opening, occurs, occurs_at, opens_field, span_is, span_matches, span_start, Field,
};
use crate::matcher::{find, found, Span};
use crate::numeral::{
    ascii, fixed_numeral, is_numeral, lemma_numeral_writes_back, lemma_padded_reads_back,
    lemma_pow_values, lemma_value_bound, numeral_value, padded, push_padded, Radix,
};
use vstd::prelude::*;
use vstd::string::{StringExecFns, StringSliceAdditionalSpecFns};
use vstd::utf8::{encode_utf8, is_ascii_chars, is_ascii_chars_encode_utf8};

verus! {

/// A timestamp as seven numbers.
pub struct Instant {
    pub year: nat,
    pub month: nat,
    pub day: nat,
    pub hour: nat,
    pub minute: nat,
    pub second: nat,
    pub micro: nat,
}

/// A timestamp, stored in fixed-width fields. No calendar rule is applied:
/// month 13 is a value like any other.
#[derive(Debug, Clone, Copy, PartialEq, Eq, Structural, Ord)]
pub struct Date {
    year: u16,
    month: u8,
    day: u8,
    hour: u8,
    min: u8,
    sec: u8,
    ms: u32,
}

impl View for Date {
    type V = Instant;

    closed spec fn view(&self) -> Instant {
        Instant {
            year: self.year as nat,
            month: self.month as nat,
            day: self.day as nat,
            hour: self.hour as nat,
            minute: self.min as nat,
            second: self.sec as nat,
            micro: self.ms as nat,
        }
    }
}

/// `YYYY-MM-DDTHH:MM:SS.ffffff` stands in `text` at offset `v`.
pub open spec fn is_timestamp(text: Seq<u8>, v: int) -> bool {
    &&& 0 <= v
    &&& v + 26 <= text.len()
    &&& is_numeral(text.subrange(v, v + 4), 10)
    &&& text[v + 4] == 0x2d
    &&& is_numeral(text.subrange(v + 5, v + 7), 10)
    &&& text[v + 7] == 0x2d
    &&& is_numeral(text.subrange(v + 8, v + 10), 10)
    &&& text[v + 10] == 0x54
    &&& is_numeral(text.subrange(v + 11, v + 13), 10)
    &&& text[v + 13] == 0x3a
    &&& is_numeral(text.subrange(v + 14, v + 16), 10)
    &&& text[v + 16] == 0x3a
    &&& is_numeral(text.subrange(v + 17, v + 19), 10)
    &&& text[v + 19] == 0x2e
    &&& is_numeral(text.subrange(v + 20, v + 26), 10)
}

/// The numbers of the timestamp that stands in `text` at offset `v`.
pub open spec fn timestamp_value(text: Seq<u8>, v: int) -> Instant {
    Instant {
        year: numeral_value(text.subrange(v, v + 4), 10),
        month: numeral_value(text.subrange(v + 5, v + 7), 10),
        day: numeral_value(text.subrange(v + 8, v + 10), 10),
        hour: numeral_value(text.subrange(v + 11, v + 13), 10),
        minute: numeral_value(text.subrange(v + 14, v + 16), 10),
        second: numeral_value(text.subrange(v + 17, v + 19), 10),
        micro: numeral_value(text.subrange(v + 20, v + 26), 10),
    }
}

/// The spans of a timestamp field that opens at `m` with its value at `v`:
/// the whole field, then year, month, day, hour, minute, second and
/// microsecond.
pub open spec fn timestamp_spans(spans: Seq<Span>, m: int, v: int) -> bool {
    &&& spans.len() == 8
    &&& span_is(spans[0], m, v + 26)
    &&& span_is(spans[1], v, v + 4)
    &&& span_is(spans[2], v + 5, v + 7)
    &&& span_is(spans[3], v + 8, v + 10)
    &&& span_is(spans[4], v + 11, v + 13)
    &&& span_is(spans[5], v + 14, v + 16)
    &&& span_is(spans[6], v + 17, v + 19)
    &&& span_is(spans[7], v + 20, v + 26)
}

/// The timestamp that the spans point out in `text`, if they do point out
/// one: the spans must be those of a timestamp field, and the text must hold
/// such a field there.
pub open spec fn timestamp_found(text: Seq<u8>, spans: Seq<Span>) -> Option<Instant> {
    if spans.len() == 8 && timestamp_spans(spans, span_start(spans[0]), span_start(spans[1]))
        && opens_field(text, Field::Time.key_bytes(), span_start(spans[0]), span_start(spans[1]))
        && is_timestamp(text, span_start(spans[1])) {
        Some(timestamp_value(text, span_start(spans[1])))
    } else {
        None
    }
}

/// Every byte of a canonical text is a digit or one of the separators.
pub proof fn lemma_text_is_ascii(t: Instant)
    ensures
        forall|i: int| 0 <= i < t.text().len() ==> #[trigger] t.text()[i] < 0x80,
{
    lemma_padded_reads_back(t.year, 4);
    lemma_padded_reads_back(t.month, 2);
    lemma_padded_reads_back(t.day, 2);
    lemma_padded_reads_back(t.hour, 2);
    lemma_padded_reads_back(t.minute, 2);
    lemma_padded_reads_back(t.second, 2);
    lemma_padded_reads_back(t.micro, 6);
    lemma_digits_are_ascii(padded(t.year, 4));
    lemma_digits_are_ascii(padded(t.month, 2));
    lemma_digits_are_ascii(padded(t.day, 2));
    lemma_digits_are_ascii(padded(t.hour, 2));
    lemma_digits_are_ascii(padded(t.minute, 2));
    lemma_digits_are_ascii(padded(t.second, 2));
    lemma_digits_are_ascii(padded(t.micro, 6));
}

/// Digits are bytes below 128.
pub proof fn lemma_digits_are_ascii(s: Seq<u8>)
    requires
        is_numeral(s, 10),
    ensures
        forall|i: int| 0 <= i < s.len() ==> #[trigger] s[i] < 0x80,
{
    assert forall|i: int| 0 <= i < s.len() implies #[trigger] s[i] < 0x80 by {
        assert(crate::numeral::is_digit(s[i], 10));
    }
}

/// Bytes below 128, read as characters, encode to themselves.
pub proof fn lemma_ascii_bytes(s: Seq<u8>)
    requires
        forall|i: int| 0 <= i < s.len() ==> #[trigger] s[i] < 0x80,
    ensures
        is_ascii_chars(ascii(s)),
        encode_utf8(ascii(s)) == s,
{
    let c = ascii(s);
    assert forall|i: int| 0 <= i < c.len() implies '\0' <= #[trigger] c[i] <= '\u{7f}' by {
        assert(s[i] < 0x80);
    }
    is_ascii_chars_encode_utf8(c);
    assert forall|i: int| 0 <= i < s.len() implies encode_utf8(c)[i] == s[i] by {
        assert(c[i] as u8 == encode_utf8(c)[i]);
        assert(c[i] == s[i] as char);
    }
    assert(encode_utf8(c) =~= s);
}

impl Instant {
    /// Chronological order: the earlier of two timestamps is the one with
    /// the smaller year, or with the same year and the smaller month, and so
    /// on down to the microsecond.
    pub open spec fn precedes(self, other: Instant) -> bool {
        self.year < other.year || (self.year == other.year && (self.month < other.month || (
        self.month == other.month && (self.day < other.day || (self.day == other.day && (self.hour
            < other.hour || (self.hour == other.hour && (self.minute < other.minute || (self.minute
            == other.minute && (self.second < other.second || (self.second == other.second
            && self.micro < other.micro)))))))))))
    }

    /// The digits of the timestamp read as one number of twenty digits.
    pub open spec fn ordinal(self) -> nat {
        (((((self.year * 100 + self.month) * 100 + self.day) * 100 + self.hour) * 100
            + self.minute) * 100 + self.second) * 1_000_000 + self.micro
    }

    /// Every number fits the width it is written with.
    pub open spec fn fits(self) -> bool {
        &&& self.year < 10_000
        &&& self.month < 100
        &&& self.day < 100
        &&& self.hour < 100
        &&& self.minute < 100
        &&& self.second < 100
        &&& self.micro < 1_000_000
    }

    /// The canonical text: `YYYY-MM-DDTHH:MM:SS.ffffffZ`, every number
    /// zero-padded to its width.
    pub open spec fn text(self) -> Seq<u8> {
        padded(self.year, 4) + seq![0x2du8] + padded(self.month, 2) + seq![0x2du8] + padded(
            self.day,
            2,
        ) + seq![0x54u8] + padded(self.hour, 2) + seq![0x3au8] + padded(self.minute, 2)
            + seq![0x3au8] + padded(self.second, 2) + seq![0x2eu8] + padded(self.micro, 6)
            + seq![0x5au8]
    }
}

/// The timestamp of a message: what a search for the timestamp field finds
/// in the text, checked against the text.
pub open spec fn timestamp_of(text: Seq<char>) -> Option<Instant> {
    match found(Field::Time.pattern_text(), text) {
        Some(spans) => timestamp_found(encode_utf8(text), spans),
        None => None,
    }
}

impl Date {
    /// Reads the timestamp of a message. The field is looked for anywhere in
    /// `buffer`; a text without one gives `None`.
    pub fn new(buffer: &str) -> (r: Option<Date>)
        ensures
            match r {
                Some(d) => timestamp_of(buffer@) == Some(d@),
                None => timestamp_of(buffer@).is_none(),
            },
            !occurs(buffer.spec_bytes(), Field::Time.key_bytes()) ==> r.is_none(),
    {
        proof {
            if !occurs(buffer.spec_bytes(), Field::Time.key_bytes()) {
                lemma_timestamp_needs_key(buffer@);
            }
        }
        match find(Field::Time.pattern(), buffer) {
            Some(spans) => Date::from_spans(buffer, spans.as_slice()),
            None => None,
        }
    }

    /// The canonical text of the timestamp, `YYYY-MM-DDTHH:MM:SS.ffffffZ`.
    pub fn to_str(&self) -> (r: String)
        ensures
            r@ == ascii(self@.text()),
            encode_utf8(r@) == self@.text(),
    {
        proof {
            reveal_strlit("-");
            reveal_strlit("T");
            reveal_strlit(":");
            reveal_strlit(".");
            reveal_strlit("Z");
        }
        let mut out = String::new();
        push_padded(&mut out, self.year as u32, 4);
        out.append("-");
        push_padded(&mut out, self.month as u32, 2);
        out.append("-");
        push_padded(&mut out, self.day as u32, 2);
        out.append("T");
        push_padded(&mut out, self.hour as u32, 2);
        out.append(":");
        push_padded(&mut out, self.min as u32, 2);
        out.append(":");
        push_padded(&mut out, self.sec as u32, 2);
        out.append(".");
        push_padded(&mut out, self.ms as u32, 6);
        out.append("Z");
        proof {
            let t = self@.text();
            assert("-"@ =~= ascii(seq![0x2du8]));
            assert("T"@ =~= ascii(seq![0x54u8]));
            assert(":"@ =~= ascii(seq![0x3au8]));
            assert("."@ =~= ascii(seq![0x2eu8]));
            assert("Z"@ =~= ascii(seq![0x5au8]));
            assert(out@ =~= ascii(t));
            lemma_text_is_ascii(self@);
            lemma_ascii_bytes(t);
        }
        out
    }

    /// Builds the timestamp that the spans of a search point out in
    /// `buffer`. Every span is checked against the text, so a value comes
    /// back only where the text really holds a timestamp field there.
    pub fn from_spans(buffer: &str, spans: &[Span]) -> (r: Option<Date>)
        ensures
            match r {
                Some(d) => timestamp_found(buffer.spec_bytes(), spans@) == Some(d@),
                None => timestamp_found(buffer.spec_bytes(), spans@).is_none(),
            },
    {
        let bytes = buffer.as_bytes();
        let n: usize = bytes.len();
        if spans.len() != 8 {
            return None;
        }
        let (m, v): (usize, usize) = match (spans[0], spans[1]) {
            (Some(a), Some(b)) => (a.0, b.0),
            _ => { return None; },
        };
        if v > n || n - v < 26 {
            return None;
        }
        if !(span_matches(spans[0], m, v + 26) && span_matches(spans[1], v, v + 4) && span_matches(
            spans[2],
            v + 5,
            v + 7,
        ) && span_matches(spans[3], v + 8, v + 10) && span_matches(spans[4], v + 11, v + 13)
            && span_matches(spans[5], v + 14, v + 16) && span_matches(spans[6], v + 17, v + 19)
            && span_matches(spans[7], v + 20, v + 26)) {
            return None;
        }
        if !has_opening(bytes, Field::Time.key().as_bytes(), m, v) {
            return None;
        }
        if !(bytes[v + 4] == 0x2d && bytes[v + 7] == 0x2d && bytes[v + 10] == 0x54 && bytes[v + 13]
            == 0x3a && bytes[v + 16] == 0x3a && bytes[v + 19] == 0x2e) {
            return None;
        }
        proof {
            lemma_pow_values();
        }
        let year: u64 = match fixed_numeral(bytes, v, 4, Radix::Decimal, 9_999) {
            Some(x) => x,
            None => { return None; },
        };
        let month: u64 = match fixed_numeral(bytes, v + 5, 2, Radix::Decimal, 99) {
            Some(x) => x,
            None => { return None; },
        };
        let day: u64 = match fixed_numeral(bytes, v + 8, 2, Radix::Decimal, 99) {
            Some(x) => x,
            None => { return None; },
        };
        let hour: u64 = match fixed_numeral(bytes, v + 11, 2, Radix::Decimal, 99) {
            Some(x) => x,
            None => { return None; },
        };
        let min: u64 = match fixed_numeral(bytes, v + 14, 2, Radix::Decimal, 99) {
            Some(x) => x,
            None => { return None; },
        };
        let sec: u64 = match fixed_numeral(bytes, v + 17, 2, Radix::Decimal, 99) {
            Some(x) => x,
            None => { return None; },
        };
        let ms: u64 = match fixed_numeral(bytes, v + 20, 6, Radix::Decimal, 999_999) {
            Some(x) => x,
            None => { return None; },
        };
        Some(
            Date {
                year: year as u16,
                month: month as u8,
                day: day as u8,
                hour: hour as u8,
                min: min as u8,
                sec: sec as u8,
                ms: ms as u32,
            },
        )
    }

    /// The year.
    pub fn year(&self) -> (r: u16)
        ensures
            r == self@.year,
    {
        self.year
    }

    /// The month.
    pub fn month(&self) -> (r: u8)
        ensures
            r == self@.month,
    {
        self.month
    }

    /// The day of the month.
    pub fn day(&self) -> (r: u8)
        ensures
            r == self@.day,
    {
        self.day
    }

    /// The hour.
    pub fn hour(&self) -> (r: u8)
        ensures
            r == self@.hour,
    {
        self.hour
    }

    /// The minute.
    pub fn minute(&self) -> (r: u8)
        ensures
            r == self@.minute,
    {
        self.min
    }

    /// The second.
    pub fn second(&self) -> (r: u8)
        ensures
            r == self@.second,
    {
        self.sec
    }

    /// The microseconds.
    pub fn microsecond(&self) -> (r: u32)
        ensures
            r == self@.micro,
    {
        self.ms
    }
}

/// Two timestamps with the same numbers are the same timestamp.
pub proof fn lemma_date_is_its_view(a: Date, b: Date)
    ensures
        (a@ == b@) == (a == b),
{
}

/// Chronological order is a strict total order: of two different
/// timestamps exactly one precedes the other, none precedes itself, and
/// the order is transitive.
pub proof fn lemma_precedes_is_total_order(a: Instant, b: Instant, c: Instant)
    ensures
        !a.precedes(a),
        !(a.precedes(b) && b.precedes(a)),
        a != b ==> a.precedes(b) || b.precedes(a),
        a.precedes(b) && b.precedes(c) ==> a.precedes(c),
{
}

/// Among timestamps that fit their widths, as all that are read from text
/// do, chronological order is the order of the written digits read as one
/// number.
pub proof fn lemma_precedes_is_digit_order(a: Instant, b: Instant)
    requires
        a.fits(),
        b.fits(),
    ensures
        a.precedes(b) == (a.ordinal() < b.ordinal()),
{
}

/// A timestamp read from text fits its widths.
pub proof fn lemma_read_timestamp_fits(text: Seq<u8>, v: int)
    requires
        is_timestamp(text, v),
    ensures
        timestamp_value(text, v).fits(),
{
    lemma_pow_values();
    lemma_value_bound(text.subrange(v, v + 4), 10);
    lemma_value_bound(text.subrange(v + 5, v + 7), 10);
    lemma_value_bound(text.subrange(v + 8, v + 10), 10);
    lemma_value_bound(text.subrange(v + 11, v + 13), 10);
    lemma_value_bound(text.subrange(v + 14, v + 16), 10);
    lemma_value_bound(text.subrange(v + 17, v + 19), 10);
    lemma_value_bound(text.subrange(v + 20, v + 26), 10);
}

/// Reading a timestamp and writing it again reproduces the text it was
/// read from, digit for digit, with the closing `Z`.
pub proof fn lemma_timestamp_writes_back(text: Seq<u8>, v: int)
    requires
        is_timestamp(text, v),
    ensures
        timestamp_value(text, v).text() == text.subrange(v, v + 26).push(0x5a),
{
    lemma_numeral_writes_back(text.subrange(v, v + 4));
    lemma_numeral_writes_back(text.subrange(v + 5, v + 7));
    lemma_numeral_writes_back(text.subrange(v + 8, v + 10));
    lemma_numeral_writes_back(text.subrange(v + 11, v + 13));
    lemma_numeral_writes_back(text.subrange(v + 14, v + 16));
    lemma_numeral_writes_back(text.subrange(v + 17, v + 19));
    lemma_numeral_writes_back(text.subrange(v + 20, v + 26));
    assert(timestamp_value(text, v).text() =~= text.subrange(v, v + 26).push(0x5a));
}

/// Writing a timestamp and reading the text again gives the same numbers,
/// wherever the text stands, as long as every number fits its width.
pub proof fn lemma_text_reads_back(t: Instant, text: Seq<u8>, v: int)
    requires
        t.fits(),
        0 <= v,
        v + 27 <= text.len(),
        text.subrange(v, v + 27) == t.text(),
    ensures
        is_timestamp(text, v),
        timestamp_value(text, v) == t,
{
    lemma_pow_values();
    lemma_padded_reads_back(t.year, 4);
    lemma_padded_reads_back(t.month, 2);
    lemma_padded_reads_back(t.day, 2);
    lemma_padded_reads_back(t.hour, 2);
    lemma_padded_reads_back(t.minute, 2);
    lemma_padded_reads_back(t.second, 2);
    lemma_padded_reads_back(t.micro, 6);
    let c = t.text();
    assert(c.len() == 27);
    assert forall|i: int| 0 <= i < 27 implies text[v + i] == #[trigger] c[i] by {
        assert(text.subrange(v, v + 27)[i] == text[v + i]);
    }
    assert(text.subrange(v, v + 4) =~= padded(t.year, 4)) by {
        assert forall|i: int| 0 <= i < 4 implies text.subrange(v, v + 4)[i] == padded(t.year, 4)[i] by {
            assert(c[i] == padded(t.year, 4)[i]);
        }
    }
    assert(text.subrange(v + 5, v + 7) =~= padded(t.month, 2)) by {
        assert forall|i: int| 0 <= i < 2 implies text.subrange(v + 5, v + 7)[i] == padded(
            t.month,
            2,
        )[i] by {
            assert(c[5 + i] == padded(t.month, 2)[i]);
        }
    }
    assert(text.subrange(v + 8, v + 10) =~= padded(t.day, 2)) by {
        assert forall|i: int| 0 <= i < 2 implies text.subrange(v + 8, v + 10)[i] == padded(
            t.day,
            2,
        )[i] by {
            assert(c[8 + i] == padded(t.day, 2)[i]);
        }
    }
    assert(text.subrange(v + 11, v + 13) =~= padded(t.hour, 2)) by {
        assert forall|i: int| 0 <= i < 2 implies text.subrange(v + 11, v + 13)[i] == padded(
            t.hour,
            2,
        )[i] by {
            assert(c[11 + i] == padded(t.hour, 2)[i]);
        }
    }
    assert(text.subrange(v + 14, v + 16) =~= padded(t.minute, 2)) by {
        assert forall|i: int| 0 <= i < 2 implies text.subrange(v + 14, v + 16)[i] == padded(
            t.minute,
            2,
        )[i] by {
            assert(c[14 + i] == padded(t.minute, 2)[i]);
        }
    }
    assert(text.subrange(v + 17, v + 19) =~= padded(t.second, 2)) by {
        assert forall|i: int| 0 <= i < 2 implies text.subrange(v + 17, v + 19)[i] == padded(
            t.second,
            2,
        )[i] by {
            assert(c[17 + i] == padded(t.second, 2)[i]);
        }
    }
    assert(text.subrange(v + 20, v + 26) =~= padded(t.micro, 6)) by {
        assert forall|i: int| 0 <= i < 6 implies text.subrange(v + 20, v + 26)[i] == padded(
            t.micro,
            6,
        )[i] by {
            assert(c[20 + i] == padded(t.micro, 6)[i]);
        }
    }
    assert(text[v + 4] == c[4]);
    assert(text[v + 7] == c[7]);
    assert(text[v + 10] == c[10]);
    assert(text[v + 13] == c[13]);
    assert(text[v + 16] == c[16]);
    assert(text[v + 19] == c[19]);
}

/// A timestamp is found only under its key: in a text where the key
/// `"time":` stands nowhere, no spans point out a timestamp, and the
/// message has none.
pub proof fn lemma_timestamp_needs_key(text: Seq<char>)
    requires
        !occurs(encode_utf8(text), Field::Time.key_bytes()),
    ensures
        forall|spans: Seq<Span>| (#[trigger] timestamp_found(encode_utf8(text), spans)).is_none(),
        timestamp_of(text).is_none(),
{
    assert forall|spans: Seq<Span>| (#[trigger] timestamp_found(
        encode_utf8(text),
        spans,
    )).is_none() by {
        if timestamp_found(encode_utf8(text), spans).is_some() {
            assert(occurs_at(encode_utf8(text), span_start(spans[0]), Field::Time.key_bytes()));
        }
    }
}

/// What is found is a field of the text: a timestamp comes back only where
/// the key stands with a timestamp as its value, and it is that timestamp.
pub proof fn lemma_found_timestamp_is_field(text: Seq<u8>, spans: Seq<Span>)
    requires
        timestamp_found(text, spans).is_some(),
    ensures
        exists|m: int, v: int|
            #![trigger opens_field(text, Field::Time.key_bytes(), m, v)]
            opens_field(text, Field::Time.key_bytes(), m, v) && is_timestamp(text, v)
                && timestamp_found(text, spans) == Some(timestamp_value(text, v)),
{
    assert(opens_field(text, Field::Time.key_bytes(), span_start(spans[0]), span_start(spans[1])));
}

/// Where the text holds a timestamp field and the spans are those of that
/// field, its timestamp is found.
pub proof fn lemma_timestamp_field_is_found(text: Seq<u8>, spans: Seq<Span>, m: int, v: int)
    requires
        opens_field(text, Field::Time.key_bytes(), m, v),
        is_timestamp(text, v),
        timestamp_spans(spans, m, v),
    ensures
        timestamp_found(text, spans) == Some(timestamp_value(text, v)),
{
}

} // verus!
