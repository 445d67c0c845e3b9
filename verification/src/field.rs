//! The named fields of a feed message and the shape every field shares: a
//! quoted key with its colon, optional whitespace, and an opening quote.

use crate::matcher::Span;
use vstd::prelude::*;
use vstd::string::StringSliceAdditionalSpecFns;
use vstd::utf8::{encode_utf8, is_ascii_chars, is_ascii_chars_encode_utf8};

verus! {

/// The fields this crate knows how to find.
#[derive(Clone, Copy, Debug, PartialEq, Eq, Structural)]
pub enum Field {
    /// The message's type code, a word.
    Type,
    /// The message's timestamp.
    Time,
    /// The side of the book, a word.
    Side,
    /// The identifier of the order a message is about.
    OrderId,
    /// The identifier of the resting order in a match.
    MakerOrderId,
    /// The identifier of the incoming order in a match.
    TakerOrderId,
}

impl Field {
    /// The key as it stands in a message: the quoted name and its colon.
    pub open spec fn key_text(self) -> Seq<char> {
        match self {
            Field::Type => "\"type\":"@,
            Field::Time => "\"time\":"@,
            Field::Side => "\"side\":"@,
            Field::OrderId => "\"order_id\":"@,
            Field::MakerOrderId => "\"maker_order_id\":"@,
            Field::TakerOrderId => "\"taker_order_id\":"@,
        }
    }

    /// The bytes of the key.
    pub open spec fn key_bytes(self) -> Seq<u8> {
        encode_utf8(self.key_text())
    }

    /// The pattern handed to the engine to locate the field. It finds the
    /// leftmost place where the key is followed, after optional whitespace,
    /// by a quoted value of the field's kind.
    pub open spec fn pattern_text(self) -> Seq<char> {
        match self {
            Field::Type => "\"type\":\\s*\"(\\w+)\""@,
            Field::Time =>
                "\"time\":\\s*\"(\\d{4})-(\\d\\d)-(\\d\\d)T(\\d\\d):(\\d\\d):(\\d\\d)\\.(\\d{6})"@,
            Field::Side => "\"side\":\\s*\"(\\w+)\""@,
            Field::OrderId =>
                "\"order_id\":\\s*\"([a-f\\d]{8})-([a-f\\d]{4})-([a-f\\d]{4})-([a-f\\d]{4})-([a-f\\d]{12})\""@,
            Field::MakerOrderId =>
                "\"maker_order_id\":\\s*\"([a-f\\d]{8})-([a-f\\d]{4})-([a-f\\d]{4})-([a-f\\d]{4})-([a-f\\d]{12})\""@,
            Field::TakerOrderId =>
                "\"taker_order_id\":\\s*\"([a-f\\d]{8})-([a-f\\d]{4})-([a-f\\d]{4})-([a-f\\d]{4})-([a-f\\d]{12})\""@,
        }
    }

    /// The key of the field.
    pub fn key(self) -> (r: &'static str)
        ensures
            r@ == self.key_text(),
            r.spec_bytes() == self.key_bytes(),
    {
        match self {
            Field::Type => "\"type\":",
            Field::Time => "\"time\":",
            Field::Side => "\"side\":",
            Field::OrderId => "\"order_id\":",
            Field::MakerOrderId => "\"maker_order_id\":",
            Field::TakerOrderId => "\"taker_order_id\":",
        }
    }

    /// The pattern that locates the field.
    pub fn pattern(self) -> (r: &'static str)
        ensures
            r@ == self.pattern_text(),
    {
        match self {
            Field::Type => "\"type\":\\s*\"(\\w+)\"",
            Field::Time =>
                "\"time\":\\s*\"(\\d{4})-(\\d\\d)-(\\d\\d)T(\\d\\d):(\\d\\d):(\\d\\d)\\.(\\d{6})",
            Field::Side => "\"side\":\\s*\"(\\w+)\"",
            Field::OrderId =>
                "\"order_id\":\\s*\"([a-f\\d]{8})-([a-f\\d]{4})-([a-f\\d]{4})-([a-f\\d]{4})-([a-f\\d]{12})\"",
            Field::MakerOrderId =>
                "\"maker_order_id\":\\s*\"([a-f\\d]{8})-([a-f\\d]{4})-([a-f\\d]{4})-([a-f\\d]{4})-([a-f\\d]{12})\"",
            Field::TakerOrderId =>
                "\"taker_order_id\":\\s*\"([a-f\\d]{8})-([a-f\\d]{4})-([a-f\\d]{4})-([a-f\\d]{4})-([a-f\\d]{12})\"",
        }
    }
}

/// The span `s` is exactly the bytes from `from` up to `to`.
pub open spec fn span_is(s: Span, from: int, to: int) -> bool {
    s matches Some(p) && p.0 == from && p.1 == to
}

/// Where a span begins; zero for a group that took no part.
pub open spec fn span_start(s: Span) -> int {
    match s {
        Some(p) => p.0 as int,
        None => 0,
    }
}

/// Tells whether a span is exactly the bytes from `from` up to `to`.
pub fn span_matches(s: Span, from: usize, to: usize) -> (r: bool)
    ensures
        r == span_is(s, from as int, to as int),
{
    match s {
        Some(p) => p.0 == from && p.1 == to,
        None => false,
    }
}

/// The double quote that opens and closes a value.
pub open spec fn is_quote(b: u8) -> bool {
    b == 0x22
}

/// Blank, tab, line feed, vertical tab, form feed, carriage return.
pub open spec fn is_space(b: u8) -> bool {
    b == 0x20 || (0x09 <= b <= 0x0d)
}

/// A letter, a digit or the underscore.
pub open spec fn is_word(b: u8) -> bool {
    (0x30 <= b <= 0x39) || (0x41 <= b <= 0x5a) || (0x61 <= b <= 0x7a) || b == 0x5f
}

/// `lit` stands in `text` at offset `at`.
pub open spec fn occurs_at(text: Seq<u8>, at: int, lit: Seq<u8>) -> bool {
    0 <= at && at + lit.len() <= text.len() && text.subrange(at, at + lit.len()) == lit
}

/// `lit` stands somewhere in `text`.
pub open spec fn occurs(text: Seq<u8>, lit: Seq<u8>) -> bool {
    exists|at: int| occurs_at(text, at, lit)
}

/// Every byte of `text` from `from` up to `to` is whitespace.
pub open spec fn blank_between(text: Seq<u8>, from: int, to: int) -> bool {
    0 <= from <= to <= text.len() && forall|i: int| from <= i < to ==> is_space(#[trigger] text[i])
}

/// Every byte of `text` from `from` up to `to` is a word byte.
pub open spec fn word_between(text: Seq<u8>, from: int, to: int) -> bool {
    0 <= from <= to <= text.len() && forall|i: int| from <= i < to ==> is_word(#[trigger] text[i])
}

/// A field opens at `start` and its value begins at `value`: the key stands
/// at `start`, only whitespace follows it, and the byte just before `value`
/// is the opening quote.
pub open spec fn opens_field(text: Seq<u8>, key: Seq<u8>, start: int, value: int) -> bool {
    &&& occurs_at(text, start, key)
    &&& start + key.len() < value <= text.len()
    &&& blank_between(text, start + key.len(), value - 1)
    &&& is_quote(text[value - 1])
}

/// Tells whether `lit` stands in `bytes` at offset `at`.
pub fn stands_at(bytes: &[u8], at: usize, lit: &[u8]) -> (r: bool)
    ensures
        r == occurs_at(bytes@, at as int, lit@),
{
    if at > bytes.len() || lit.len() > bytes.len() - at {
        return false;
    }
    let ghost window = bytes@.subrange(at as int, at + lit@.len());
    let mut j: usize = 0;
    while j < lit.len()
        invariant
            j <= lit@.len(),
            at + lit@.len() <= bytes@.len() <= usize::MAX,
            window == bytes@.subrange(at as int, at + lit@.len()),
            forall|k: int| 0 <= k < j ==> window[k] == lit@[k],
        decreases lit@.len() - j,
    {
        if bytes[at + j] != lit[j] {
            assert(window[j as int] != lit@[j as int]);
            return false;
        }
        j = j + 1;
    }
    assert(window =~= lit@);
    true
}

/// Tells whether the bytes from `from` up to `to` are all whitespace.
pub fn is_blank(bytes: &[u8], from: usize, to: usize) -> (r: bool)
    ensures
        r == blank_between(bytes@, from as int, to as int),
{
    if from > to || to > bytes.len() {
        return false;
    }
    let mut i: usize = from;
    while i < to
        invariant
            from <= i <= to <= bytes@.len(),
            forall|k: int| from <= k < i ==> is_space(#[trigger] bytes@[k]),
        decreases to - i,
    {
        let b: u8 = bytes[i];
        if !(b == 0x20 || (0x09 <= b && b <= 0x0d)) {
            return false;
        }
        i = i + 1;
    }
    true
}

/// Tells whether the bytes from `from` up to `to` are all word bytes.
pub fn is_word_run(bytes: &[u8], from: usize, to: usize) -> (r: bool)
    ensures
        r == word_between(bytes@, from as int, to as int),
{
    if from > to || to > bytes.len() {
        return false;
    }
    let mut i: usize = from;
    while i < to
        invariant
            from <= i <= to <= bytes@.len(),
            forall|k: int| from <= k < i ==> is_word(#[trigger] bytes@[k]),
        decreases to - i,
    {
        let b: u8 = bytes[i];
        if !((0x30 <= b && b <= 0x39) || (0x41 <= b && b <= 0x5a) || (0x61 <= b && b <= 0x7a) || b
            == 0x5f) {
            return false;
        }
        i = i + 1;
    }
    true
}

/// Tells whether a field with the given key opens at `start` with its value
/// at `value`.
pub fn has_opening(bytes: &[u8], key: &[u8], start: usize, value: usize) -> (r: bool)
    ensures
        r == opens_field(bytes@, key@, start as int, value as int),
{
    if !stands_at(bytes, start, key) {
        return false;
    }
    let n: usize = bytes.len();
    let after: usize = start + key.len();
    if value <= after || value > n {
        return false;
    }
    is_blank(bytes, after, value - 1) && bytes[value - 1] == 0x22
}

/// The second and third byte of every key: enough to tell the keys apart.
pub proof fn lemma_key_bytes(field: Field)
    ensures
        field.key_bytes().len() >= 7,
        field.key_bytes()[0] == 0x22,
        field.key_bytes()[1] == match field {
            Field::Type | Field::Time | Field::TakerOrderId => 0x74u8,
            Field::Side => 0x73u8,
            Field::OrderId => 0x6fu8,
            Field::MakerOrderId => 0x6du8,
        },
        field.key_bytes()[2] == match field {
            Field::Type => 0x79u8,
            Field::Time | Field::Side => 0x69u8,
            Field::OrderId => 0x72u8,
            Field::MakerOrderId | Field::TakerOrderId => 0x61u8,
        },
{
    reveal_strlit("\"type\":");
    reveal_strlit("\"time\":");
    reveal_strlit("\"side\":");
    reveal_strlit("\"order_id\":");
    reveal_strlit("\"maker_order_id\":");
    reveal_strlit("\"taker_order_id\":");
    let k = field.key_text();
    assert(is_ascii_chars(k));
    is_ascii_chars_encode_utf8(k);
    assert(k[0] as u8 == encode_utf8(k)[0]);
    assert(k[1] as u8 == encode_utf8(k)[1]);
    assert(k[2] as u8 == encode_utf8(k)[2]);
}

/// The keys of two different fields never stand at the same place.
pub proof fn lemma_keys_apart(text: Seq<u8>, at: int, f: Field, g: Field)
    requires
        occurs_at(text, at, f.key_bytes()),
        occurs_at(text, at, g.key_bytes()),
    ensures
        f == g,
{
    lemma_key_bytes(f);
    lemma_key_bytes(g);
    let kf = f.key_bytes();
    let kg = g.key_bytes();
    assert(text.subrange(at, at + kf.len())[1] == text[at + 1]);
    assert(text.subrange(at, at + kg.len())[1] == text[at + 1]);
    assert(text.subrange(at, at + kf.len())[2] == text[at + 2]);
    assert(text.subrange(at, at + kg.len())[2] == text[at + 2]);
}

/// A field that opens at a given place has its value at one place only:
/// the opening quote is the first byte after the key that is no whitespace.
pub proof fn lemma_opening_unique(text: Seq<u8>, key: Seq<u8>, start: int, v: int, w: int)
    requires
        opens_field(text, key, start, v),
        opens_field(text, key, start, w),
    ensures
        v == w,
{
    if v < w {
        assert(is_space(text[v - 1]));
    } else if w < v {
        assert(is_space(text[w - 1]));
    }
}

} // verus!
