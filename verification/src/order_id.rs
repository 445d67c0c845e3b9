//! The identifier of an order: a 128-bit number written as thirty-two
//! hexadecimal digits in groups of 8, 4, 4, 4 and 12.

use crate::field::{
    has_opening, is_quote, lemma_keys_apart, occurs, occurs_at, opens_field, span_is,
    span_matches, span_start, Field,
};
use crate::matcher::{find, found, Span};
use crate::numeral::{
    digit_value, fixed_numeral, is_digit, is_numeral, lemma_pow_values, lemma_value_bound,
    lemma_value_injective, numeral_value, radix_pow, Radix,
};
use vstd::prelude::*;
use vstd::string::StringSliceAdditionalSpecFns;
use vstd::utf8::encode_utf8;

verus! {

/// Which of a message's order identifiers is meant.
#[derive(Debug, Clone, Copy, PartialEq, Eq, Structural)]
pub enum OrderKind {
    /// The field `order_id`.
    Normal,
    /// The field `maker_order_id`.
    Maker,
    /// The field `taker_order_id`.
    Taker,
}

impl OrderKind {
    /// The field that holds the identifier of this kind.
    pub open spec fn spec_field(self) -> Field {
        match self {
            OrderKind::Normal => Field::OrderId,
            OrderKind::Maker => Field::MakerOrderId,
            OrderKind::Taker => Field::TakerOrderId,
        }
    }

    /// The field that holds the identifier of this kind.
    #[verifier::when_used_as_spec(spec_field)]
    pub fn field(self) -> (r: Field)
        ensures
            r == self.spec_field(),
    {
        match self {
            OrderKind::Normal => Field::OrderId,
            OrderKind::Maker => Field::MakerOrderId,
            OrderKind::Taker => Field::TakerOrderId,
        }
    }
}

/// An order identifier in two 64-bit halves. The first three groups of
/// digits fill the upper half, the last two the lower half, each group
/// shifted left past the groups that follow it: the value is the number that
/// the thirty-two digits spell.
#[derive(Debug, Clone, Copy, PartialEq, Eq, Structural, Ord)]
pub struct OrderID {
    x: u64,
    y: u64,
}

impl View for OrderID {
    type V = nat;

    closed spec fn view(&self) -> nat {
        self.x as nat * 0x1_0000_0000_0000_0000 + self.y as nat
    }
}

/// `8-4-4-4-12` hexadecimal digits and a closing quote stand in `text` at
/// offset `v`.
pub open spec fn is_identifier(text: Seq<u8>, v: int) -> bool {
    &&& 0 <= v
    &&& v + 37 <= text.len()
    &&& is_numeral(text.subrange(v, v + 8), 16)
    &&& text[v + 8] == 0x2d
    &&& is_numeral(text.subrange(v + 9, v + 13), 16)
    &&& text[v + 13] == 0x2d
    &&& is_numeral(text.subrange(v + 14, v + 18), 16)
    &&& text[v + 18] == 0x2d
    &&& is_numeral(text.subrange(v + 19, v + 23), 16)
    &&& text[v + 23] == 0x2d
    &&& is_numeral(text.subrange(v + 24, v + 36), 16)
    &&& is_quote(text[v + 36])
}

/// The thirty-two digits of the identifier at offset `v`, hyphens left out.
pub open spec fn identifier_digits(text: Seq<u8>, v: int) -> Seq<u8> {
    text.subrange(v, v + 8) + text.subrange(v + 9, v + 13) + text.subrange(v + 14, v + 18)
        + text.subrange(v + 19, v + 23) + text.subrange(v + 24, v + 36)
}

/// The number that the identifier at offset `v` spells.
pub open spec fn identifier_value(text: Seq<u8>, v: int) -> nat {
    numeral_value(identifier_digits(text, v), 16)
}

/// The spans of an identifier field that opens at `m` with its value at
/// `v`: the whole field, then the five groups of digits.
pub open spec fn identifier_spans(spans: Seq<Span>, m: int, v: int) -> bool {
    &&& spans.len() == 6
    &&& span_is(spans[0], m, v + 37)
    &&& span_is(spans[1], v, v + 8)
    &&& span_is(spans[2], v + 9, v + 13)
    &&& span_is(spans[3], v + 14, v + 18)
    &&& span_is(spans[4], v + 19, v + 23)
    &&& span_is(spans[5], v + 24, v + 36)
}

/// The identifier that the spans point out in `text` under the key of
/// `field`, if they do point out one.
pub open spec fn identifier_found(text: Seq<u8>, field: Field, spans: Seq<Span>) -> Option<nat> {
    if spans.len() == 6 && identifier_spans(spans, span_start(spans[0]), span_start(spans[1]))
        && opens_field(text, field.key_bytes(), span_start(spans[0]), span_start(spans[1]))
        && is_identifier(text, span_start(spans[1])) {
        Some(identifier_value(text, span_start(spans[1])))
    } else {
        None
    }
}

/// The identifier of the given kind in a message: what a search for its
/// field finds in the text, checked against the text.
pub open spec fn identifier_of(text: Seq<char>, kind: OrderKind) -> Option<nat> {
    match found(kind.spec_field().pattern_text(), text) {
        Some(spans) => identifier_found(encode_utf8(text), kind.spec_field(), spans),
        None => None,
    }
}

/// A numeral made of two runs of digits is worth the first run, shifted
/// left by the length of the second, plus the second.
pub proof fn lemma_value_concat(a: Seq<u8>, b: Seq<u8>, radix: nat)
    ensures
        numeral_value(a + b, radix) == numeral_value(a, radix) * radix_pow(radix, b.len())
            + numeral_value(b, radix),
    decreases b.len(),
{
    let va = numeral_value(a, radix);
    if b.len() == 0 {
        assert(a + b =~= a);
        assert(radix_pow(radix, 0) == 1);
        assert(numeral_value(b, radix) == 0);
        assert(va * 1 == va);
    } else {
        let p = b.drop_last();
        let d = digit_value(b.last());
        assert((a + b).drop_last() =~= a + p);
        assert((a + b).last() == b.last());
        lemma_value_concat(a, p, radix);
        let vp = numeral_value(p, radix);
        let w = radix_pow(radix, p.len());
        assert(radix_pow(radix, b.len()) == w * radix);
        assert(numeral_value(a + b, radix) == (va * w + vp) * radix + d);
        assert(numeral_value(b, radix) == vp * radix + d);
        assert((va * w + vp) * radix == va * (w * radix) + vp * radix) by (nonlinear_arith);
    }
}

/// The number spelt by the thirty-two digits, in terms of the five groups.
pub proof fn lemma_identifier_value(text: Seq<u8>, v: int)
    requires
        is_identifier(text, v),
    ensures
        identifier_value(text, v) == (numeral_value(text.subrange(v, v + 8), 16) * 0x1_0000_0000
            + numeral_value(text.subrange(v + 9, v + 13), 16) * 0x1_0000 + numeral_value(
            text.subrange(v + 14, v + 18),
            16,
        )) * 0x1_0000_0000_0000_0000 + numeral_value(text.subrange(v + 19, v + 23), 16)
            * 0x1_0000_0000_0000 + numeral_value(text.subrange(v + 24, v + 36), 16),
        numeral_value(text.subrange(v, v + 8), 16) < 0x1_0000_0000,
        numeral_value(text.subrange(v + 9, v + 13), 16) < 0x1_0000,
        numeral_value(text.subrange(v + 14, v + 18), 16) < 0x1_0000,
        numeral_value(text.subrange(v + 19, v + 23), 16) < 0x1_0000,
        numeral_value(text.subrange(v + 24, v + 36), 16) < 0x1_0000_0000_0000,
{
    let g1 = text.subrange(v, v + 8);
    let g2 = text.subrange(v + 9, v + 13);
    let g3 = text.subrange(v + 14, v + 18);
    let g4 = text.subrange(v + 19, v + 23);
    let g5 = text.subrange(v + 24, v + 36);
    lemma_pow_values();
    lemma_value_bound(g1, 16);
    lemma_value_bound(g2, 16);
    lemma_value_bound(g3, 16);
    lemma_value_bound(g4, 16);
    lemma_value_bound(g5, 16);
    lemma_value_concat(g1, g2, 16);
    lemma_value_concat(g1 + g2, g3, 16);
    lemma_value_concat(g1 + g2 + g3, g4, 16);
    lemma_value_concat(g1 + g2 + g3 + g4, g5, 16);
    let n1 = numeral_value(g1, 16);
    let n2 = numeral_value(g2, 16);
    let n3 = numeral_value(g3, 16);
    let n4 = numeral_value(g4, 16);
    let n5 = numeral_value(g5, 16);
    assert(numeral_value(g1 + g2, 16) == n1 * 0x1_0000 + n2);
    assert(numeral_value(g1 + g2 + g3, 16) == (n1 * 0x1_0000 + n2) * 0x1_0000 + n3);
    assert(numeral_value(g1 + g2 + g3 + g4, 16) == ((n1 * 0x1_0000 + n2) * 0x1_0000 + n3)
        * 0x1_0000 + n4);
    assert(identifier_value(text, v) == (((n1 * 0x1_0000 + n2) * 0x1_0000 + n3) * 0x1_0000 + n4)
        * 0x1_0000_0000_0000 + n5);
}

impl OrderID {
    /// Reads the identifier of the given kind from a message. The field is
    /// looked for anywhere in `buffer`; a text without one gives `None`.
    pub fn new(buffer: &str, kind: OrderKind) -> (r: Option<OrderID>)
        ensures
            match r {
                Some(id) => identifier_of(buffer@, kind) == Some(id@),
                None => identifier_of(buffer@, kind).is_none(),
            },
            !occurs(buffer.spec_bytes(), kind.spec_field().key_bytes()) ==> r.is_none(),
    {
        proof {
            if !occurs(buffer.spec_bytes(), kind.spec_field().key_bytes()) {
                lemma_identifier_needs_key(buffer@, kind);
            }
        }
        match find(kind.field().pattern(), buffer) {
            Some(spans) => OrderID::from_spans(buffer, kind, spans.as_slice()),
            None => None,
        }
    }

    /// Builds the identifier that the spans of a search point out in
    /// `buffer`. Every span is checked against the text, so a value comes
    /// back only where the text really holds an identifier field of the
    /// given kind there.
    pub fn from_spans(buffer: &str, kind: OrderKind, spans: &[Span]) -> (r: Option<OrderID>)
        ensures
            match r {
                Some(id) => identifier_found(buffer.spec_bytes(), kind.spec_field(), spans@)
                    == Some(id@),
                None => identifier_found(buffer.spec_bytes(), kind.spec_field(), spans@).is_none(),
            },
    {
        let bytes = buffer.as_bytes();
        let n: usize = bytes.len();
        if spans.len() != 6 {
            return None;
        }
        let (m, v): (usize, usize) = match (spans[0], spans[1]) {
            (Some(a), Some(b)) => (a.0, b.0),
            _ => { return None; },
        };
        if v > n || n - v < 37 {
            return None;
        }
        if !(span_matches(spans[0], m, v + 37) && span_matches(spans[1], v, v + 8) && span_matches(
            spans[2],
            v + 9,
            v + 13,
        ) && span_matches(spans[3], v + 14, v + 18) && span_matches(spans[4], v + 19, v + 23)
            && span_matches(spans[5], v + 24, v + 36)) {
            return None;
        }
        if !has_opening(bytes, kind.field().key().as_bytes(), m, v) {
            return None;
        }
        if !(bytes[v + 8] == 0x2d && bytes[v + 13] == 0x2d && bytes[v + 18] == 0x2d && bytes[v + 23]
            == 0x2d && bytes[v + 36] == 0x22) {
            return None;
        }
        proof {
            lemma_pow_values();
        }
        let g1: u64 = match fixed_numeral(bytes, v, 8, Radix::Hexadecimal, 0xffff_ffff) {
            Some(x) => x,
            None => { return None; },
        };
        let g2: u64 = match fixed_numeral(bytes, v + 9, 4, Radix::Hexadecimal, 0xffff) {
            Some(x) => x,
            None => { return None; },
        };
        let g3: u64 = match fixed_numeral(bytes, v + 14, 4, Radix::Hexadecimal, 0xffff) {
            Some(x) => x,
            None => { return None; },
        };
        let g4: u64 = match fixed_numeral(bytes, v + 19, 4, Radix::Hexadecimal, 0xffff) {
            Some(x) => x,
            None => { return None; },
        };
        let g5: u64 = match fixed_numeral(bytes, v + 24, 12, Radix::Hexadecimal, 0xffff_ffff_ffff) {
            Some(x) => x,
            None => { return None; },
        };
        let x: u64 = (g1 << 32) | (g2 << 16) | g3;
        let y: u64 = (g4 << 48) | g5;
        proof {
            assert(x == g1 * 0x1_0000_0000 + g2 * 0x1_0000 + g3) by (bit_vector)
                requires
                    x == (g1 << 32) | (g2 << 16) | g3,
                    g1 <= 0xffff_ffff,
                    g2 <= 0xffff,
                    g3 <= 0xffff,
            ;
            assert(y == g4 * 0x1_0000_0000_0000 + g5) by (bit_vector)
                requires
                    y == (g4 << 48) | g5,
                    g4 <= 0xffff,
                    g5 <= 0xffff_ffff_ffff,
            ;
            lemma_identifier_value(bytes@, v as int);
        }
        Some(OrderID { x, y })
    }

    /// The upper 64 bits.
    pub fn high(&self) -> (r: u64)
        ensures
            r == self@ / 0x1_0000_0000_0000_0000,
    {
        self.x
    }

    /// The lower 64 bits.
    pub fn low(&self) -> (r: u64)
        ensures
            r == self@ % 0x1_0000_0000_0000_0000,
    {
        self.y
    }
}

/// Two identifiers with the same value are the same identifier.
pub proof fn lemma_id_is_its_view(a: OrderID, b: OrderID)
    ensures
        (a@ == b@) == (a == b),
        a@ < 0x1_0000_0000_0000_0000_0000_0000_0000_0000,
{
}

/// The thirty-two digits of an identifier are hexadecimal digits.
pub proof fn lemma_identifier_digits(text: Seq<u8>, v: int)
    requires
        is_identifier(text, v),
    ensures
        identifier_digits(text, v).len() == 32,
        is_numeral(identifier_digits(text, v), 16),
{
    let d = identifier_digits(text, v);
    let g1 = text.subrange(v, v + 8);
    let g2 = text.subrange(v + 9, v + 13);
    let g3 = text.subrange(v + 14, v + 18);
    let g4 = text.subrange(v + 19, v + 23);
    let g5 = text.subrange(v + 24, v + 36);
    assert forall|i: int| 0 <= i < d.len() implies is_digit(#[trigger] d[i], 16) by {
        if i < 8 {
            assert(d[i] == g1[i]);
        } else if i < 12 {
            assert(d[i] == g2[i - 8]);
        } else if i < 16 {
            assert(d[i] == g3[i - 12]);
        } else if i < 20 {
            assert(d[i] == g4[i - 16]);
        } else {
            assert(d[i] == g5[i - 20]);
        }
    }
}

/// Identifiers written with different digits have different values: the
/// packing loses nothing.
pub proof fn lemma_identifier_injective(t1: Seq<u8>, v1: int, t2: Seq<u8>, v2: int)
    requires
        is_identifier(t1, v1),
        is_identifier(t2, v2),
        identifier_value(t1, v1) == identifier_value(t2, v2),
    ensures
        identifier_digits(t1, v1) == identifier_digits(t2, v2),
{
    lemma_identifier_digits(t1, v1);
    lemma_identifier_digits(t2, v2);
    lemma_value_injective(identifier_digits(t1, v1), identifier_digits(t2, v2), 16);
}

/// An identifier is found only under the key of its kind: in a text where
/// that key stands nowhere, the message has no identifier of the kind.
pub proof fn lemma_identifier_needs_key(text: Seq<char>, kind: OrderKind)
    requires
        !occurs(encode_utf8(text), kind.spec_field().key_bytes()),
    ensures
        forall|spans: Seq<Span>|
            (#[trigger] identifier_found(encode_utf8(text), kind.spec_field(), spans)).is_none(),
        identifier_of(text, kind).is_none(),
{
    let bytes = encode_utf8(text);
    let field = kind.spec_field();
    assert forall|spans: Seq<Span>| (#[trigger] identifier_found(bytes, field, spans)).is_none() by {
        if identifier_found(bytes, field, spans).is_some() {
            assert(occurs_at(bytes, span_start(spans[0]), field.key_bytes()));
        }
    }
}

/// What is found is a field of the text: an identifier comes back only
/// where the key of its kind stands with an identifier as its value, and
/// it is the number which that identifier spells.
pub proof fn lemma_found_identifier_is_field(text: Seq<u8>, kind: OrderKind, spans: Seq<Span>)
    requires
        identifier_found(text, kind.spec_field(), spans).is_some(),
    ensures
        exists|m: int, v: int|
            #![trigger opens_field(text, kind.spec_field().key_bytes(), m, v)]
            opens_field(text, kind.spec_field().key_bytes(), m, v) && is_identifier(text, v)
                && identifier_found(text, kind.spec_field(), spans) == Some(
                identifier_value(text, v),
            ),
{
    assert(opens_field(
        text,
        kind.spec_field().key_bytes(),
        span_start(spans[0]),
        span_start(spans[1]),
    ));
}

/// Where the text holds an identifier field of the given kind and the
/// spans are those of that field, its identifier is found.
pub proof fn lemma_identifier_field_is_found(
    text: Seq<u8>,
    kind: OrderKind,
    spans: Seq<Span>,
    m: int,
    v: int,
)
    requires
        opens_field(text, kind.spec_field().key_bytes(), m, v),
        is_identifier(text, v),
        identifier_spans(spans, m, v),
    ensures
        identifier_found(text, kind.spec_field(), spans) == Some(identifier_value(text, v)),
{
}

/// The same spans never give an identifier under two kinds: the field of
/// one kind is not mistaken for the field of another.
pub proof fn lemma_kinds_apart(text: Seq<u8>, spans: Seq<Span>, k1: OrderKind, k2: OrderKind)
    requires
        identifier_found(text, k1.spec_field(), spans).is_some(),
        identifier_found(text, k2.spec_field(), spans).is_some(),
    ensures
        k1 == k2,
{
    lemma_keys_apart(text, span_start(spans[0]), k1.spec_field(), k2.spec_field());
}

/// Two identifiers found in a text, of whatever kinds, differ as soon as
/// the digits of the two fields differ.
pub proof fn lemma_different_digits_different_ids(
    text: Seq<u8>,
    k1: OrderKind,
    s1: Seq<Span>,
    k2: OrderKind,
    s2: Seq<Span>,
)
    requires
        identifier_found(text, k1.spec_field(), s1).is_some(),
        identifier_found(text, k2.spec_field(), s2).is_some(),
        identifier_digits(text, span_start(s1[1])) != identifier_digits(text, span_start(s2[1])),
    ensures
        identifier_found(text, k1.spec_field(), s1) != identifier_found(
            text,
            k2.spec_field(),
            s2,
        ),
{
    if identifier_found(text, k1.spec_field(), s1) == identifier_found(text, k2.spec_field(), s2) {
        lemma_identifier_injective(text, span_start(s1[1]), text, span_start(s2[1]));
    }
}

} // verus!
