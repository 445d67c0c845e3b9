//! Word-valued fields: the type code of a message, and its side.

use crate::field::{
    has_opening, is_quote, is_word, is_word_run, lemma_opening_unique, occurs, occurs_at,
    opens_field, span_is, span_matches, span_start, word_between, Field,
};
use crate::matcher::{find, found, Span};
use vstd::prelude::*;
use vstd::string::StringSliceAdditionalSpecFns;
use vstd::utf8::{
    encode_utf8, encode_utf8_valid_utf8, is_char_boundary_iff_not_is_continuation_byte,
};

verus! {

/// Where a span ends; zero for a group that took no part.
pub open spec fn span_end(s: Span) -> int {
    match s {
        Some(p) => p.1 as int,
        None => 0,
    }
}

/// A quoted word stands in `text` from `from` up to `to`: at least one word
/// byte, nothing but word bytes, and the closing quote right after.
pub open spec fn is_quoted_word(text: Seq<u8>, from: int, to: int) -> bool {
    &&& from < to < text.len()
    &&& word_between(text, from, to)
    &&& is_quote(text[to])
}

/// The word that the spans point out in `text` under the key of `field`, if
/// they do point out one: the first span is the whole field, the second the
/// word between its quotes.
pub open spec fn word_found(text: Seq<u8>, field: Field, spans: Seq<Span>) -> Option<Seq<u8>> {
    if spans.len() == 2 && spans[1].is_some() && span_is(
        spans[0],
        span_start(spans[0]),
        span_end(spans[1]) + 1,
    ) && opens_field(text, field.key_bytes(), span_start(spans[0]), span_start(spans[1]))
        && is_quoted_word(text, span_start(spans[1]), span_end(spans[1])) {
        Some(text.subrange(span_start(spans[1]), span_end(spans[1])))
    } else {
        None
    }
}

/// The word of the given field in a message: what a search for the field
/// finds in the text, checked against the text.
pub open spec fn word_of(text: Seq<char>, field: Field) -> Option<Seq<u8>> {
    match found(field.pattern_text(), text) {
        Some(spans) => word_found(encode_utf8(text), field, spans),
        None => None,
    }
}

/// Borrows from `buffer` the word that the spans of a search point out
/// under the key of `field`. The spans are checked against the text, so a
/// word comes back only where the text really holds such a field there.
pub fn word_from_spans<'a>(buffer: &'a str, field: Field, spans: &[Span]) -> (r: Option<&'a str>)
    ensures
        match r {
            Some(w) => word_found(buffer.spec_bytes(), field, spans@) == Some(w.spec_bytes()),
            None => word_found(buffer.spec_bytes(), field, spans@).is_none(),
        },
{
    let bytes = buffer.as_bytes();
    let n: usize = bytes.len();
    if spans.len() != 2 {
        return None;
    }
    let (m, a, b): (usize, usize, usize) = match (spans[0], spans[1]) {
        (Some(p), Some(q)) => (p.0, q.0, q.1),
        _ => { return None; },
    };
    if !(a < b && b < n) {
        return None;
    }
    if !span_matches(spans[0], m, b + 1) {
        return None;
    }
    if !has_opening(bytes, field.key().as_bytes(), m, a) {
        return None;
    }
    if !(is_word_run(bytes, a, b) && bytes[b] == 0x22) {
        return None;
    }
    proof {
        encode_utf8_valid_utf8(buffer@);
        is_char_boundary_iff_not_is_continuation_byte(bytes@, a as int);
        is_char_boundary_iff_not_is_continuation_byte(bytes@, b as int);
        assert(is_word(bytes@[a as int]));
    }
    let (head, _) = buffer.split_at(b);
    proof {
        encode_utf8_valid_utf8(head@);
        assert(head.spec_bytes()[a as int] == bytes@[a as int]);
        is_char_boundary_iff_not_is_continuation_byte(head.spec_bytes(), a as int);
    }
    let (_, word) = head.split_at(a);
    assert(word.spec_bytes() =~= bytes@.subrange(a as int, b as int));
    Some(word)
}

/// The type code of a message: the word of its `type` field, borrowed from
/// `buffer`. A text without such a field gives `None`.
pub fn extract_type<'a>(buffer: &'a str) -> (r: Option<&'a str>)
    ensures
        match r {
            Some(w) => word_of(buffer@, Field::Type) == Some(w.spec_bytes()),
            None => word_of(buffer@, Field::Type).is_none(),
        },
{
    match find(Field::Type.pattern(), buffer) {
        Some(spans) => word_from_spans(buffer, Field::Type, spans.as_slice()),
        None => None,
    }
}

/// A word is found only under the key of its field: in a text where that
/// key stands nowhere, the message has no such word.
pub proof fn lemma_word_needs_key(text: Seq<char>, field: Field)
    requires
        !occurs(encode_utf8(text), field.key_bytes()),
    ensures
        forall|spans: Seq<Span>| (#[trigger] word_found(encode_utf8(text), field, spans)).is_none(),
        word_of(text, field).is_none(),
{
    let bytes = encode_utf8(text);
    assert forall|spans: Seq<Span>| (#[trigger] word_found(bytes, field, spans)).is_none() by {
        if word_found(bytes, field, spans).is_some() {
            assert(occurs_at(bytes, span_start(spans[0]), field.key_bytes()));
        }
    }
}

/// What is found is a field of the text: a word comes back only where the
/// key stands with a quoted word as its value, and it is that word.
pub proof fn lemma_found_word_is_field(text: Seq<u8>, field: Field, spans: Seq<Span>)
    requires
        word_found(text, field, spans).is_some(),
    ensures
        exists|m: int, a: int, b: int|
            #![trigger opens_field(text, field.key_bytes(), m, a), is_quoted_word(text, a, b)]
            opens_field(text, field.key_bytes(), m, a) && is_quoted_word(text, a, b) && word_found(
                text,
                field,
                spans,
            ) == Some(text.subrange(a, b)),
{
    assert(opens_field(text, field.key_bytes(), span_start(spans[0]), span_start(spans[1]))
        && is_quoted_word(text, span_start(spans[1]), span_end(spans[1])));
}

/// Where the text holds a word field and the spans are those of that
/// field, its word is found, exactly.
pub proof fn lemma_word_field_is_found(
    text: Seq<u8>,
    field: Field,
    spans: Seq<Span>,
    m: int,
    a: int,
    b: int,
)
    requires
        opens_field(text, field.key_bytes(), m, a),
        is_quoted_word(text, a, b),
        spans.len() == 2,
        span_is(spans[0], m, b + 1),
        span_is(spans[1], a, b),
    ensures
        word_found(text, field, spans) == Some(text.subrange(a, b)),
{
}

/// A field that opens at a given place holds one word only. So whatever is
/// found at the place where a field `"key": "X"` opens is `X`, whatever
/// stands before and after the field.
pub proof fn lemma_word_at_place_is_unique(
    text: Seq<u8>,
    field: Field,
    spans: Seq<Span>,
    m: int,
    a: int,
    b: int,
)
    requires
        opens_field(text, field.key_bytes(), m, a),
        is_quoted_word(text, a, b),
        word_found(text, field, spans).is_some(),
        span_start(spans[0]) == m,
    ensures
        word_found(text, field, spans) == Some(text.subrange(a, b)),
{
    let a2 = span_start(spans[1]);
    let b2 = span_end(spans[1]);
    lemma_opening_unique(text, field.key_bytes(), m, a, a2);
    if b < b2 {
        assert(is_word(text[b]));
    } else if b2 < b {
        assert(is_word(text[b2]));
    }
}

} // verus!
