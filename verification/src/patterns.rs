//! The registry of compiled patterns: one per field, built once and only
//! read afterwards.

use crate::classify::{word_from_spans, word_of};
use crate::date::{timestamp_of, Date};
use crate::field::Field;
use crate::matcher::{compile, found, pattern_compiles, pattern_source, search, Span};
use crate::order_id::{identifier_of, OrderID, OrderKind};
use vstd::prelude::*;
use vstd::string::StringSliceAdditionalSpecFns;

verus! {

/// All patterns compile: the condition under which a registry can be built.
pub open spec fn all_compile() -> bool {
    forall|f: Field| pattern_compiles(#[trigger] f.pattern_text())
}

/// The compiled patterns of every field. A registry is built once and
/// shared; nothing changes it afterwards, so any number of readers may use
/// it at the same time.
pub struct Patterns {
    type_code: regex::Regex,
    time: regex::Regex,
    side: regex::Regex,
    order_id: regex::Regex,
    maker_order_id: regex::Regex,
    taker_order_id: regex::Regex,
}

impl Patterns {
    /// Each compiled pattern stems from the pattern text of its field.
    #[verifier::type_invariant]
    spec fn stems_from_fields(self) -> bool {
        &&& pattern_source(self.type_code) == Field::Type.pattern_text()
        &&& pattern_source(self.time) == Field::Time.pattern_text()
        &&& pattern_source(self.side) == Field::Side.pattern_text()
        &&& pattern_source(self.order_id) == Field::OrderId.pattern_text()
        &&& pattern_source(self.maker_order_id) == Field::MakerOrderId.pattern_text()
        &&& pattern_source(self.taker_order_id) == Field::TakerOrderId.pattern_text()
        &&& all_compile()
    }

    /// Compiles the pattern of every field. The registry is there exactly
    /// when all of them compile.
    pub fn new() -> (r: Option<Patterns>)
        ensures
            r.is_some() == all_compile(),
    {
        let type_code = match compile(Field::Type.pattern()) {
            Some(re) => re,
            None => { return None; },
        };
        let time = match compile(Field::Time.pattern()) {
            Some(re) => re,
            None => { return None; },
        };
        let side = match compile(Field::Side.pattern()) {
            Some(re) => re,
            None => { return None; },
        };
        let order_id = match compile(Field::OrderId.pattern()) {
            Some(re) => re,
            None => { return None; },
        };
        let maker_order_id = match compile(Field::MakerOrderId.pattern()) {
            Some(re) => re,
            None => { return None; },
        };
        let taker_order_id = match compile(Field::TakerOrderId.pattern()) {
            Some(re) => re,
            None => { return None; },
        };
        proof {
            assert forall|f: Field| pattern_compiles(#[trigger] f.pattern_text()) by {
                match f {
                    Field::Type => {},
                    Field::Time => {},
                    Field::Side => {},
                    Field::OrderId => {},
                    Field::MakerOrderId => {},
                    Field::TakerOrderId => {},
                }
            }
        }
        Some(Patterns { type_code, time, side, order_id, maker_order_id, taker_order_id })
    }

    /// Searches `text` for `field` and hands out the spans of what was
    /// found: the same spans that compiling the field's pattern afresh and
    /// searching with it would give.
    pub fn spans(&self, field: Field, text: &str) -> (r: Option<Vec<Span>>)
        ensures
            match r {
                Some(v) => found(field.pattern_text(), text@) == Some(v@),
                None => found(field.pattern_text(), text@).is_none(),
            },
    {
        proof {
            use_type_invariant(self);
        }
        match field {
            Field::Type => search(&self.type_code, text),
            Field::Time => search(&self.time, text),
            Field::Side => search(&self.side, text),
            Field::OrderId => search(&self.order_id, text),
            Field::MakerOrderId => search(&self.maker_order_id, text),
            Field::TakerOrderId => search(&self.taker_order_id, text),
        }
    }

    /// The type code of a message, as [`crate::classify::extract_type`]
    /// gives it.
    pub fn type_code<'a>(&self, buffer: &'a str) -> (r: Option<&'a str>)
        ensures
            match r {
                Some(w) => word_of(buffer@, Field::Type) == Some(w.spec_bytes()),
                None => word_of(buffer@, Field::Type).is_none(),
            },
    {
        match self.spans(Field::Type, buffer) {
            Some(spans) => word_from_spans(buffer, Field::Type, spans.as_slice()),
            None => None,
        }
    }

    /// The side of the book that a message names.
    pub fn side<'a>(&self, buffer: &'a str) -> (r: Option<&'a str>)
        ensures
            match r {
                Some(w) => word_of(buffer@, Field::Side) == Some(w.spec_bytes()),
                None => word_of(buffer@, Field::Side).is_none(),
            },
    {
        match self.spans(Field::Side, buffer) {
            Some(spans) => word_from_spans(buffer, Field::Side, spans.as_slice()),
            None => None,
        }
    }

    /// The timestamp of a message, as [`Date::new`] gives it.
    pub fn date(&self, buffer: &str) -> (r: Option<Date>)
        ensures
            match r {
                Some(d) => timestamp_of(buffer@) == Some(d@),
                None => timestamp_of(buffer@).is_none(),
            },
    {
        match self.spans(Field::Time, buffer) {
            Some(spans) => Date::from_spans(buffer, spans.as_slice()),
            None => None,
        }
    }

    /// The identifier of the given kind in a message, as [`OrderID::new`]
    /// gives it.
    pub fn order_id(&self, buffer: &str, kind: OrderKind) -> (r: Option<OrderID>)
        ensures
            match r {
                Some(id) => identifier_of(buffer@, kind) == Some(id@),
                None => identifier_of(buffer@, kind).is_none(),
            },
    {
        match self.spans(kind.field(), buffer) {
            Some(spans) => OrderID::from_spans(buffer, kind, spans.as_slice()),
            None => None,
        }
    }
}

} // verus!
