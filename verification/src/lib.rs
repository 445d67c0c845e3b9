//! Field extraction for exchange trade-feed messages.
//!
//! A message is a block of JSON-like text. Rather than parse the whole
//! document, this crate locates a handful of named fields with text patterns
//! and turns what it finds into two compact, ordered values: a timestamp
//! ([`Date`]) and a 128-bit order identifier ([`OrderID`]).
//!
//! The pattern engine only proposes where a field lies. Every proposal is
//! checked byte by byte against the field's shape before a value is built, so
//! what the contracts say of a returned value does not rest on the engine.

pub mod classify;
pub mod date;
pub mod date_order;
pub mod field;
pub mod frame;
pub mod id_order;
pub mod matcher;
pub mod numeral;
pub mod order_id;
pub mod patterns;

pub use crate::classify::extract_type;
pub use crate::date::Date;
pub use crate::field::Field;
pub use crate::frame::dataframe_text;
pub use crate::order_id::{OrderID, OrderKind};
pub use crate::patterns::Patterns;
