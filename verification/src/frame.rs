//! The text of a frame: the bytes the transport delivers, viewed as text
//! once they are known to be text.

use vstd::prelude::*;
use vstd::string::StringSliceAdditionalSpecFns;
use vstd::utf8::valid_utf8;

verus! {

/// Calls `core::str::from_utf8`. The contract claims what the standard
/// library documents: the bytes are accepted exactly when they are valid
/// UTF-8, and the text handed out is those same bytes.
#[verifier::external_body]
fn utf8_text<'a>(data: &'a [u8]) -> (r: Option<&'a str>)
    ensures
        r.is_some() == valid_utf8(data@),
        r matches Some(s) ==> s.spec_bytes() == data@,
{
    core::str::from_utf8(data).ok()
}

/// Borrows the payload of a frame as text. Only a text frame has text, and
/// only if its payload is valid UTF-8: the bytes are never taken for text
/// unexamined.
pub fn dataframe_text<'a>(is_text: bool, data: &'a [u8]) -> (r: Option<&'a str>)
    ensures
        r.is_some() == (is_text && valid_utf8(data@)),
        r matches Some(s) ==> s.spec_bytes() == data@,
{
    if is_text {
        utf8_text(data)
    } else {
        None
    }
}

} // verus!
