//! What the providers share of HTTP: header values, and how a response's body is
//! shown in an error.

use vstd::prelude::*;

use crate::error::{ErrorView, PiError, ProviderError, ProviderErrorView};
use crate::text::{byte_len, fitting, take_bytes, utf8_len};

verus! {

/// What of a response's body an error shows: at most 512 bytes of it.
pub open spec fn shown_body(text: Seq<char>) -> Seq<char> {
    if utf8_len(text) > 512 {
        fitting(text, 512) + "...(truncated)"@
    } else {
        text
    }
}

/// Shorten a response's body for an error.
pub fn body_preview(text: String) -> (r: String)
    ensures
        r@ == shown_body(text@),
{
    if byte_len(&text) > 512 {
        let mut r: String = take_bytes(&text, 512);
        r.push_str("...(truncated)");
        r
    } else {
        text
    }
}

/// A character that a header's value can hold: the tab, and any that is no ASCII
/// control character.
pub open spec fn is_header_char(c: char) -> bool {
    c == '\t' || (c >= ' ' && c != '\u{7f}')
}

/// A text that a header's value can hold.
pub open spec fn is_header_text(s: Seq<char>) -> bool {
    forall|i: int| 0 <= i < s.len() ==> is_header_char(#[trigger] s[i])
}

/// Whether a header's value can hold a text.
///
/// Calls `reqwest::header::HeaderValue::from_str`, which takes a text whose bytes
/// are all the tab, or at least that of the space and not that of the delete
/// character, and rejects any other. So a character outside of ASCII is taken.
#[verifier::external_body]
pub(crate) fn is_header_value(s: &str) -> (r: bool)
    ensures
        r == is_header_text(s@),
{
    reqwest::header::HeaderValue::from_str(s).is_ok()
}

/// The error on a key that no header can hold.
pub open spec fn invalid_key_error() -> ErrorView {
    ErrorView::Provider(ProviderErrorView::Other { message: "invalid characters in API key"@ })
}

/// The error on a key that no header can hold.
pub fn invalid_key() -> (r: PiError)
    ensures
        r.deep_view() == invalid_key_error(),
{
    PiError::Provider(ProviderError::Other { message: "invalid characters in API key".to_owned() })
}

/// What an attempt to make headers gives.
pub open spec fn headers_view(r: Result<Vec<(String, String)>, PiError>) -> Result<
    Seq<(Seq<char>, Seq<char>)>,
    ErrorView,
> {
    match r {
        Ok(headers) => Ok(headers.deep_view()),
        Err(e) => Err(e.deep_view()),
    }
}

} // verus!
