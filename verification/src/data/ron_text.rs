//! RON documents: what is taken from the `ron` crate.

use vstd::prelude::*;
use vstd::utf8::{decode_utf8, valid_utf8};

verus! {

#[verifier::external_type_specification]
#[verifier::external_body]
pub struct ExRonValue(ron::Value);

#[verifier::external_type_specification]
#[verifier::external_body]
pub struct ExSpannedError(ron::error::SpannedError);

/// What `ron::from_str` reads from a text.
pub uninterp spec fn ron_parse(text: Seq<char>) -> Result<ron::Value, ron::error::SpannedError>;

/// The entries of a `ron::Value::Map`, in the order of the map; nothing for
/// any other value.
pub uninterp spec fn ron_entries(value: ron::Value) -> Option<Seq<(ron::Value, ron::Value)>>;

/// The text of a `ron::Value::String`; nothing for any other value.
pub uninterp spec fn ron_string(value: ron::Value) -> Option<Seq<char>>;

/// What the `Display` of `ron::error::SpannedError` writes.
pub uninterp spec fn ron_error_words(error: ron::error::SpannedError) -> Seq<char>;

/// `ron::from_str::<ron::Value>`: parses a RON document. The outcome is a
/// function of the text alone.
#[verifier::external_body]
pub(crate) fn parse_ron(text: &str) -> (r: Result<ron::Value, ron::error::SpannedError>)
    ensures
        r == ron_parse(text@),
{
    ron::from_str::<ron::Value>(text)
}

/// Tells a `ron::Value::Map` from the other variants and hands out copies of
/// its entries by `ron::Map::iter`.
#[verifier::external_body]
pub(crate) fn map_entries(value: &ron::Value) -> (r: Option<Vec<(ron::Value, ron::Value)>>)
    ensures
        match r {
            Some(entries) => ron_entries(*value) == Some(entries@),
            None => ron_entries(*value) is None,
        },
{
    match value {
        ron::Value::Map(map) => Some(map.iter().map(|(k, v)| (k.clone(), v.clone())).collect()),
        _ => None,
    }
}

/// Tells a `ron::Value::String` from the other variants and copies its text.
#[verifier::external_body]
pub(crate) fn string_value(value: &ron::Value) -> (r: Option<String>)
    ensures
        match r {
            Some(text) => ron_string(*value) == Some(text@),
            None => ron_string(*value) is None,
        },
{
    match value {
        ron::Value::String(text) => Some(text.clone()),
        _ => None,
    }
}

/// The `Display` of `ron::error::SpannedError`: position and description.
#[verifier::external_body]
pub(crate) fn error_words(error: &ron::error::SpannedError) -> (r: String)
    ensures
        r@ == ron_error_words(*error),
{
    format!("{}", error)
}

/// `std::str::from_utf8`: the bytes as text, if they are valid UTF-8.
#[verifier::external_body]
pub(crate) fn utf8_text(bytes: &Vec<u8>) -> (r: Option<&str>)
    ensures
        match r {
            Some(text) => valid_utf8(bytes@) && text@ == decode_utf8(bytes@),
            None => !valid_utf8(bytes@),
        },
{
    std::str::from_utf8(bytes).ok()
}

} // verus!
