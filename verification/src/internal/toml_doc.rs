//! Reading TOML documents: whether a text parses as a table, and the
//! strings at known places in it.

use vstd::prelude::*;

use crate::internal::actor::opt_view;

verus! {

/// The message the `toml` parser gives when `text` is not a TOML
/// document; `None` when it is one.
pub uninterp spec fn toml_table_error(text: Seq<char>) -> Option<Seq<char>>;

/// `text.parse::<toml::Table>()`: `Ok` when `text` is a TOML document,
/// else the parser's message. Only that the outcome is a function of
/// `text` is claimed.
#[verifier::external_body]
pub(crate) fn parse_toml_table(text: &str) -> (r: Result<(), String>)
    ensures
        match r {
            Ok(()) => toml_table_error(text@) is None,
            Err(m) => toml_table_error(text@) == Some(m@),
        },
{
    match text.parse::<toml::Table>() {
        Ok(_) => Ok(()),
        Err(e) => Err(e.to_string()),
    }
}

/// The string at top-level `key` of the TOML document `text`; `None`
/// when `text` does not parse or `key` holds no string.
pub uninterp spec fn toml_top_string(text: Seq<char>, key: Seq<char>) -> Option<Seq<char>>;

/// `text.parse::<toml::Table>()`, then `get(key)` and `as_str()`. Only
/// that the result is a function of `text` and `key` is claimed.
#[verifier::external_body]
pub(crate) fn toml_string_field(text: &str, key: &str) -> (r: Option<String>)
    ensures
        opt_view(r) == toml_top_string(text@, key@),
{
    match text.parse::<toml::Table>() {
        Ok(t) => t.get(key).and_then(|v| v.as_str()).map(String::from),
        Err(_) => None,
    }
}

/// For each entry of the top-level array `array` of the TOML document
/// `text`, the strings at its keys `first` and `second`; empty when
/// `text` does not parse or `array` is no array.
pub uninterp spec fn toml_array_pairs(
    text: Seq<char>,
    array: Seq<char>,
    first: Seq<char>,
    second: Seq<char>,
) -> Seq<(Option<Seq<char>>, Option<Seq<char>>)>;

pub open spec fn pair_views(v: Seq<(Option<String>, Option<String>)>) -> Seq<(Option<Seq<char>>, Option<Seq<char>>)> {
    Seq::new(v.len(), |i: int| (opt_view(v[i].0), opt_view(v[i].1)))
}

/// `text.parse::<toml::Table>()`, then `get(array)` and `as_array()`,
/// and for each entry `as_table()` with `get` and `as_str()` of the two
/// keys. Only that the result is a function of the arguments is
/// claimed.
#[verifier::external_body]
pub(crate) fn toml_table_array_pairs(text: &str, array: &str, first: &str, second: &str) -> (r: Vec<(Option<String>, Option<String>)>)
    ensures
        pair_views(r@) == toml_array_pairs(text@, array@, first@, second@),
{
    let t = match text.parse::<toml::Table>() { Ok(t) => t, Err(_) => return Vec::new() };
    let items = match t.get(array).and_then(|v| v.as_array()) { Some(a) => a, None => return Vec::new() };
    let key = |e: &toml::Value, k: &str| e.as_table().and_then(|x| x.get(k)).and_then(|v| v.as_str()).map(String::from);
    items.iter().map(|e| (key(e, first), key(e, second))).collect()
}

} // verus!
