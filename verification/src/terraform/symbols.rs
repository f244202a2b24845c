//! The symbols of the functions that handle Terraform resources.

use vstd::prelude::*;

use crate::go::{entry_point, normalize_go_entry_point, receiver_split, split_receiver};
use crate::library_model::{CallPatternKey, KeyView};
use crate::text::{chars_of, find_char, find_from, find_text, find_text_from, text_between};

verus! {

/// What stands before the package in the symbol of a handler.
pub const SERVICE_PATH_MARKER: &'static str = "/internal/service/";

/// What stands behind the first marker.
pub open spec fn after_marker(symbol: Seq<char>) -> Option<Seq<char>> {
    match find_text_from(symbol, SERVICE_PATH_MARKER@, 0) {
        Some(i) => Some(symbol.subrange(i + SERVICE_PATH_MARKER@.len(), symbol.len() as int)),
        None => None,
    }
}

/// The key of `package.qualifier`. A package with a slash in it has none, and neither has one
/// without a name or a function.
pub open spec fn qualified_key(s: Seq<char>) -> Option<KeyView> {
    let dot = find_from(s, '.', 0);
    let slash = find_from(s, '/', 0);
    let entry = entry_point(s.subrange(dot + 1, s.len() as int));
    if dot >= s.len() || slash < dot || dot == 0 || dot + 1 == s.len() || entry.len() == 0 {
        None
    } else {
        let (class_name, function_name) = receiver_split(entry);
        Some(KeyView { module: s.subrange(0, dot), class_name, function_name })
    }
}

/// The key under which a model has the handler with this symbol.
pub open spec fn symbol_key(symbol: Seq<char>) -> Option<KeyView> {
    match after_marker(symbol) {
        Some(s) => qualified_key(s),
        None => None,
    }
}

pub open spec fn opt_key(o: Option<CallPatternKey>) -> Option<KeyView> {
    match o {
        Some(k) => Some(k@),
        None => None,
    }
}

/// The key under which a model has the handler with this symbol; none for a symbol that is not that
/// of a service.
pub fn handler_key(full_symbol: &str) -> (r: Option<CallPatternKey>)
    ensures
        opt_key(r) == symbol_key(full_symbol@),
{
    let all = chars_of(full_symbol);
    let marker = chars_of(SERVICE_PATH_MARKER);
    let after = match find_text(&all, &marker, 0) {
        Some(i) => text_between(&all, i + marker.len(), all.len()),
        None => {
            return None;
        },
    };
    let v = chars_of(after.as_str());
    let dot: usize = find_char(&v, '.', 0);
    let slash: usize = find_char(&v, '/', 0);
    if dot >= v.len() || slash < dot || dot == 0 || dot + 1 == v.len() {
        return None;
    }
    let entry = normalize_go_entry_point(text_between(&v, dot + 1, v.len()).as_str());
    if entry.as_str().is_empty() {
        return None;
    }
    let (class_name, function_name) = split_receiver(entry.as_str());
    Some(CallPatternKey { module: text_between(&v, 0, dot), class_name, function_name })
}

} // verus!
