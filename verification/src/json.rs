//! JSON text for the lists and maps of strings that job rows and runner
//! pods carry, written and read by `serde_json`.

use vstd::prelude::*;

use crate::models::{bind_all, lookup, pair_views};
use crate::text::{join, sort_lex, views};

verus! {

/// A lowercase hexadecimal digit.
pub open spec fn hex_digit(n: int) -> char {
    if n < 10 {
        ('0' as int + n) as char
    } else {
        ('a' as int + n - 10) as char
    }
}

/// How `serde_json` writes one character inside a string: `"` and `\`
/// and the control characters below U+0020 are escaped (`\b`, `\t`, `\n`,
/// `\f`, `\r`, else `\u00` and two lowercase hex digits); every other
/// character is written as it is.
pub open spec fn json_escape_char(c: char) -> Seq<char> {
    let x = c as int;
    if c == '"' {
        seq!['\\', '"']
    } else if c == '\\' {
        seq!['\\', '\\']
    } else if x == 8 {
        seq!['\\', 'b']
    } else if x == 9 {
        seq!['\\', 't']
    } else if x == 10 {
        seq!['\\', 'n']
    } else if x == 12 {
        seq!['\\', 'f']
    } else if x == 13 {
        seq!['\\', 'r']
    } else if x < 32 {
        seq!['\\', 'u', '0', '0', hex_digit(x / 16), hex_digit(x % 16)]
    } else {
        seq![c]
    }
}

/// The escaped characters of a string.
pub open spec fn json_escape(s: Seq<char>) -> Seq<char>
    decreases s.len(),
{
    if s.len() == 0 {
        seq![]
    } else {
        json_escape(s.drop_last()) + json_escape_char(s.last())
    }
}

/// A string as a JSON string literal.
pub open spec fn json_quote(s: Seq<char>) -> Seq<char> {
    seq!['"'] + json_escape(s) + seq!['"']
}

/// What `serde_json::to_string` gives for a list of strings: the quoted
/// strings between `[` and `]`, separated by `,`.
pub open spec fn json_string_array(items: Seq<Seq<char>>) -> Seq<char> {
    seq!['['] + join(items.map_values(|s: Seq<char>| json_quote(s)), seq![',']) + seq![']']
}

/// The value `m` binds to `k`, or empty.
pub open spec fn value_or_empty(m: Seq<(Seq<char>, Seq<char>)>, k: Seq<char>) -> Seq<char> {
    match lookup(m, k) {
        Some(v) => v,
        None => seq![],
    }
}

/// The members of a `serde_json::Map` (a `BTreeMap`) filled with `pairs`
/// in order: the last value of each key, the keys in sorted order.
pub open spec fn object_entries(pairs: Seq<(Seq<char>, Seq<char>)>) -> Seq<(Seq<char>, Seq<char>)> {
    let m = bind_all(seq![], pairs);
    sort_lex(m.map_values(|p: (Seq<char>, Seq<char>)| p.0)).map_values(
        |k: Seq<char>| (k, value_or_empty(m, k)),
    )
}

/// What `serde_json::to_string` gives for a `serde_json::Map` filled with
/// `pairs` in order, each value a string: each member of
/// [`object_entries`] as the quoted key, `:` and the quoted value, the
/// members separated by `,` between `{` and `}`.
pub open spec fn json_string_object(pairs: Seq<(Seq<char>, Seq<char>)>) -> Seq<char> {
    seq!['{'] + join(
        object_entries(pairs).map_values(
            |e: (Seq<char>, Seq<char>)| json_quote(e.0) + seq![':'] + json_quote(e.1),
        ),
        seq![','],
    ) + seq!['}']
}

/// The list of strings whose JSON text (as `serde_json` writes it) is
/// `text`, if there is one.
pub open spec fn json_array_form(text: Seq<char>) -> Option<Seq<Seq<char>>> {
    if exists|items: Seq<Seq<char>>| text == #[trigger] json_string_array(items) {
        Some(choose|items: Seq<Seq<char>>| text == #[trigger] json_string_array(items))
    } else {
        None
    }
}

/// A list of pairs whose JSON object text (as `serde_json` writes it) is
/// `text`, if there is one.
pub open spec fn json_object_form(text: Seq<char>) -> Option<Seq<(Seq<char>, Seq<char>)>> {
    if exists|pairs: Seq<(Seq<char>, Seq<char>)>| text == #[trigger] json_string_object(pairs) {
        Some(choose|pairs: Seq<(Seq<char>, Seq<char>)>| text == #[trigger] json_string_object(pairs))
    } else {
        None
    }
}

/// What `serde_json::from_str::<Vec<String>>` gives for `text`: the list,
/// or the error's message.
pub uninterp spec fn json_string_list(text: Seq<char>) -> Result<Seq<Seq<char>>, Seq<char>>;

/// What `serde_json::from_str::<BTreeMap<String, String>>` gives for
/// `text`: its entries in key order, or the error's message.
pub uninterp spec fn json_string_map(text: Seq<char>) -> Result<
    Seq<(Seq<char>, Seq<char>)>,
    Seq<char>,
>;

/// Calls `serde_json::to_string` on a list of strings, which writes the
/// compact JSON array of [`json_string_array`]. Serialising strings cannot
/// fail (`serde_json` reports errors only from failing `Serialize` impls and
/// non-string map keys).
#[verifier::external_body]
pub(crate) fn to_json_array(items: &Vec<String>) -> (r: String)
    ensures
        r@ == json_string_array(views(items@)),
{
    serde_json::to_string(items).unwrap_or_default()
}

/// Calls `serde_json::to_string` on a `serde_json::Map` holding `pairs` as
/// string members, which writes the compact JSON object of
/// [`json_string_object`]; it cannot fail, all keys being strings.
#[verifier::external_body]
pub(crate) fn to_json_object(pairs: &Vec<(String, String)>) -> (r: String)
    ensures
        r@ == json_string_object(pair_views(pairs@)),
{
    let m: serde_json::Map<String, serde_json::Value> = pairs.iter().map(
        |(k, v)| (k.clone(), serde_json::Value::String(v.clone())),
    ).collect();
    serde_json::to_string(&m).unwrap_or_default()
}

/// Calls `serde_json::from_str::<Vec<String>>`, keeping the error's
/// `Display` text. The result is named, not spelled out, except that the
/// text `serde_json` writes for a list of strings reads back as that list.
#[verifier::external_body]
pub(crate) fn parse_json_list(text: &str) -> (r: Result<Vec<String>, String>)
    ensures
        match r {
            Ok(v) => json_string_list(text@) == Ok::<Seq<Seq<char>>, Seq<char>>(views(v@)),
            Err(e) => json_string_list(text@) == Err::<Seq<Seq<char>>, Seq<char>>(e@),
        },
        match r {
            Ok(v) => json_array_form(text@) matches Some(items) ==> views(v@) == items,
            Err(_) => json_array_form(text@) is None,
        },
{
    serde_json::from_str::<Vec<String>>(text).map_err(|e| e.to_string())
}

/// Calls `serde_json::from_str::<BTreeMap<String, String>>` and hands the
/// entries back in the map's (key) order, keeping the error's `Display`
/// text. The result is named, not spelled out, except that the text
/// `serde_json` writes for a map of strings reads back as that map.
#[verifier::external_body]
pub(crate) fn parse_json_map(text: &str) -> (r: Result<Vec<(String, String)>, String>)
    ensures
        match r {
            Ok(v) => json_string_map(text@) == Ok::<Seq<(Seq<char>, Seq<char>)>, Seq<char>>(
                pair_views(v@),
            ),
            Err(e) => json_string_map(text@) == Err::<Seq<(Seq<char>, Seq<char>)>, Seq<char>>(e@),
        },
        match r {
            Ok(v) => json_object_form(text@) matches Some(pairs) ==> pair_views(v@)
                == object_entries(pairs),
            Err(_) => json_object_form(text@) is None,
        },
{
    serde_json::from_str::<std::collections::BTreeMap<String, String>>(text).map(
        |m| m.into_iter().collect(),
    ).map_err(|e| e.to_string())
}

} // verus!
