use vstd::prelude::*;
use vstd::slice::slice_subrange;
use crate::query::{last_value, QueryParams};
use crate::text::{chars_of, find_char, find_char_in, lemma_find_char, string_from_chars};

verus! {

/// A JSON document as the request handling reads it: objects by key and
/// strings; numbers are kept without their value.
pub enum JsonValue {
    Null,
    Bool(bool),
    Number,
    Str(String),
    Array(Vec<JsonValue>),
    Object(Vec<(String, JsonValue)>),
}

/// The value of the last field named `key`.
pub open spec fn field_value(fields: Seq<(String, JsonValue)>, key: Seq<char>) -> Option<JsonValue>
    decreases fields.len(),
{
    if fields.len() == 0 {
        None
    } else if fields.last().0@ == key {
        Some(fields.last().1)
    } else {
        field_value(fields.drop_last(), key)
    }
}

/// `value.get(key)`: the field `key` of an object; nothing for other values.
pub open spec fn json_get(value: JsonValue, key: Seq<char>) -> Option<JsonValue> {
    match value {
        JsonValue::Object(fields) => field_value(fields@, key),
        _ => None,
    }
}

/// `value.as_str()`: the text of a string value.
pub open spec fn json_str(value: JsonValue) -> Option<Seq<char>> {
    match value {
        JsonValue::Str(s) => Some(s@),
        _ => None,
    }
}

/// The string found by following the `.`-separated keys of `keys` from `value`.
pub open spec fn follow_keys(value: JsonValue, keys: Seq<char>) -> Option<Seq<char>>
    decreases keys.len(),
{
    match find_char(keys, '.') {
        Some(i) => {
            proof {
                lemma_find_char(keys, '.');
            }
            match json_get(value, keys.take(i)) {
                Some(inner) => follow_keys(inner, keys.skip(i + 1)),
                None => None,
            }
        },
        None => match json_get(value, keys) {
            Some(inner) => json_str(inner),
            None => None,
        },
    }
}

/// The string at a path such as `.head_commit.message`; a path must start
/// with `.`.
pub open spec fn path_value(value: JsonValue, path: Seq<char>) -> Option<Seq<char>> {
    if path.len() > 0 && path[0] == '.' {
        follow_keys(value, path.drop_first())
    } else {
        None
    }
}

/// Where a notification field comes from: a path parameter (`title_path`)
/// selects a string in the body and wins; else the direct parameter
/// (`title`); else the body's field of that name.
pub open spec fn field_source(
    query: Seq<(Seq<char>, Seq<char>)>,
    body: Option<JsonValue>,
    direct_key: Seq<char>,
    path_key: Seq<char>,
) -> Option<Seq<char>> {
    match last_value(query, path_key) {
        Some(path) => match body {
            Some(json) => path_value(json, path),
            None => None,
        },
        None => match last_value(query, direct_key) {
            Some(v) => Some(v),
            None => match body {
                Some(json) => match json_get(json, direct_key) {
                    Some(inner) => json_str(inner),
                    None => None,
                },
                None => None,
            },
        },
    }
}

/// The value behind an optional reference.
pub open spec fn opt_value(v: Option<&JsonValue>) -> Option<JsonValue> {
    match v {
        Some(j) => Some(*j),
        None => None,
    }
}

impl JsonValue {
    /// The field `key` of an object (the last one of that name); nothing
    /// for a value that is not an object.
    pub fn get(&self, key: &str) -> (res: Option<&JsonValue>)
        ensures
            match res {
                Some(v) => json_get(*self, key@) == Some(*v),
                None => json_get(*self, key@) is None,
            },
    {
        let wanted = String::from_str(key);
        self.get_field(&wanted)
    }

    fn get_field(&self, wanted: &String) -> (res: Option<&JsonValue>)
        ensures
            match res {
                Some(v) => json_get(*self, wanted@) == Some(*v),
                None => json_get(*self, wanted@) is None,
            },
    {
        match self {
            JsonValue::Object(fields) => {
                let mut i: usize = fields.len();
                assert(fields@.take(i as int) =~= fields@);
                while i > 0
                    invariant
                        0 <= i <= fields@.len(),
                        json_get(*self, wanted@) == field_value(fields@, wanted@),
                        field_value(fields@, wanted@) == field_value(fields@.take(i as int), wanted@),
                    decreases i,
                {
                    let ghost prefix = fields@.take(i as int);
                    assert(prefix.drop_last() =~= fields@.take(i - 1));
                    if fields[i - 1].0 == *wanted {
                        assert(prefix.last() == fields@[i - 1]);
                        return Some(&fields[i - 1].1);
                    }
                    i = i - 1;
                }
                None
            },
            _ => None,
        }
    }

    /// The text of a string value.
    pub fn as_str(&self) -> (res: Option<&str>)
        ensures
            match res {
                Some(s) => json_str(*self) == Some(s@),
                None => json_str(*self) is None,
            },
    {
        match self {
            JsonValue::Str(s) => Some(s.as_str()),
            _ => None,
        }
    }
}

/// The string at a path such as `.head_commit.message` in a JSON value.
pub fn json_path_extract(json: &JsonValue, path: &str) -> (res: Option<String>)
    ensures
        match res {
            Some(s) => path_value(*json, path@) == Some(s@),
            None => path_value(*json, path@) is None,
        },
{
    let cs = chars_of(path);
    if cs.len() == 0 || cs[0] != '.' {
        return None;
    }
    let mut rest: &[char] = slice_subrange(cs.as_slice(), 1, cs.len());
    assert(rest@ =~= path@.drop_first());
    let mut current: &JsonValue = json;
    loop
        invariant
            path_value(*json, path@) == follow_keys(*current, rest@),
        decreases rest@.len(),
    {
        match find_char_in(rest, '.') {
            Some(i) => {
                proof {
                    lemma_find_char(rest@, '.');
                }
                let key = string_from_chars(slice_subrange(rest, 0, i));
                assert(key@ =~= rest@.take(i as int));
                match current.get_field(&key) {
                    Some(inner) => {
                        let next = slice_subrange(rest, i + 1, rest.len());
                        assert(next@ =~= rest@.skip(i + 1));
                        current = inner;
                        rest = next;
                    },
                    None => {
                        return None;
                    },
                }
            },
            None => {
                let key = string_from_chars(rest);
                return match current.get_field(&key) {
                    Some(inner) => match inner.as_str() {
                        Some(s) => Some(String::from_str(s)),
                        None => None,
                    },
                    None => None,
                };
            },
        }
    }
}

/// A notification field taken from the request: `path_key` names a JSON
/// path into the body and takes precedence; otherwise the `direct_key`
/// parameter; otherwise the body's string field `direct_key`.
pub fn extract_field(
    query: &QueryParams,
    body_json: Option<&JsonValue>,
    direct_key: &str,
    path_key: &str,
) -> (res: Option<String>)
    ensures
        match res {
            Some(s) => field_source(query.pairs(), opt_value(body_json), direct_key@, path_key@)
                == Some(s@),
            None => field_source(query.pairs(), opt_value(body_json), direct_key@, path_key@) is None,
        },
{
    if let Some(path) = query.get(path_key) {
        return match body_json {
            Some(json) => json_path_extract(json, path.as_str()),
            None => None,
        };
    }
    if let Some(val) = query.get(direct_key) {
        return Some(val);
    }
    match body_json {
        Some(json) => match json.get(direct_key) {
            Some(v) => match v.as_str() {
                Some(s) => Some(String::from_str(s)),
                None => None,
            },
            None => None,
        },
        None => None,
    }
}

/// A lower-case hexadecimal digit.
pub open spec fn lower_hex_digit(d: u32) -> char {
    if d == 0 { '0' } else if d == 1 { '1' } else if d == 2 { '2' } else if d == 3 { '3' }
    else if d == 4 { '4' } else if d == 5 { '5' } else if d == 6 { '6' } else if d == 7 { '7' }
    else if d == 8 { '8' } else if d == 9 { '9' } else if d == 10 { 'a' } else if d == 11 { 'b' }
    else if d == 12 { 'c' } else if d == 13 { 'd' } else if d == 14 { 'e' } else { 'f' }
}

/// How serde_json writes one character inside a string literal: `"` and
/// `\` behind a backslash, the controls with a short escape as `\b \t \n
/// \f \r`, the other controls below 0x20 as `\u00xx` in lower-case hex,
/// every other character as it is.
pub open spec fn json_escape_char(c: char) -> Seq<char> {
    if c == '"' {
        seq!['\\', '"']
    } else if c == '\\' {
        seq!['\\', '\\']
    } else if c == '\u{8}' {
        seq!['\\', 'b']
    } else if c == '\t' {
        seq!['\\', 't']
    } else if c == '\n' {
        seq!['\\', 'n']
    } else if c == '\u{c}' {
        seq!['\\', 'f']
    } else if c == '\r' {
        seq!['\\', 'r']
    } else if (c as u32) < 0x20 {
        seq!['\\', 'u', '0', '0', lower_hex_digit((c as u32) / 16), lower_hex_digit((c as u32) % 16)]
    } else {
        seq![c]
    }
}

pub open spec fn json_escaped(text: Seq<char>) -> Seq<char>
    decreases text.len(),
{
    if text.len() == 0 {
        Seq::empty()
    } else {
        json_escape_char(text[0]) + json_escaped(text.drop_first())
    }
}

/// The JSON string literal that serde_json writes for a text: the escaped
/// text between double quotes.
pub open spec fn json_string_literal(text: Seq<char>) -> Seq<char> {
    seq!['"'] + json_escaped(text) + seq!['"']
}

/// `serde_json::to_string` on a string slice: the quoted, escaped JSON
/// literal, as serde_json's string serializer writes it. For a string it
/// always succeeds: serialising a `str` into a `Vec` has no failing step.
#[verifier::external_body]
pub(crate) fn json_quote(text: &str) -> (res: String)
    ensures
        res@ == json_string_literal(text@),
{
    serde_json::to_string(text).unwrap_or_default()
}

/// The JSON reply `{"status":<status>,"message":<message>}`, both texts
/// written as JSON string literals.
pub open spec fn response_text(status: Seq<char>, message: Seq<char>) -> Seq<char> {
    "{\"status\":"@ + json_string_literal(status) + ",\"message\":"@ + json_string_literal(message) + "}"@
}

pub fn json_response(status: &str, message: &str) -> (res: String)
    ensures
        res@ == response_text(status@, message@),
{
    let mut out = String::from_str("{\"status\":");
    let status_json = json_quote(status);
    out.append(status_json.as_str());
    out.append(",\"message\":");
    let message_json = json_quote(message);
    out.append(message_json.as_str());
    out.append("}");
    out
}

/// `serde_json::Value`, held opaque.
#[verifier::external_type_specification]
#[verifier::external_body]
pub struct ExSerdeJsonValue(serde_json::Value);

/// What parsing a text as JSON gives: nothing when it is not JSON.
pub uninterp spec fn json_parse(text: Seq<char>) -> Option<JsonValue>;

/// The library's view of a value that serde_json parsed: one variant for
/// each of serde_json's, numbers without their value, objects in
/// serde_json's own field order.
#[verifier::external_body]
fn json_from_serde(v: &serde_json::Value) -> JsonValue {
    match v {
        serde_json::Value::Null => JsonValue::Null,
        serde_json::Value::Bool(b) => JsonValue::Bool(*b),
        serde_json::Value::Number(_) => JsonValue::Number,
        serde_json::Value::String(s) => JsonValue::Str(s.clone()),
        serde_json::Value::Array(items) => JsonValue::Array(items.iter().map(json_from_serde).collect()),
        serde_json::Value::Object(fields) => JsonValue::Object(
            fields.iter().map(|(k, v)| (k.clone(), json_from_serde(v))).collect(),
        ),
    }
}

/// `serde_json::from_str::<serde_json::Value>`, a parse error giving
/// nothing; its result is named, as a function of the text alone.
#[verifier::external_body]
pub(crate) fn parse_json(text: &str) -> (res: Option<JsonValue>)
    ensures
        res == json_parse(text@),
{
    match serde_json::from_str::<serde_json::Value>(text) {
        Ok(v) => Some(json_from_serde(&v)),
        Err(_) => None,
    }
}

} // verus!
