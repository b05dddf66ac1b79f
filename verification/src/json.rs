//! Reading the JSON messages exchanged with the editor.
//!
//! The `json` crate parses a line into a document; the library looks at one level of it at a
//! time: a scalar in full, and the members of an array or an object as their own JSON texts,
//! which are read again when the logic descends into them.

use vstd::prelude::*;
use vstd::string::StringExecFns;
use crate::text::{str_eq, texts};
use json::JsonValue;

verus! {

/// One level of a JSON document.
pub enum Json {
    Null,
    Bool(bool),
    /// A number as `Number::as_parts` of the `json` crate gives it: whether it is positive,
    /// its mantissa and its decimal exponent.
    Number { parts: (bool, u64, i16) },
    Str(String),
    /// The JSON texts of the items, in order.
    Array(Vec<String>),
    /// The keys and the JSON texts of the values, in order.
    Object(Vec<(String, String)>),
}

/// The mathematical model of [`Json`].
pub enum JsonView {
    Null,
    Bool(bool),
    Number { parts: (bool, u64, i16) },
    Str(Seq<char>),
    Array(Seq<Seq<char>>),
    Object(Seq<(Seq<char>, Seq<char>)>),
}

impl View for Json {
    type V = JsonView;

    open spec fn view(&self) -> JsonView {
        match *self {
            Json::Null => JsonView::Null,
            Json::Bool(b) => JsonView::Bool(b),
            Json::Number { parts } => JsonView::Number { parts },
            Json::Str(s) => JsonView::Str(s@),
            Json::Array(items) => JsonView::Array(items@.map_values(|s: String| s@)),
            Json::Object(entries) => JsonView::Object(
                entries@.map_values(|e: (String, String)| (e.0@, e.1@)),
            ),
        }
    }
}

/// The model of a parsed line: its top level, and the JSON text of the whole document.
pub open spec fn parsed_view(p: Option<(Json, String)>) -> Option<(JsonView, Seq<char>)> {
    match p {
        Some((node, text)) => Some((node@, text@)),
        None => None,
    }
}

/// What `json::parse` reads from `line` (`None` when it is not valid JSON), as the top level
/// of the document and the text that `JsonValue::dump` writes of it.
pub uninterp spec fn json_of_line(line: Seq<char>) -> Option<(JsonView, Seq<char>)>;

/// Calls `json::parse` on `line` and converts the document one level deep: a scalar as it is,
/// each member of an array or an object as the text `JsonValue::dump` writes of it, and the
/// whole document as its own dump text. Claimed: the result is `json_of_line(line@)`, so the
/// same line always reads the same way. What the parser accepts, and that a member's text
/// reads back as that member, are not stated.
#[verifier::external_body]
pub(crate) fn parse_line(line: &str) -> (r: Option<(Json, String)>)
    ensures
        parsed_view(r) == json_of_line(line@),
{
    let value = json::parse(line).ok()?;
    let node = match &value {
        JsonValue::Null => Json::Null,
        JsonValue::Short(s) => Json::Str(s.as_str().to_owned()),
        JsonValue::String(s) => Json::Str(s.clone()),
        JsonValue::Number(n) => Json::Number { parts: n.as_parts() },
        JsonValue::Boolean(b) => Json::Bool(*b),
        JsonValue::Object(o) => Json::Object(o.iter().map(|(k, v)| (k.to_owned(), v.dump())).collect()),
        JsonValue::Array(a) => Json::Array(a.iter().map(|v| v.dump()).collect()),
    };
    Some((node, value.dump()))
}

/// The position of the first occurrence of `key` in `keys`.
pub open spec fn first_index(keys: Seq<Seq<char>>, key: Seq<char>) -> Option<nat>
    decreases keys.len(),
{
    if keys.len() == 0 {
        None
    } else if keys[0] == key {
        Some(0)
    } else {
        match first_index(keys.drop_first(), key) {
            Some(i) => Some(i + 1),
            None => None,
        }
    }
}

/// `first_index` is the least position that holds `key`, and `None` when none does.
pub proof fn lemma_first_index(keys: Seq<Seq<char>>, key: Seq<char>, i: int)
    requires
        0 <= i <= keys.len(),
        forall|k: int| 0 <= k < i ==> keys[k] != key,
    ensures
        i < keys.len() && keys[i] == key ==> first_index(keys, key) == Some(i as nat),
        i == keys.len() ==> first_index(keys, key) is None,
    decreases i,
{
    if i > 0 {
        let rest = keys.drop_first();
        assert forall|k: int| 0 <= k < i - 1 implies rest[k] != key by {
            assert(rest[k] == keys[k + 1]);
        }
        lemma_first_index(rest, key, i - 1);
    }
}

/// The keys of the entries of an object.
pub open spec fn keys_of(entries: Seq<(Seq<char>, Seq<char>)>) -> Seq<Seq<char>> {
    entries.map_values(|e: (Seq<char>, Seq<char>)| e.0)
}

/// The text of the member `key` of `node`: the value of its first entry named `key` when
/// `node` is an object, and `None` when there is no such entry.
pub open spec fn member(node: JsonView, key: Seq<char>) -> Option<Seq<char>> {
    match node {
        JsonView::Object(entries) => match first_index(keys_of(entries), key) {
            Some(i) => Some(entries[i as int].1),
            None => None,
        },
        _ => None,
    }
}

/// The text of `node[key]`, which is `null` where there is no such member.
pub open spec fn member_or_null(node: JsonView, key: Seq<char>) -> Seq<char> {
    match member(node, key) {
        Some(t) => t,
        None => "null"@,
    }
}

/// The top level of the document written by `text`.
pub open spec fn node_of(text: Seq<char>) -> Option<JsonView> {
    match json_of_line(text) {
        Some((node, _)) => Some(node),
        None => None,
    }
}

/// The string that `text` writes, if it writes one.
pub open spec fn str_of(text: Seq<char>) -> Option<Seq<char>> {
    match node_of(text) {
        Some(JsonView::Str(s)) => Some(s),
        _ => None,
    }
}

/// The number that `text` writes, if it is a non-negative integer written without an
/// exponent (what `JsonValue::as_u64` accepts).
pub open spec fn u64_of(text: Seq<char>) -> Option<u64> {
    match node_of(text) {
        Some(JsonView::Number { parts: (positive, mantissa, exponent) }) => if positive && exponent == 0 {
            Some(mantissa)
        } else {
            None
        },
        _ => None,
    }
}

/// The text of `value[key]`, where `value` is the document written by `text`.
pub open spec fn text_member(text: Seq<char>, key: Seq<char>) -> Seq<char> {
    match node_of(text) {
        Some(node) => member_or_null(node, key),
        None => "null"@,
    }
}

/// The text of `value[path[0]][path[1]]...`, where `value` is the document written by `text`.
pub open spec fn value_at(text: Seq<char>, path: Seq<Seq<char>>) -> Seq<char>
    decreases path.len(),
{
    if path.len() == 0 {
        text
    } else {
        value_at(text_member(text, path[0]), path.drop_first())
    }
}

/// The model of an optional string.
pub open spec fn opt_text(s: Option<String>) -> Option<Seq<char>> {
    match s {
        Some(t) => Some(t@),
        None => None,
    }
}

/// The text of `node[key]`.
pub fn member_text(node: &Json, key: &str) -> (t: String)
    ensures
        t@ == member_or_null(node@, key@),
{
    match node {
        Json::Object(entries) => {
            let ghost model = entries@.map_values(|e: (String, String)| (e.0@, e.1@));
            let ghost ks = keys_of(model);
            assert(node@ == JsonView::Object(model));
            let mut i: usize = 0;
            while i < entries.len()
                invariant
                    model == entries@.map_values(|e: (String, String)| (e.0@, e.1@)),
                    node@ == JsonView::Object(model),
                    ks == keys_of(model),
                    i <= entries@.len(),
                    forall|k: int| 0 <= k < i ==> ks[k] != key@,
                decreases entries@.len() - i,
            {
                assert(ks[i as int] == entries@[i as int].0@);
                if str_eq(entries[i].0.as_str(), key) {
                    proof {
                        lemma_first_index(ks, key@, i as int);
                    }
                    let found = entries[i].1.clone();
                    assert(found@ == model[i as int].1);
                    return found;
                }
                i += 1;
            }
            proof {
                lemma_first_index(ks, key@, i as int);
            }
            assert(node@ == JsonView::Object(model));
            "null".to_string()
        },
        _ => "null".to_string(),
    }
}

/// Whether `text` writes `null`.
pub fn text_is_null(text: &str) -> (r: bool)
    ensures
        r == (node_of(text@) == Some(JsonView::Null)),
{
    match parse_line(text) {
        Some((Json::Null, _)) => true,
        _ => false,
    }
}

/// The string that `text` writes, if it writes one (`JsonValue::as_str` of the parsed text).
pub fn text_str(text: &str) -> (r: Option<String>)
    ensures
        opt_text(r) == str_of(text@),
{
    match parse_line(text) {
        Some((Json::Str(s), _)) => Some(s),
        _ => None,
    }
}

/// The non-negative integer that `text` writes, if any (`JsonValue::as_u64` of the parsed
/// text).
pub fn text_u64(text: &str) -> (r: Option<u64>)
    ensures
        r == u64_of(text@),
{
    match parse_line(text) {
        Some((Json::Number { parts: (positive, mantissa, exponent) }, _)) => if positive && exponent == 0 {
            Some(mantissa)
        } else {
            None
        },
        _ => None,
    }
}

/// The text of `value[key]`, where `value` is the document written by `text`.
pub fn field_text(text: &str, key: &str) -> (t: String)
    ensures
        t@ == text_member(text@, key@),
{
    match parse_line(text) {
        Some((node, _)) => member_text(&node, key),
        None => "null".to_string(),
    }
}

/// The string held in `value[key]`, where `value` is the document written by `text`.
pub fn field_str(text: &str, key: &str) -> (r: Option<String>)
    ensures
        opt_text(r) == str_of(text_member(text@, key@)),
{
    let t = field_text(text, key);
    text_str(t.as_str())
}

/// The text of the value found by following `path` from the document written by `text`.
pub fn value_at_path(text: &str, path: &Vec<String>) -> (t: String)
    ensures
        t@ == value_at(text@, texts(path@)),
{
    let ghost full = texts(path@);
    let mut current = text.to_string();
    assert(current@ == text@);
    assert(full.subrange(0, full.len() as int) =~= full);
    let mut i: usize = 0;
    while i < path.len()
        invariant
            i <= path@.len(),
            full == texts(path@),
            value_at(text@, full) == value_at(current@, full.subrange(i as int, full.len() as int)),
        decreases path@.len() - i,
    {
        let ghost rest = full.subrange(i as int, full.len() as int);
        assert(rest.drop_first() =~= full.subrange(i + 1, full.len() as int));
        assert(rest[0] == path@[i as int]@);
        current = field_text(current.as_str(), path[i].as_str());
        i += 1;
    }
    assert(full.subrange(i as int, full.len() as int).len() == 0);
    current
}

} // verus!
