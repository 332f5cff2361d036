//! Parsed JSON and TOML documents as plain trees, and lookups in them.
use vstd::prelude::*;
use crate::text::{chars_of, eq_str};

verus! {

/// A parsed JSON or TOML value. Numbers and TOML datetimes keep their text;
/// an object (a JSON object or a TOML table) keeps its members in the order
/// the parser lists them.
#[derive(Debug)]
pub enum DocValue {
    Null,
    Bool(bool),
    Number(String),
    Str(String),
    Datetime(String),
    Array(Vec<DocValue>),
    Object(Vec<(String, DocValue)>),
}

#[verifier::external_type_specification]
#[verifier::external_body]
pub struct ExJsonValue(serde_json::Value);

#[verifier::external_type_specification]
#[verifier::external_body]
pub struct ExTomlValue(toml::Value);

/// The tree that `serde_json::from_str` reads from a text, or `None` where
/// the text is not JSON.
pub uninterp spec fn json_document(text: Seq<char>) -> Option<DocValue>;

/// The tree that `toml::from_str` reads from a text, or `None` where the text
/// is not a TOML document.
pub uninterp spec fn toml_document(text: Seq<char>) -> Option<DocValue>;

/// Calls `serde_json::from_str::<serde_json::Value>` on `text` and moves the
/// value into a [`DocValue`]. Claimed: the result is `Ok` exactly when the
/// parser accepts the text, and then it is the tree named [`json_document`];
/// the error text is the parser's message, of which nothing is claimed.
#[verifier::external_body]
pub(crate) fn parse_json_document(text: &str) -> (r: Result<DocValue, String>)
    ensures
        json_document(text@) == match r {
            Ok(v) => Some(v),
            Err(_) => None::<DocValue>,
        },
{
    match serde_json::from_str::<serde_json::Value>(text) {
        Ok(v) => Ok(json_to_doc(v)),
        Err(e) => Err(e.to_string()),
    }
}

/// Moves a `serde_json::Value` into the [`DocValue`] variant of the same
/// shape, member by member; used by [`parse_json_document`] only.
#[verifier::external_body]
fn json_to_doc(v: serde_json::Value) -> DocValue {
    match v {
        serde_json::Value::Null => DocValue::Null,
        serde_json::Value::Bool(b) => DocValue::Bool(b),
        serde_json::Value::Number(n) => DocValue::Number(n.to_string()),
        serde_json::Value::String(s) => DocValue::Str(s),
        serde_json::Value::Array(a) => DocValue::Array(a.into_iter().map(json_to_doc).collect()),
        serde_json::Value::Object(o) => DocValue::Object(
            o.into_iter().map(|(k, x)| (k, json_to_doc(x))).collect(),
        ),
    }
}

/// Calls `toml::from_str::<toml::Value>` on `text` and moves the value into
/// a [`DocValue`]. Claimed: the result is `Ok` exactly when the parser accepts
/// the text, and then it is the tree named [`toml_document`]; the error text
/// is the parser's message, of which nothing is claimed.
#[verifier::external_body]
pub(crate) fn parse_toml_document(text: &str) -> (r: Result<DocValue, String>)
    ensures
        toml_document(text@) == match r {
            Ok(v) => Some(v),
            Err(_) => None::<DocValue>,
        },
{
    match toml::from_str::<toml::Value>(text) {
        Ok(v) => Ok(toml_to_doc(v)),
        Err(e) => Err(e.to_string()),
    }
}

/// Moves a `toml::Value` into the [`DocValue`] variant of the same shape
/// (integers and floats by their text, datetimes by their text), member by
/// member; used by [`parse_toml_document`] only.
#[verifier::external_body]
fn toml_to_doc(v: toml::Value) -> DocValue {
    match v {
        toml::Value::String(s) => DocValue::Str(s),
        toml::Value::Integer(i) => DocValue::Number(i.to_string()),
        toml::Value::Float(f) => DocValue::Number(f.to_string()),
        toml::Value::Boolean(b) => DocValue::Bool(b),
        toml::Value::Datetime(d) => DocValue::Datetime(d.to_string()),
        toml::Value::Array(a) => DocValue::Array(a.into_iter().map(toml_to_doc).collect()),
        toml::Value::Table(t) => DocValue::Object(
            t.into_iter().map(|(k, x)| (k, toml_to_doc(x))).collect(),
        ),
    }
}

// ───────────────────────── model ─────────────────────────

/// The value of the first member of `s` named `key`.
pub open spec fn member(s: Seq<(String, DocValue)>, key: Seq<char>) -> Option<DocValue>
    decreases s.len(),
{
    if s.len() == 0 {
        None
    } else {
        match member(s.drop_last(), key) {
            Some(v) => Some(v),
            None => if s.last().0@ == key {
                Some(s.last().1)
            } else {
                None
            },
        }
    }
}

/// The member `key` of an object; `None` for other values.
pub open spec fn field(v: DocValue, key: Seq<char>) -> Option<DocValue> {
    match v {
        DocValue::Object(m) => member(m@, key),
        _ => None,
    }
}

/// The text of a string value.
pub open spec fn str_of(v: Option<DocValue>) -> Option<Seq<char>> {
    match v {
        Some(DocValue::Str(s)) => Some(s@),
        _ => None,
    }
}

/// The members of an object value.
pub open spec fn members_of(v: Option<DocValue>) -> Option<Seq<(String, DocValue)>> {
    match v {
        Some(DocValue::Object(m)) => Some(m@),
        _ => None,
    }
}

/// The text of a string member of an object.
pub open spec fn str_field(v: DocValue, key: Seq<char>) -> Option<Seq<char>> {
    str_of(field(v, key))
}

/// The text of an optional string, by view.
pub open spec fn opt_view(o: Option<String>) -> Option<Seq<char>> {
    match o {
        Some(s) => Some(s@),
        None => None,
    }
}

/// The text, or the empty text.
pub open spec fn or_empty(o: Option<Seq<char>>) -> Seq<char> {
    match o {
        Some(s) => s,
        None => Seq::empty(),
    }
}

/// A prefix that already names `key` decides the lookup.
pub proof fn lemma_member_prefix(s: Seq<(String, DocValue)>, n: int, key: Seq<char>)
    requires
        0 <= n <= s.len(),
        member(s.take(n), key) is Some,
    ensures
        member(s, key) == member(s.take(n), key),
    decreases s.len() - n,
{
    if n == s.len() {
        assert(s.take(n) =~= s);
    } else {
        assert(s.drop_last().take(n) =~= s.take(n));
        lemma_member_prefix(s.drop_last(), n, key);
    }
}

// ───────────────────────── code ─────────────────────────

/// The member `key` of `v` (the first so named), where `v` is an object.
pub fn get_field<'a>(v: &'a DocValue, key: &str) -> (r: Option<&'a DocValue>)
    ensures
        match r {
            Some(x) => field(*v, key@) == Some(*x),
            None => field(*v, key@) is None,
        },
{
    match v {
        DocValue::Object(m) => {
            assert(field(*v, key@) == member(m@, key@));
            let kc = chars_of(key);
            let mut i: usize = 0;
            while i < m.len()
                invariant
                    i <= m@.len(),
                    kc@ == key@,
                    field(*v, key@) == member(m@, key@),
                    member(m@.take(i as int), key@) is None,
                decreases m@.len() - i,
            {
                assert(m@.take(i + 1).drop_last() =~= m@.take(i as int));
                assert(m@.take(i + 1).last() == m@[i as int]);
                if eq_str(&kc, m[i].0.as_str()) {
                    proof {
                        lemma_member_prefix(m@, i + 1, key@);
                    }
                    assert(member(m@, key@) == Some(m@[i as int].1));
                    return Some(&m[i].1);
                }
                i = i + 1;
            }
            assert(m@.take(m@.len() as int) =~= m@);
            None
        },
        _ => None,
    }
}

/// The text of `v` where it is a string.
pub fn as_text(v: Option<&DocValue>) -> (r: Option<&String>)
    ensures
        opt_view(match r {
            Some(s) => Some(*s),
            None => None,
        }) == str_of(match v {
            Some(x) => Some(*x),
            None => None,
        }),
{
    match v {
        Some(DocValue::Str(s)) => Some(s),
        _ => None,
    }
}

/// The text of the string member `key` of `v`.
pub fn text_field(v: &DocValue, key: &str) -> (r: Option<String>)
    ensures
        opt_view(r) == str_field(*v, key@),
{
    match get_field(v, key) {
        Some(DocValue::Str(s)) => Some(s.clone()),
        _ => None,
    }
}

/// The members of the object member `key` of `v`.
pub fn object_field<'a>(v: &'a DocValue, key: &str) -> (r: Option<&'a Vec<(String, DocValue)>>)
    ensures
        match r {
            Some(m) => members_of(field(*v, key@)) == Some(m@),
            None => members_of(field(*v, key@)) is None,
        },
{
    match get_field(v, key) {
        Some(DocValue::Object(m)) => Some(m),
        _ => None,
    }
}

} // verus!
