//! A plain JSON document model, and the parse through `serde_json`.
//!
//! `Json` mirrors `serde_json::Value` one for one. Numbers keep what the shell
//! reads of them (an integer value, or only the fact that they are floats); object
//! members keep the order in which `serde_json` iterates them.
use vstd::prelude::*;
use crate::text::hex_char;

verus! {

/// A JSON number as far as the shell reads it.
pub enum Num {
    /// A non-negative integer.
    PosInt(u64),
    /// A negative integer.
    NegInt(i64),
    /// A number that is not an integer (its value is never read).
    Float,
}

/// A JSON value.
pub enum Json {
    Null,
    Bool(bool),
    Number(Num),
    Str(String),
    Array(Vec<Json>),
    Object(Vec<(String, Json)>),
}

#[verifier::external_type_specification]
#[verifier::external_body]
pub struct ExJsonValue(serde_json::Value);

/// The name for what `serde_json::from_str::<serde_json::Value>` parses a text into
/// (`None` when it reports an error).
pub uninterp spec fn spec_json_from_str(text: Seq<char>) -> Option<Json>;

/// The name for what `serde_json::from_slice::<serde_json::Value>` parses bytes into
/// (`None` when it reports an error).
pub uninterp spec fn spec_json_from_slice(bytes: Seq<u8>) -> Option<Json>;

/// One-for-one conversion of a parsed `serde_json::Value` into [`Json`]:
/// each variant maps to the variant of the same name, numbers through
/// `as_u64` / `as_i64`, arrays and objects element by element in iteration order.
#[verifier::external_body]
fn json_of(v: &serde_json::Value) -> Json {
    match v {
        serde_json::Value::Null => Json::Null,
        serde_json::Value::Bool(b) => Json::Bool(*b),
        serde_json::Value::Number(n) => Json::Number(match (n.as_u64(), n.as_i64()) {
            (Some(u), _) => Num::PosInt(u),
            (None, Some(i)) => Num::NegInt(i),
            _ => Num::Float,
        }),
        serde_json::Value::String(s) => Json::Str(s.clone()),
        serde_json::Value::Array(a) => Json::Array(a.iter().map(json_of).collect()),
        serde_json::Value::Object(m) => {
            Json::Object(m.iter().map(|(k, x)| (k.clone(), json_of(x))).collect())
        },
    }
}

/// `serde_json::from_str::<serde_json::Value>`; the parsed document is named by
/// [`spec_json_from_str`], `None` standing for a parse error.
#[verifier::external_body]
pub(crate) fn json_from_str(text: &str) -> (r: Option<Json>)
    ensures
        r == spec_json_from_str(text@),
{
    match serde_json::from_str::<serde_json::Value>(text) {
        Ok(v) => Some(json_of(&v)),
        Err(_) => None,
    }
}

/// `serde_json::from_slice::<serde_json::Value>`; the parsed document is named by
/// [`spec_json_from_slice`], `None` standing for a parse error.
#[verifier::external_body]
pub(crate) fn json_from_slice(bytes: &[u8]) -> (r: Option<Json>)
    ensures
        r == spec_json_from_slice(bytes@),
{
    match serde_json::from_slice::<serde_json::Value>(bytes) {
        Ok(v) => Some(json_of(&v)),
        Err(_) => None,
    }
}

/// How `serde_json` writes one character inside a string literal: `"` and
/// `\` behind a backslash; backspace, tab, newline, form feed and carriage
/// return as `\b \t \n \f \r`; other characters below U+0020 as `\u00XX`
/// in lowercase hex; every other character as it is.
pub open spec fn json_escape(c: char) -> Seq<char> {
    let u = c as u32;
    if c == '"' {
        seq!['\\', '"']
    } else if c == '\\' {
        seq!['\\', '\\']
    } else if u == 0x08 {
        seq!['\\', 'b']
    } else if u == 0x09 {
        seq!['\\', 't']
    } else if u == 0x0a {
        seq!['\\', 'n']
    } else if u == 0x0c {
        seq!['\\', 'f']
    } else if u == 0x0d {
        seq!['\\', 'r']
    } else if u < 0x20 {
        seq!['\\', 'u', '0', '0', hex_char((u / 16) as nat), hex_char((u % 16) as nat)]
    } else {
        seq![c]
    }
}

/// The escaped characters of a text, in order.
pub open spec fn json_escaped(s: Seq<char>) -> Seq<char>
    decreases s.len(),
{
    if s.len() == 0 {
        Seq::empty()
    } else {
        json_escaped(s.drop_last()) + json_escape(s.last())
    }
}

/// A text as a JSON string literal, the way `serde_json` writes it: the
/// escaped characters between double quotes.
pub open spec fn json_quote(s: Seq<char>) -> Seq<char> {
    seq!['"'] + json_escaped(s) + seq!['"']
}

/// `serde_json::to_string` on a string slice: the quoted, escaped JSON string
/// literal (serializing a string into memory does not fail, so the default is
/// never taken).
#[verifier::external_body]
pub(crate) fn json_string(s: &str) -> (r: String)
    ensures
        r@ == json_quote(s@),
{
    serde_json::to_string(s).unwrap_or_default()
}

/// Index of the first member named `key`.
pub open spec fn member_index(m: Seq<(String, Json)>, key: Seq<char>) -> Option<int>
    decreases m.len(),
{
    if m.len() == 0 {
        None
    } else if m[0].0@ == key {
        Some(0)
    } else {
        match member_index(m.drop_first(), key) {
            Some(i) => Some(i + 1),
            None => None,
        }
    }
}

pub proof fn lemma_member_index(m: Seq<(String, Json)>, key: Seq<char>)
    ensures
        member_index(m, key) matches Some(i) ==> 0 <= i < m.len() && m[i].0@ == key && (forall|
            j: int,
        | 0 <= j < i ==> m[j].0@ != key),
        member_index(m, key) is None ==> forall|j: int| 0 <= j < m.len() ==> m[j].0@ != key,
    decreases m.len(),
{
    if m.len() > 0 && m[0].0@ != key {
        lemma_member_index(m.drop_first(), key);
        assert forall|j: int| 1 <= j < m.len() implies m[j] == m.drop_first()[j - 1] by {}
    }
}

/// `Value::get(key)`: the member named `key` of an object, `None` for other values.
pub open spec fn get(v: Json, key: Seq<char>) -> Option<Json> {
    match v {
        Json::Object(m) => match member_index(m@, key) {
            Some(i) => Some(m@[i].1),
            None => None,
        },
        _ => None,
    }
}

/// `Value::as_str`.
pub open spec fn as_str(v: Json) -> Option<Seq<char>> {
    match v {
        Json::Str(s) => Some(s@),
        _ => None,
    }
}

/// `Value::as_i64`.
pub open spec fn as_i64(v: Json) -> Option<i64> {
    match v {
        Json::Number(Num::PosInt(u)) => if u <= i64::MAX {
            Some(u as i64)
        } else {
            None
        },
        Json::Number(Num::NegInt(i)) => Some(i),
        _ => None,
    }
}

/// `Value::as_u64`.
pub open spec fn as_u64(v: Json) -> Option<u64> {
    match v {
        Json::Number(Num::PosInt(u)) => Some(u),
        _ => None,
    }
}

/// `Value::as_bool`.
pub open spec fn as_bool(v: Json) -> Option<bool> {
    match v {
        Json::Bool(b) => Some(b),
        _ => None,
    }
}

/// `Value::get(index)` with an integer index: the element of an array.
pub open spec fn at(v: Json, i: int) -> Option<Json> {
    match v {
        Json::Array(a) => if 0 <= i < a@.len() {
            Some(a@[i])
        } else {
            None
        },
        _ => None,
    }
}

impl Json {
    /// `Value::get(key)` for a string key.
    pub fn get_member(&self, key: &str) -> (r: Option<&Json>)
        ensures
            r matches Some(x) ==> get(*self, key@) == Some(*x),
            r is None ==> get(*self, key@) is None,
    {
        match self {
            Json::Object(m) => {
                let mut i: usize = 0;
                while i < m.len()
                    invariant
                        *self == Json::Object(*m),
                        i <= m.len(),
                        forall|j: int| 0 <= j < i ==> m@[j].0@ != key@,
                    decreases m.len() - i,
                {
                    if str_eq(m[i].0.as_str(), key) {
                        proof {
                            lemma_member_index(m@, key@);
                            assert(m@[i as int].0@ == key@);
                            let k = member_index(m@, key@)->0;
                            assert(member_index(m@, key@) is Some);
                            assert(k <= i as int);
                            if k < i as int {
                                assert(m@[k].0@ != key@);
                            }
                            assert(k == i as int);
                            assert(get(*self, key@) == Some(m@[i as int].1));
                        }
                        return Some(&m[i].1);
                    }
                    i = i + 1;
                }
                proof {
                    lemma_member_index(m@, key@);
                }
                None
            },
            _ => None,
        }
    }

    /// `Value::as_str`.
    pub fn as_text(&self) -> (r: Option<&String>)
        ensures
            r matches Some(s) ==> as_str(*self) == Some(s@),
            r is None ==> as_str(*self) is None,
    {
        match self {
            Json::Str(s) => Some(s),
            _ => None,
        }
    }

    /// `Value::as_i64`.
    pub fn as_int(&self) -> (r: Option<i64>)
        ensures
            r == as_i64(*self),
    {
        match self {
            Json::Number(Num::PosInt(u)) => if *u <= 9223372036854775807u64 {
                Some(*u as i64)
            } else {
                None
            },
            Json::Number(Num::NegInt(i)) => Some(*i),
            _ => None,
        }
    }

    /// `Value::as_u64`.
    pub fn as_uint(&self) -> (r: Option<u64>)
        ensures
            r == as_u64(*self),
    {
        match self {
            Json::Number(Num::PosInt(u)) => Some(*u),
            _ => None,
        }
    }

    /// `Value::as_bool`.
    pub fn as_boolean(&self) -> (r: Option<bool>)
        ensures
            r == as_bool(*self),
    {
        match self {
            Json::Bool(b) => Some(*b),
            _ => None,
        }
    }

    /// `Value::get(index)` for an integer index.
    pub fn element(&self, i: usize) -> (r: Option<&Json>)
        ensures
            r matches Some(x) ==> at(*self, i as int) == Some(*x),
            r is None ==> at(*self, i as int) is None,
    {
        match self {
            Json::Array(a) => if i < a.len() {
                Some(&a[i])
            } else {
                None
            },
            _ => None,
        }
    }
}

/// Equality of two string slices.
pub fn str_eq(a: &str, b: &str) -> (r: bool)
    ensures
        r == (a@ == b@),
{
    let av = crate::text::chars_of(a);
    let bv = crate::text::chars_of(b);
    crate::text::chars_eq(&av, &bv)
}

impl Default for Json {
    fn default() -> (r: Json)
        ensures
            r == Json::Null,
    {
        Json::Null
    }
}

} // verus!
