//! JSON values as the job parsers hold them.
//!
//! Numbers keep the three forms that `serde_json` distinguishes; a floating
//! point number is held as the shortest text that denotes it.

use vstd::prelude::*;
use std::collections::BTreeMap;
use crate::text::{all_digits, chars_of, digits_value, is_digit, parse_u64_chars};

verus! {

/// A JSON number: non-negative integer, negative integer, or floating point.
#[derive(Debug, Clone, PartialEq)]
pub enum JsonNumber {
    PosInt(u64),
    NegInt(i64),
    /// A finite floating-point number, as the shortest decimal text that
    /// denotes it.
    Float(String),
}

/// A JSON value.
#[derive(Debug, PartialEq)]
pub enum JsonValue {
    Null,
    Bool(bool),
    Number(JsonNumber),
    String(String),
    Array(Vec<JsonValue>),
    /// Members in the order the parsed document's map keeps them (by key).
    Object(Vec<(String, JsonValue)>),
}

/// The number that `serde_json::Number::from(n)` makes of an `i64`.
pub open spec fn int_number(n: i64) -> JsonNumber {
    if n < 0 {
        JsonNumber::NegInt(n)
    } else {
        JsonNumber::PosInt(n as u64)
    }
}

/// `serde_json::Number::from(n)`, for an `i64`.
pub fn number_from_i64(n: i64) -> (r: JsonNumber)
    ensures
        r == int_number(n),
{
    if n < 0 {
        JsonNumber::NegInt(n)
    } else {
        JsonNumber::PosInt(n as u64)
    }
}

/// The value `serde_json::from_str::<serde_json::Value>` reads from the text
/// `s`, or `None` when `s` is not one JSON document.
pub uninterp spec fn json_document(s: Seq<char>) -> Option<JsonValue>;

/// What `serde_json::from_str` into a map of string keys reads from `s`: the
/// members in key order, or the text of the error it reports.
pub uninterp spec fn json_object_members(s: Seq<char>) -> Result<Seq<(String, JsonValue)>, Seq<char>>;

/// The shortest decimal text of the `f64` that `s` denotes when `str::parse`
/// reads one and it is finite (`serde_json::Number::from_f64` accepts it).
pub uninterp spec fn finite_float_text(s: Seq<char>) -> Option<Seq<char>>;

/// The value `i64::from_str` reads: an optional `+` or `-` sign followed by
/// one or more ASCII digits, within the range of `i64`.
pub open spec fn i64_text_value(s: Seq<char>) -> Option<int> {
    if s.len() > 0 && s[0] == '-' {
        let d = s.drop_first();
        if d.len() > 0 && all_digits(d) && digits_value(d) <= 0x8000_0000_0000_0000 {
            Some(-(digits_value(d) as int))
        } else {
            None
        }
    } else {
        let d = if s.len() > 0 && s[0] == '+' {
            s.drop_first()
        } else {
            s
        };
        if d.len() > 0 && all_digits(d) && digits_value(d) <= i64::MAX {
            Some(digits_value(d) as int)
        } else {
            None
        }
    }
}

/// `serde_json::Value`, which the JSON reader produces before conversion.
#[verifier::external_type_specification]
#[verifier::external_body]
pub struct ExSerdeJsonValue(serde_json::Value);

/// Converts a `serde_json::Value` into a `JsonValue`, variant for variant:
/// arrays and objects member by member, and a number by the form it holds
/// (an integer that fits a `u64`, else one that fits an `i64`, else a
/// float, kept as its shortest text). The JSON wrappers below use it.
#[verifier::external_body]
fn from_serde(v: serde_json::Value) -> JsonValue {
    match v {
        serde_json::Value::Null => JsonValue::Null,
        serde_json::Value::Bool(b) => JsonValue::Bool(b),
        serde_json::Value::Number(n) => JsonValue::Number(match (n.as_u64(), n.as_i64()) {
            (Some(u), _) => JsonNumber::PosInt(u),
            (None, Some(i)) => JsonNumber::NegInt(i),
            (None, None) => JsonNumber::Float(n.to_string()),
        }),
        serde_json::Value::String(s) => JsonValue::String(s),
        serde_json::Value::Array(a) => JsonValue::Array(a.into_iter().map(from_serde).collect()),
        serde_json::Value::Object(m) => JsonValue::Object(m.into_iter().map(|(k, v)| (k, from_serde(v))).collect()),
    }
}

/// `serde_json::from_str::<serde_json::Value>`: the JSON document `s` holds.
#[verifier::external_body]
pub(crate) fn parse_json(s: &str) -> (r: Option<JsonValue>)
    ensures
        r == json_document(s@),
{
    serde_json::from_str::<serde_json::Value>(s).ok().map(from_serde)
}

/// `serde_json::from_str` into a map from strings to values: the members in
/// key order, or the error's message (`Display` of `serde_json::Error`).
#[verifier::external_body]
pub(crate) fn parse_json_object(s: &str) -> (r: Result<Vec<(String, JsonValue)>, String>)
    ensures
        match r {
            Ok(members) => json_object_members(s@) == Ok::<Seq<(String, JsonValue)>, Seq<char>>(
                members@,
            ),
            Err(message) => json_object_members(s@) == Err::<Seq<(String, JsonValue)>, Seq<char>>(
                message@,
            ),
        },
{
    match serde_json::from_str::<BTreeMap<String, serde_json::Value>>(s) {
        Ok(m) => Ok(m.into_iter().map(|(k, v)| (k, from_serde(v))).collect()),
        Err(e) => Err(e.to_string()),
    }
}

/// `str::parse` of a floating-point number, kept when finite
/// (`serde_json::Number::from_f64`), as its shortest decimal text.
#[verifier::external_body]
pub(crate) fn parse_finite_float(s: &str) -> (r: Option<String>)
    ensures
        match r {
            Some(t) => finite_float_text(s@) == Some(t@),
            None => finite_float_text(s@) is None,
        },
{
    s.parse().ok().and_then(serde_json::Number::from_f64).map(|n| n.to_string())
}

/// Whether every character of `s` is an ASCII digit.
fn all_ascii_digits(s: &[char]) -> (r: bool)
    ensures
        r == all_digits(s@),
{
    let mut k: usize = 0;
    while k < s.len()
        invariant
            k <= s@.len(),
            forall|m: int| 0 <= m < k ==> is_digit(#[trigger] s@[m]),
        decreases s@.len() - k,
    {
        if !('0' <= s[k] && s[k] <= '9') {
            assert(!is_digit(s@[k as int]));
            return false;
        }
        k = k + 1;
    }
    true
}

/// `i64::from_str`: an optional sign followed by one or more ASCII digits,
/// within the range of `i64`.
pub fn parse_i64(s: &str) -> (r: Option<i64>)
    ensures
        match i64_text_value(s@) {
            Some(v) => r == Some(v as i64),
            None => r is None,
        },
{
    let cs = chars_of(s);
    if cs.len() == 0 {
        return None;
    }
    let negative = cs[0] == '-';
    let start: usize = if negative || cs[0] == '+' { 1 } else { 0 };
    let digits = &cs.as_slice()[start..cs.len()];
    let ghost d = digits@;
    proof {
        if negative {
            assert(d =~= s@.drop_first());
        } else if cs@[0] == '+' {
            assert(d =~= s@.drop_first());
        } else {
            assert(d =~= s@);
        }
    }
    if digits.len() == 0 {
        return None;
    }
    if !all_ascii_digits(digits) {
        return None;
    }
    let magnitude = match parse_u64_chars(digits) {
        Some(m) => m,
        None => {
            return None;
        },
    };
    if negative {
        if magnitude > 0x8000_0000_0000_0000 {
            None
        } else if magnitude == 0x8000_0000_0000_0000 {
            Some(i64::MIN)
        } else {
            Some(-(magnitude as i64))
        }
    } else if magnitude > 0x7fff_ffff_ffff_ffff {
        None
    } else {
        Some(magnitude as i64)
    }
}

} // verus!
