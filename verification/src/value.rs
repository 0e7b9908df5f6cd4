//! The document values that filters read and produce.
//!
//! A value mirrors the jq data model of the filter engine: numbers keep the
//! text by which they are displayed, strings keep their bytes (text strings
//! are read as UTF-8, byte strings are not), and objects keep their entries
//! in insertion order with distinct keys.

use vstd::prelude::*;
use crate::numeric::number_syntax;

verus! {

/// How a number is represented by the filter engine.
#[derive(Debug, Clone, Copy, PartialEq, Eq, Structural)]
pub enum NumberKind {
    /// An integer of any size.
    Int,
    /// A binary floating-point number.
    Binary,
    /// A decimal number kept as written.
    Decimal,
}

/// A number, with the text by which it is displayed.
#[derive(Debug, Clone)]
pub struct Number {
    pub kind: NumberKind,
    pub text: String,
}

/// A JSON (or YAML) document value.
#[derive(Debug)]
pub enum Value {
    Null,
    Bool(bool),
    Num(Number),
    /// Byte string.
    BStr(Vec<u8>),
    /// Text string, read as UTF-8.
    TStr(Vec<u8>),
    Arr(Vec<Value>),
    Obj(Vec<(Value, Value)>),
}

/// Every decimal number in a value (at any depth) is written in number
/// syntax, as the engine expects when it computes with it.
pub open spec fn numbers_ok(v: Value) -> bool
    decreases v, 0int,
{
    match v {
        Value::Num(n) => n.kind is Decimal ==> number_syntax(n.text@),
        Value::Arr(items) => items_ok(items@, 0),
        Value::Obj(entries) => entries_ok(entries@, 0),
        _ => true,
    }
}

/// The items from position `i` on satisfy `numbers_ok`.
pub open spec fn items_ok(items: Seq<Value>, i: int) -> bool
    decreases items, items.len() - i,
{
    if i < 0 || i >= items.len() {
        true
    } else {
        numbers_ok(items[i]) && items_ok(items, i + 1)
    }
}

/// The keys and values of the entries from position `i` on satisfy
/// `numbers_ok`.
pub open spec fn entries_ok(es: Seq<(Value, Value)>, i: int) -> bool
    decreases es, es.len() - i,
{
    if i < 0 || i >= es.len() {
        true
    } else {
        numbers_ok(es[i].0) && numbers_ok(es[i].1) && entries_ok(es, i + 1)
    }
}

/// Every value of a list satisfies `numbers_ok`.
pub open spec fn all_ok(vs: Seq<Value>) -> bool {
    forall|i: int| 0 <= i < vs.len() ==> numbers_ok(#[trigger] vs[i])
}

/// The type name reported for a value in schema summaries.
pub open spec fn kind_spec(v: Value) -> Seq<char> {
    match v {
        Value::Null => "null"@,
        Value::Bool(_) => "boolean"@,
        Value::Num(_) => "number"@,
        Value::BStr(_) => "bytes"@,
        Value::TStr(_) => "string"@,
        Value::Arr(_) => "array"@,
        Value::Obj(_) => "object"@,
    }
}

/// The type name of a value: `null`, `boolean`, `number`, `bytes`,
/// `string`, `array` or `object`.
pub fn kind(value: &Value) -> (r: &'static str)
    ensures
        r@ == kind_spec(*value),
{
    match value {
        Value::Null => "null",
        Value::Bool(_) => "boolean",
        Value::Num(_) => "number",
        Value::BStr(_) => "bytes",
        Value::TStr(_) => "string",
        Value::Arr(_) => "array",
        Value::Obj(_) => "object",
    }
}

/// The bytes of a string value of either kind.
pub open spec fn string_bytes(v: Value) -> Option<Seq<u8>> {
    match v {
        Value::TStr(b) => Some(b@),
        Value::BStr(b) => Some(b@),
        _ => None,
    }
}

/// Index of the first entry whose key is a string with bytes `key`, at or
/// after `i`, or `entries.len()` when there is none.
pub open spec fn key_index_from(entries: Seq<(Value, Value)>, key: Seq<u8>, i: int) -> int
    decreases entries.len() - i,
{
    if i < 0 || i >= entries.len() {
        entries.len() as int
    } else if string_bytes(entries[i].0) == Some(key) {
        i
    } else {
        key_index_from(entries, key, i + 1)
    }
}

/// The value that an object holds under the string key with bytes `key`
/// (keys compare equal when their bytes do, whichever string kind they are).
pub open spec fn get_spec(entries: Seq<(Value, Value)>, key: Seq<u8>) -> Option<Value> {
    let i = key_index_from(entries, key, 0);
    if 0 <= i < entries.len() {
        Some(entries[i].1)
    } else {
        None
    }
}

/// Whether two byte sequences are equal.
pub fn bytes_eq(a: &[u8], b: &[u8]) -> (r: bool)
    ensures
        r == (a@ == b@),
{
    if a.len() != b.len() {
        return false;
    }
    let mut i: usize = 0;
    while i < a.len()
        invariant
            a.len() == b.len(),
            i <= a.len(),
            forall|k: int| 0 <= k < i ==> a@[k] == b@[k],
        decreases a.len() - i,
    {
        if a[i] != b[i] {
            return false;
        }
        i = i + 1;
    }
    assert(a@ =~= b@);
    true
}

/// The value of an object entry whose key is the string with bytes `key`.
pub fn object_get<'a>(entries: &'a Vec<(Value, Value)>, key: &[u8]) -> (r: Option<&'a Value>)
    ensures
        match r {
            Some(v) => get_spec(entries@, key@) == Some(*v),
            None => get_spec(entries@, key@) is None,
        },
{
    let mut i: usize = 0;
    while i < entries.len()
        invariant
            i <= entries.len(),
            key_index_from(entries@, key@, i as int) == key_index_from(entries@, key@, 0),
        decreases entries.len() - i,
    {
        let hit = match &entries[i].0 {
            Value::TStr(b) => bytes_eq(b.as_slice(), key),
            Value::BStr(b) => bytes_eq(b.as_slice(), key),
            _ => false,
        };
        if hit {
            return Some(&entries[i].1);
        }
        i = i + 1;
    }
    None
}

/// The type name of a value names its JSON type, and each type has its own
/// name: a value is `null`, a `boolean`, a `number`, `bytes`, a `string`, an
/// `array` or an `object` exactly when its type name says so.
pub proof fn law_kind_names_the_type(v: Value)
    ensures
        v is Null <==> kind_spec(v) == "null"@,
        v is Bool <==> kind_spec(v) == "boolean"@,
        v is Num <==> kind_spec(v) == "number"@,
        v is BStr <==> kind_spec(v) == "bytes"@,
        v is TStr <==> kind_spec(v) == "string"@,
        v is Arr <==> kind_spec(v) == "array"@,
        v is Obj <==> kind_spec(v) == "object"@,
{
    reveal_strlit("null");
    reveal_strlit("boolean");
    reveal_strlit("number");
    reveal_strlit("bytes");
    reveal_strlit("string");
    reveal_strlit("array");
    reveal_strlit("object");
    assert("null"@.len() == 4 && "boolean"@.len() == 7 && "bytes"@.len() == 5 && "array"@.len() == 5);
    assert("number"@.len() == 6 && "string"@.len() == 6 && "object"@.len() == 6);
    assert("number"@[0] == 'n' && "string"@[0] == 's' && "object"@[0] == 'o');
    assert("bytes"@[0] == 'b' && "array"@[0] == 'a');
}

} // verus!
