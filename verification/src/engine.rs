//! The jq engine (`jaq`), the JSON and YAML readers and the JSON writer.
//!
//! Everything in this module is trusted: each wrapper makes one call into
//! an outside crate (or `std`) and converts between the library's `Value`
//! and the engine's own value type.  What a wrapper promises is stated in
//! its doc comment and contract.

use vstd::prelude::*;
use vstd::utf8::{decode_utf8, valid_utf8};
use crate::value::{numbers_ok, Number, NumberKind, Value};
use jaq_core::load::{Arena, File, Loader};
use jaq_core::{data, Ctx, Vars};
use jaq_json::{Num, Val};
use serde::Deserialize;

verus! {

/// The engine's value type, carried through opaquely.
#[verifier::external_type_specification]
#[verifier::external_body]
pub struct ExEngineVal(jaq_json::Val);

/// The engine's number type, carried through opaquely.
#[verifier::external_type_specification]
#[verifier::external_body]
pub struct ExEngineNum(jaq_json::Num);

/// An error raised while running a jq program.
#[verifier::external_type_specification]
#[verifier::external_body]
#[verifier::reject_recursive_types(V)]
pub struct ExEngineError<V>(jaq_core::Error<V>);

/// A jq program compiled by the engine.
///
/// Held opaquely: the engine's program type is built from a type whose
/// declaration carries a bound on one of the engine's traits, which Verus
/// does not accept in a type declaration.
#[verifier::external_body]
pub struct CompiledFilter {
    inner: jaq_core::Filter<data::JustLut<Val>>,
}

/// A compiled jq program and the text it was compiled from.  Only
/// `compile_program` makes one, so the two always belong together.
pub struct Program {
    filter: CompiledFilter,
    code: String,
}

impl Program {
    /// The text the program was compiled from.
    pub closed spec fn code(&self) -> Seq<char> {
        self.code@
    }
}

/// How running a jq program on one input stops short of giving all its
/// outputs: an error (rendered as text), or `halt` with its exit code.
#[derive(Debug)]
pub enum RunError {
    Error(String),
    Halt(i32),
}

/// A stop of a run, as the specification sees it.
pub enum Failure {
    Error(Seq<char>),
    Halt(i32),
}

pub open spec fn failure_view(e: RunError) -> Failure {
    match e {
        RunError::Error(m) => Failure::Error(m@),
        RunError::Halt(c) => Failure::Halt(c),
    }
}

/// Whether running the jq program `code` on `input` may end with `outcome`:
/// all its outputs in order, or the error or halt that stops it after
/// some.  A relation, not a function: a program may read the time or the
/// environment (`now`, `env`), so one program and one input may give
/// different outcomes on different runs.
pub uninterp spec fn filter_may_give(code: Seq<char>, input: Value, outcome: Result<Seq<Value>, Failure>) -> bool;

/// The outcome of a run as the specification sees it.
pub open spec fn outcome_view(r: Result<Vec<Value>, RunError>) -> Result<Seq<Value>, Failure> {
    match r {
        Ok(v) => Ok(v@),
        Err(e) => Err(failure_view(e)),
    }
}

/// Every document parsed is a value whose decimal numbers are written in
/// number syntax.
pub open spec fn docs_ok(docs: Seq<Result<Value, String>>) -> bool {
    forall|i: int| 0 <= i < docs.len() ==> (#[trigger] docs[i] matches Ok(v) ==> numbers_ok(v))
}

/// The view of a sequence of parsed documents.
pub open spec fn docs_view(docs: Seq<Result<Value, String>>) -> Seq<Result<Value, Seq<char>>> {
    docs.map_values(
        |d: Result<Value, String>|
            match d {
                Ok(v) => Ok(v),
                Err(e) => Err(e@),
            },
    )
}

/// The documents that `jaq_json::read::parse_many` reads from `bytes`, up to
/// and including the first parse error (rendered as text).
pub uninterp spec fn json_documents(bytes: Seq<u8>) -> Seq<Result<Value, Seq<char>>>;

/// The documents that `yaml_serde` reads from a text, each deserialized into
/// an engine value, up to and including the first that fails (its error
/// rendered as text).
pub uninterp spec fn yaml_documents(text: Seq<char>) -> Seq<Result<Value, Seq<char>>>;

/// The message of `std::str::from_utf8` for invalid UTF-8.
pub uninterp spec fn utf8_error_text(bytes: Seq<u8>) -> Seq<char>;

/// `String::from_utf8_lossy`: invalid sequences become U+FFFD.
pub uninterp spec fn lossy_text(bytes: Seq<u8>) -> Seq<char>;

/// The error that loading and compiling a jq program reports, if any.
pub uninterp spec fn program_error(code: Seq<char>) -> Option<Seq<char>>;

/// The compact (or, with `pretty`, two-space indented) JSON text that
/// `jaq_json::write::write` produces for a value, or the error when that
/// text is not valid UTF-8.
pub uninterp spec fn json_text(v: Value, pretty: bool) -> Result<Seq<char>, Seq<char>>;

/// The engine number that a library number stands for: integers are read
/// back from their text, binary numbers with `Num::from_dec_str` (which
/// reads the shortest round-trip text they are displayed with), decimals are
/// kept as text.
#[verifier::external_body]
fn number_to_engine(n: &Number) -> Num {
    match n.kind {
        NumberKind::Int => Num::from_str_radix(&n.text, 10).unwrap_or_else(|| Num::from_dec_str(&n.text)),
        NumberKind::Binary => Num::from_dec_str(&n.text),
        NumberKind::Decimal => Num::Dec(std::rc::Rc::new(n.text.clone())),
    }
}

/// The library number for an engine number: its kind and display text.
#[verifier::external_body]
fn number_from_engine(n: &Num) -> Number {
    let kind = match n {
        Num::Int(_) | Num::BigInt(_) => NumberKind::Int,
        Num::Dec(_) => NumberKind::Decimal,
        _ => NumberKind::Binary,
    };
    Number { kind, text: n.to_string() }
}

/// The engine value that a library value stands for: a structural
/// conversion, one variant for one variant.
#[verifier::external_body]
fn to_engine(v: &Value) -> Val {
    match v {
        Value::Null => Val::Null,
        Value::Bool(b) => Val::Bool(*b),
        Value::Num(n) => Val::Num(number_to_engine(n)),
        Value::BStr(b) => Val::byte_str(b.clone()),
        Value::TStr(b) => Val::utf8_str(b.clone()),
        Value::Arr(a) => Val::Arr(std::rc::Rc::new(a.iter().map(to_engine).collect())),
        Value::Obj(o) => Val::obj(o.iter().map(|(k, x)| (to_engine(k), to_engine(x))).collect()),
    }
}

/// The library value for an engine value; the converse of `to_engine`.
#[verifier::external_body]
fn from_engine(v: &Val) -> Value {
    match v {
        Val::Null => Value::Null,
        Val::Bool(b) => Value::Bool(*b),
        Val::Num(n) => Value::Num(number_from_engine(n)),
        Val::BStr(b) => Value::BStr(b.to_vec()),
        Val::TStr(b) => Value::TStr(b.to_vec()),
        Val::Arr(a) => Value::Arr(a.iter().map(from_engine).collect()),
        Val::Obj(o) => Value::Obj(o.iter().map(|(k, x)| (from_engine(k), from_engine(x))).collect()),
    }
}

/// `jaq_json::read::parse_many`: the JSON values of a byte stream, in order;
/// reading stops after the first parse error, which comes last.  The
/// reader keeps a number with a fraction or an exponent as a decimal whose
/// text is the number as written (optional sign, digits, an optional
/// fraction and exponent, ending in a digit), which is number syntax.
#[verifier::external_body]
pub(crate) fn read_json_documents(bytes: &[u8]) -> (r: Vec<Result<Value, String>>)
    ensures
        docs_view(r@) == json_documents(bytes@),
        forall|i: int| 0 <= i < r@.len() - 1 ==> r@[i] is Ok,
        docs_ok(r@),
{
    let mut values = Vec::new();
    for value in jaq_json::read::parse_many(bytes) {
        match value {
            Ok(value) => values.push(Ok(from_engine(&value))),
            Err(e) => {
                values.push(Err(e.to_string()));
                break;
            }
        }
    }
    values
}

/// `yaml_serde::Deserializer::from_str`, each document deserialized into
/// an engine value.  Reading stops after the first document that fails,
/// which comes last: once its parser has failed, the deserializer keeps
/// handing back failed documents and never ends.  Deserialization makes
/// integers and floats, never decimals.
#[verifier::external_body]
pub(crate) fn read_yaml_documents(text: &str) -> (r: Vec<Result<Value, String>>)
    ensures
        docs_view(r@) == yaml_documents(text@),
        forall|i: int| 0 <= i < r@.len() - 1 ==> r@[i] is Ok,
        docs_ok(r@),
{
    let mut values = Vec::new();
    for doc in yaml_serde::Deserializer::from_str(text) {
        match Val::deserialize(doc) {
            Ok(value) => values.push(Ok(from_engine(&value))),
            Err(e) => {
                values.push(Err(e.to_string()));
                break;
            }
        }
    }
    values
}

/// `std::str::from_utf8`: the text of valid UTF-8 bytes, else the error's
/// message.
#[verifier::external_body]
pub(crate) fn utf8_text(bytes: &[u8]) -> (r: Result<String, String>)
    ensures
        r is Ok <==> valid_utf8(bytes@),
        r matches Ok(s) ==> s@ == decode_utf8(bytes@),
        r matches Err(e) ==> e@ == utf8_error_text(bytes@),
{
    std::str::from_utf8(bytes).map(|s| s.to_owned()).map_err(|e| e.to_string())
}

/// `String::from_utf8_lossy`; bytes that are valid UTF-8 are decoded as is.
#[verifier::external_body]
pub(crate) fn lossy_string(bytes: &[u8]) -> (r: String)
    ensures
        r@ == lossy_text(bytes@),
        valid_utf8(bytes@) ==> r@ == decode_utf8(bytes@),
{
    String::from_utf8_lossy(bytes).into_owned()
}

/// Loads a jq program with the core, standard-library and JSON definitions
/// and compiles it (`jaq_core::load::Loader::load`, then
/// `jaq_core::Compiler::compile`); errors are rendered with `{:?}`.
#[verifier::external_body]
pub(crate) fn compile_program(code: &str) -> (r: Result<Program, String>)
    ensures
        r is Err <==> program_error(code@) is Some,
        r matches Err(e) ==> program_error(code@) == Some(e@),
        r matches Ok(p) ==> p.code() == code@,
{
    let defs = jaq_core::defs().chain(jaq_std::defs()).chain(jaq_json::defs());
    let funs = jaq_core::funs().chain(jaq_std::funs()).chain(jaq_json::funs());
    let loader = Loader::new(defs);
    let arena = Arena::default();
    let modules = loader.load(&arena, File { code, path: () }).map_err(|e| format!("{e:?}"))?;
    let inner = jaq_core::Compiler::default().with_funs(funs).compile(modules).map_err(|e| format!("{e:?}"))?;
    Ok(Program { filter: CompiledFilter { inner }, code: code.to_owned() })
}

/// Runs a compiled program on one input and collects its outputs, stopping
/// at the first error (rendered with `{}`) or at `halt` (with its exit
/// code); jaq's own control flow never reaches here, and is rendered with
/// `{:?}` if it did.  The outcome is one that the program's text may give
/// on that input (`filter_may_give`); which one is not a function of the
/// two, since a program may read the clock or the environment.
///
/// The engine reads a decimal number's text as a float when it computes
/// with it, and fails on text that is not number syntax: the input's
/// decimals must be in number syntax.
#[verifier::external_body]
pub(crate) fn run_program(program: &Program, input: &Value) -> (r: Result<Vec<Value>, RunError>)
    requires
        numbers_ok(*input),
    ensures
        filter_may_give(program.code(), *input, outcome_view(r)),
{
    let inner = &program.filter.inner;
    let ctx = Ctx::<data::JustLut<Val>>::new(&inner.lut, Vars::new([]));
    let stop = |e: jaq_core::Exn<_>| match e.get_err() {
        Ok(err) => RunError::Error(format!("{err}")),
        Err(e) => match e.get_halt() {
            Ok(code) => RunError::Halt(code),
            Err(e) => RunError::Error(format!("{e:?}")),
        },
    };
    inner.id.run((ctx, to_engine(input))).map(|r| r.map(|v| from_engine(&v)).map_err(stop))
        .collect::<Result<Vec<_>, _>>()
}

/// `jaq_json::write::write` into a buffer, compact or with two-space
/// indentation and a space after `:`; the buffer is then read as UTF-8.
#[verifier::external_body]
pub(crate) fn write_json(v: &Value, pretty: bool) -> (r: Result<String, String>)
    ensures
        match r {
            Ok(s) => json_text(*v, pretty) == Ok::<Seq<char>, Seq<char>>(s@),
            Err(e) => json_text(*v, pretty) == Err::<Seq<char>, Seq<char>>(e@),
        },
{
    let mut buf = Vec::new();
    let pp = jaq_json::write::Pp { indent: if pretty { Some("  ".to_owned()) } else { None }, sep_space: pretty, ..Default::default() };
    jaq_json::write::write(&mut buf, &pp, 0, &to_engine(v)).map_err(|e| e.to_string())?;
    String::from_utf8(buf).map_err(|e| e.to_string())
}

} // verus!
