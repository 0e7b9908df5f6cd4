//! Input sources and the detection of their format.

use vstd::prelude::*;
use crate::engine::{
    docs_view, json_documents, read_json_documents, read_yaml_documents, utf8_error_text, utf8_text,
    yaml_documents,
};
use crate::text::{chars_eq_str, to_chars};
use crate::value::Value;
use vstd::utf8::{decode_utf8, valid_utf8};

verus! {

/// The format of an input document stream.
#[derive(Debug, Clone, Copy, PartialEq, Eq, Structural)]
pub enum InputKind {
    Json,
    Yaml,
}

/// Where input comes from.
#[derive(Debug, Clone)]
pub enum Source {
    File(String),
    Stdin,
}

impl Source {
    /// The path that is read for this source (`stdin` for standard input).
    pub open spec fn path_spec(&self) -> Seq<char> {
        match self {
            Source::File(p) => p@,
            Source::Stdin => "stdin"@,
        }
    }

    /// The path that is read for this source.
    pub fn path(&self) -> (r: &str)
        ensures
            r@ == self.path_spec(),
    {
        match self {
            Source::File(path) => path.as_str(),
            Source::Stdin => "stdin",
        }
    }

    /// The name shown in messages and output prefixes.
    pub fn label(&self) -> (r: String)
        ensures
            r@ == self.path_spec(),
    {
        match self {
            Source::File(path) => path.clone(),
            Source::Stdin => "stdin".to_owned(),
        }
    }
}

/// The extension of the final component of a path, as `Path::extension`
/// determines it (without the dot), when there is one and it is valid UTF-8.
pub uninterp spec fn path_extension_spec(path: Seq<char>) -> Option<Seq<char>>;

/// The view of an optional string.
pub open spec fn opt_string_view(o: Option<String>) -> Option<Seq<char>> {
    match o {
        Some(s) => Some(s@),
        None => None,
    }
}

/// `Path::extension`, converted to a string.
#[verifier::external_body]
fn path_extension(path: &str) -> (r: Option<String>)
    ensures
        opt_string_view(r) == path_extension_spec(path@),
{
    std::path::Path::new(path).extension().and_then(|e| e.to_str()).map(|e| e.to_owned())
}

/// The format that a file extension names.
pub open spec fn kind_for_extension(ext: Option<Seq<char>>) -> Option<InputKind> {
    match ext {
        Some(e) => if e == "json"@ {
            Some(InputKind::Json)
        } else if e == "yaml"@ || e == "yml"@ {
            Some(InputKind::Yaml)
        } else {
            None
        },
        None => None,
    }
}

/// The format of a file, judged by its extension: `.json` is JSON,
/// `.yaml`/`.yml` are YAML, anything else is unknown.
pub fn kind_for_path(path: &str) -> (r: Option<InputKind>)
    ensures
        r == kind_for_extension(path_extension_spec(path@)),
{
    match path_extension(path) {
        Some(e) => {
            let v = to_chars(e.as_str());
            if chars_eq_str(&v, "json") {
                Some(InputKind::Json)
            } else if chars_eq_str(&v, "yaml") || chars_eq_str(&v, "yml") {
                Some(InputKind::Yaml)
            } else {
                None
            }
        },
        None => None,
    }
}

/// ASCII blank that is skipped before the first significant byte.
pub open spec fn is_blank_byte(b: u8) -> bool {
    b == 0x20 || b == 0x09 || b == 0x0a || b == 0x0d
}

/// Index of the first byte that is not blank, or `bytes.len()`.
pub open spec fn first_significant(bytes: Seq<u8>, i: int) -> int
    decreases bytes.len() - i,
{
    if 0 <= i < bytes.len() && is_blank_byte(bytes[i]) {
        first_significant(bytes, i + 1)
    } else {
        i
    }
}

/// A byte that can start a JSON value: `{ [ " t f n -` or a digit.
pub open spec fn starts_json(b: u8) -> bool {
    b == 0x7b || b == 0x5b || b == 0x22 || b == 0x74 || b == 0x66 || b == 0x6e || b == 0x2d || (
    0x30 <= b && b <= 0x39)
}

/// Standard input is JSON when its first significant byte can start a JSON
/// value; otherwise (including empty input) it is YAML.
pub open spec fn stdin_kind_spec(bytes: Seq<u8>) -> InputKind {
    let i = first_significant(bytes, 0);
    if 0 <= i < bytes.len() && starts_json(bytes[i]) {
        InputKind::Json
    } else {
        InputKind::Yaml
    }
}

/// Guess the format of standard input from its first significant byte.
pub fn detect_stdin_kind(bytes: &[u8]) -> (r: InputKind)
    ensures
        r == stdin_kind_spec(bytes@),
{
    let mut i: usize = 0;
    while i < bytes.len() && (bytes[i] == 0x20 || bytes[i] == 0x09 || bytes[i] == 0x0a
        || bytes[i] == 0x0d)
        invariant
            i <= bytes.len(),
            first_significant(bytes@, i as int) == first_significant(bytes@, 0),
        decreases bytes.len() - i,
    {
        i = i + 1;
    }
    if i < bytes.len() {
        let b = bytes[i];
        if b == 0x7b || b == 0x5b || b == 0x22 || b == 0x74 || b == 0x66 || b == 0x6e || b == 0x2d
            || (0x30 <= b && b <= 0x39) {
            return InputKind::Json;
        }
    }
    InputKind::Yaml
}

/// The documents of an input: JSON values in sequence (up to the first
/// parse error), or the YAML documents of text that must be valid UTF-8.
pub open spec fn parse_many_spec(kind: InputKind, bytes: Seq<u8>) -> Result<
    Seq<Result<Value, Seq<char>>>,
    Seq<char>,
> {
    match kind {
        InputKind::Json => Ok(json_documents(bytes)),
        InputKind::Yaml => if valid_utf8(bytes) {
            Ok(yaml_documents(decode_utf8(bytes)))
        } else {
            Err(utf8_error_text(bytes))
        },
    }
}

/// The view of a parse outcome.
pub open spec fn parsed_view(r: Result<Vec<Result<Value, String>>, String>) -> Result<
    Seq<Result<Value, Seq<char>>>,
    Seq<char>,
> {
    match r {
        Ok(docs) => Ok(docs_view(docs@)),
        Err(e) => Err(e@),
    }
}

/// Parses every document of an input of the given format.
pub fn parse_many(kind: InputKind, bytes: &[u8]) -> (r: Result<Vec<Result<Value, String>>, String>)
    ensures
        parsed_view(r) == parse_many_spec(kind, bytes@),
        r matches Ok(docs) ==> crate::engine::docs_ok(docs@),
{
    match kind {
        InputKind::Json => Ok(read_json_documents(bytes)),
        InputKind::Yaml => match utf8_text(bytes) {
            Ok(text) => Ok(read_yaml_documents(text.as_str())),
            Err(e) => Err(e),
        },
    }
}

/// `u8::is_ascii_whitespace`: space, tab, line feed, form feed, carriage return.
pub open spec fn is_ascii_ws_byte(b: u8) -> bool {
    b == 0x20 || b == 0x09 || b == 0x0a || b == 0x0c || b == 0x0d
}

/// `<[u8]>::trim_ascii`: the bytes without leading and trailing ASCII
/// whitespace.
pub open spec fn trim_ascii_spec(b: Seq<u8>) -> Seq<u8> {
    let lo = lead_ascii_ws(b, 0);
    b.subrange(lo, trail_ascii_ws(b, lo, b.len() as int))
}

pub open spec fn lead_ascii_ws(b: Seq<u8>, i: int) -> int
    decreases b.len() - i,
{
    if 0 <= i < b.len() && is_ascii_ws_byte(b[i]) {
        lead_ascii_ws(b, i + 1)
    } else {
        i
    }
}

pub open spec fn trail_ascii_ws(b: Seq<u8>, lo: int, j: int) -> int
    decreases j - lo,
{
    if lo < j && j <= b.len() && is_ascii_ws_byte(b[j - 1]) {
        trail_ascii_ws(b, lo, j - 1)
    } else {
        j
    }
}

proof fn lemma_lead_ascii_ws(b: Seq<u8>, i: int)
    requires
        0 <= i <= b.len(),
    ensures
        i <= lead_ascii_ws(b, i) <= b.len(),
    decreases b.len() - i,
{
    if i < b.len() && is_ascii_ws_byte(b[i]) {
        lemma_lead_ascii_ws(b, i + 1);
    }
}

proof fn lemma_trail_ascii_ws(b: Seq<u8>, lo: int, j: int)
    requires
        0 <= lo <= j <= b.len(),
    ensures
        lo <= trail_ascii_ws(b, lo, j) <= j,
    decreases j - lo,
{
    if lo < j && is_ascii_ws_byte(b[j - 1]) {
        lemma_trail_ascii_ws(b, lo, j - 1);
    }
}

/// The bytes of a line without leading and trailing ASCII whitespace.
pub fn trim_ascii_whitespace(line: &[u8]) -> (r: Vec<u8>)
    ensures
        r@ == trim_ascii_spec(line@),
{
    let mut lo: usize = 0;
    while lo < line.len() && (line[lo] == 0x20 || line[lo] == 0x09 || line[lo] == 0x0a
        || line[lo] == 0x0c || line[lo] == 0x0d)
        invariant
            lo <= line.len(),
            lead_ascii_ws(line@, lo as int) == lead_ascii_ws(line@, 0),
        decreases line.len() - lo,
    {
        lo = lo + 1;
    }
    let mut hi: usize = line.len();
    while hi > lo && (line[hi - 1] == 0x20 || line[hi - 1] == 0x09 || line[hi - 1] == 0x0a
        || line[hi - 1] == 0x0c || line[hi - 1] == 0x0d)
        invariant
            lo <= hi <= line.len(),
            trail_ascii_ws(line@, lo as int, hi as int) == trail_ascii_ws(
                line@,
                lo as int,
                line@.len() as int,
            ),
        decreases hi,
    {
        hi = hi - 1;
    }
    let mut r: Vec<u8> = Vec::new();
    let mut i = lo;
    while i < hi
        invariant
            lo <= i <= hi <= line.len(),
            r@ == line@.subrange(lo as int, i as int),
        decreases hi - i,
    {
        r.push(line[i]);
        assert(r@ =~= line@.subrange(lo as int, i + 1));
        i = i + 1;
    }
    r
}

/// The format of a file follows its extension: YAML exactly for `yaml`
/// and `yml`, JSON exactly for `json`, and unknown for anything else (or
/// no extension).
pub proof fn law_extension_decides_format(ext: Option<Seq<char>>)
    ensures
        kind_for_extension(ext) == Some(InputKind::Yaml) <==> (ext == Some("yaml"@) || ext == Some("yml"@)),
        kind_for_extension(ext) == Some(InputKind::Json) <==> ext == Some("json"@),
        kind_for_extension(ext) is None <==> !(ext == Some("yaml"@) || ext == Some("yml"@) || ext == Some(
            "json"@,
        )),
{
    reveal_strlit("json");
    reveal_strlit("yaml");
    reveal_strlit("yml");
    assert("json"@.len() == 4 && "yaml"@.len() == 4 && "yml"@.len() == 3);
    assert("json"@[0] == 'j' && "yaml"@[0] == 'y');
}

proof fn lemma_skip_blanks(blanks: Seq<u8>, rest: Seq<u8>, i: int)
    requires
        0 <= i <= blanks.len(),
        forall|k: int| 0 <= k < blanks.len() ==> is_blank_byte(#[trigger] blanks[k]),
        rest.len() > 0 ==> !is_blank_byte(rest[0]),
    ensures
        first_significant(blanks + rest, i) == blanks.len(),
    decreases blanks.len() - i,
{
    let s = blanks + rest;
    if i < blanks.len() {
        assert(s[i] == blanks[i]);
        lemma_skip_blanks(blanks, rest, i + 1);
    } else if rest.len() > 0 {
        assert(s[i] == rest[0]);
    }
}

/// Standard input is read as JSON exactly when, after spaces, tabs and line
/// breaks, its first byte can start a JSON value (`{`, `[`, `"`, `t`, `f`,
/// `n`, `-` or a digit); otherwise, empty input included, it is read as
/// YAML.
pub proof fn law_stdin_format_by_first_byte(blanks: Seq<u8>, rest: Seq<u8>)
    requires
        forall|k: int| 0 <= k < blanks.len() ==> (#[trigger] blanks[k] == 0x20u8 || blanks[k] == 0x09u8 || blanks[k]
            == 0x0au8 || blanks[k] == 0x0du8),
        rest.len() > 0 ==> !(rest[0] == 0x20u8 || rest[0] == 0x09u8 || rest[0] == 0x0au8 || rest[0] == 0x0du8),
    ensures
        rest.len() == 0 ==> stdin_kind_spec(blanks + rest) == InputKind::Yaml,
        rest.len() > 0 ==> (stdin_kind_spec(blanks + rest) == InputKind::Json <==> (rest[0] == 0x7bu8 || rest[0] == 0x5bu8
            || rest[0] == 0x22u8 || rest[0] == 0x74u8 || rest[0] == 0x66u8 || rest[0] == 0x6eu8 || rest[0] == 0x2du8
            || (0x30u8 <= rest[0] && rest[0] <= 0x39u8))),
{
    assert forall|k: int| 0 <= k < blanks.len() implies is_blank_byte(#[trigger] blanks[k]) by {}
    lemma_skip_blanks(blanks, rest, 0);
    if rest.len() > 0 {
        assert((blanks + rest)[blanks.len() as int] == rest[0]);
    }
}

} // verus!
