//! The pure parts of `jgrep explore`: composing the generated jq from the
//! Filter and Output inputs, cursor movement over UTF-8 text, scrolling,
//! the visible window of an input line, and the handling of streamed lines.

use vstd::prelude::*;
use crate::cli::{clone_opt_string, ExploreArgs};
use crate::engine::{docs_ok, docs_view};
use crate::input::{
    detect_stdin_kind, kind_for_extension, kind_for_path, opt_string_view, parse_many, parse_many_spec, path_extension_spec,
    stdin_kind_spec, trim_ascii_spec, trim_ascii_whitespace, InputKind,
};
use crate::value::{all_ok, numbers_ok, Value};
use crate::output::OutputOptions;
use crate::shortcuts::{
    apply_where_filters, apply_where_spec, expression_spec, expression_to_jq,
    output_expression_spec, output_expression_to_jq, result_view, where_filters_to_select,
    where_select_spec, string_chars_range,
};
use crate::text::{push_char, starts_with, starts_with_exec, string_from_chars, string_from_range, to_chars, trim, trim_bounds};
use crate::utf8_len::{
    byte_len, byte_offset, char_index_of, char_width, is_boundary, lemma_boundary_unique,
    lemma_byte_offset_step, lemma_str_len,
};

verus! {

// ---------------------------------------------------------------------
// Generated jq
// ---------------------------------------------------------------------

/// The jq that explore runs for a Filter input and an Output input.
pub open spec fn compose_spec(filter_input: Seq<char>, output_input: Seq<char>) -> Result<
    Seq<char>,
    Seq<char>,
> {
    let f = trim(filter_input);
    let o = trim(output_input);
    if o.len() == 0 {
        expression_spec(f)
    } else {
        match output_expression_spec(o) {
            Err(e) => Err(e),
            Ok(out) => if f.len() == 0 {
                Ok(out)
            } else if starts_with(f, "select("@) || starts_with(f, "."@) {
                Ok(f + " | "@ + out)
            } else {
                apply_where_spec(out, seq![f])
            },
        }
    }
}

/// Combines the Filter input (which selects records) with the Output input
/// (which projects each selected record) into one jq program.
pub fn compose_explore_jq(filter_input: &str, output_input: &str) -> (r: Result<String, String>)
    ensures
        result_view(r) == compose_spec(filter_input@, output_input@),
{
    let fv = to_chars(filter_input);
    let (flo, fhi) = trim_bounds(&fv);
    let f = string_from_range(&fv, flo, fhi);
    let ov = to_chars(output_input);
    let (olo, ohi) = trim_bounds(&ov);
    let o = string_from_range(&ov, olo, ohi);
    if olo == ohi {
        return expression_to_jq(f.as_str());
    }
    let output = output_expression_to_jq(o.as_str())?;
    if flo == fhi {
        return Ok(output);
    }
    let fc = string_chars_range(&fv, flo, fhi);
    if starts_with_exec(&fc, "select(") || starts_with_exec(&fc, ".") {
        let mut out = f;
        out.append(" | ");
        out.append(output.as_str());
        Ok(out)
    } else {
        let mut filters: Vec<String> = Vec::new();
        filters.push(f);
        proof {
            assert(filters.deep_view() =~= seq![trim(filter_input@)]);
        }
        apply_where_filters(output, filters.as_slice())
    }
}

/// The initial Filter input: `--filter` when given, else the `-w`
/// conditions as one `select(...)` (empty when they are invalid), else empty.
pub open spec fn initial_filter_spec(args: ExploreArgs) -> Seq<char> {
    match args.filter {
        Some(f) => f@,
        None => if args.where_filters@.len() == 0 {
            Seq::empty()
        } else {
            match where_select_spec(args.where_filters.deep_view()) {
                Ok(s) => s,
                Err(_) => Seq::empty(),
            }
        },
    }
}

pub fn initial_filter_input(args: &ExploreArgs) -> (r: String)
    ensures
        r@ == initial_filter_spec(*args),
{
    if let Some(filter) = &args.filter {
        return filter.clone();
    }
    if args.where_filters.len() == 0 {
        String::new()
    } else {
        match where_filters_to_select(args.where_filters.as_slice()) {
            Ok(s) => s,
            Err(_) => String::new(),
        }
    }
}

/// The output options of explore: no JSON syntax colouring, the rest from
/// the arguments.
pub fn output_options_from_args(args: &ExploreArgs) -> (r: OutputOptions)
    ensures
        r.pretty == args.pretty,
        !r.json_color,
        r.color_level == args.color_level,
        r.no_color == args.no_color,
        opt_string_view(r.color_level_field) == opt_string_view(args.color_level_field),
{
    OutputOptions {
        pretty: args.pretty,
        json_color: false,
        color_level: args.color_level,
        no_color: args.no_color,
        color_level_field: clone_opt_string(&args.color_level_field),
    }
}

/// Limits of an explore session.
#[derive(Debug, Clone, Copy)]
pub struct ExploreConfig {
    pub max_input_bytes: usize,
    pub max_schema_documents: usize,
    pub max_preview_results: usize,
    pub max_schema_depth: usize,
}

impl ExploreConfig {
    pub fn from_args(args: &ExploreArgs) -> (r: Self)
        ensures
            r.max_input_bytes == args.max_input_bytes,
            r.max_schema_documents == args.max_schema_documents,
            r.max_preview_results == args.max_preview_results,
            r.max_schema_depth == args.max_schema_depth,
    {
        ExploreConfig {
            max_input_bytes: args.max_input_bytes,
            max_schema_documents: args.max_schema_documents,
            max_preview_results: args.max_preview_results,
            max_schema_depth: args.max_schema_depth,
        }
    }
}

// ---------------------------------------------------------------------
// Cursor movement over UTF-8 text
// ---------------------------------------------------------------------

/// The character position whose byte offset is `cursor`.
pub open spec fn char_pos(s: Seq<char>, cursor: int) -> int {
    choose|k: int| 0 <= k <= s.len() && byte_offset(s, k) == cursor
}

pub proof fn lemma_char_pos(s: Seq<char>, cursor: int, k: int)
    requires
        0 <= k <= s.len(),
        byte_offset(s, k) == cursor,
    ensures
        char_pos(s, cursor) == k,
{
    let j = char_pos(s, cursor);
    lemma_boundary_unique(s, j, k);
}

/// Byte offset of the character before the cursor (0 at the start).
pub open spec fn previous_boundary_spec(s: Seq<char>, cursor: int) -> int {
    let k = char_pos(s, cursor);
    if k == 0 {
        0
    } else {
        byte_offset(s, k - 1) as int
    }
}

/// Byte offset of the character after the one at the cursor, or the end.
pub open spec fn next_boundary_spec(s: Seq<char>, cursor: int) -> int {
    let k = char_pos(s, cursor);
    if k + 1 < s.len() {
        byte_offset(s, k + 1) as int
    } else {
        byte_len(s) as int
    }
}

/// Byte offset of the character before the cursor.
pub fn previous_boundary(input: &str, cursor: usize) -> (r: usize)
    requires
        is_boundary(input@, cursor as int),
    ensures
        r == previous_boundary_spec(input@, cursor as int),
{
    let v = to_chars(input);
    let k = char_index_of(&v, cursor);
    proof {
        lemma_char_pos(v@, cursor as int, k as int);
    }
    if k == 0 {
        return 0;
    }
    let mut acc: usize = 0;
    let mut i: usize = 0;
    while i < k - 1
        invariant
            0 < k <= v.len(),
            i <= k - 1,
            acc == byte_offset(v@, i as int),
            byte_offset(v@, k as int) == cursor,
        decreases k - 1 - i,
    {
        proof {
            lemma_byte_offset_step(v@, i as int);
            crate::utf8_len::lemma_byte_offset_monotone(v@, i + 1, k as int);
        }
        acc = acc + crate::utf8_len::char_width_exec(v[i]);
        i = i + 1;
    }
    acc
}

/// Byte offset just past the character at the cursor.
pub fn next_boundary(input: &str, cursor: usize) -> (r: usize)
    requires
        is_boundary(input@, cursor as int),
        byte_len(input@) <= usize::MAX,
    ensures
        r == next_boundary_spec(input@, cursor as int),
{
    let v = to_chars(input);
    let k = char_index_of(&v, cursor);
    proof {
        lemma_char_pos(v@, cursor as int, k as int);
        lemma_str_len(input);
    }
    if v.len() - k > 1 {
        proof {
            lemma_byte_offset_step(v@, k as int);
            crate::utf8_len::lemma_byte_offset_monotone(v@, k + 1, v@.len() as int);
            assert(v@.take(v@.len() as int) == v@);
        }
        cursor + crate::utf8_len::char_width_exec(v[k])
    } else {
        input.len()
    }
}

/// `current` moved by `delta` and kept within `0..len` (moving up stops at
/// 0; moving down stops at the last position).
pub open spec fn saturating_offset_spec(current: int, delta: int, len: int) -> int {
    if delta < 0 {
        if current + delta < 0 {
            0
        } else {
            current + delta
        }
    } else {
        let moved = if current + delta > usize::MAX {
            usize::MAX as int
        } else {
            current + delta
        };
        let last = if len > 0 {
            len - 1
        } else {
            0
        };
        if moved < last {
            moved
        } else {
            last
        }
    }
}

pub fn saturating_offset(current: usize, delta: isize, len: usize) -> (r: usize)
    ensures
        r == saturating_offset_spec(current as int, delta as int, len as int),
{
    if delta < 0 {
        let magnitude: usize = ((-(delta + 1)) as usize) + 1;
        if current < magnitude {
            0
        } else {
            current - magnitude
        }
    } else {
        let d: usize = delta as usize;
        let moved = if current > usize::MAX - d {
            usize::MAX
        } else {
            current + d
        };
        let last = if len > 0 {
            len - 1
        } else {
            0
        };
        if moved < last {
            moved
        } else {
            last
        }
    }
}

/// `text` padded with spaces to `width` characters (longer text unchanged).
pub open spec fn pad_spec(text: Seq<char>, width: int) -> Seq<char> {
    if text.len() >= width {
        text
    } else {
        text + Seq::new((width - text.len()) as nat, |i: int| ' ')
    }
}

pub fn pad_preview_line(text: &str, width: u16) -> (r: String)
    ensures
        r@ == pad_spec(text@, width as int),
{
    let v = to_chars(text);
    let w = width as usize;
    let mut out = string_from_chars(&v);
    if v.len() >= w {
        return out;
    }
    let mut i = v.len();
    while i < w
        invariant
            v.len() <= i <= w,
            v@ == text@,
            out@ == text@ + Seq::new((i - v.len()) as nat, |j: int| ' '),
        decreases w - i,
    {
        push_char(&mut out, ' ');
        assert(out@ =~= text@ + Seq::new((i + 1 - v.len()) as nat, |j: int| ' '));
        i = i + 1;
    }
    out
}

/// The visible part of an input line `width` characters wide that keeps
/// the cursor (at character position `k`) in view, and the cursor's column.
pub open spec fn filter_view_spec(s: Seq<char>, k: int, width: int) -> (Seq<char>, int) {
    if width == 0 {
        (Seq::empty(), 0)
    } else {
        let start = if k > width - 1 {
            k - (width - 1)
        } else {
            0
        };
        let end = if start + width < s.len() {
            start + width
        } else {
            s.len() as int
        };
        let col = if k - start < width - 1 {
            k - start
        } else {
            width - 1
        };
        (s.subrange(start, end), col)
    }
}

pub fn filter_view(input: &str, cursor: usize, width: u16) -> (r: (String, u16))
    requires
        is_boundary(input@, cursor as int),
    ensures
        r.0@ == filter_view_spec(input@, char_pos(input@, cursor as int), width as int).0,
        r.1 as int == filter_view_spec(input@, char_pos(input@, cursor as int), width as int).1,
{
    let w = width as usize;
    if w == 0 {
        return (String::new(), 0);
    }
    let v = to_chars(input);
    let k = char_index_of(&v, cursor);
    proof {
        lemma_char_pos(v@, cursor as int, k as int);
    }
    let start = if k > w - 1 {
        k - (w - 1)
    } else {
        0
    };
    let end = if w < v.len() - start {
        start + w
    } else {
        v.len()
    };
    let col = if k - start < w - 1 {
        k - start
    } else {
        w - 1
    };
    (string_from_range(&v, start, end), col as u16)
}

// ---------------------------------------------------------------------
// Streamed input lines
// ---------------------------------------------------------------------

/// What the stdin reader reports to the explore session.
#[derive(Debug)]
pub enum StreamEvent {
    Line(Vec<u8>),
    Error(String),
    End,
}

/// The decimal digits of a number.
pub open spec fn decimal_spec(n: nat) -> Seq<char>
    decreases n,
{
    if n < 10 {
        seq![digit_char(n)]
    } else {
        decimal_spec(n / 10).push(digit_char(n % 10))
    }
}

pub open spec fn digit_char(d: nat) -> char {
    ((d + 48) as u32) as char
}

/// `n` in decimal.
pub fn decimal(n: usize) -> (r: String)
    ensures
        r@ == decimal_spec(n as nat),
    decreases n,
{
    if n < 10 {
        let mut s = String::new();
        push_char(&mut s, crate::text::char_from_ascii((n + 48) as u32));
        s
    } else {
        let mut s = decimal(n / 10);
        push_char(&mut s, crate::text::char_from_ascii((n % 10 + 48) as u32));
        s
    }
}

/// The message for input beyond `--max-input-bytes`.
pub open spec fn too_large_spec(max_input_bytes: nat) -> Seq<char> {
    "stdin: input is larger than --max-input-bytes ("@ + decimal_spec(max_input_bytes)
        + " bytes)"@
}

/// What reading one more line of a stream reports: the byte count grows
/// (saturating); past the limit an error; otherwise the line without
/// surrounding ASCII whitespace, unless it is blank.
pub open spec fn stream_line_spec(line: Seq<u8>, bytes_read: nat, max_input_bytes: nat) -> (nat, Option<Result<Seq<u8>, Seq<char>>>) {
    let total = if bytes_read + line.len() > usize::MAX {
        usize::MAX as nat
    } else {
        bytes_read + line.len()
    };
    if total > max_input_bytes {
        (total, Some(Err(too_large_spec(max_input_bytes))))
    } else if trim_ascii_spec(line).len() == 0 {
        (total, None)
    } else {
        (total, Some(Ok(trim_ascii_spec(line))))
    }
}

/// The view of an optional stream event (lines and errors only).
pub open spec fn event_view(e: Option<StreamEvent>) -> Option<Result<Seq<u8>, Seq<char>>> {
    match e {
        Some(StreamEvent::Line(b)) => Some(Ok(b@)),
        Some(StreamEvent::Error(m)) => Some(Err(m@)),
        _ => None,
    }
}

/// Accounts for one line read from standard input and tells what to send.
pub fn stream_line_event(line: &[u8], bytes_read: &mut usize, max_input_bytes: usize) -> (r: Option<StreamEvent>)
    ensures
        (*final(bytes_read) as nat, event_view(r)) == stream_line_spec(
            line@,
            *old(bytes_read) as nat,
            max_input_bytes as nat,
        ),
        !(r matches Some(StreamEvent::End)),
{
    *bytes_read = if *bytes_read > usize::MAX - line.len() {
        usize::MAX
    } else {
        *bytes_read + line.len()
    };
    if *bytes_read > max_input_bytes {
        let mut msg = "stdin: input is larger than --max-input-bytes (".to_owned();
        let d = decimal(max_input_bytes);
        msg.append(d.as_str());
        msg.append(" bytes)");
        return Some(StreamEvent::Error(msg));
    }
    let trimmed = trim_ascii_whitespace(line);
    if trimmed.len() == 0 {
        return None;
    }
    Some(StreamEvent::Line(trimmed))
}

// ---------------------------------------------------------------------
// Loading documents
// ---------------------------------------------------------------------

/// All documents, or the first that does not parse.
pub open spec fn collect_spec(docs: Seq<Result<Value, Seq<char>>>) -> Result<Seq<Value>, Seq<char>>
    decreases docs.len(),
{
    if docs.len() == 0 {
        Ok(Seq::empty())
    } else {
        match collect_spec(docs.drop_last()) {
            Err(e) => Err(e),
            Ok(vs) => match docs.last() {
                Ok(v) => Ok(vs.push(v)),
                Err(e) => Err(e),
            },
        }
    }
}

pub open spec fn values_view(r: Result<Vec<Value>, String>) -> Result<Seq<Value>, Seq<char>> {
    match r {
        Ok(vs) => Ok(vs@),
        Err(e) => Err(e@),
    }
}

/// All documents, or the error of the first that does not parse.
pub fn collect_values(docs: Vec<Result<Value, String>>) -> (r: Result<Vec<Value>, String>)
    ensures
        values_view(r) == collect_spec(docs_view(docs@)),
        docs_ok(docs@) ==> (r matches Ok(vs) ==> all_ok(vs@)),
{
    let ghost ds = docs_view(docs@);
    let mut out: Vec<Value> = Vec::new();
    let n = docs.len();
    proof {
        assert(ds.take(0) =~= Seq::<Result<Value, Seq<char>>>::empty());
    }
    for d in it: docs.into_iter()
        invariant
            n == ds.len(),
            it.seq().len() == n,
            forall|k: int| 0 <= k < n ==> docs_view(it.seq())[k] == #[trigger] ds[k],
            collect_spec(ds.take(it.index() as int)) == Ok::<Seq<Value>, Seq<char>>(out@),
            ds == docs_view(docs@),
            it.seq() == docs@,
            docs_ok(docs@) ==> all_ok(out@),
    {
        let ghost i = it.index();
        proof {
            assert(ds.take(i + 1).drop_last() =~= ds.take(i as int));
            assert(ds.take(i + 1).last() == ds[i as int]);
            assert(docs_view(it.seq())[i as int] == ds[i as int]);
        }
        match d {
            Ok(v) => {
                proof {
                    assert(docs@[i as int] matches Ok(w) && w == v);
                }
                let ghost before = out@;
                out.push(v);
                proof {
                    assert(docs_ok(docs@) ==> numbers_ok(v));
                    assert(out@ == before.push(v));
                }
            },
            Err(e) => {
                proof {
                    assert(ds[i as int] == Err::<Value, Seq<char>>(e@));
                    assert(collect_spec(ds.take(i + 1)) == Err::<Seq<Value>, Seq<char>>(e@));
                    lemma_collect_err(ds, i + 1, e@);
                }
                return Err(e);
            },
        }
    }
    proof {
        assert(ds.take(n as int) =~= ds);
    }
    Ok(out)
}

proof fn lemma_collect_err(ds: Seq<Result<Value, Seq<char>>>, i: int, e: Seq<char>)
    requires
        0 <= i <= ds.len(),
        collect_spec(ds.take(i)) == Err::<Seq<Value>, Seq<char>>(e),
    ensures
        collect_spec(ds) == Err::<Seq<Value>, Seq<char>>(e),
    decreases ds.len() - i,
{
    if i < ds.len() {
        assert(ds.take(i + 1).drop_last() =~= ds.take(i));
        lemma_collect_err(ds, i + 1, e);
    } else {
        assert(ds.take(i) =~= ds);
    }
}

/// The documents of an input: parsed in the given format; JSON whose first
/// document does not parse is read as YAML instead when `yaml_fallback`
/// is set and YAML reading succeeds.  Any document that does not parse
/// fails the whole input.
pub open spec fn parse_values_spec(kind: InputKind, bytes: Seq<u8>, yaml_fallback: bool) -> Result<Seq<Value>, Seq<char>> {
    match parse_many_spec(kind, bytes) {
        Err(e) => Err(e),
        Ok(ds) => if yaml_fallback && kind == InputKind::Json && ds.len() > 0 && ds[0] is Err {
            match parse_many_spec(InputKind::Yaml, bytes) {
                Ok(ys) => collect_spec(ys),
                Err(_) => collect_spec(ds),
            }
        } else {
            collect_spec(ds)
        },
    }
}

/// The documents of an input (see `parse_values_spec`).
pub fn parse_values(kind: InputKind, bytes: &[u8], yaml_fallback: bool) -> (r: Result<Vec<Value>, String>)
    ensures
        values_view(r) == parse_values_spec(kind, bytes@, yaml_fallback),
        r matches Ok(vs) ==> all_ok(vs@),
{
    let parsed = parse_many(kind, bytes)?;
    let first_failed = parsed.len() > 0 && match &parsed[0] {
        Err(_) => true,
        Ok(_) => false,
    };
    if yaml_fallback && kind == InputKind::Json && first_failed {
        match parse_many(InputKind::Yaml, bytes) {
            Ok(values) => {
                return collect_values(values);
            },
            Err(_) => {},
        }
    }
    collect_values(parsed)
}

/// The message for an input over the size limit.
pub open spec fn too_large_for(label: Seq<char>, max_input_bytes: nat) -> Seq<char> {
    label + ": input is larger than --max-input-bytes ("@ + decimal_spec(max_input_bytes) + " bytes)"@
}

/// The message for an input over the size limit (see `too_large_for`).
pub fn too_large_message(label: &str, max_input_bytes: usize) -> (r: String)
    ensures
        r@ == too_large_for(label@, max_input_bytes as nat),
{
    let mut m = label.to_owned();
    m.append(": input is larger than --max-input-bytes (");
    let d = decimal(max_input_bytes);
    m.append(d.as_str());
    m.append(" bytes)");
    m
}

/// Checks the size of an input against the limit: over it, the message
/// naming the input.
pub fn check_size(label: &str, size: u64, max_input_bytes: usize) -> (r: Result<(), String>)
    ensures
        r is Err <==> size > max_input_bytes,
        r matches Err(e) ==> e@ == too_large_for(label@, max_input_bytes as nat),
{
    if size > max_input_bytes as u64 {
        Err(too_large_message(label, max_input_bytes))
    } else {
        Ok(())
    }
}

/// The documents of a file: in the format of its extension; a file
/// without a known extension is read as JSON, or as YAML when its first
/// JSON document does not parse.  Errors name the file.
pub open spec fn file_values_spec(path: Seq<char>, bytes: Seq<u8>) -> Result<Seq<Value>, Seq<char>> {
    let known = kind_for_extension(path_extension_spec(path));
    let kind = match known {
        Some(k) => k,
        None => InputKind::Json,
    };
    match parse_values_spec(kind, bytes, known is None) {
        Ok(vs) => Ok(vs),
        Err(e) => Err(path + ": "@ + e),
    }
}

/// The documents of a file (see `file_values_spec`).
pub fn file_values(path: &str, bytes: &[u8]) -> (r: Result<Vec<Value>, String>)
    ensures
        values_view(r) == file_values_spec(path@, bytes@),
        r matches Ok(vs) ==> all_ok(vs@),
{
    let known = kind_for_path(path);
    let kind = match known {
        Some(k) => k,
        None => InputKind::Json,
    };
    let fallback = match known {
        Some(_) => false,
        None => true,
    };
    match parse_values(kind, bytes, fallback) {
        Ok(vs) => Ok(vs),
        Err(e) => {
            let mut m = path.to_owned();
            m.append(": ");
            m.append(e.as_str());
            Err(m)
        },
    }
}

/// The documents read from standard input: over the size limit an error;
/// otherwise in the format detected from the content, JSON falling back to
/// YAML.  Errors name standard input.
pub open spec fn stdin_values_spec(bytes: Seq<u8>, max_input_bytes: nat) -> Result<Seq<Value>, Seq<char>> {
    if bytes.len() > max_input_bytes {
        Err(too_large_for("stdin"@, max_input_bytes))
    } else {
        match parse_values_spec(stdin_kind_spec(bytes), bytes, true) {
            Ok(vs) => Ok(vs),
            Err(e) => Err("stdin: "@ + e),
        }
    }
}

/// The documents read from standard input (see `stdin_values_spec`).
pub fn stdin_values(bytes: &[u8], max_input_bytes: usize) -> (r: Result<Vec<Value>, String>)
    ensures
        values_view(r) == stdin_values_spec(bytes@, max_input_bytes as nat),
        r matches Ok(vs) ==> all_ok(vs@),
{
    if bytes.len() > max_input_bytes {
        return Err(too_large_message("stdin", max_input_bytes));
    }
    match parse_values(detect_stdin_kind(bytes), bytes, true) {
        Ok(vs) => Ok(vs),
        Err(e) => {
            let mut m = "stdin: ".to_owned();
            m.append(e.as_str());
            Err(m)
        },
    }
}

/// The documents of one streamed line, or the first parse error.
pub open spec fn stream_values_spec(line: Seq<u8>) -> Result<Seq<Value>, Seq<char>> {
    match parse_many_spec(InputKind::Json, line) {
        Err(e) => Err("stdin: parse error: "@ + e),
        Ok(ds) => match collect_spec(ds) {
            Ok(vs) => Ok(vs),
            Err(e) => Err("stdin: parse error: "@ + e),
        },
    }
}

/// The documents of one streamed line (see `stream_values_spec`).
pub fn parse_stream_line(line: &[u8]) -> (r: Result<Vec<Value>, String>)
    ensures
        values_view(r) == stream_values_spec(line@),
        r matches Ok(vs) ==> all_ok(vs@),
{
    let docs = match parse_many(InputKind::Json, line) {
        Ok(docs) => docs,
        Err(e) => {
            let mut m = "stdin: parse error: ".to_owned();
            m.append(e.as_str());
            return Err(m);
        },
    };
    match collect_values(docs) {
        Ok(vs) => Ok(vs),
        Err(e) => {
            let mut m = "stdin: parse error: ".to_owned();
            m.append(e.as_str());
            Err(m)
        },
    }
}

/// A first line of standard input that holds one JSON object, as a line of
/// NDJSON logs does: the explorer then reads standard input as a stream of
/// such lines.
pub open spec fn streamable_spec(line: Seq<u8>) -> bool {
    let t = trim_ascii_spec(line);
    t.len() > 0 && t[0] == 0x7bu8 && t.last() == 0x7du8
}

/// Whether standard input is read as a stream (see `streamable_spec`).
pub fn is_streamable_json_line(line: &[u8]) -> (r: bool)
    ensures
        r == streamable_spec(line@),
{
    let t = trim_ascii_whitespace(line);
    t.len() > 0 && t[0] == 0x7b && t[t.len() - 1] == 0x7d
}

/// How the explorer reads standard input, decided on its first line: past
/// the size limit an error; a stream when the line holds one JSON object
/// (`true`); otherwise all of it at once (`false`).
pub fn stream_first_line(first_line: &[u8], max_input_bytes: usize) -> (r: Result<bool, String>)
    ensures
        first_line@.len() > max_input_bytes ==> r is Err && r->Err_0@ == too_large_for("stdin"@, max_input_bytes as nat),
        first_line@.len() <= max_input_bytes ==> r == Ok::<bool, String>(streamable_spec(first_line@)),
{
    if first_line.len() > max_input_bytes {
        return Err(too_large_message("stdin", max_input_bytes));
    }
    Ok(is_streamable_json_line(first_line))
}

} // verus!
