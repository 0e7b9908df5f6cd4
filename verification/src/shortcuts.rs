//! Expansion of the shortcut syntax (`-p FIELD`, `-w TEST`, explore
//! expressions) into jq filters.

use vstd::prelude::*;
use crate::numeric::{is_number_syntax, number_syntax};
use crate::text::{
    append_range, chars_eq_str, contains_seq, find, find_exec, is_ascii_alpha, is_ascii_digit,
    lemma_find, occurs_at, push_char, starts_with, starts_with_exec, string_from_chars,
    string_from_range, to_chars, trim, trim_bounds,
};

verus! {

/// The view of a `Result` of strings.
pub open spec fn result_view(r: Result<String, String>) -> Result<Seq<char>, Seq<char>> {
    match r {
        Ok(s) => Ok(s@),
        Err(e) => Err(e@),
    }
}

/// Rust's `{:?}` rendering of a string: quoted, with escapes.
pub uninterp spec fn debug_text(s: Seq<char>) -> Seq<char>;

/// `format!("{s:?}")`, the quoted and escaped rendering of a string.
#[verifier::external_body]
fn debug_string(s: &str) -> (r: String)
    ensures
        r@ == debug_text(s@),
{
    format!("{s:?}")
}

// ---------------------------------------------------------------------
// Specification
// ---------------------------------------------------------------------

/// A jq object key that can be written after a bare `.`.
pub open spec fn is_identifier_spec(s: Seq<char>) -> bool {
    &&& s.len() > 0
    &&& (s[0] == '_' || is_ascii_alpha(s[0]))
    &&& forall|i: int|
        1 <= i < s.len() ==> (#[trigger] s[i] == '_' || is_ascii_alpha(s[i]) || is_ascii_digit(
            s[i],
        ))
}

/// Already a double-quoted string.
pub open spec fn is_quoted_spec(v: Seq<char>) -> bool {
    v.len() >= 2 && v[0] == '"' && v[v.len() - 1] == '"'
}

/// The escape of one character inside a jq string literal.
pub open spec fn escape_char(c: char) -> Seq<char> {
    if c == '\\' {
        seq!['\\', '\\']
    } else if c == '"' {
        seq!['\\', '"']
    } else {
        seq![c]
    }
}

/// Backslashes and double quotes escaped.
pub open spec fn escape_all(v: Seq<char>) -> Seq<char>
    decreases v.len(),
{
    if v.len() == 0 {
        Seq::empty()
    } else {
        escape_all(v.drop_last()) + escape_char(v.last())
    }
}

/// `v` as a double-quoted jq string literal.
pub open spec fn quote_spec(v: Seq<char>) -> Seq<char> {
    seq!['"'] + escape_all(v) + seq!['"']
}

/// A jq literal for `v`: kept as written when it is a boolean, `null`, a
/// number or already quoted; otherwise quoted as a string.
pub open spec fn literal_spec(v: Seq<char>) -> Seq<char> {
    if v == "true"@ || v == "false"@ || v == "null"@ || number_syntax(v) || is_quoted_spec(v) {
        v
    } else {
        quote_spec(v)
    }
}

/// The jq access for one path segment.
pub open spec fn segment_spec(seg: Seq<char>) -> Seq<char> {
    if is_identifier_spec(seg) {
        seq!['.'] + seg
    } else {
        ".["@ + literal_spec(seg) + "]"@
    }
}

/// `s.split('.')`: the pieces between dots, empty pieces included.
pub open spec fn split_dots(s: Seq<char>) -> Seq<Seq<char>>
    decreases s.len(),
{
    if s.len() == 0 {
        seq![Seq::empty()]
    } else {
        let prev = split_dots(s.drop_last());
        if s.last() == '.' {
            prev.push(Seq::empty())
        } else {
            prev.update(prev.len() - 1, prev.last().push(s.last()))
        }
    }
}

/// The accesses for the non-empty pieces, concatenated.
pub open spec fn join_segments(pieces: Seq<Seq<char>>) -> Seq<char>
    decreases pieces.len(),
{
    if pieces.len() == 0 {
        Seq::empty()
    } else {
        let last = pieces.last();
        join_segments(pieces.drop_last()) + if last.len() == 0 {
            Seq::empty()
        } else {
            segment_spec(last)
        }
    }
}

/// Nested access `.a.b.c` for a dotted path.
pub open spec fn nested_path_spec(path: Seq<char>) -> Seq<char> {
    join_segments(split_dots(path))
}

/// The jq filter for a dotted path: a key that itself holds dots is tried
/// as one literal key first, then as a nested path.
pub open spec fn path_to_jq_spec(path: Seq<char>) -> Seq<char> {
    if path.contains('.') {
        "(if type == \"object\" and has("@ + literal_spec(path) + ") then .["@ + literal_spec(path)
            + "] else "@ + nested_path_spec(path) + " end)"@
    } else {
        nested_path_spec(path)
    }
}

/// `-p FIELD`.
pub open spec fn path_filter_spec(path: Seq<char>) -> Result<Seq<char>, Seq<char>> {
    let p = trim(path);
    if p.len() == 0 {
        Err("path must not be empty"@)
    } else {
        Ok(path_to_jq_spec(p))
    }
}

/// The comparison operators of `-w`, in the order they are tried.
pub open spec fn operators() -> Seq<Seq<char>> {
    seq!["!="@, ">="@, "<="@, "="@, ">"@, "<"@]
}

/// Position in `operators()` of the first operator that occurs in `s`, or 6.
pub open spec fn operator_index_from(s: Seq<char>, k: int) -> int
    decreases 6 - k,
{
    if k < 0 || k >= 6 {
        6
    } else if contains_seq(s, operators()[k]) {
        k
    } else {
        operator_index_from(s, k + 1)
    }
}

pub open spec fn operator_index(s: Seq<char>) -> int {
    operator_index_from(s, 0)
}

/// `s` holds one of the comparison operators.
pub open spec fn has_operator(s: Seq<char>) -> bool {
    exists|k: int| 0 <= k < 6 && contains_seq(s, #[trigger] operators()[k])
}

/// The jq spelling of a shortcut operator.
pub open spec fn jq_operator(op: Seq<char>) -> Seq<char> {
    if op == "="@ {
        "=="@
    } else {
        op
    }
}

/// One `-w` condition as a jq boolean expression.
pub open spec fn where_condition_spec(input: Seq<char>) -> Result<Seq<char>, Seq<char>> {
    let t = trim(input);
    if t.len() == 0 {
        Err("condition must not be empty"@)
    } else if operator_index(t) < 6 {
        let op = operators()[operator_index(t)];
        let at = find(t, op);
        let field = trim(t.take(at));
        let value = trim(t.skip(at + op.len()));
        if field.len() == 0 || value.len() == 0 {
            Err("expected FIELD"@ + op + "VALUE, got "@ + debug_text(t))
        } else {
            Ok(path_to_jq_spec(field) + seq![' '] + jq_operator(op) + seq![' '] + literal_spec(
                value,
            ))
        }
    } else {
        Err(
            "expected a condition such as status=active, age>=18, or level!=DEBUG; got "@
                + debug_text(t),
        )
    }
}

/// The conditions of all filters, or the error of the first that fails.
pub open spec fn conditions_spec(filters: Seq<Seq<char>>) -> Result<Seq<Seq<char>>, Seq<char>>
    decreases filters.len(),
{
    if filters.len() == 0 {
        Ok(Seq::empty())
    } else {
        match conditions_spec(filters.drop_last()) {
            Err(e) => Err(e),
            Ok(cs) => match where_condition_spec(filters.last()) {
                Ok(c) => Ok(cs.push(c)),
                Err(e) => Err(e),
            },
        }
    }
}

/// `parts.join(sep)`.
pub open spec fn join_spec(parts: Seq<Seq<char>>, sep: Seq<char>) -> Seq<char>
    decreases parts.len(),
{
    if parts.len() == 0 {
        Seq::empty()
    } else if parts.len() == 1 {
        parts[0]
    } else {
        join_spec(parts.drop_last(), sep) + sep + parts.last()
    }
}

/// All `-w` filters combined into one `select(...)`.
pub open spec fn where_select_spec(filters: Seq<Seq<char>>) -> Result<Seq<char>, Seq<char>> {
    match conditions_spec(filters) {
        Ok(cs) => Ok("select("@ + join_spec(cs, " and "@) + ")"@),
        Err(e) => Err(e),
    }
}

/// `select(...) | base`, or `base` alone when there are no filters.
pub open spec fn apply_where_spec(base: Seq<char>, filters: Seq<Seq<char>>) -> Result<
    Seq<char>,
    Seq<char>,
> {
    if filters.len() == 0 {
        Ok(base)
    } else {
        match where_select_spec(filters) {
            Ok(sel) => Ok(sel + " | "@ + base),
            Err(e) => Err(e),
        }
    }
}

/// An explore filter expression as jq.
pub open spec fn expression_spec(expression: Seq<char>) -> Result<Seq<char>, Seq<char>> {
    let e = trim(expression);
    if e.len() == 0 {
        Ok("."@)
    } else if starts_with(e, "."@) || starts_with(e, "select("@) {
        Ok(e)
    } else if has_operator(e) {
        apply_where_spec("."@, seq![e])
    } else {
        path_filter_spec(e)
    }
}

/// An explore output expression as jq.
pub open spec fn output_expression_spec(expression: Seq<char>) -> Result<Seq<char>, Seq<char>> {
    let e = trim(expression);
    if e.len() == 0 {
        Ok("."@)
    } else if starts_with(e, "."@) || starts_with(e, "select("@) || starts_with(e, "{"@)
        || starts_with(e, "["@) {
        Ok(e)
    } else {
        path_filter_spec(e)
    }
}

// ---------------------------------------------------------------------
// Implementation
// ---------------------------------------------------------------------

/// Whether the segment can follow a bare `.` in jq.
pub fn is_identifier(segment: &Vec<char>) -> (r: bool)
    ensures
        r == is_identifier_spec(segment@),
{
    if segment.len() == 0 {
        return false;
    }
    let c0 = segment[0];
    if !(c0 == '_' || ('a' <= c0 && c0 <= 'z') || ('A' <= c0 && c0 <= 'Z')) {
        return false;
    }
    let mut i: usize = 1;
    while i < segment.len()
        invariant
            1 <= i <= segment.len(),
            forall|k: int|
                1 <= k < i ==> (#[trigger] segment@[k] == '_' || is_ascii_alpha(segment@[k])
                    || is_ascii_digit(segment@[k])),
        decreases segment.len() - i,
    {
        let c = segment[i];
        if !(c == '_' || ('a' <= c && c <= 'z') || ('A' <= c && c <= 'Z') || ('0' <= c && c
            <= '9')) {
            return false;
        }
        i = i + 1;
    }
    true
}

/// Whether `value` is already a double-quoted string.
pub fn is_quoted(value: &Vec<char>) -> (r: bool)
    ensures
        r == is_quoted_spec(value@),
{
    value.len() >= 2 && value[0] == '"' && value[value.len() - 1] == '"'
}

/// `value` as a double-quoted jq string, with `\` and `"` escaped.
pub fn quote(value: &Vec<char>) -> (r: String)
    ensures
        r@ == quote_spec(value@),
{
    let mut out = String::new();
    push_char(&mut out, '"');
    let mut i: usize = 0;
    while i < value.len()
        invariant
            i <= value.len(),
            out@ == seq!['"'] + escape_all(value@.take(i as int)),
        decreases value.len() - i,
    {
        let c = value[i];
        if c == '\\' {
            push_char(&mut out, '\\');
            push_char(&mut out, '\\');
        } else if c == '"' {
            push_char(&mut out, '\\');
            push_char(&mut out, '"');
        } else {
            push_char(&mut out, c);
        }
        assert(value@.take(i + 1).drop_last() == value@.take(i as int));
        i = i + 1;
    }
    assert(value@.take(value.len() as int) == value@);
    push_char(&mut out, '"');
    out
}

/// The jq literal for a shortcut value.
pub fn literal(value: &Vec<char>) -> (r: String)
    ensures
        r@ == literal_spec(value@),
{
    if chars_eq_str(value, "true") || chars_eq_str(value, "false") || chars_eq_str(value, "null")
        || is_number_syntax(value) || is_quoted(value) {
        string_from_chars(value)
    } else {
        quote(value)
    }
}

/// The jq access for one path segment.
pub fn segment_to_jq(segment: &Vec<char>) -> (r: String)
    ensures
        r@ == segment_spec(segment@),
{
    if is_identifier(segment) {
        let mut out = String::new();
        push_char(&mut out, '.');
        append_range(&mut out, segment, 0, segment.len());
        assert(segment@.subrange(0, segment@.len() as int) == segment@);
        out
    } else {
        let mut out = String::new();
        out.append(".[");
        let lit = literal(segment);
        out.append(lit.as_str());
        out.append("]");
        out
    }
}

proof fn lemma_split_dots_nonempty(s: Seq<char>)
    ensures
        split_dots(s).len() >= 1,
    decreases s.len(),
{
    if s.len() > 0 {
        lemma_split_dots_nonempty(s.drop_last());
    }
}

/// Nested access for the non-empty dot-separated pieces of `path`.
pub fn nested_path_to_jq(path: &Vec<char>) -> (r: String)
    ensures
        r@ == nested_path_spec(path@),
{
    let mut out = String::new();
    let mut start: usize = 0;
    let mut i: usize = 0;
    proof {
        assert(path@.take(0) == Seq::<char>::empty());
        assert(split_dots(path@.take(0)).drop_last() == Seq::<Seq<char>>::empty());
    }
    while i < path.len()
        invariant
            start <= i <= path.len(),
            split_dots(path@.take(i as int)).len() >= 1,
            split_dots(path@.take(i as int)).last() == path@.subrange(start as int, i as int),
            out@ == join_segments(split_dots(path@.take(i as int)).drop_last()),
        decreases path.len() - i,
    {
        let ghost prev = split_dots(path@.take(i as int));
        proof {
            assert(path@.take(i + 1).drop_last() == path@.take(i as int));
            assert(path@.take(i + 1).last() == path@[i as int]);
            lemma_split_dots_nonempty(path@.take(i as int));
        }
        if path[i] == '.' {
            if start < i {
                let piece = string_chars_range(path, start, i);
                let seg = segment_to_jq(&piece);
                out.append(seg.as_str());
            }
            proof {
                let next = split_dots(path@.take(i + 1));
                assert(next == prev.push(Seq::empty()));
                assert(next.drop_last() == prev);
                assert(prev == prev.drop_last().push(prev.last()));
            }
            start = i + 1;
        } else {
            proof {
                let next = split_dots(path@.take(i + 1));
                assert(next == prev.update(prev.len() - 1, prev.last().push(path@[i as int])));
                assert(next.drop_last() == prev.drop_last());
                assert(path@.subrange(start as int, i + 1) == path@.subrange(start as int, i as int).push(
                    path@[i as int],
                ));
            }
        }
        i = i + 1;
    }
    proof {
        assert(path@.take(path.len() as int) == path@);
        let all = split_dots(path@);
        assert(all == all.drop_last().push(all.last()));
    }
    if start < i {
        let piece = string_chars_range(path, start, i);
        let seg = segment_to_jq(&piece);
        out.append(seg.as_str());
    }
    out
}

/// The characters `v[lo..hi]` as a new vector.
pub fn string_chars_range(v: &Vec<char>, lo: usize, hi: usize) -> (r: Vec<char>)
    requires
        lo <= hi <= v.len(),
    ensures
        r@ == v@.subrange(lo as int, hi as int),
{
    let mut r: Vec<char> = Vec::new();
    let mut i = lo;
    while i < hi
        invariant
            lo <= i <= hi <= v.len(),
            r@ == v@.subrange(lo as int, i as int),
        decreases hi - i,
    {
        r.push(v[i]);
        assert(v@.subrange(lo as int, i + 1) == v@.subrange(lo as int, i as int).push(v@[i as int]));
        i = i + 1;
    }
    r
}

/// Whether `v` contains the character `c`.
fn contains_char(v: &Vec<char>, c: char) -> (r: bool)
    ensures
        r == v@.contains(c),
{
    let mut i: usize = 0;
    while i < v.len()
        invariant
            i <= v.len(),
            forall|k: int| 0 <= k < i ==> v@[k] != c,
        decreases v.len() - i,
    {
        if v[i] == c {
            assert(v@[i as int] == c);
            return true;
        }
        i = i + 1;
    }
    false
}

/// The character sequences of a list of pieces.
pub open spec fn pieces_view(v: Seq<Vec<char>>) -> Seq<Seq<char>> {
    v.map_values(|p: Vec<char>| p@)
}

/// `path.split('.')`, every piece (empty ones included) in order.
pub fn split_dots_exec(path: &Vec<char>) -> (r: Vec<Vec<char>>)
    ensures
        pieces_view(r@) == split_dots(path@),
{
    let mut pieces: Vec<Vec<char>> = Vec::new();
    let mut start: usize = 0;
    let mut i: usize = 0;
    proof {
        assert(path@.take(0) == Seq::<char>::empty());
        assert(pieces_view(pieces@) =~= split_dots(path@.take(0)).drop_last());
    }
    while i < path.len()
        invariant
            start <= i <= path.len(),
            split_dots(path@.take(i as int)).len() >= 1,
            split_dots(path@.take(i as int)).last() == path@.subrange(start as int, i as int),
            pieces_view(pieces@) == split_dots(path@.take(i as int)).drop_last(),
        decreases path.len() - i,
    {
        let ghost prev = split_dots(path@.take(i as int));
        proof {
            assert(path@.take(i + 1).drop_last() == path@.take(i as int));
            assert(path@.take(i + 1).last() == path@[i as int]);
            lemma_split_dots_nonempty(path@.take(i as int));
        }
        if path[i] == '.' {
            let piece = string_chars_range(path, start, i);
            let ghost old_pieces = pieces_view(pieces@);
            pieces.push(piece);
            proof {
                let next = split_dots(path@.take(i + 1));
                assert(next == prev.push(Seq::empty()));
                assert(pieces_view(pieces@) =~= old_pieces.push(piece@));
                assert(next.drop_last() =~= prev);
                assert(prev =~= prev.drop_last().push(prev.last()));
            }
            start = i + 1;
        } else {
            proof {
                let next = split_dots(path@.take(i + 1));
                assert(next == prev.update(prev.len() - 1, prev.last().push(path@[i as int])));
                assert(next.drop_last() =~= prev.drop_last());
                assert(path@.subrange(start as int, i + 1) == path@.subrange(start as int, i as int).push(
                    path@[i as int],
                ));
            }
        }
        i = i + 1;
    }
    let piece = string_chars_range(path, start, i);
    let ghost old_pieces = pieces_view(pieces@);
    pieces.push(piece);
    proof {
        assert(path@.take(path.len() as int) == path@);
        let all = split_dots(path@);
        assert(pieces_view(pieces@) =~= old_pieces.push(piece@));
        assert(all =~= all.drop_last().push(all.last()));
    }
    pieces
}

/// The jq filter for a dotted field path.
pub fn path_to_jq(path: &Vec<char>) -> (r: String)
    ensures
        r@ == path_to_jq_spec(path@),
{
    let nested = nested_path_to_jq(path);
    if contains_char(path, '.') {
        let lit = literal(path);
        let mut out = String::new();
        out.append("(if type == \"object\" and has(");
        out.append(lit.as_str());
        out.append(") then .[");
        out.append(lit.as_str());
        out.append("] else ");
        out.append(nested.as_str());
        out.append(" end)");
        out
    } else {
        nested
    }
}

/// `-p FIELD`: the jq filter that extracts a dotted field path.
pub fn path_filter(path: &str) -> (r: Result<String, String>)
    ensures
        result_view(r) == path_filter_spec(path@),
{
    let v = to_chars(path);
    let (lo, hi) = trim_bounds(&v);
    if lo == hi {
        return Err("path must not be empty".to_owned());
    }
    let t = string_chars_range(&v, lo, hi);
    Ok(path_to_jq(&t))
}

/// The operator that `k` names, in the order they are tried.
fn operator(k: usize) -> (r: &'static str)
    requires
        k < 6,
    ensures
        r@ == operators()[k as int],
{
    if k == 0 {
        "!="
    } else if k == 1 {
        ">="
    } else if k == 2 {
        "<="
    } else if k == 3 {
        "="
    } else if k == 4 {
        ">"
    } else {
        "<"
    }
}

proof fn lemma_operator_lengths()
    ensures
        forall|k: int| 0 <= k < 6 ==> (#[trigger] operators()[k]).len() > 0,
{
    reveal_strlit("!=");
    reveal_strlit(">=");
    reveal_strlit("<=");
    reveal_strlit("=");
    reveal_strlit(">");
    reveal_strlit("<");
}

proof fn lemma_operator_index(s: Seq<char>, k: int)
    requires
        0 <= k <= 6,
    ensures
        k <= operator_index_from(s, k) <= 6,
        operator_index_from(s, k) < 6 ==> contains_seq(s, operators()[operator_index_from(s, k)]),
        forall|j: int| k <= j < operator_index_from(s, k) ==> !contains_seq(s, #[trigger] operators()[j]),
    decreases 6 - k,
{
    if k < 6 && !contains_seq(s, operators()[k]) {
        lemma_operator_index(s, k + 1);
    }
}

/// Position of the first operator (in trial order) that occurs in `s`, or 6.
fn find_operator(s: &Vec<char>) -> (r: usize)
    ensures
        r == operator_index(s@),
        r <= 6,
        r < 6 <==> has_operator(s@),
{
    proof {
        lemma_operator_lengths();
        lemma_operator_index(s@, 0);
    }
    let mut k: usize = 0;
    while k < 6
        invariant
            k <= 6,
            operator_index_from(s@, k as int) == operator_index(s@),
            forall|j: int| 0 <= j < 6 ==> (#[trigger] operators()[j]).len() > 0,
        decreases 6 - k,
    {
        let op = to_chars(operator(k));
        let at = find_exec(s, &op);
        proof {
            lemma_find(s@, op@);
        }
        if at < s.len() {
            return k;
        }
        k = k + 1;
    }
    proof {
        if has_operator(s@) {
            let j = choose|j: int| 0 <= j < 6 && contains_seq(s@, #[trigger] operators()[j]);
            assert(!contains_seq(s@, operators()[j]));
        }
    }
    k
}

/// Whether `input` holds one of the shortcut comparison operators.
pub fn contains_condition_operator(input: &Vec<char>) -> (r: bool)
    ensures
        r == has_operator(input@),
{
    find_operator(input) < 6
}

/// One `-w` condition as a jq boolean expression.
pub fn where_condition(input: &str) -> (r: Result<String, String>)
    ensures
        result_view(r) == where_condition_spec(input@),
{
    let v = to_chars(input);
    let (lo, hi) = trim_bounds(&v);
    let t = string_chars_range(&v, lo, hi);
    if t.len() == 0 {
        return Err("condition must not be empty".to_owned());
    }
    let k = find_operator(&t);
    if k < 6 {
        let op_str = operator(k);
        let op = to_chars(op_str);
        proof {
            lemma_operator_lengths();
            assert(operators()[k as int].len() > 0);
        }
        let at = find_exec(&t, &op);
        proof {
            lemma_find(t@, op@);
            lemma_operator_index(t@, 0);
        }
        let before = string_chars_range(&t, 0, at);
        let after = string_chars_range(&t, at + op.len(), t.len());
        assert(before@ == t@.take(at as int));
        assert(after@ == t@.skip(at + op@.len()));
        let (flo, fhi) = trim_bounds(&before);
        let (vlo, vhi) = trim_bounds(&after);
        if flo == fhi || vlo == vhi {
            let t_str = string_from_chars(&t);
            let dbg = debug_string(t_str.as_str());
            let mut msg = "expected FIELD".to_owned();
            msg.append(op_str);
            msg.append("VALUE, got ");
            msg.append(dbg.as_str());
            proof {
                assert(msg@ =~= "expected FIELD"@ + op@ + "VALUE, got "@ + debug_text(t@));
            }
            return Err(msg);
        }
        let field = string_chars_range(&before, flo, fhi);
        let value = string_chars_range(&after, vlo, vhi);
        let mut out = path_to_jq(&field);
        push_char(&mut out, ' ');
        if k == 3 {
            proof {
                reveal_strlit("=");
            }
            out.append("==");
        } else {
            proof {
                reveal_strlit("=");
                reveal_strlit("!=");
                reveal_strlit(">=");
                reveal_strlit("<=");
                reveal_strlit(">");
                reveal_strlit("<");
                assert(operators()[k as int] != "="@);
            }
            out.append(op_str);
        }
        push_char(&mut out, ' ');
        let lit = literal(&value);
        out.append(lit.as_str());
        proof {
            let op_s = operators()[k as int];
            assert(out@ =~= path_to_jq_spec(field@) + seq![' '] + jq_operator(op_s) + seq![' ']
                + literal_spec(value@));
        }
        Ok(out)
    } else {
        let t_str = string_from_chars(&t);
        let dbg = debug_string(t_str.as_str());
        let mut msg =
            "expected a condition such as status=active, age>=18, or level!=DEBUG; got ".to_owned();
        msg.append(dbg.as_str());
        Err(msg)
    }
}

proof fn lemma_conditions_prefix(filters: Seq<Seq<char>>, i: int)
    requires
        0 <= i < filters.len(),
    ensures
        filters.take(i + 1).drop_last() == filters.take(i),
        filters.take(i + 1).last() == filters[i],
{
}

/// All `-w` filters combined into one jq `select(...)`.
pub fn where_filters_to_select(filters: &[String]) -> (r: Result<String, String>)
    ensures
        result_view(r) == where_select_spec(filters.deep_view()),
{
    let ghost fs = filters.deep_view();
    let mut joined = String::new();
    let mut i: usize = 0;
    proof {
        assert(fs.take(0) == Seq::<Seq<char>>::empty());
    }
    while i < filters.len()
        invariant
            i <= filters.len(),
            fs == filters.deep_view(),
            fs.len() == filters.len(),
            conditions_spec(fs.take(i as int)) is Ok,
            joined@ == join_spec(conditions_spec(fs.take(i as int))->Ok_0, " and "@),
            conditions_spec(fs.take(i as int))->Ok_0.len() == i,
        decreases filters.len() - i,
    {
        proof {
            lemma_conditions_prefix(fs, i as int);
            assert(fs[i as int] == filters@[i as int]@);
        }
        let c = where_condition(filters[i].as_str());
        match c {
            Err(e) => {
                proof {
                    assert(conditions_spec(fs.take(i + 1)) == Err::<Seq<Seq<char>>, Seq<char>>(e@));
                    lemma_conditions_error_extends(fs, i + 1);
                    assert(fs.take(fs.len() as int) == fs);
                }
                return Err(e);
            },
            Ok(cond) => {
                let ghost cs = conditions_spec(fs.take(i as int))->Ok_0;
                if i > 0 {
                    joined.append(" and ");
                }
                joined.append(cond.as_str());
                proof {
                    assert(conditions_spec(fs.take(i + 1))->Ok_0 == cs.push(cond@));
                    assert(cs.push(cond@).drop_last() == cs);
                }
            },
        }
        i = i + 1;
    }
    proof {
        assert(fs.take(fs.len() as int) == fs);
    }
    let mut out = "select(".to_owned();
    out.append(joined.as_str());
    out.append(")");
    Ok(out)
}

/// Once the conditions of a prefix fail, those of every longer prefix fail
/// with the same error.
proof fn lemma_conditions_error_extends(fs: Seq<Seq<char>>, i: int)
    requires
        0 <= i <= fs.len(),
        conditions_spec(fs.take(i)) is Err,
    ensures
        conditions_spec(fs.take(fs.len() as int)) == conditions_spec(fs.take(i)),
    decreases fs.len() - i,
{
    if i < fs.len() {
        assert(fs.take(i + 1).drop_last() == fs.take(i));
        lemma_conditions_error_extends(fs, i + 1);
    }
}

/// `select(...) | base` for the `-w` filters, or `base` when there are none.
pub fn apply_where_filters(base_filter: String, filters: &[String]) -> (r: Result<String, String>)
    ensures
        result_view(r) == apply_where_spec(base_filter@, filters.deep_view()),
{
    if filters.len() == 0 {
        return Ok(base_filter);
    }
    match where_filters_to_select(filters) {
        Err(e) => Err(e),
        Ok(sel) => {
            let mut out = sel;
            out.append(" | ");
            out.append(base_filter.as_str());
            Ok(out)
        },
    }
}

/// An explore filter expression as jq: empty means `.`, jq passes through,
/// a condition becomes a `select`, anything else is a field path.
pub fn expression_to_jq(expression: &str) -> (r: Result<String, String>)
    ensures
        result_view(r) == expression_spec(expression@),
{
    let v = to_chars(expression);
    let (lo, hi) = trim_bounds(&v);
    let e = string_chars_range(&v, lo, hi);
    if e.len() == 0 {
        return Ok(".".to_owned());
    }
    if starts_with_exec(&e, ".") || starts_with_exec(&e, "select(") {
        return Ok(string_from_chars(&e));
    }
    let es = string_from_chars(&e);
    if contains_condition_operator(&e) {
        let mut filters: Vec<String> = Vec::new();
        filters.push(es);
        proof {
            assert(filters.deep_view() =~= seq![e@]);
        }
        apply_where_filters(".".to_owned(), filters.as_slice())
    } else {
        let r = path_filter(es.as_str());
        proof {
            lemma_trim_idempotent(e@);
        }
        r
    }
}

/// An explore output expression as jq: empty means `.`, jq (including object
/// and array constructors) passes through, anything else is a field path.
pub fn output_expression_to_jq(expression: &str) -> (r: Result<String, String>)
    ensures
        result_view(r) == output_expression_spec(expression@),
{
    let v = to_chars(expression);
    let (lo, hi) = trim_bounds(&v);
    let e = string_chars_range(&v, lo, hi);
    if e.len() == 0 {
        return Ok(".".to_owned());
    }
    if starts_with_exec(&e, ".") || starts_with_exec(&e, "select(") || starts_with_exec(&e, "{")
        || starts_with_exec(&e, "[") {
        return Ok(string_from_chars(&e));
    }
    let es = string_from_chars(&e);
    let r = path_filter(es.as_str());
    proof {
        lemma_trim_idempotent(e@);
    }
    r
}

/// Trimming twice is trimming once.
pub proof fn lemma_trim_idempotent(s: Seq<char>)
    ensures
        trim(trim(s)) == trim(s),
{
    use_trim_bounds(s);
    let t = trim(s);
    use_trim_bounds(t);
    let a = crate::text::skip_ws_from(t, 0);
    if t.len() > 0 {
        assert(!crate::text::is_ws(t[0]));
        assert(a == 0);
        assert(!crate::text::is_ws(t[t.len() - 1]));
    } else {
        assert(a == 0);
    }
    assert(trim(t) =~= t);
}

/// Where the trimmed text lies in `s`, and that it neither starts nor ends
/// with whitespace.
pub proof fn use_trim_bounds(s: Seq<char>)
    ensures
        ({
            let a = crate::text::skip_ws_from(s, 0);
            let b = crate::text::back_ws_from(s, a, s.len() as int);
            &&& 0 <= a <= b <= s.len()
            &&& trim(s) == s.subrange(a, b)
            &&& (b > a ==> !crate::text::is_ws(s[a]) && !crate::text::is_ws(s[b - 1]))
        }),
{
    let a = crate::text::skip_ws_from(s, 0);
    crate::text::lemma_skip_ws_bounds(s, 0);
    crate::text::lemma_back_ws_bounds(s, a, s.len() as int);
}

/// The cases of an explore filter expression, on its trimmed text `e`: an
/// empty expression is `.`; jq (starting with `.` or `select(`) passes
/// through; a condition becomes a `select` over `.` (and fails when it is
/// not of the form FIELD OP VALUE); anything else is a field path, which
/// never fails.
pub proof fn law_expression_cases(expression: Seq<char>)
    ensures
        ({
            let e = trim(expression);
            let jq = starts_with(e, "."@) || starts_with(e, "select("@);
            &&& e.len() == 0 ==> expression_spec(expression) == Ok::<Seq<char>, Seq<char>>("."@)
            &&& e.len() > 0 && jq ==> expression_spec(expression) == Ok::<Seq<char>, Seq<char>>(e)
            &&& e.len() > 0 && !jq && has_operator(e) ==> expression_spec(expression) == apply_where_spec(
                "."@,
                seq![e],
            )
            &&& e.len() > 0 && !jq && !has_operator(e) ==> expression_spec(expression)
                == Ok::<Seq<char>, Seq<char>>(path_to_jq_spec(e))
        }),
{
    lemma_trim_idempotent(expression);
}

/// An explore output expression never fails: on its trimmed text `e`, an
/// empty expression is `.`; jq (starting with `.`, `select(`, `{` or `[`)
/// passes through; anything else is a field path, so a condition such as
/// `a=b` is read as a key and not expanded.
pub proof fn law_output_expression_never_fails(expression: Seq<char>)
    ensures
        output_expression_spec(expression) is Ok,
        ({
            let e = trim(expression);
            let jq = starts_with(e, "."@) || starts_with(e, "select("@) || starts_with(e, "{"@)
                || starts_with(e, "["@);
            &&& e.len() == 0 ==> output_expression_spec(expression) == Ok::<Seq<char>, Seq<char>>("."@)
            &&& e.len() > 0 && jq ==> output_expression_spec(expression) == Ok::<Seq<char>, Seq<char>>(e)
            &&& e.len() > 0 && !jq ==> output_expression_spec(expression) == Ok::<Seq<char>, Seq<char>>(
                path_to_jq_spec(e),
            )
        }),
{
    lemma_trim_idempotent(expression);
}

proof fn lemma_escape_all_len(v: Seq<char>)
    ensures
        escape_all(v).len() >= v.len(),
    decreases v.len(),
{
    if v.len() > 0 {
        lemma_escape_all_len(v.drop_last());
    }
}

/// How a shortcut value is written in jq: the keywords `true`, `false` and
/// `null`, numbers and already quoted strings are kept exactly as written
/// (so `enabled=false` tests for the boolean, not the string); any other
/// value becomes a double-quoted string literal at least two characters
/// longer than the value.
pub proof fn law_literal_keeps_keywords_and_numbers(v: Seq<char>)
    ensures
        v == "true"@ || v == "false"@ || v == "null"@ || number_syntax(v) || is_quoted_spec(v) ==> literal_spec(v)
            == v,
        !(v == "true"@ || v == "false"@ || v == "null"@ || number_syntax(v) || is_quoted_spec(v)) ==> ({
            let l = literal_spec(v);
            &&& l.len() >= v.len() + 2
            &&& l[0] == '"'
            &&& l[l.len() - 1] == '"'
        }),
{
    lemma_escape_all_len(v);
}

proof fn lemma_escape_plain(v: Seq<char>)
    requires
        !v.contains('"'),
        !v.contains('\\'),
    ensures
        escape_all(v) == v,
    decreases v.len(),
{
    if v.len() > 0 {
        assert(!v.drop_last().contains('"')) by {
            if v.drop_last().contains('"') {
                let k = choose|k: int| 0 <= k < v.drop_last().len() && v.drop_last()[k] == '"';
                assert(v[k] == '"');
            }
        }
        assert(!v.drop_last().contains('\\')) by {
            if v.drop_last().contains('\\') {
                let k = choose|k: int| 0 <= k < v.drop_last().len() && v.drop_last()[k] == '\\';
                assert(v[k] == '\\');
            }
        }
        lemma_escape_plain(v.drop_last());
        assert(v.contains(v.last()));
        assert(escape_all(v) =~= v);
    }
}

/// A value that is neither a keyword, a number nor already quoted becomes
/// a jq string literal: in double quotes, with each backslash and double
/// quote escaped by a backslash, and every other character as it is.
pub proof fn law_literal_quotes_other_values(v: Seq<char>)
    requires
        !(v == "true"@ || v == "false"@ || v == "null"@ || number_syntax(v) || is_quoted_spec(v)),
    ensures
        !v.contains('"') && !v.contains('\\') ==> literal_spec(v) == seq!['"'] + v + seq!['"'],
        forall|c: char| c != '"' && c != '\\' ==> escape_all(v.push(c)) == escape_all(v).push(c),
        escape_all(v.push('"')) == escape_all(v) + seq!['\\', '"'],
        escape_all(v.push('\\')) == escape_all(v) + seq!['\\', '\\'],
{
    if !v.contains('"') && !v.contains('\\') {
        lemma_escape_plain(v);
    }
    assert forall|c: char| c != '"' && c != '\\' implies escape_all(v.push(c)) == escape_all(v).push(c) by {
        assert(v.push(c).drop_last() =~= v);
        assert(escape_all(v).push(c) =~= escape_all(v) + seq![c]);
    }
    assert(v.push('"').drop_last() =~= v);
    assert(v.push('\\').drop_last() =~= v);
}

/// The shortcut operators keep their jq meaning: `=` tests equality as
/// `==`, and `!=`, `>=`, `<=`, `>` and `<` are written as they are.
pub proof fn law_operators_keep_their_meaning()
    ensures
        jq_operator("="@) == "=="@,
        jq_operator("!="@) == "!="@,
        jq_operator(">="@) == ">="@,
        jq_operator("<="@) == "<="@,
        jq_operator(">"@) == ">"@,
        jq_operator("<"@) == "<"@,
{
    reveal_strlit("=");
    reveal_strlit("!=");
    reveal_strlit(">=");
    reveal_strlit("<=");
    reveal_strlit(">");
    reveal_strlit("<");
    assert("="@.len() == 1 && "<"@.len() == 1 && ">"@.len() == 1 && "="@[0] == '=');
    assert("!="@.len() == 2 && ">="@.len() == 2 && "<="@.len() == 2);
}

} // verus!
