//! ANSI colouring: log levels to colours, and JSON syntax highlighting.

use vstd::prelude::*;
use crate::cli::Cli;
use crate::engine::{lossy_string, lossy_text};
use crate::shortcuts::{pieces_view, split_dots, split_dots_exec, use_trim_bounds};
use crate::value::{get_spec, object_get, Value};
use vstd::utf8::encode_utf8;
use crate::text::{
    ascii_upper, ascii_upper_exec, chars_eq_str, is_ascii_digit, is_ws, is_ws_exec,
    back_ws_from, lemma_skip_ws_bounds, push_char, skip_ws_from, string_from_chars, to_chars, trim, trim_bounds,
};

verus! {

/// SGR code: cyan foreground.
pub const CYAN: &'static str = "\u{1b}[36m";
/// SGR code: green foreground.
pub const GREEN: &'static str = "\u{1b}[32m";
/// SGR code: blue foreground.
pub const BLUE: &'static str = "\u{1b}[34m";
/// SGR code: yellow foreground.
pub const YELLOW: &'static str = "\u{1b}[33m";
/// SGR code: magenta foreground.
pub const MAGENTA: &'static str = "\u{1b}[35m";
/// SGR code: red foreground.
pub const RED: &'static str = "\u{1b}[31m";
/// SGR code: bold red foreground.
pub const BOLD_RED: &'static str = "\u{1b}[1;31m";
/// SGR code: reset all attributes.
pub const RESET: &'static str = "\u{1b}[0m";

// ---------------------------------------------------------------------
// Log levels
// ---------------------------------------------------------------------

/// ASCII upper-casing of every character.
pub open spec fn upper_all(s: Seq<char>) -> Seq<char> {
    s.map_values(|c: char| ascii_upper(c))
}

/// The colour code for a log level name (compared after trimming and ASCII
/// upper-casing), or `None` for an unknown level.
pub open spec fn level_color_spec(level: Seq<char>) -> Option<Seq<char>> {
    let u = upper_all(trim(level));
    if u == "TRACE"@ {
        Some(MAGENTA@)
    } else if u == "DEBUG"@ {
        Some(BLUE@)
    } else if u == "INFO"@ || u == "INFORMATION"@ || u == "NOTICE"@ {
        Some(CYAN@)
    } else if u == "WARN"@ || u == "WARNING"@ {
        Some(YELLOW@)
    } else if u == "ERROR"@ || u == "ERR"@ {
        Some(RED@)
    } else if u == "FATAL"@ || u == "CRITICAL"@ || u == "CRIT"@ || u == "ALERT"@ || u
        == "EMERGENCY"@ {
        Some(BOLD_RED@)
    } else {
        None
    }
}

proof fn lemma_trim_of_bare(x: Seq<char>)
    requires
        x.len() > 0 ==> !is_ws(x[0]) && !is_ws(x[x.len() - 1]),
    ensures
        trim(x) == x,
{
    assert(skip_ws_from(x, 0) == 0);
    assert(back_ws_from(x, 0, x.len() as int) == x.len());
    assert(x.subrange(0, x.len() as int) =~= x);
}

/// The colour of a level name does not depend on its case or on the space
/// around it: it is the colour of the trimmed, upper-cased name.
pub proof fn law_level_color_ignores_case_and_space(level: Seq<char>)
    ensures
        level_color_spec(level) == level_color_spec(upper_all(trim(level))),
{
    let t = trim(level);
    let u = upper_all(t);
    use_trim_bounds(level);
    assert(u.len() == t.len());
    if t.len() > 0 {
        assert(u[0] == ascii_upper(t[0]));
        assert(u[u.len() - 1] == ascii_upper(t[t.len() - 1]));
    }
    lemma_trim_of_bare(u);
    assert(upper_all(u) =~= u);
}

/// The view of an optional static string.
pub open spec fn opt_str_view(o: Option<&'static str>) -> Option<Seq<char>> {
    match o {
        Some(s) => Some(s@),
        None => None,
    }
}

/// The colour for a log level name such as `warn` or ` ERROR `.
pub fn color_for_level(level: &str) -> (r: Option<&'static str>)
    ensures
        opt_str_view(r) == level_color_spec(level@),
{
    let v = to_chars(level);
    let (lo, hi) = trim_bounds(&v);
    let mut u: Vec<char> = Vec::new();
    let mut i = lo;
    while i < hi
        invariant
            lo <= i <= hi <= v.len(),
            u@ == upper_all(v@.subrange(lo as int, i as int)),
        decreases hi - i,
    {
        u.push(ascii_upper_exec(v[i]));
        assert(v@.subrange(lo as int, i + 1) == v@.subrange(lo as int, i as int).push(v@[i as int]));
        assert(upper_all(v@.subrange(lo as int, i + 1)) =~= upper_all(
            v@.subrange(lo as int, i as int),
        ).push(ascii_upper(v@[i as int])));
        i = i + 1;
    }
    assert(u@ == upper_all(trim(level@)));
    if chars_eq_str(&u, "TRACE") {
        Some(MAGENTA)
    } else if chars_eq_str(&u, "DEBUG") {
        Some(BLUE)
    } else if chars_eq_str(&u, "INFO") || chars_eq_str(&u, "INFORMATION") || chars_eq_str(
        &u,
        "NOTICE",
    ) {
        Some(CYAN)
    } else if chars_eq_str(&u, "WARN") || chars_eq_str(&u, "WARNING") {
        Some(YELLOW)
    } else if chars_eq_str(&u, "ERROR") || chars_eq_str(&u, "ERR") {
        Some(RED)
    } else if chars_eq_str(&u, "FATAL") || chars_eq_str(&u, "CRITICAL") || chars_eq_str(
        &u,
        "CRIT",
    ) || chars_eq_str(&u, "ALERT") || chars_eq_str(&u, "EMERGENCY") {
        Some(BOLD_RED)
    } else {
        None
    }
}

// ---------------------------------------------------------------------
// Colouring output lines by the level of their source document
// ---------------------------------------------------------------------

/// The fields consulted, in order, when no level field is configured.
pub open spec fn default_level_fields() -> Seq<Seq<char>> {
    seq!["log.level"@, "level"@, "severity"@, "severity_text"@, "severityText"@]
}

fn default_level_field(k: usize) -> (r: &'static str)
    requires
        k < 5,
    ensures
        r@ == default_level_fields()[k as int],
{
    if k == 0 {
        "log.level"
    } else if k == 1 {
        "level"
    } else if k == 2 {
        "severity"
    } else if k == 3 {
        "severity_text"
    } else {
        "severityText"
    }
}

/// Follows the object keys `parts` from `v`.
pub open spec fn walk_spec(v: Value, parts: Seq<Seq<char>>) -> Option<Value>
    decreases parts.len(),
{
    if parts.len() == 0 {
        Some(v)
    } else {
        match v {
            Value::Obj(entries) => match get_spec(entries@, encode_utf8(parts[0])) {
                Some(next) => walk_spec(next, parts.drop_first()),
                None => None,
            },
            _ => None,
        }
    }
}

/// The value of a field of an object: the key `field` itself when present,
/// else the nested path of its dot-separated parts.
pub open spec fn field_value_spec(v: Value, field: Seq<char>) -> Option<Value> {
    match v {
        Value::Obj(entries) => match get_spec(entries@, encode_utf8(field)) {
            Some(x) => Some(x),
            None => walk_spec(v, split_dots(field)),
        },
        _ => None,
    }
}

/// The text of a scalar: strings (decoded, invalid UTF-8 replaced),
/// booleans and numbers; `None` for anything else.
pub open spec fn scalar_text_spec(v: Value) -> Option<Seq<char>> {
    match v {
        Value::TStr(b) => Some(lossy_text(b@)),
        Value::BStr(b) => Some(lossy_text(b@)),
        Value::Bool(b) => Some(
            if b {
                "true"@
            } else {
                "false"@
            },
        ),
        Value::Num(n) => Some(n.text@),
        _ => None,
    }
}

/// The scalar text of a field, if the field is present and a scalar.
pub open spec fn field_text_spec(v: Value, field: Seq<char>) -> Option<Seq<char>> {
    match field_value_spec(v, field) {
        Some(x) => scalar_text_spec(x),
        None => None,
    }
}

/// The first default level field, from position `k` on, with scalar text.
pub open spec fn default_level_from(v: Value, k: int) -> Option<Seq<char>>
    decreases 5 - k,
{
    if k < 0 || k >= 5 {
        None
    } else {
        match field_text_spec(v, default_level_fields()[k]) {
            Some(t) => Some(t),
            None => default_level_from(v, k + 1),
        }
    }
}

/// The level of a document: the configured field when one is given and
/// non-empty, else the first of the default fields that holds a scalar.
pub open spec fn level_value_spec(v: Value, field: Option<Seq<char>>) -> Option<Seq<char>> {
    match field {
        Some(f) if f.len() > 0 => field_text_spec(v, f),
        _ => default_level_from(v, 0),
    }
}

/// The colour code for the level of a document, when colouring is enabled.
pub open spec fn level_code_spec(v: Value, enabled: bool, field: Option<Seq<char>>) -> Option<Seq<char>> {
    if !enabled {
        None
    } else {
        match level_value_spec(v, field) {
            Some(l) => level_color_spec(l),
            None => None,
        }
    }
}

/// `text` wrapped in the colour of its document's level.
pub open spec fn colorize_by_level_spec(
    text: Seq<char>,
    v: Value,
    enabled: bool,
    field: Option<Seq<char>>,
) -> Option<Seq<char>> {
    match level_code_spec(v, enabled, field) {
        Some(c) => Some(c + text + RESET@),
        None => None,
    }
}

/// The view of an optional string slice.
pub open spec fn opt_str_ref_view(o: Option<&str>) -> Option<Seq<char>> {
    match o {
        Some(s) => Some(s@),
        None => None,
    }
}

/// The bytes of the UTF-8 encoding of a character sequence.
fn utf8_bytes(v: &Vec<char>) -> (r: Vec<u8>)
    ensures
        r@ == encode_utf8(v@),
{
    let s = string_from_chars(v);
    let b = s.as_str().as_bytes();
    let mut r: Vec<u8> = Vec::new();
    let mut i: usize = 0;
    while i < b.len()
        invariant
            i <= b.len(),
            r@ == b@.take(i as int),
        decreases b.len() - i,
    {
        r.push(b[i]);
        assert(r@ =~= b@.take(i + 1));
        i = i + 1;
    }
    assert(b@.take(b.len() as int) == b@);
    r
}

/// The value of `field` in an object document (see `field_value_spec`).
fn field_value<'a>(value: &'a Value, field: &str) -> (r: Option<&'a Value>)
    ensures
        match r {
            Some(x) => field_value_spec(*value, field@) == Some(*x),
            None => field_value_spec(*value, field@) is None,
        },
{
    match value {
        Value::Obj(map) => {
            let direct = object_get(map, field.as_bytes());
            if direct.is_some() {
                return direct;
            }
            let chars = to_chars(field);
            let parts = split_dots_exec(&chars);
            let ghost pv = pieces_view(parts@);
            let mut current: &'a Value = value;
            let mut i: usize = 0;
            assert(pv.skip(0) == pv);
            while i < parts.len()
                invariant
                    i <= parts.len(),
                    pv == pieces_view(parts@),
                    pv == split_dots(field@),
                    walk_spec(*value, pv) == walk_spec(*current, pv.skip(i as int)),
                    field_value_spec(*value, field@) == walk_spec(*value, pv),
                decreases parts.len() - i,
            {
                let ghost rest = pv.skip(i as int);
                proof {
                    assert(rest.len() > 0);
                    assert(rest[0] == parts@[i as int]@);
                    assert(rest.drop_first() == pv.skip(i + 1));
                }
                match current {
                    Value::Obj(m) => {
                        let key = utf8_bytes(&parts[i]);
                        match object_get(m, key.as_slice()) {
                            Some(next) => {
                                proof {
                                    assert(walk_spec(*current, rest) == walk_spec(*next, rest.drop_first()));
                                }
                                current = next;
                            },
                            None => {
                                proof {
                                    assert(walk_spec(*current, rest) is None);
                                }
                                return None;
                            },
                        }
                    },
                    _ => {
                        proof {
                            assert(walk_spec(*current, rest) is None);
                        }
                        return None;
                    },
                }
                i = i + 1;
            }
            proof {
                assert(pv.skip(parts.len() as int).len() == 0);
            }
            Some(current)
        },
        _ => None,
    }
}

/// The text of a scalar value (see `scalar_text_spec`).
fn scalar_text(value: &Value) -> (r: Option<String>)
    ensures
        crate::input::opt_string_view(r) == scalar_text_spec(*value),
{
    match value {
        Value::TStr(bytes) => Some(lossy_string(bytes.as_slice())),
        Value::BStr(bytes) => Some(lossy_string(bytes.as_slice())),
        Value::Bool(b) => Some(
            if *b {
                "true".to_owned()
            } else {
                "false".to_owned()
            },
        ),
        Value::Num(n) => Some(n.text.clone()),
        _ => None,
    }
}

fn field_text(value: &Value, field: &str) -> (r: Option<String>)
    ensures
        crate::input::opt_string_view(r) == field_text_spec(*value, field@),
{
    match field_value(value, field) {
        Some(x) => scalar_text(x),
        None => None,
    }
}

/// The level text of a document (see `level_value_spec`).
fn level_value(source: &Value, field: Option<&str>) -> (r: Option<String>)
    ensures
        crate::input::opt_string_view(r) == level_value_spec(*source, opt_str_ref_view(field)),
{
    if let Some(f) = field {
        if !f.is_empty() {
            return field_text(source, f);
        }
    }
    let mut k: usize = 0;
    while k < 5
        invariant
            k <= 5,
            default_level_from(*source, k as int) == default_level_from(*source, 0),
            level_value_spec(*source, opt_str_ref_view(field)) == default_level_from(*source, 0),
        decreases 5 - k,
    {
        let t = field_text(source, default_level_field(k));
        if t.is_some() {
            return t;
        }
        k = k + 1;
    }
    None
}

/// The colour code for the level of a document, when level colouring is
/// requested and not disabled (the environment is not consulted).
pub fn color_code_by_level(source: &Value, color_level: bool, no_color: bool, field: Option<&str>) -> (r: Option<&'static str>)
    ensures
        opt_str_view(r) == level_code_spec(*source, color_level && !no_color, opt_str_ref_view(field)),
{
    if !(color_level && !no_color) {
        return None;
    }
    match level_value(source, field) {
        Some(level) => color_for_level(level.as_str()),
        None => None,
    }
}

/// `text` wrapped in the colour of its document's level, when level
/// colouring is requested and not disabled.
pub fn colorize_by_level_with(
    text: &str,
    source: &Value,
    color_level: bool,
    no_color: bool,
    field: Option<&str>,
) -> (r: Option<String>)
    ensures
        crate::input::opt_string_view(r) == colorize_by_level_spec(
            text@,
            *source,
            color_level && !no_color,
            opt_str_ref_view(field),
        ),
{
    match color_code_by_level(source, color_level, no_color, field) {
        Some(code) => {
            let mut out = code.to_owned();
            out.append(text);
            out.append(RESET);
            Some(out)
        },
        None => None,
    }
}

/// `text` coloured by the level of `source`, as the command line asks.
pub fn colorize_by_level(text: &str, source: &Value, cli: &Cli) -> (r: Option<String>)
    ensures
        crate::input::opt_string_view(r) == colorize_by_level_spec(
            text@,
            *source,
            cli.use_level_color_spec(),
            crate::input::opt_string_view(cli.color_level_field),
        ),
{
    if !cli.use_level_color() {
        return None;
    }
    match &cli.color_level_field {
        Some(f) => colorize_by_level_with(text, source, true, false, Some(f.as_str())),
        None => colorize_by_level_with(text, source, true, false, None),
    }
}

// ---------------------------------------------------------------------
// JSON highlighting
// ---------------------------------------------------------------------

/// Index just past the closing quote of a string whose body starts at `j`
/// (`escaped` when the previous character was an unconsumed backslash), or
/// `s.len()` when the string is not closed.
pub open spec fn string_end(s: Seq<char>, j: int, escaped: bool) -> int
    decreases s.len() - j,
{
    if j < 0 || j >= s.len() {
        s.len() as int
    } else if escaped {
        string_end(s, j + 1, false)
    } else if s[j] == '\\' {
        string_end(s, j + 1, true)
    } else if s[j] == '"' {
        j + 1
    } else {
        string_end(s, j + 1, false)
    }
}

/// A character that continues a number: digit, `.`, `e`, `E`, `+`, `-`.
pub open spec fn is_number_char(c: char) -> bool {
    is_ascii_digit(c) || c == '.' || c == 'e' || c == 'E' || c == '+' || c == '-'
}

/// Index just past the run of number characters starting at `j`.
pub open spec fn number_end(s: Seq<char>, j: int) -> int
    decreases s.len() - j,
{
    if 0 <= j < s.len() && is_number_char(s[j]) {
        number_end(s, j + 1)
    } else {
        j
    }
}

/// The string token ending at `e` is an object key: after optional
/// whitespace, a `:` follows.
pub open spec fn followed_by_colon(s: Seq<char>, e: int) -> bool {
    let k = skip_ws_from(s, e);
    0 <= k < s.len() && s[k] == ':'
}

/// `s[i..]` starts with `word`.
pub open spec fn word_at(s: Seq<char>, i: int, word: Seq<char>) -> bool {
    0 <= i && i + word.len() <= s.len() && s.subrange(i, i + word.len()) == word
}

/// The highlighted form of `s[i..]`: strings in green (object keys in cyan),
/// numbers in yellow, `true`/`false`/`null` in magenta, each followed by a
/// reset; every other character is copied.
pub open spec fn colorize_from(s: Seq<char>, i: int) -> Seq<char>
    decreases s.len() - i,
{
    if i < 0 || i >= s.len() {
        Seq::empty()
    } else {
        let c = s[i];
        if c == '"' {
            let e = string_end(s, i + 1, false);
            if e <= i || e > s.len() {
                Seq::empty()
            } else {
                (if followed_by_colon(s, e) {
                    CYAN@
                } else {
                    GREEN@
                }) + s.subrange(i, e) + RESET@ + colorize_from(s, e)
            }
        } else if c == '-' || is_ascii_digit(c) {
            let e = number_end(s, i + 1);
            if e <= i || e > s.len() {
                Seq::empty()
            } else {
                YELLOW@ + s.subrange(i, e) + RESET@ + colorize_from(s, e)
            }
        } else if c == 't' && word_at(s, i, "true"@) {
            proof {
                reveal_strlit("true");
            }
            MAGENTA@ + "true"@ + RESET@ + colorize_from(s, i + 4)
        } else if c == 'f' && word_at(s, i, "false"@) {
            proof {
                reveal_strlit("false");
            }
            MAGENTA@ + "false"@ + RESET@ + colorize_from(s, i + 5)
        } else if c == 'n' && word_at(s, i, "null"@) {
            proof {
                reveal_strlit("null");
            }
            MAGENTA@ + "null"@ + RESET@ + colorize_from(s, i + 4)
        } else {
            seq![c] + colorize_from(s, i + 1)
        }
    }
}

/// The highlighted form of a JSON text.
pub open spec fn colorize_spec(s: Seq<char>) -> Seq<char> {
    colorize_from(s, 0)
}

proof fn lemma_string_end(s: Seq<char>, j: int, escaped: bool)
    requires
        0 <= j <= s.len(),
    ensures
        j <= string_end(s, j, escaped) <= s.len(),
        j < s.len() ==> j < string_end(s, j, escaped),
    decreases s.len() - j,
{
    if j < s.len() {
        if escaped {
            lemma_string_end(s, j + 1, false);
        } else if s[j] == '\\' {
            lemma_string_end(s, j + 1, true);
        } else if s[j] != '"' {
            lemma_string_end(s, j + 1, false);
        }
    }
}

proof fn lemma_number_end(s: Seq<char>, j: int)
    requires
        0 <= j <= s.len(),
    ensures
        j <= number_end(s, j) <= s.len(),
    decreases s.len() - j,
{
    if j < s.len() && is_number_char(s[j]) {
        lemma_number_end(s, j + 1);
    }
}

/// Appends `v[lo..hi]` to `out`.
fn push_range(out: &mut String, v: &Vec<char>, lo: usize, hi: usize)
    requires
        lo <= hi <= v.len(),
    ensures
        final(out)@ == old(out)@ + v@.subrange(lo as int, hi as int),
{
    crate::text::append_range(out, v, lo, hi);
}

/// Index past the closing quote of the string whose body starts at `j`.
fn scan_string(v: &Vec<char>, j: usize) -> (e: usize)
    requires
        j <= v.len(),
    ensures
        e == string_end(v@, j as int, false),
{
    let mut k = j;
    let mut escaped = false;
    while k < v.len()
        invariant
            j <= k <= v.len(),
            string_end(v@, k as int, escaped) == string_end(v@, j as int, false),
        decreases v.len() - k,
    {
        if escaped {
            escaped = false;
        } else if v[k] == '\\' {
            escaped = true;
        } else if v[k] == '"' {
            return k + 1;
        }
        k = k + 1;
    }
    k
}

/// Index past the run of number characters starting at `j`.
fn scan_number(v: &Vec<char>, j: usize) -> (e: usize)
    requires
        j <= v.len(),
    ensures
        e == number_end(v@, j as int),
{
    let mut k = j;
    while k < v.len() && (('0' <= v[k] && v[k] <= '9') || v[k] == '.' || v[k] == 'e' || v[k]
        == 'E' || v[k] == '+' || v[k] == '-')
        invariant
            j <= k <= v.len(),
            number_end(v@, k as int) == number_end(v@, j as int),
        decreases v.len() - k,
    {
        k = k + 1;
    }
    k
}

/// Whether a `:` follows index `e` after optional whitespace.
fn colon_follows(v: &Vec<char>, e: usize) -> (r: bool)
    requires
        e <= v.len(),
    ensures
        r == followed_by_colon(v@, e as int),
{
    let mut k = e;
    while k < v.len() && is_ws_exec(v[k])
        invariant
            e <= k <= v.len(),
            skip_ws_from(v@, k as int) == skip_ws_from(v@, e as int),
        decreases v.len() - k,
    {
        k = k + 1;
    }
    k < v.len() && v[k] == ':'
}

/// Whether `word` starts at index `i` of `v`.
fn word_at_exec(v: &Vec<char>, i: usize, word: &str) -> (r: bool)
    requires
        i <= v.len(),
    ensures
        r == word_at(v@, i as int, word@),
{
    let w = to_chars(word);
    crate::text::occurs_at_exec(v, &w, i)
}

/// JSON text with ANSI syntax highlighting: strings green (object keys
/// cyan), numbers yellow, literals magenta.
pub fn colorize_json(json: &str) -> (r: String)
    ensures
        r@ == colorize_spec(json@),
{
    let v = to_chars(json);
    let n = v.len();
    let mut out = String::new();
    let mut i: usize = 0;
    while i < n
        invariant
            n == v.len(),
            i <= n,
            v@ == json@,
            out@ + colorize_from(v@, i as int) == colorize_spec(v@),
        decreases n - i,
    {
        let ghost before = out@;
        let c = v[i];
        if c == '"' {
            let e = scan_string(&v, i + 1);
            proof {
                lemma_string_end(v@, i + 1, false);
            }
            let key = colon_follows(&v, e);
            if key {
                out.append(CYAN);
            } else {
                out.append(GREEN);
            }
            push_range(&mut out, &v, i, e);
            out.append(RESET);
            proof {
                let code = if key {
                    CYAN@
                } else {
                    GREEN@
                };
                assert(out@ == before + code + v@.subrange(i as int, e as int) + RESET@);
                assert(colorize_from(v@, i as int) == code + v@.subrange(i as int, e as int)
                    + RESET@ + colorize_from(v@, e as int));
                assert(out@ + colorize_from(v@, e as int) =~= before + colorize_from(
                    v@,
                    i as int,
                ));
            }
            i = e;
        } else if c == '-' || ('0' <= c && c <= '9') {
            let e = scan_number(&v, i + 1);
            proof {
                lemma_number_end(v@, i + 1);
            }
            out.append(YELLOW);
            push_range(&mut out, &v, i, e);
            out.append(RESET);
            proof {
                assert(out@ + colorize_from(v@, e as int) =~= before + colorize_from(
                    v@,
                    i as int,
                ));
            }
            i = e;
        } else if c == 't' && word_at_exec(&v, i, "true") {
            out.append(MAGENTA);
            out.append("true");
            out.append(RESET);
            proof {
                reveal_strlit("true");
                assert(out@ + colorize_from(v@, i + 4) =~= before + colorize_from(v@, i as int));
            }
            i = i + 4;
        } else if c == 'f' && word_at_exec(&v, i, "false") {
            out.append(MAGENTA);
            out.append("false");
            out.append(RESET);
            proof {
                reveal_strlit("false");
                assert(out@ + colorize_from(v@, i + 5) =~= before + colorize_from(v@, i as int));
            }
            i = i + 5;
        } else if c == 'n' && word_at_exec(&v, i, "null") {
            out.append(MAGENTA);
            out.append("null");
            out.append(RESET);
            proof {
                reveal_strlit("null");
                assert(out@ + colorize_from(v@, i + 4) =~= before + colorize_from(v@, i as int));
            }
            i = i + 4;
        } else {
            push_char(&mut out, c);
            proof {
                assert(out@ + colorize_from(v@, i + 1) =~= before + colorize_from(v@, i as int));
            }
            i = i + 1;
        }
    }
    assert(colorize_from(v@, i as int) == Seq::<char>::empty());
    assert(out@ =~= colorize_spec(json@));
    out
}

// ---------------------------------------------------------------------
// Highlighting only decorates
// ---------------------------------------------------------------------

/// One of the five codes that highlighting inserts.
pub open spec fn is_highlight_code(code: Seq<char>) -> bool {
    code == CYAN@ || code == GREEN@ || code == YELLOW@ || code == MAGENTA@ || code == RESET@
}

/// The length of the highlighting code that `x` starts with, or 0.
pub open spec fn leading_code_len(x: Seq<char>) -> nat {
    if CYAN@.is_prefix_of(x) {
        CYAN@.len()
    } else if GREEN@.is_prefix_of(x) {
        GREEN@.len()
    } else if YELLOW@.is_prefix_of(x) {
        YELLOW@.len()
    } else if MAGENTA@.is_prefix_of(x) {
        MAGENTA@.len()
    } else if RESET@.is_prefix_of(x) {
        RESET@.len()
    } else {
        0
    }
}

/// `x` with every occurrence of the highlighting codes (cyan, green,
/// yellow, magenta and reset) removed, read from the left.
pub open spec fn strip_codes(x: Seq<char>) -> Seq<char>
    decreases x.len(),
{
    if x.len() == 0 {
        Seq::empty()
    } else {
        let k = leading_code_len(x);
        if 0 < k <= x.len() {
            strip_codes(x.skip(k as int))
        } else {
            seq![x[0]] + strip_codes(x.drop_first())
        }
    }
}

proof fn lemma_prefix_at(c: Seq<char>, x: Seq<char>, k: int)
    requires
        c.is_prefix_of(x),
        0 <= k < c.len(),
    ensures
        c[k] == x[k],
{
    assert(c[k] == x.subrange(0, c.len() as int)[k]);
}

proof fn lemma_code_literals()
    ensures
        CYAN@ == seq!['\u{1b}', '[', '3', '6', 'm'],
        GREEN@ == seq!['\u{1b}', '[', '3', '2', 'm'],
        YELLOW@ == seq!['\u{1b}', '[', '3', '3', 'm'],
        MAGENTA@ == seq!['\u{1b}', '[', '3', '5', 'm'],
        RESET@ == seq!['\u{1b}', '[', '0', 'm'],
        !"true"@.contains('\u{1b}'),
        !"false"@.contains('\u{1b}'),
        !"null"@.contains('\u{1b}'),
{
    reveal_strlit("\u{1b}[36m");
    reveal_strlit("\u{1b}[32m");
    reveal_strlit("\u{1b}[33m");
    reveal_strlit("\u{1b}[35m");
    reveal_strlit("\u{1b}[0m");
    reveal_strlit("true");
    reveal_strlit("false");
    reveal_strlit("null");
}

/// Facts about `x`'s first characters decide which code it starts with.
proof fn lemma_leading_facts(x: Seq<char>)
    ensures
        CYAN@.is_prefix_of(x) ==> x[0] == '\u{1b}' && x[2] == '3' && x[3] == '6',
        GREEN@.is_prefix_of(x) ==> x[0] == '\u{1b}' && x[2] == '3' && x[3] == '2',
        YELLOW@.is_prefix_of(x) ==> x[0] == '\u{1b}' && x[2] == '3' && x[3] == '3',
        MAGENTA@.is_prefix_of(x) ==> x[0] == '\u{1b}' && x[2] == '3' && x[3] == '5',
        RESET@.is_prefix_of(x) ==> x[0] == '\u{1b}' && x[2] == '0',
{
    lemma_code_literals();
    if CYAN@.is_prefix_of(x) {
        lemma_prefix_at(CYAN@, x, 0);
        lemma_prefix_at(CYAN@, x, 2);
        lemma_prefix_at(CYAN@, x, 3);
    }
    if GREEN@.is_prefix_of(x) {
        lemma_prefix_at(GREEN@, x, 0);
        lemma_prefix_at(GREEN@, x, 2);
        lemma_prefix_at(GREEN@, x, 3);
    }
    if YELLOW@.is_prefix_of(x) {
        lemma_prefix_at(YELLOW@, x, 0);
        lemma_prefix_at(YELLOW@, x, 2);
        lemma_prefix_at(YELLOW@, x, 3);
    }
    if MAGENTA@.is_prefix_of(x) {
        lemma_prefix_at(MAGENTA@, x, 0);
        lemma_prefix_at(MAGENTA@, x, 2);
        lemma_prefix_at(MAGENTA@, x, 3);
    }
    if RESET@.is_prefix_of(x) {
        lemma_prefix_at(RESET@, x, 0);
        lemma_prefix_at(RESET@, x, 2);
    }
}

/// A highlighting code followed by anything is removed as a whole.
proof fn lemma_strip_code(code: Seq<char>, b: Seq<char>)
    requires
        is_highlight_code(code),
    ensures
        strip_codes(code + b) == strip_codes(b),
{
    lemma_code_literals();
    let x = code + b;
    assert(x.subrange(0, code.len() as int) =~= code);
    assert(code.is_prefix_of(x));
    assert(x[2] == code[2] && x[3] == code[3]);
    lemma_leading_facts(x);
    assert(leading_code_len(x) == code.len());
    assert(x.skip(code.len() as int) =~= b);
}

/// Text without escape characters passes through `strip_codes` unchanged.
proof fn lemma_strip_plain_prefix(a: Seq<char>, b: Seq<char>)
    requires
        !a.contains('\u{1b}'),
    ensures
        strip_codes(a + b) == a + strip_codes(b),
    decreases a.len(),
{
    if a.len() > 0 {
        let x = a + b;
        assert(x[0] == a[0]);
        lemma_leading_facts(x);
        assert(leading_code_len(x) == 0);
        assert(x.drop_first() == a.drop_first() + b);
        assert(!a.drop_first().contains('\u{1b}')) by {
            if a.drop_first().contains('\u{1b}') {
                let k = choose|k: int| 0 <= k < a.drop_first().len() && a.drop_first()[k] == '\u{1b}';
                assert(a[k + 1] == '\u{1b}');
            }
        }
        lemma_strip_plain_prefix(a.drop_first(), b);
        assert(a == seq![a[0]] + a.drop_first());
    } else {
        assert(a + b == b);
    }
}

proof fn lemma_strip_colorize_from(s: Seq<char>, i: int)
    requires
        0 <= i <= s.len(),
        !s.contains('\u{1b}'),
    ensures
        strip_codes(colorize_from(s, i)) == s.skip(i),
    decreases s.len() - i,
{
    lemma_code_literals();
    if i == s.len() {
        assert(s.skip(i) == Seq::<char>::empty());
        return;
    }
    let c = s[i];
    if c == '"' || c == '-' || is_ascii_digit(c) {
        let e = if c == '"' {
            lemma_string_end(s, i + 1, false);
            string_end(s, i + 1, false)
        } else {
            lemma_number_end(s, i + 1);
            number_end(s, i + 1)
        };
        let code = if c == '"' {
            if followed_by_colon(s, e) {
                CYAN@
            } else {
                GREEN@
            }
        } else {
            YELLOW@
        };
        let tok = s.subrange(i, e);
        lemma_strip_colorize_from(s, e);
        assert(!tok.contains('\u{1b}')) by {
            if tok.contains('\u{1b}') {
                let k = choose|k: int| 0 <= k < tok.len() && tok[k] == '\u{1b}';
                assert(s[i + k] == '\u{1b}');
            }
        }
        assert(colorize_from(s, i) == code + tok + RESET@ + colorize_from(s, e));
        assert(code + tok + RESET@ + colorize_from(s, e) == code + (tok + (RESET@ + colorize_from(
            s,
            e,
        ))));
        lemma_strip_code(code, tok + (RESET@ + colorize_from(s, e)));
        lemma_strip_plain_prefix(tok, RESET@ + colorize_from(s, e));
        lemma_strip_code(RESET@, colorize_from(s, e));
        assert(tok + s.skip(e) =~= s.skip(i));
    } else if (c == 't' && word_at(s, i, "true"@)) || (c == 'f' && word_at(s, i, "false"@)) || (c
        == 'n' && word_at(s, i, "null"@)) {
        let w = if c == 't' {
            "true"@
        } else if c == 'f' {
            "false"@
        } else {
            "null"@
        };
        reveal_strlit("true");
        reveal_strlit("false");
        reveal_strlit("null");
        let e = i + w.len();
        lemma_strip_colorize_from(s, e);
        assert(colorize_from(s, i) == MAGENTA@ + w + RESET@ + colorize_from(s, e));
        assert(MAGENTA@ + w + RESET@ + colorize_from(s, e) == MAGENTA@ + (w + (RESET@
            + colorize_from(s, e))));
        lemma_strip_code(MAGENTA@, w + (RESET@ + colorize_from(s, e)));
        lemma_strip_plain_prefix(w, RESET@ + colorize_from(s, e));
        lemma_strip_code(RESET@, colorize_from(s, e));
        assert(w == s.subrange(i, e));
        assert(w + s.skip(e) =~= s.skip(i));
    } else {
        lemma_strip_colorize_from(s, i + 1);
        assert(colorize_from(s, i) == seq![c] + colorize_from(s, i + 1));
        assert(!seq![c].contains('\u{1b}')) by {
            assert(s.contains(c));
        }
        lemma_strip_plain_prefix(seq![c], colorize_from(s, i + 1));
        assert(seq![c] + s.skip(i + 1) =~= s.skip(i));
    }
}

/// Highlighting only inserts colour codes: removing every occurrence of
/// the five codes it uses (cyan, green, yellow, magenta and reset) from the
/// highlighted form of a JSON text that holds no escape character gives
/// back the text itself; no character is dropped, changed or moved.
pub proof fn law_colorize_json_only_adds_color_codes(json: Seq<char>)
    requires
        !json.contains('\u{1b}'),
    ensures
        strip_codes(colorize_spec(json)) == json,
{
    lemma_strip_colorize_from(json, 0);
    assert(json.skip(0) == json);
}

/// Which colour each log level gets, whatever its case and the space
/// around it: TRACE magenta; DEBUG blue; INFO, INFORMATION and NOTICE cyan;
/// WARN and WARNING yellow; ERROR and ERR red; FATAL, CRITICAL, CRIT, ALERT
/// and EMERGENCY bold red; any other name no colour.
pub proof fn law_level_colors(level: Seq<char>)
    ensures
        ({
            let u = upper_all(trim(level));
            &&& u == "TRACE"@ ==> level_color_spec(level) == Some(MAGENTA@)
            &&& u == "DEBUG"@ ==> level_color_spec(level) == Some(BLUE@)
            &&& (u == "INFO"@ || u == "INFORMATION"@ || u == "NOTICE"@) ==> level_color_spec(level) == Some(CYAN@)
            &&& (u == "WARN"@ || u == "WARNING"@) ==> level_color_spec(level) == Some(YELLOW@)
            &&& (u == "ERROR"@ || u == "ERR"@) ==> level_color_spec(level) == Some(RED@)
            &&& (u == "FATAL"@ || u == "CRITICAL"@ || u == "CRIT"@ || u == "ALERT"@ || u == "EMERGENCY"@)
                ==> level_color_spec(level) == Some(BOLD_RED@)
            &&& !(u == "TRACE"@ || u == "DEBUG"@ || u == "INFO"@ || u == "INFORMATION"@ || u == "NOTICE"@
                || u == "WARN"@ || u == "WARNING"@ || u == "ERROR"@ || u == "ERR"@ || u == "FATAL"@
                || u == "CRITICAL"@ || u == "CRIT"@ || u == "ALERT"@ || u == "EMERGENCY"@) ==> level_color_spec(
                level,
            ) is None
        }),
{
    reveal_strlit("TRACE");
    reveal_strlit("DEBUG");
    reveal_strlit("INFO");
    reveal_strlit("INFORMATION");
    reveal_strlit("NOTICE");
    reveal_strlit("WARN");
    reveal_strlit("WARNING");
    reveal_strlit("ERROR");
    reveal_strlit("ERR");
    reveal_strlit("FATAL");
    reveal_strlit("CRITICAL");
    reveal_strlit("CRIT");
    reveal_strlit("ALERT");
    reveal_strlit("EMERGENCY");
    assert("TRACE"@.len() == 5 && "TRACE"@[0] == 'T');
    assert("DEBUG"@.len() == 5 && "DEBUG"@[0] == 'D');
    assert("INFO"@.len() == 4 && "INFO"@[0] == 'I');
    assert("INFORMATION"@.len() == 11 && "INFORMATION"@[0] == 'I');
    assert("NOTICE"@.len() == 6 && "NOTICE"@[0] == 'N');
    assert("WARN"@.len() == 4 && "WARN"@[0] == 'W');
    assert("WARNING"@.len() == 7 && "WARNING"@[0] == 'W');
    assert("ERROR"@.len() == 5 && "ERROR"@[0] == 'E');
    assert("ERR"@.len() == 3 && "ERR"@[0] == 'E');
    assert("FATAL"@.len() == 5 && "FATAL"@[0] == 'F');
    assert("CRITICAL"@.len() == 8 && "CRITICAL"@[0] == 'C');
    assert("CRIT"@.len() == 4 && "CRIT"@[0] == 'C');
    assert("ALERT"@.len() == 5 && "ALERT"@[0] == 'A');
    assert("EMERGENCY"@.len() == 9 && "EMERGENCY"@[0] == 'E');
}

} // verus!
