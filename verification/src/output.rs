//! How results are rendered: as JSON (or raw text for strings), with
//! optional syntax and log-level colouring and a file-name prefix.

use vstd::prelude::*;
use crate::cli::Cli;
use crate::color::{colorize_by_level_spec, colorize_by_level_with, colorize_json, colorize_spec};
use crate::engine::{json_text, lossy_string, lossy_text, write_json};
use crate::input::opt_string_view;
use crate::value::Value;

verus! {

/// Rendering options.
#[derive(Debug)]
pub struct OutputOptions {
    pub pretty: bool,
    pub json_color: bool,
    pub color_level: bool,
    pub no_color: bool,
    pub color_level_field: Option<String>,
}

impl OutputOptions {
    /// The options that the command line asks for; `NO_COLOR` counts as
    /// `--no-color`.
    pub fn from_cli(cli: &Cli) -> (r: Self)
        ensures
            r.pretty == cli.pretty,
            r.json_color == cli.use_json_color_spec(),
            r.color_level == cli.color_level,
            r.no_color == (cli.no_color || cli.no_color_env),
            opt_string_view(r.color_level_field) == opt_string_view(cli.color_level_field),
            r.color_level_field == cli.color_level_field,
    {
        OutputOptions {
            pretty: cli.pretty,
            json_color: cli.use_json_color(),
            color_level: cli.color_level,
            no_color: cli.no_color || cli.no_color_env,
            color_level_field: crate::cli::clone_opt_string(&cli.color_level_field),
        }
    }

    /// Compact, uncoloured output.
    pub fn plain() -> (r: Self)
        ensures
            !r.pretty,
            !r.json_color,
            !r.color_level,
            r.no_color,
            r.color_level_field is None,
    {
        OutputOptions {
            pretty: false,
            json_color: false,
            color_level: false,
            no_color: true,
            color_level_field: None,
        }
    }
}

/// A result as text: a string value is printed raw (decoded as UTF-8),
/// anything else as JSON.
pub open spec fn format_value_spec(v: Value, pretty: bool) -> Result<Seq<char>, Seq<char>> {
    match v {
        Value::TStr(b) => Ok(lossy_text(b@)),
        _ => json_text(v, pretty),
    }
}

/// A result as text (see `format_value_spec`).
pub fn format_value(value: &Value, pretty: bool) -> (r: Result<String, String>)
    ensures
        crate::shortcuts::result_view(r) == format_value_spec(*value, pretty),
{
    if let Value::TStr(bytes) = value {
        return Ok(lossy_string(bytes.as_slice()));
    }
    write_json(value, pretty)
}

/// A result as displayed: JSON is syntax-coloured when asked, raw strings
/// never are.
pub open spec fn display_spec(v: Value, options: OutputOptions) -> Result<Seq<char>, Seq<char>> {
    match format_value_spec(v, options.pretty) {
        Ok(o) => Ok(
            if options.json_color && !(v is TStr) {
                colorize_spec(o)
            } else {
                o
            },
        ),
        Err(e) => Err(e),
    }
}

fn format_display_value(result: &Value, options: &OutputOptions) -> (r: Result<String, String>)
    ensures
        crate::shortcuts::result_view(r) == display_spec(*result, *options),
{
    let output = format_value(result, options.pretty)?;
    let is_text = match result {
        Value::TStr(_) => true,
        _ => false,
    };
    if options.json_color && !is_text {
        Ok(colorize_json(output.as_str()))
    } else {
        Ok(output)
    }
}

/// `output` in the colour of its source document's level, or unchanged.
pub open spec fn level_colored_spec(output: Seq<char>, source: Value, options: OutputOptions) -> Seq<char> {
    match colorize_by_level_spec(
        output,
        source,
        options.color_level && !options.no_color,
        opt_string_view(options.color_level_field),
    ) {
        Some(c) => c,
        None => output,
    }
}

fn opt_as_str(o: &Option<String>) -> (r: Option<&str>)
    ensures
        crate::color::opt_str_ref_view(r) == opt_string_view(*o),
{
    match o {
        Some(s) => Some(s.as_str()),
        None => None,
    }
}

fn colorize_level_if_needed(output: &str, source: &Value, options: &OutputOptions) -> (r: String)
    ensures
        r@ == level_colored_spec(output@, *source, *options),
{
    match colorize_by_level_with(
        output,
        source,
        options.color_level,
        options.no_color,
        opt_as_str(&options.color_level_field),
    ) {
        Some(colored) => colored,
        None => output.to_owned(),
    }
}

/// A result as one output line (before the newline), without a file name.
pub open spec fn format_result_spec(v: Value, source: Value, options: OutputOptions) -> Result<Seq<char>, Seq<char>> {
    match display_spec(v, options) {
        Ok(o) => Ok(level_colored_spec(o, source, options)),
        Err(e) => Err(e),
    }
}

/// A result rendered and coloured by its source document's level.
pub fn format_result(result: &Value, source: &Value, options: &OutputOptions) -> (r: Result<String, String>)
    ensures
        crate::shortcuts::result_view(r) == format_result_spec(*result, *source, *options),
{
    let output = format_display_value(result, options)?;
    Ok(colorize_level_if_needed(output.as_str(), source, options))
}

/// The line printed for a result: `FILE:RESULT` when file names are shown
/// and known, coloured as a whole by level; otherwise the result alone.
pub open spec fn result_line_spec(
    v: Value,
    filename: Option<Seq<char>>,
    show_filename: bool,
    source: Value,
    options: OutputOptions,
) -> Result<Seq<char>, Seq<char>> {
    match display_spec(v, options) {
        Err(e) => Err(e),
        Ok(o) => if show_filename {
            match filename {
                Some(name) => Ok(level_colored_spec(name + ":"@ + o, source, options)),
                None => Ok(o),
            }
        } else {
            Ok(level_colored_spec(o, source, options))
        },
    }
}

/// The line printed for a result (see `result_line_spec`).
pub fn result_line(
    result: &Value,
    filename: Option<&str>,
    show_filename: bool,
    source: &Value,
    options: &OutputOptions,
) -> (r: Result<String, String>)
    ensures
        crate::shortcuts::result_view(r) == result_line_spec(
            *result,
            crate::color::opt_str_ref_view(filename),
            show_filename,
            *source,
            *options,
        ),
{
    let output = format_display_value(result, options)?;
    if show_filename {
        if let Some(name) = filename {
            let mut line = name.to_owned();
            line.append(":");
            line.append(output.as_str());
            Ok(colorize_level_if_needed(line.as_str(), source, options))
        } else {
            Ok(output)
        }
    } else {
        Ok(colorize_level_if_needed(output.as_str(), source, options))
    }
}

/// The text printed for `--slurp`: the results as one JSON array,
/// syntax-coloured when asked.
pub fn slurp_text(values: Vec<Value>, pretty: bool, color: bool) -> (r: Result<String, String>)
    ensures
        crate::shortcuts::result_view(r) == match json_text(Value::Arr(values), pretty) {
            Ok(t) => Ok(
                if color {
                    colorize_spec(t)
                } else {
                    t
                },
            ),
            Err(e) => Err(e),
        },
{
    let array = Value::Arr(values);
    let output = format_value(&array, pretty)?;
    if color {
        Ok(colorize_json(output.as_str()))
    } else {
        Ok(output)
    }
}

/// Showing a file name puts `FILE:` in front of the result, inside any
/// level colouring: the line with the name is the line without it with the
/// name and a colon inserted before the rendered result.  Without level
/// colouring and syntax colouring, the line is exactly the file name, a
/// colon and the result as text.  When file names are not shown, the name
/// plays no part.
pub proof fn law_result_line_prefixes_file_name(
    v: Value,
    f: Seq<char>,
    other: Option<Seq<char>>,
    source: Value,
    options: OutputOptions,
)
    ensures
        result_line_spec(v, Some(f), true, source, options) is Ok <==> display_spec(v, options) is Ok,
        display_spec(v, options) matches Ok(o) ==> exists|pre: Seq<char>, post: Seq<char>|
            result_line_spec(v, Some(f), true, source, options) == Ok::<Seq<char>, Seq<char>>(pre + f + ":"@ + o + post)
                && #[trigger] result_line_spec(v, other, false, source, options) == Ok::<Seq<char>, Seq<char>>(
                pre + o + post,
            ),
        !options.json_color && !(options.color_level && !options.no_color) ==> result_line_spec(
            v,
            Some(f),
            true,
            source,
            options,
        ) == match format_value_spec(v, options.pretty) {
            Ok(t) => Ok::<Seq<char>, Seq<char>>(f + ":"@ + t),
            Err(e) => Err(e),
        },
        result_line_spec(v, other, false, source, options) == result_line_spec(v, None, false, source, options),
{
    if let Ok(o) = display_spec(v, options) {
        let enabled = options.color_level && !options.no_color;
        let field = opt_string_view(options.color_level_field);
        match crate::color::level_code_spec(source, enabled, field) {
            Some(c) => {
                let pre = c;
                let post = crate::color::RESET@;
                assert(result_line_spec(v, Some(f), true, source, options) == Ok::<Seq<char>, Seq<char>>(
                    pre + (f + ":"@ + o) + post,
                ));
                assert(pre + (f + ":"@ + o) + post =~= pre + f + ":"@ + o + post);
                assert(result_line_spec(v, other, false, source, options) == Ok::<Seq<char>, Seq<char>>(pre + o + post));
            },
            None => {
                let pre = Seq::<char>::empty();
                let post = Seq::<char>::empty();
                assert(pre + f + ":"@ + o + post =~= f + ":"@ + o);
                assert(pre + o + post =~= o);
                assert(result_line_spec(v, other, false, source, options) == Ok::<Seq<char>, Seq<char>>(pre + o + post));
            },
        }
    }
}

} // verus!
