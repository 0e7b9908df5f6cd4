//! The decisions of a `jgrep` run: which filter to use, how each input is
//! turned into documents, what is printed for each filter result, and the
//! exit status (0: some match, 1: no match, 2: error; the filter may also
//! halt the run with a code of its own).
//!
//! Output is returned as lines tagged with their stream; the program writes
//! them in order.

use vstd::prelude::*;
use crate::cli::Cli;
use crate::engine::{docs_ok, docs_view, filter_may_give, json_text, outcome_view, Failure, RunError};
use crate::input::{parse_many, parse_many_spec, parsed_view, InputKind, Source};
use crate::matcher::{is_match, is_match_spec, Matcher};
use crate::output::{result_line, result_line_spec, OutputOptions};
use crate::shortcuts::{apply_where_filters, apply_where_spec, path_filter, path_filter_spec, result_view};
use crate::text::{string_from_range, to_chars, trim, trim_bounds};
use crate::value::{numbers_ok, Value};

verus! {

/// A line of output and the stream it goes to.
#[derive(Debug)]
pub enum OutputLine {
    Stdout(String),
    Stderr(String),
}

/// A line as (goes to standard output, text).
pub open spec fn line_view(l: OutputLine) -> (bool, Seq<char>) {
    match l {
        OutputLine::Stdout(s) => (true, s@),
        OutputLine::Stderr(s) => (false, s@),
    }
}

pub open spec fn lines_view(ls: Seq<OutputLine>) -> Seq<(bool, Seq<char>)> {
    ls.map_values(|l: OutputLine| line_view(l))
}

/// What a run has seen so far.
#[derive(Debug, Clone, Copy)]
pub struct RunState {
    pub found_match: bool,
    pub had_error: bool,
    /// The filter halted with this exit code; the run stops.
    pub halted: Option<i32>,
}

impl RunState {
    pub fn new() -> (r: Self)
        ensures
            !r.found_match,
            !r.had_error,
            r.halted is None,
    {
        RunState { found_match: false, had_error: false, halted: None }
    }
}

/// The exit status: the exit code the filter halted with, else 2 after any
/// error, else 0 when something matched, else 1.
pub open spec fn exit_code_spec(state: RunState) -> i32 {
    if let Some(c) = state.halted {
        c
    } else if state.had_error {
        2
    } else if state.found_match {
        0
    } else {
        1
    }
}

pub fn exit_code(state: &RunState) -> (r: i32)
    ensures
        r == exit_code_spec(*state),
{
    if let Some(c) = state.halted {
        c
    } else if state.had_error {
        2
    } else if state.found_match {
        0
    } else {
        1
    }
}

/// `-c` and `-l` exclude each other.
pub fn options_conflict(cli: &Cli) -> (r: Option<String>)
    ensures
        r is Some <==> (cli.count && cli.files_with_matches),
        r matches Some(m) ==> m@ == "jgrep: --count and --files-with-matches cannot be used together"@,
{
    if cli.count && cli.files_with_matches {
        Some("jgrep: --count and --files-with-matches cannot be used together".to_owned())
    } else {
        None
    }
}

/// The filter a run uses, or the error line to print: `-p` wins over `-f`,
/// which wins over the positional filter; `-w` conditions are then
/// prepended as a `select`.  `filter_file` is the content of the `-f` file
/// (or the error reading it).
pub open spec fn resolve_filter_spec(cli: Cli, filter_file: Option<Result<Seq<char>, Seq<char>>>) -> Result<Seq<char>, Seq<char>> {
    let base: Result<Seq<char>, Seq<char>> = match cli.path_filter {
        Some(p) => match path_filter_spec(p@) {
            Ok(f) => Ok(f),
            Err(e) => Err("jgrep: invalid path shortcut: "@ + e),
        },
        None => if cli.from_file is Some {
            match filter_file {
                Some(Ok(text)) => Ok(trim(text)),
                Some(Err(e)) => Err("jgrep: cannot read filter file: "@ + e),
                None => Err(Seq::empty()),
            }
        } else {
            match cli.filter_expression_spec() {
                Some(f) => Ok(f),
                None => Err("jgrep: filter expression required (or use -f to read from file)"@),
            }
        },
    };
    match base {
        Err(e) => Err(e),
        Ok(b) => match apply_where_spec(b, cli.where_filters.deep_view()) {
            Ok(f) => Ok(f),
            Err(e) => Err("jgrep: invalid where shortcut: "@ + e),
        },
    }
}

pub open spec fn file_view(f: Option<Result<String, String>>) -> Option<Result<Seq<char>, Seq<char>>> {
    match f {
        Some(Ok(t)) => Some(Ok(t@)),
        Some(Err(e)) => Some(Err(e@)),
        None => None,
    }
}

/// The filter a run uses (see `resolve_filter_spec`).
pub fn resolve_filter(cli: &Cli, filter_file: Option<Result<String, String>>) -> (r: Result<String, String>)
    requires
        cli.path_filter is None && cli.from_file is Some ==> filter_file is Some,
    ensures
        result_view(r) == resolve_filter_spec(*cli, file_view(filter_file)),
{
    let base = if let Some(p) = &cli.path_filter {
        match path_filter(p.as_str()) {
            Ok(f) => f,
            Err(e) => {
                let mut m = "jgrep: invalid path shortcut: ".to_owned();
                m.append(e.as_str());
                return Err(m);
            },
        }
    } else if cli.from_file.is_some() {
        match filter_file {
            Some(Ok(text)) => {
                let v = to_chars(text.as_str());
                let (lo, hi) = trim_bounds(&v);
                string_from_range(&v, lo, hi)
            },
            Some(Err(e)) => {
                let mut m = "jgrep: cannot read filter file: ".to_owned();
                m.append(e.as_str());
                return Err(m);
            },
            None => {
                return Err(String::new());
            },
        }
    } else {
        match cli.filter_expression() {
            Some(f) => f,
            None => {
                return Err("jgrep: filter expression required (or use -f to read from file)".to_owned());
            },
        }
    };
    match apply_where_filters(base, cli.where_filters.as_slice()) {
        Ok(f) => Ok(f),
        Err(e) => {
            let mut m = "jgrep: invalid where shortcut: ".to_owned();
            m.append(e.as_str());
            Err(m)
        },
    }
}

// ---------------------------------------------------------------------
// Filter results
// ---------------------------------------------------------------------

/// The results that count as matches, in order.
pub open spec fn matching(rs: Seq<Value>) -> Seq<Value>
    decreases rs.len(),
{
    if rs.len() == 0 {
        Seq::empty()
    } else {
        matching(rs.drop_last()) + if is_match_spec(rs.last()) {
            seq![rs.last()]
        } else {
            Seq::empty()
        }
    }
}

/// The lines printed for matches (those that render).
pub open spec fn rendered_lines(ms: Seq<Value>, filename: Option<Seq<char>>, show: bool, source: Value, options: OutputOptions) -> Seq<(bool, Seq<char>)>
    decreases ms.len(),
{
    if ms.len() == 0 {
        Seq::empty()
    } else {
        rendered_lines(ms.drop_last(), filename, show, source, options) + match result_line_spec(ms.last(), filename, show, source, options) {
            Ok(l) => seq![(true, l)],
            Err(_) => Seq::empty(),
        }
    }
}

/// Some match fails to render.
pub open spec fn render_failed(ms: Seq<Value>, filename: Option<Seq<char>>, show: bool, source: Value, options: OutputOptions) -> bool {
    exists|i: int| 0 <= i < ms.len() && #[trigger] result_line_spec(ms[i], filename, show, source, options) is Err
}

/// The state of a run as the specification sees it.
#[verifier::ext_equal]
pub struct RunView {
    pub lines: Seq<(bool, Seq<char>)>,
    pub found_match: bool,
    pub had_error: bool,
    pub slurp: Seq<Value>,
    pub halted: Option<i32>,
}

/// Results are printed one per line unless `-s`, `-c` or `-l` is given.
pub open spec fn prints_results(cli: Cli) -> bool {
    !cli.slurp && !cli.count && !cli.files_with_matches
}

/// The options results are rendered with.
pub open spec fn options_of(cli: Cli) -> OutputOptions {
    OutputOptions {
        pretty: cli.pretty,
        json_color: cli.use_json_color_spec(),
        color_level: cli.color_level,
        no_color: cli.no_color || cli.no_color_env,
        color_level_field: cli.color_level_field,
    }
}

/// Options that render as `options_of(cli)` does.
pub open spec fn same_options(a: OutputOptions, b: OutputOptions) -> bool {
    &&& a.pretty == b.pretty
    &&& a.json_color == b.json_color
    &&& a.color_level == b.color_level
    &&& a.no_color == b.no_color
    &&& crate::input::opt_string_view(a.color_level_field) == crate::input::opt_string_view(b.color_level_field)
}

/// What handling the outcome of running the filter on one value does: an
/// error is reported; a halt records its exit code and prints nothing;
/// otherwise every match counts, is collected for `-s`, or is printed (a
/// result that cannot be rendered marks an error).
pub open spec fn results_step(
    cli: Cli,
    outcome: Result<Seq<Value>, Failure>,
    filename: Option<Seq<char>>,
    show: bool,
    source: Value,
    st: RunView,
) -> (RunView, nat) {
    match outcome {
        Err(Failure::Error(e)) => (
            RunView {
                lines: st.lines.push((false, "jgrep: filter error: "@ + e)),
                had_error: true,
                ..st
            },
            0,
        ),
        Err(Failure::Halt(c)) => (RunView { halted: Some(c), ..st }, 0),
        Ok(rs) => {
            let ms = matching(rs);
            let found = st.found_match || ms.len() > 0;
            if cli.slurp {
                (RunView { found_match: found, slurp: st.slurp + ms, ..st }, ms.len())
            } else if prints_results(cli) {
                (
                    RunView {
                        lines: st.lines + rendered_lines(ms, filename, show, source, options_of(cli)),
                        found_match: found,
                        had_error: st.had_error || render_failed(ms, filename, show, source, options_of(cli)),
                        ..st
                    },
                    ms.len(),
                )
            } else {
                (RunView { found_match: found, ..st }, ms.len())
            }
        },
    }
}

pub open spec fn run_view(out: Seq<OutputLine>, state: RunState, slurp: Seq<Value>) -> RunView {
    RunView { lines: lines_view(out), found_match: state.found_match, had_error: state.had_error, slurp, halted: state.halted }
}


proof fn lemma_lines_push(ls: Seq<OutputLine>, l: OutputLine)
    ensures
        lines_view(ls.push(l)) == lines_view(ls).push(line_view(l)),
{
    assert(lines_view(ls.push(l)) =~= lines_view(ls).push(line_view(l)));
}

/// Handles the outcome of running the filter on one value (see
/// `results_step`) and returns the number of matches.
pub fn process_results(
    cli: &Cli,
    results: Result<Vec<Value>, RunError>,
    filename: Option<&str>,
    show_filename: bool,
    source: &Value,
    out: &mut Vec<OutputLine>,
    state: &mut RunState,
    slurp: &mut Vec<Value>,
) -> (r: usize)
    ensures
        (run_view(final(out)@, *final(state), final(slurp)@), r as nat) == results_step(
            *cli,
            outcome_view(results),
            crate::color::opt_str_ref_view(filename),
            show_filename,
            *source,
            run_view(old(out)@, *old(state), old(slurp)@),
        ),
{
    let ghost st0 = run_view(out@, *state, slurp@);
    let rs = match results {
        Ok(rs) => rs,
        Err(RunError::Error(e)) => {
            let mut m = "jgrep: filter error: ".to_owned();
            m.append(e.as_str());
            proof {
                lemma_lines_push(out@, OutputLine::Stderr(m));
            }
            out.push(OutputLine::Stderr(m));
            state.had_error = true;
            return 0;
        },
        Err(RunError::Halt(c)) => {
            state.halted = Some(c);
            return 0;
        },
    };
    let ghost all = rs@;
    let options = OutputOptions::from_cli(cli);
    let ghost fname = crate::color::opt_str_ref_view(filename);
    let print = !cli.slurp && !cli.count && !cli.files_with_matches;
    let mut count: usize = 0;
    let ghost mut seen: Seq<Value> = Seq::empty();
    proof {
        assert(all.take(0) =~= Seq::<Value>::empty());
    }
    let n = rs.len();
    for result in it: rs.into_iter()
        invariant
            n == all.len(),
            it.seq() == all,
            fname == crate::color::opt_str_ref_view(filename),
            seen == matching(all.take(it.index() as int)),
            count == seen.len(),
            count <= it.index(),
            state.found_match == (st0.found_match || count > 0),
            state.halted == st0.halted,
            same_options(options, options_of(*cli)),
            print == prints_results(*cli),
            cli.slurp ==> slurp@ == st0.slurp + seen && lines_view(out@) == st0.lines && state.had_error == st0.had_error,
            !cli.slurp && print ==> slurp@ == st0.slurp && lines_view(out@) == st0.lines + rendered_lines(seen, fname, show_filename, *source, options_of(*cli))
                && state.had_error == (st0.had_error || render_failed(seen, fname, show_filename, *source, options_of(*cli))),
            !cli.slurp && !print ==> slurp@ == st0.slurp && lines_view(out@) == st0.lines && state.had_error == st0.had_error,
    {
        let ghost i = it.index();
        proof {
            assert(result == all[i as int]);
            assert(all.take(i + 1).drop_last() =~= all.take(i as int));
            assert(all.take(i + 1).last() == all[i as int]);
        }
        if is_match(&result) {
            let ghost seen2 = seen.push(result);
            proof {
                assert(seen2.drop_last() =~= seen);
                assert(matching(all.take(i + 1)) =~= seen2);
            }
            count = count + 1;
            state.found_match = true;
            if cli.slurp {
                slurp.push(result);
                proof {
                    assert(slurp@ =~= st0.slurp + seen2);
                }
            } else if print {
                let line = result_line(&result, filename, show_filename, source, &options);
                let ghost before = lines_view(out@);
                let ghost lv = result_view(line);
                proof {
                    assert(before == st0.lines + rendered_lines(seen, fname, show_filename, *source, options_of(*cli)));
                    assert(result_line_spec(result, fname, show_filename, *source, options) == result_line_spec(result, fname, show_filename, *source, options_of(*cli)));
                    assert(rendered_lines(seen2, fname, show_filename, *source, options_of(*cli)) == rendered_lines(seen, fname, show_filename, *source, options_of(*cli)) + match result_line_spec(result, fname, show_filename, *source, options_of(*cli)) {
                        Ok(l) => seq![(true, l)],
                        Err(_) => Seq::empty(),
                    });
                    lemma_render_failed_push(seen, result, fname, show_filename, *source, options_of(*cli));
                }
                match line {
                    Ok(l) => {
                        proof {
                            lemma_lines_push(out@, OutputLine::Stdout(l));
                            assert(result_line_spec(result, fname, show_filename, *source, options_of(*cli)) == Ok::<Seq<char>, Seq<char>>(l@));
                        }
                        out.push(OutputLine::Stdout(l));
                        proof {
                            assert(lines_view(out@) == before.push((true, l@)));
                        }
                    },
                    Err(_) => {
                        state.had_error = true;
                    },
                }
                proof {
                    assert(lines_view(out@) =~= st0.lines + rendered_lines(seen2, fname, show_filename, *source, options_of(*cli)));
                }
            }
            proof {
                seen = seen2;
            }
        } else {
            proof {
                assert(matching(all.take(i + 1)) =~= seen);
            }
        }
    }
    proof {
        assert(all.take(n as int) =~= all);
    }
    count
}

proof fn lemma_render_failed_push(ms: Seq<Value>, v: Value, f: Option<Seq<char>>, show: bool, source: Value, o: OutputOptions)
    ensures
        render_failed(ms.push(v), f, show, source, o) == (render_failed(ms, f, show, source, o) || result_line_spec(v, f, show, source, o) is Err),
{
    let m2 = ms.push(v);
    if render_failed(m2, f, show, source, o) {
        let i = choose|i: int| 0 <= i < m2.len() && #[trigger] result_line_spec(m2[i], f, show, source, o) is Err;
        if i < ms.len() {
            assert(m2[i] == ms[i]);
        }
    }
    if render_failed(ms, f, show, source, o) {
        let i = choose|i: int| 0 <= i < ms.len() && #[trigger] result_line_spec(ms[i], f, show, source, o) is Err;
        assert(m2[i] == ms[i]);
    }
    if result_line_spec(v, f, show, source, o) is Err {
        assert(m2[ms.len() as int] == v);
    }
}

/// Runs the filter on one value and handles its outputs; returns the number
/// of matches.  The outputs come from the engine, so the contract speaks of
/// an outcome that the filter may give on that value.
pub fn process_value(
    cli: &Cli,
    matcher: &Matcher,
    filename: Option<&str>,
    show_filename: bool,
    value: &Value,
    out: &mut Vec<OutputLine>,
    state: &mut RunState,
    slurp: &mut Vec<Value>,
) -> (r: usize)
    requires
        numbers_ok(*value),
    ensures
        exists|o: Result<Seq<Value>, Failure>|
            filter_may_give(matcher.code(), *value, o) && (run_view(final(out)@, *final(state), final(slurp)@), r as nat)
                == #[trigger] results_step(
                *cli,
                o,
                crate::color::opt_str_ref_view(filename),
                show_filename,
                *value,
                run_view(old(out)@, *old(state), old(slurp)@),
            ),
{
    let results = matcher.apply_to(value);
    let ghost o = outcome_view(results);
    let r = process_results(cli, results, filename, show_filename, value, out, state, slurp);
    r
}

/// The documents of an input.  Standard input that was taken for JSON is
/// read as YAML instead when JSON fails at once, or when its first document
/// does not parse (if the YAML reading succeeds).
pub open spec fn documents_spec(is_stdin: bool, kind: InputKind, bytes: Seq<u8>) -> Result<
    Seq<Result<Value, Seq<char>>>,
    Seq<char>,
> {
    let fallback = is_stdin && kind == InputKind::Json;
    let first: Result<Seq<Result<Value, Seq<char>>>, Seq<char>> = match parse_many_spec(kind, bytes) {
        Ok(vs) => Ok(vs),
        Err(e) => if fallback {
            match parse_many_spec(InputKind::Yaml, bytes) {
                Ok(ys) => Ok(ys),
                Err(_) => Err(e),
            }
        } else {
            Err(e)
        },
    };
    match first {
        Err(e) => Err(e),
        Ok(vs) => if fallback && vs.len() > 0 && vs[0] is Err {
            match parse_many_spec(InputKind::Yaml, bytes) {
                Ok(ys) => Ok(ys),
                Err(_) => Ok(vs),
            }
        } else {
            Ok(vs)
        },
    }
}

/// The documents of an input (see `documents_spec`).
pub fn documents(source: &Source, kind: InputKind, bytes: &[u8]) -> (r: Result<Vec<Result<Value, String>>, String>)
    ensures
        parsed_view(r) == documents_spec(source is Stdin, kind, bytes@),
        r matches Ok(docs) ==> docs_ok(docs@),
{
    let fallback = match source {
        Source::Stdin => kind == InputKind::Json,
        _ => false,
    };
    let values = match parse_many(kind, bytes) {
        Ok(values) => values,
        Err(e) => {
            if fallback {
                match parse_many(InputKind::Yaml, bytes) {
                    Ok(values) => values,
                    Err(_) => {
                        return Err(e);
                    },
                }
            } else {
                return Err(e);
            }
        },
    };
    let first_failed = values.len() > 0 && match &values[0] {
        Err(_) => true,
        Ok(_) => false,
    };
    if fallback && first_failed {
        match parse_many(InputKind::Yaml, bytes) {
            Ok(ys) => Ok(ys),
            Err(_) => Ok(values),
        }
    } else {
        Ok(values)
    }
}

/// The message for a document that does not parse.
pub open spec fn parse_error_spec(label: Seq<char>, e: Seq<char>) -> Seq<char> {
    "jgrep: "@ + label + ": parse error: "@ + e
}

fn parse_error_line(label: &str, e: &str) -> (r: String)
    ensures
        r@ == parse_error_spec(label@, e@),
{
    let mut m = "jgrep: ".to_owned();
    m.append(label);
    m.append(": parse error: ");
    m.append(e);
    m
}

/// `a + b`, capped at `usize::MAX`.
pub open spec fn sat_add(a: nat, b: nat) -> nat {
    if a + b > usize::MAX {
        usize::MAX as nat
    } else {
        a + b
    }
}

/// Handling the documents in order, given the outcome of running the filter
/// on each (entries of `outcomes` for unparsed documents are not used);
/// after a halt the remaining documents are left alone.
pub open spec fn docs_fold(
    cli: Cli,
    label: Seq<char>,
    show: bool,
    docs: Seq<Result<Value, Seq<char>>>,
    outcomes: Seq<Result<Seq<Value>, Failure>>,
    st: RunView,
) -> (RunView, nat)
    decreases docs.len(),
{
    if docs.len() == 0 {
        (st, 0)
    } else {
        let (st1, c1) = docs_fold(cli, label, show, docs.drop_last(), outcomes.drop_last(), st);
        if st1.halted is Some {
            (st1, c1)
        } else {
            match docs.last() {
                Err(e) => (RunView { lines: st1.lines.push((false, parse_error_spec(label, e))), had_error: true, ..st1 }, c1),
                Ok(v) => {
                    let (st2, k) = results_step(cli, outcomes.last(), Some(label), show, v, st1);
                    (st2, sat_add(c1, k))
                },
            }
        }
    }
}

/// The per-input summary: `-c` prints the number of matches (prefixed by
/// `FILE:` when file names are shown), `-l` prints the file name when
/// something matched; nothing with `-s`.
pub open spec fn summary_spec(cli: Cli, label: Seq<char>, show: bool, count: nat) -> Seq<(bool, Seq<char>)> {
    if cli.slurp {
        Seq::empty()
    } else if cli.count {
        seq![(true, (if show { label + ":"@ } else { Seq::empty() }) + crate::explore::decimal_spec(count))]
    } else if cli.files_with_matches && count > 0 {
        seq![(true, label)]
    } else {
        Seq::empty()
    }
}

/// What processing one input does, given the outcome of each filter run:
/// nothing once the run has halted, and no summary when it halts here.
pub open spec fn bytes_outcome(
    cli: Cli,
    label: Seq<char>,
    show: bool,
    docs: Result<Seq<Result<Value, Seq<char>>>, Seq<char>>,
    outcomes: Seq<Result<Seq<Value>, Failure>>,
    st: RunView,
) -> RunView {
    if st.halted is Some {
        st
    } else {
        match docs {
            Err(e) => RunView { lines: st.lines.push((false, parse_error_spec(label, e))), had_error: true, ..st },
            Ok(ds) => {
                let (st1, c) = docs_fold(cli, label, show, ds, outcomes, st);
                if st1.halted is Some {
                    st1
                } else {
                    RunView { lines: st1.lines + summary_spec(cli, label, show, c), ..st1 }
                }
            },
        }
    }
}

/// Document `i` got an outcome that the filter `code` may give on it, if
/// it parsed and the run reached it (no halt came before it).
pub open spec fn run_possible(
    code: Seq<char>,
    cli: Cli,
    label: Seq<char>,
    show: bool,
    ds: Seq<Result<Value, Seq<char>>>,
    outcomes: Seq<Result<Seq<Value>, Failure>>,
    st: RunView,
    i: int,
) -> bool {
    ds[i] is Ok && docs_fold(cli, label, show, ds.take(i), outcomes.take(i), st).0.halted is None
        ==> filter_may_give(code, ds[i]->Ok_0, outcomes[i])
}

/// The outcomes of processing an input are ones the filter `code` may give
/// on the documents they stand for (see `run_possible`).
pub open spec fn runs_possible(
    code: Seq<char>,
    cli: Cli,
    label: Seq<char>,
    show: bool,
    docs: Result<Seq<Result<Value, Seq<char>>>, Seq<char>>,
    outcomes: Seq<Result<Seq<Value>, Failure>>,
    st: RunView,
) -> bool {
    st.halted is None ==> match docs {
        Err(_) => true,
        Ok(ds) => forall|i: int| 0 <= i < ds.len() ==> #[trigger] run_possible(code, cli, label, show, ds, outcomes, st, i),
    }
}

proof fn lemma_run_possible_push(
    code: Seq<char>,
    cli: Cli,
    label: Seq<char>,
    show: bool,
    ds: Seq<Result<Value, Seq<char>>>,
    outs: Seq<Result<Seq<Value>, Failure>>,
    st: RunView,
    o: Result<Seq<Value>, Failure>,
)
    ensures
        forall|k: int|
            0 <= k < outs.len() ==> run_possible(code, cli, label, show, ds, outs.push(o), st, k) == run_possible(
                code,
                cli,
                label,
                show,
                ds,
                outs,
                st,
                k,
            ),
        run_possible(code, cli, label, show, ds, outs.push(o), st, outs.len() as int) == (ds[outs.len() as int] is Ok
            && docs_fold(cli, label, show, ds.take(outs.len() as int), outs, st).0.halted is None ==> filter_may_give(
            code,
            ds[outs.len() as int]->Ok_0,
            o,
        )),
{
    let o2 = outs.push(o);
    assert forall|k: int|
        0 <= k < outs.len() implies run_possible(code, cli, label, show, ds, o2, st, k) == run_possible(
        code,
        cli,
        label,
        show,
        ds,
        outs,
        st,
        k,
    ) by {
        assert(o2.take(k) =~= outs.take(k));
        assert(o2[k] == outs[k]);
    }
    assert(o2.take(outs.len() as int) =~= outs);
}

/// Processes the bytes of one input: parses its documents, runs the filter
/// on each, prints results and the summary line.  The contract speaks of
/// outcomes that the filter may give on each document it ran on.
pub fn process_bytes(
    cli: &Cli,
    matcher: &Matcher,
    source: &Source,
    show_filename: bool,
    kind: InputKind,
    bytes: &[u8],
    out: &mut Vec<OutputLine>,
    state: &mut RunState,
    slurp: &mut Vec<Value>,
)
    ensures
        exists|outcomes: Seq<Result<Seq<Value>, Failure>>|
            runs_possible(
                matcher.code(),
                *cli,
                source.path_spec(),
                show_filename,
                documents_spec(source is Stdin, kind, bytes@),
                outcomes,
                run_view(old(out)@, *old(state), old(slurp)@),
            ) && run_view(final(out)@, *final(state), final(slurp)@) == #[trigger] bytes_outcome(
                *cli,
                source.path_spec(),
                show_filename,
                documents_spec(source is Stdin, kind, bytes@),
                outcomes,
                run_view(old(out)@, *old(state), old(slurp)@),
            ),
{
    let ghost st0 = run_view(out@, *state, slurp@);
    if state.halted.is_some() {
        proof {
            let outs: Seq<Result<Seq<Value>, Failure>> = Seq::empty();
            assert(run_view(out@, *state, slurp@) == bytes_outcome(*cli, source.path_spec(), show_filename, documents_spec(source is Stdin, kind, bytes@), outs, st0));
        }
        return;
    }
    let label = source.label();
    let docs = match documents(source, kind, bytes) {
        Ok(docs) => docs,
        Err(e) => {
            let m = parse_error_line(label.as_str(), e.as_str());
            proof {
                lemma_lines_push(out@, OutputLine::Stderr(m));
            }
            out.push(OutputLine::Stderr(m));
            state.had_error = true;
            proof {
                let outs: Seq<Result<Seq<Value>, Failure>> = Seq::empty();
                assert(run_view(out@, *state, slurp@) == bytes_outcome(*cli, source.path_spec(), show_filename, documents_spec(source is Stdin, kind, bytes@), outs, st0));
            }
            return;
        },
    };
    let ghost ds = docs_view(docs@);
    let ghost mut outs: Seq<Result<Seq<Value>, Failure>> = Seq::empty();
    let mut match_count: usize = 0;
    let n = docs.len();
    proof {
        assert(ds.take(0) =~= Seq::<Result<Value, Seq<char>>>::empty());
        assert forall|k: int| 0 <= k < n implies (#[trigger] ds[k] matches Ok(v) ==> numbers_ok(v)) by {
            assert(docs@[k] matches Ok(v) ==> numbers_ok(v));
        }
    }
    for doc in it: docs.into_iter()
        invariant
            n == ds.len(),
            forall|k: int| 0 <= k < n ==> (#[trigger] ds[k] matches Ok(v) ==> numbers_ok(v)),
            st0.halted is None,
            it.seq().len() == n,
            forall|k: int| 0 <= k < n ==> docs_view(it.seq())[k] == #[trigger] ds[k],
            label@ == source.path_spec(),
            outs.len() == it.index(),
            (run_view(out@, *state, slurp@), match_count as nat) == docs_fold(*cli, label@, show_filename, ds.take(it.index() as int), outs, st0),
            forall|k: int| 0 <= k < it.index() ==> #[trigger] run_possible(matcher.code(), *cli, label@, show_filename, ds, outs, st0, k),
    {
        let ghost i = it.index();
        proof {
            assert(ds.take(i + 1).drop_last() =~= ds.take(i as int));
            assert(ds.take(i + 1).last() == ds[i as int]);
            assert(docs_view(it.seq())[i as int] == ds[i as int]);
            assert(outs.take(i as int) =~= outs);
        }
        let ghost outs_before = outs;
        if state.halted.is_some() {
            proof {
                let o: Result<Seq<Value>, Failure> = Err(Failure::Error(Seq::empty()));
                assert(outs.push(o).drop_last() =~= outs);
                lemma_run_possible_push(matcher.code(), *cli, label@, show_filename, ds, outs, st0, o);
                    assert(run_possible(matcher.code(), *cli, label@, show_filename, ds, outs.push(o), st0, i as int));
                outs = outs.push(o);
            }
        } else {
        match doc {
            Err(e) => {
                let m = parse_error_line(label.as_str(), e.as_str());
                proof {
                    lemma_lines_push(out@, OutputLine::Stderr(m));
                }
                out.push(OutputLine::Stderr(m));
                state.had_error = true;
                proof {
                    let o: Result<Seq<Value>, Failure> = Err(Failure::Error(Seq::empty()));
                    assert(outs.push(o).drop_last() =~= outs);
                    lemma_run_possible_push(matcher.code(), *cli, label@, show_filename, ds, outs, st0, o);
                    assert(run_possible(matcher.code(), *cli, label@, show_filename, ds, outs.push(o), st0, i as int));
                    outs = outs.push(o);
                }
            },
            Ok(value) => {
                let results = matcher.apply_to(&value);
                let ghost o = outcome_view(results);
                proof {
                    assert(filter_may_give(matcher.code(), value, o));
                    assert(ds[i as int] == Ok::<Value, Seq<char>>(value));
                }
                let k = process_results(cli, results, Some(label.as_str()), show_filename, &value, out, state, slurp);
                match_count = if match_count > usize::MAX - k {
                    usize::MAX
                } else {
                    match_count + k
                };
                proof {
                    assert(outs.push(o).drop_last() =~= outs);
                    assert(outs.push(o).last() == o);
                    lemma_run_possible_push(matcher.code(), *cli, label@, show_filename, ds, outs, st0, o);
                    assert(run_possible(matcher.code(), *cli, label@, show_filename, ds, outs.push(o), st0, i as int));
                    outs = outs.push(o);
                }
            },
        }
        }
        proof {
            assert forall|k: int| 0 <= k < i + 1 implies #[trigger] run_possible(matcher.code(), *cli, label@, show_filename, ds, outs, st0, k) by {
                if k < i {
                    assert(run_possible(matcher.code(), *cli, label@, show_filename, ds, outs_before, st0, k));
                }
            }
        }
    }
    proof {
        assert(ds.take(n as int) =~= ds);
    }
    let ghost before = lines_view(out@);
    let ghost folded = docs_fold(*cli, label@, show_filename, ds, outs, st0);
    assert(before == folded.0.lines);
    if !cli.slurp && state.halted.is_none() {
        if cli.count {
            let mut line = if show_filename {
                let mut p = label.clone();
                p.append(":");
                p
            } else {
                String::new()
            };
            let d = crate::explore::decimal(match_count);
            line.append(d.as_str());
            proof {
                lemma_lines_push(out@, OutputLine::Stdout(line));
            }
            out.push(OutputLine::Stdout(line));
        } else if cli.files_with_matches && match_count > 0 {
            let line = label.clone();
            proof {
                lemma_lines_push(out@, OutputLine::Stdout(line));
            }
            out.push(OutputLine::Stdout(line));
        }
    }
    proof {
        assert(documents_spec(source is Stdin, kind, bytes@) == Ok::<Seq<Result<Value, Seq<char>>>, Seq<char>>(ds));
        assert(match_count as nat == folded.1);
        if folded.0.halted is None {
            assert(lines_view(out@) =~= folded.0.lines + summary_spec(*cli, label@, show_filename, folded.1));
        }
        assert(run_view(out@, *state, slurp@) =~= bytes_outcome(*cli, source.path_spec(), show_filename, documents_spec(source is Stdin, kind, bytes@), outs, st0));
    }
}

/// With `-s`: the run matched when something was collected, and all
/// collected results are printed as one JSON array (an error if that
/// cannot be rendered).  Nothing is printed once the filter has halted.
pub fn finish_slurp(cli: &Cli, slurp: Vec<Value>, out: &mut Vec<OutputLine>, state: &mut RunState)
    ensures
        final(state).halted == old(state).halted,
        !cli.slurp || old(state).halted is Some ==> lines_view(final(out)@) == lines_view(old(out)@) && *final(state) == *old(state),
        cli.slurp && old(state).halted is None ==> final(state).found_match == (slurp@.len() > 0),
        cli.slurp && old(state).halted is None ==> match json_text(Value::Arr(slurp), cli.pretty) {
            Ok(t) => lines_view(final(out)@) == lines_view(old(out)@).push((
                true,
                if cli.use_json_color_spec() {
                    crate::color::colorize_spec(t)
                } else {
                    t
                },
            )) && final(state).had_error == old(state).had_error,
            Err(e) => lines_view(final(out)@) == lines_view(old(out)@).push((false, "jgrep: error formatting output: "@ + e))
                && final(state).had_error,
        },
{
    if !cli.slurp || state.halted.is_some() {
        return;
    }
    state.found_match = slurp.len() > 0;
    match crate::output::slurp_text(slurp, cli.pretty, cli.use_json_color()) {
        Ok(text) => {
            proof {
                lemma_lines_push(out@, OutputLine::Stdout(text));
            }
            out.push(OutputLine::Stdout(text));
        },
        Err(e) => {
            let mut m = "jgrep: error formatting output: ".to_owned();
            m.append(e.as_str());
            proof {
                lemma_lines_push(out@, OutputLine::Stderr(m));
            }
            out.push(OutputLine::Stderr(m));
            state.had_error = true;
        },
    }
}

/// The format of a file: by its extension, JSON when unknown.
pub fn file_input_kind(source: &Source) -> (r: InputKind)
    ensures
        r == match crate::input::kind_for_extension(crate::input::path_extension_spec(source.path_spec())) {
            Some(k) => k,
            None => InputKind::Json,
        },
{
    match crate::input::kind_for_path(source.path()) {
        Some(k) => k,
        None => InputKind::Json,
    }
}

/// The line reporting that an input could not be read.
pub fn read_error_line(source: &Source, error: &str) -> (r: String)
    ensures
        r@ == "jgrep: "@ + source.path_spec() + ": "@ + error@,
{
    let mut m = "jgrep: ".to_owned();
    let label = source.label();
    m.append(label.as_str());
    m.append(": ");
    m.append(error);
    m
}

/// `b` extends `a`: its lines start with `a`'s, and a match or an error
/// seen in `a` is still seen.
pub open spec fn extends(a: RunView, b: RunView) -> bool {
    &&& a.lines.len() <= b.lines.len()
    &&& b.lines.take(a.lines.len() as int) == a.lines
    &&& a.had_error ==> b.had_error
    &&& a.found_match ==> b.found_match
}

proof fn lemma_extends_trans(a: RunView, b: RunView, c: RunView)
    requires
        extends(a, b),
        extends(b, c),
    ensures
        extends(a, c),
{
    assert(c.lines.take(a.lines.len() as int) =~= c.lines.take(b.lines.len() as int).take(a.lines.len() as int));
}

proof fn lemma_extends_append(a: RunView, b: RunView, more: Seq<(bool, Seq<char>)>)
    requires
        b.lines == a.lines + more,
        a.had_error ==> b.had_error,
        a.found_match ==> b.found_match,
    ensures
        extends(a, b),
{
    assert(b.lines.take(a.lines.len() as int) =~= a.lines);
}

proof fn lemma_results_step_extends(
    cli: Cli,
    outcome: Result<Seq<Value>, Failure>,
    filename: Option<Seq<char>>,
    show: bool,
    source: Value,
    st: RunView,
)
    ensures
        extends(st, results_step(cli, outcome, filename, show, source, st).0),
{
    let r = results_step(cli, outcome, filename, show, source, st).0;
    match outcome {
        Err(Failure::Error(e)) => {
            assert(r.lines =~= st.lines + seq![(false, "jgrep: filter error: "@ + e)]);
            lemma_extends_append(st, r, seq![(false, "jgrep: filter error: "@ + e)]);
        },
        Err(Failure::Halt(_)) => {
            lemma_extends_append(st, r, Seq::empty());
        },
        Ok(rs) => {
            let ms = matching(rs);
            if cli.slurp {
                assert(r.lines =~= st.lines + Seq::<(bool, Seq<char>)>::empty());
                lemma_extends_append(st, r, Seq::empty());
            } else if prints_results(cli) {
                lemma_extends_append(st, r, rendered_lines(ms, filename, show, source, options_of(cli)));
            } else {
                assert(r.lines =~= st.lines + Seq::<(bool, Seq<char>)>::empty());
                lemma_extends_append(st, r, Seq::empty());
            }
        },
    }
}

proof fn lemma_docs_fold_extends(
    cli: Cli,
    label: Seq<char>,
    show: bool,
    docs: Seq<Result<Value, Seq<char>>>,
    outcomes: Seq<Result<Seq<Value>, Failure>>,
    st: RunView,
)
    ensures
        extends(st, docs_fold(cli, label, show, docs, outcomes, st).0),
        docs_fold(cli, label, show, docs, outcomes, st).0.halted is None ==> st.halted is None,
        (exists|i: int| 0 <= i < docs.len() && #[trigger] docs[i] is Err) && docs_fold(cli, label, show, docs, outcomes, st).0.halted is None
            ==> docs_fold(cli, label, show, docs, outcomes, st).0.had_error,
    decreases docs.len(),
{
    if docs.len() == 0 {
        assert(st.lines.take(st.lines.len() as int) =~= st.lines);
    } else {
        let (st1, c1) = docs_fold(cli, label, show, docs.drop_last(), outcomes.drop_last(), st);
        lemma_docs_fold_extends(cli, label, show, docs.drop_last(), outcomes.drop_last(), st);
        let r = docs_fold(cli, label, show, docs, outcomes, st).0;
        if st1.halted is Some {
            assert(r == st1);
            assert(st1.lines.take(st1.lines.len() as int) =~= st1.lines);
        } else {
        match docs.last() {
            Err(e) => {
                assert(r.lines =~= st1.lines + seq![(false, parse_error_spec(label, e))]);
                lemma_extends_append(st1, r, seq![(false, parse_error_spec(label, e))]);
            },
            Ok(v) => {
                lemma_results_step_extends(cli, outcomes.last(), Some(label), show, v, st1);
            },
        }
        }
        lemma_extends_trans(st, st1, r);
        if (exists|i: int| 0 <= i < docs.len() && #[trigger] docs[i] is Err) && r.halted is None {
            let i = choose|i: int| 0 <= i < docs.len() && #[trigger] docs[i] is Err;
            if i < docs.len() - 1 {
                assert(docs.drop_last()[i] == docs[i]);
                assert(st1.had_error);
            } else {
                assert(docs.last() is Err);
            }
        }
    }
}

/// Processing an input only adds to what was printed: earlier lines stay
/// (a parse error after a match keeps the match's output), and a match or
/// an error once seen is still seen.  Unless the filter halts, an input or
/// a document that does not parse is an error.
pub proof fn law_processing_keeps_earlier_output(
    cli: Cli,
    label: Seq<char>,
    show: bool,
    docs: Result<Seq<Result<Value, Seq<char>>>, Seq<char>>,
    outcomes: Seq<Result<Seq<Value>, Failure>>,
    st: RunView,
)
    ensures
        extends(st, bytes_outcome(cli, label, show, docs, outcomes, st)),
        docs is Err && st.halted is None ==> bytes_outcome(cli, label, show, docs, outcomes, st).had_error,
        docs matches Ok(ds) && (exists|i: int| 0 <= i < ds.len() && #[trigger] ds[i] is Err)
            && bytes_outcome(cli, label, show, docs, outcomes, st).halted is None ==> bytes_outcome(
            cli,
            label,
            show,
            docs,
            outcomes,
            st,
        ).had_error,
{
    let r = bytes_outcome(cli, label, show, docs, outcomes, st);
    if st.halted is Some {
        assert(r == st);
        assert(st.lines.take(st.lines.len() as int) =~= st.lines);
    } else {
        match docs {
            Err(e) => {
                assert(r.lines =~= st.lines + seq![(false, parse_error_spec(label, e))]);
                lemma_extends_append(st, r, seq![(false, parse_error_spec(label, e))]);
            },
            Ok(ds) => {
                lemma_docs_fold_extends(cli, label, show, ds, outcomes, st);
                let (st1, c) = docs_fold(cli, label, show, ds, outcomes, st);
                if st1.halted is Some {
                    assert(r == st1);
                } else {
                    lemma_extends_append(st1, r, summary_spec(cli, label, show, c));
                    lemma_extends_trans(st, st1, r);
                }
            },
        }
    }
}

/// Once the filter has halted, the run is over: processing further input
/// prints nothing and changes nothing, and the exit status is the code the
/// filter halted with.
pub proof fn law_halt_ends_the_run(
    cli: Cli,
    label: Seq<char>,
    show: bool,
    docs: Result<Seq<Result<Value, Seq<char>>>, Seq<char>>,
    outcomes: Seq<Result<Seq<Value>, Failure>>,
    st: RunView,
    state: RunState,
)
    requires
        st.halted is Some,
        state.halted is Some,
    ensures
        bytes_outcome(cli, label, show, docs, outcomes, st) == st,
        exit_code_spec(state) == state.halted->0,
{
}

} // verus!
