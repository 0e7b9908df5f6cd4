//! The live preview of the explorer: the first matches of a filter over the
//! loaded documents, either as printed output lines or as terminal lines on
//! the background of each document's log level.

use vstd::prelude::*;
use crate::color::{level_code_spec, color_code_by_level, opt_str_ref_view, BLUE, BOLD_RED, CYAN, MAGENTA, RED, YELLOW};
use crate::engine::{filter_may_give, outcome_view, program_error, Failure, RunError};
use crate::input::opt_string_view;
use crate::matcher::{is_match, is_match_spec, Matcher};
use crate::output::{format_result, format_result_spec, format_value, format_value_spec, OutputOptions};
use crate::text::{chars_eq_str, string_from_chars, to_chars};
use crate::value::{all_ok, Value};

verus! {

// ---------------------------------------------------------------------
// Lines of a text
// ---------------------------------------------------------------------

/// `l` without one trailing carriage return.
pub open spec fn strip_cr(l: Seq<char>) -> Seq<char> {
    if l.len() > 0 && l.last() == '\r' {
        l.drop_last()
    } else {
        l
    }
}

/// The lines ended so far and the line being read, after reading `s`:
/// every `\n` ends a line (dropping a `\r` right before it).
pub open spec fn lines_acc(s: Seq<char>) -> (Seq<Seq<char>>, Seq<char>)
    decreases s.len(),
{
    if s.len() == 0 {
        (Seq::empty(), Seq::empty())
    } else {
        let (done, cur) = lines_acc(s.drop_last());
        if s.last() == '\n' {
            (done.push(strip_cr(cur)), Seq::empty())
        } else {
            (done, cur.push(s.last()))
        }
    }
}

/// The lines of a text, as `str::lines` gives them: split at `\n` and
/// `\r\n`; a last line without a line ending is kept when not empty.
pub open spec fn lines_spec(s: Seq<char>) -> Seq<Seq<char>> {
    let (done, cur) = lines_acc(s);
    if cur.len() > 0 {
        done.push(cur)
    } else {
        done
    }
}

pub open spec fn strings_view(v: Seq<String>) -> Seq<Seq<char>> {
    v.map_values(|t: String| t@)
}

fn strip_cr_string(v: &Vec<char>) -> (r: String)
    ensures
        r@ == strip_cr(v@),
{
    if v.len() > 0 && v[v.len() - 1] == '\r' {
        crate::text::string_from_range(v, 0, v.len() - 1)
    } else {
        string_from_chars(v)
    }
}

/// The lines of `text` (see `lines_spec`).
pub fn split_lines(text: &str) -> (r: Vec<String>)
    ensures
        strings_view(r@) == lines_spec(text@),
{
    let cs = to_chars(text);
    let mut done: Vec<String> = Vec::new();
    let mut cur: Vec<char> = Vec::new();
    let n = cs.len();
    for i in 0..n
        invariant
            n == cs@.len(),
            cs@ == text@,
            strings_view(done@) == lines_acc(cs@.take(i as int)).0,
            cur@ == lines_acc(cs@.take(i as int)).1,
    {
        proof {
            assert(cs@.take(i + 1).drop_last() =~= cs@.take(i as int));
            assert(cs@.take(i + 1).last() == cs@[i as int]);
        }
        let c = cs[i];
        if c == '\n' {
            let line = strip_cr_string(&cur);
            let ghost before = done@;
            done.push(line);
            proof {
                assert(strings_view(done@) =~= strings_view(before).push(line@));
            }
            cur = Vec::new();
            proof {
                assert(cur@ =~= Seq::<char>::empty());
            }
        } else {
            cur.push(c);
        }
    }
    proof {
        assert(cs@.take(n as int) =~= cs@);
    }
    if cur.len() > 0 {
        let last = string_from_chars(&cur);
        let ghost before = done@;
        done.push(last);
        proof {
            assert(strings_view(done@) =~= strings_view(before).push(last@));
        }
    }
    done
}

// ---------------------------------------------------------------------
// Line backgrounds
// ---------------------------------------------------------------------

/// The background a preview line is shown on.
#[derive(Debug, Clone, Copy, PartialEq, Eq, Structural)]
pub enum LineStyle {
    Plain,
    Cyan,
    Blue,
    Yellow,
    Magenta,
    Red,
    BoldRed,
}

/// The background for a level colour code.
pub open spec fn style_for_code_spec(code: Option<Seq<char>>) -> LineStyle {
    match code {
        None => LineStyle::Plain,
        Some(c) => if c == CYAN@ {
            LineStyle::Cyan
        } else if c == BLUE@ {
            LineStyle::Blue
        } else if c == YELLOW@ {
            LineStyle::Yellow
        } else if c == MAGENTA@ {
            LineStyle::Magenta
        } else if c == RED@ {
            LineStyle::Red
        } else if c == BOLD_RED@ {
            LineStyle::BoldRed
        } else {
            LineStyle::Plain
        },
    }
}

/// The background of the lines of a document: the colour of its level when
/// level colouring is on and not disabled.
pub open spec fn line_style_spec(source: Value, options: OutputOptions) -> LineStyle {
    style_for_code_spec(
        level_code_spec(source, options.color_level && !options.no_color, opt_string_view(options.color_level_field)),
    )
}

fn opt_field(o: &Option<String>) -> (r: Option<&str>)
    ensures
        opt_str_ref_view(r) == opt_string_view(*o),
{
    match o {
        Some(s) => Some(s.as_str()),
        None => None,
    }
}

/// The background of the lines of a document (see `line_style_spec`).
pub fn line_style(source: &Value, options: &OutputOptions) -> (r: LineStyle)
    ensures
        r == line_style_spec(*source, *options),
{
    let code = color_code_by_level(source, options.color_level, options.no_color, opt_field(&options.color_level_field));
    match code {
        None => LineStyle::Plain,
        Some(c) => {
            let v = to_chars(c);
            if chars_eq_str(&v, CYAN) {
                LineStyle::Cyan
            } else if chars_eq_str(&v, BLUE) {
                LineStyle::Blue
            } else if chars_eq_str(&v, YELLOW) {
                LineStyle::Yellow
            } else if chars_eq_str(&v, MAGENTA) {
                LineStyle::Magenta
            } else if chars_eq_str(&v, RED) {
                LineStyle::Red
            } else if chars_eq_str(&v, BOLD_RED) {
                LineStyle::BoldRed
            } else {
                LineStyle::Plain
            }
        },
    }
}

// ---------------------------------------------------------------------
// Preview entries
// ---------------------------------------------------------------------

/// A line of the preview and its background.
#[derive(Debug)]
pub struct PreviewLine {
    pub text: String,
    pub style: LineStyle,
}

pub open spec fn pline_view(l: PreviewLine) -> (Seq<char>, LineStyle) {
    (l.text@, l.style)
}

pub open spec fn plines_view(ls: Seq<PreviewLine>) -> Seq<(Seq<char>, LineStyle)> {
    ls.map_values(|l: PreviewLine| pline_view(l))
}

/// The terminal lines of a rendered result: its lines, or one empty line
/// for an empty text, all on one background.
pub open spec fn text_lines_spec(text: Seq<char>, style: LineStyle) -> Seq<(Seq<char>, LineStyle)> {
    if text.len() == 0 {
        seq![(Seq::empty(), style)]
    } else {
        lines_spec(text).map_values(|l: Seq<char>| (l, style))
    }
}

/// What one match adds to the preview.  In the terminal: the lines of the
/// plain rendering (no colour codes), on the background of the document's
/// level.  As printed output: the output line, coloured as `jgrep` prints
/// it.
pub open spec fn entries_spec(r: Value, source: Value, options: OutputOptions, tui: bool) -> Result<
    Seq<(Seq<char>, LineStyle)>,
    Seq<char>,
> {
    if tui {
        match format_value_spec(r, options.pretty) {
            Ok(t) => Ok(text_lines_spec(t, line_style_spec(source, options))),
            Err(e) => Err(e),
        }
    } else {
        match format_result_spec(r, source, options) {
            Ok(t) => Ok(seq![(t, LineStyle::Plain)]),
            Err(e) => Err(e),
        }
    }
}

/// The preview while it is built: still collecting (lines, matches), full
/// (the limit was reached), or failed with an error.
pub enum PreviewAcc {
    Going(Seq<(Seq<char>, LineStyle)>, nat),
    Done(Seq<(Seq<char>, LineStyle)>, nat),
    Failed(Seq<char>),
}

/// One filter result: a match adds its entries and counts; the preview is
/// full once `limit` matches were added.
pub open spec fn match_step(acc: PreviewAcc, r: Value, source: Value, limit: nat, options: OutputOptions, tui: bool) -> PreviewAcc {
    match acc {
        PreviewAcc::Going(ls, c) => if !is_match_spec(r) {
            acc
        } else {
            match entries_spec(r, source, options, tui) {
                Err(e) => PreviewAcc::Failed(e),
                Ok(es) => if c + 1 >= limit {
                    PreviewAcc::Done(ls + es, c + 1)
                } else {
                    PreviewAcc::Going(ls + es, c + 1)
                },
            }
        },
        _ => acc,
    }
}

/// The results of one document, in order.
pub open spec fn results_fold(acc: PreviewAcc, rs: Seq<Value>, source: Value, limit: nat, options: OutputOptions, tui: bool) -> PreviewAcc
    decreases rs.len(),
{
    if rs.len() == 0 {
        acc
    } else {
        match_step(results_fold(acc, rs.drop_last(), source, limit, options, tui), rs.last(), source, limit, options, tui)
    }
}

/// One document, given the outcome of running the filter on it: its
/// results in order; an error ends the preview with that error; `halt`
/// ends it with what was collected, as the filter gives no further outputs.
pub open spec fn outcome_step(
    acc: PreviewAcc,
    outcome: Result<Seq<Value>, Failure>,
    source: Value,
    limit: nat,
    options: OutputOptions,
    tui: bool,
) -> PreviewAcc {
    match acc {
        PreviewAcc::Going(ls, c) => match outcome {
            Err(Failure::Error(e)) => PreviewAcc::Failed(e),
            Err(Failure::Halt(_)) => PreviewAcc::Done(ls, c),
            Ok(rs) => results_fold(acc, rs, source, limit, options, tui),
        },
        _ => acc,
    }
}

/// The documents in order; `outcomes[i]` is the outcome for `values[i]`.
pub open spec fn values_fold(
    values: Seq<Value>,
    outcomes: Seq<Result<Seq<Value>, Failure>>,
    limit: nat,
    options: OutputOptions,
    tui: bool,
) -> PreviewAcc
    decreases values.len(),
{
    if values.len() == 0 {
        PreviewAcc::Going(Seq::empty(), 0)
    } else {
        outcome_step(
            values_fold(values.drop_last(), outcomes, limit, options, tui),
            outcomes[values.len() - 1],
            values.last(),
            limit,
            options,
            tui,
        )
    }
}

/// The preview of `filter` over `values` (entries and number of matches),
/// given the outcome of running the filter on each document: the compile
/// error, the first error met, or what was collected.
pub open spec fn preview_spec(
    values: Seq<Value>,
    filter: Seq<char>,
    outcomes: Seq<Result<Seq<Value>, Failure>>,
    limit: nat,
    options: OutputOptions,
    tui: bool,
) -> Result<(Seq<(Seq<char>, LineStyle)>, nat), Seq<char>> {
    match program_error(filter) {
        Some(e) => Err(e),
        None => match values_fold(values, outcomes, limit, options, tui) {
            PreviewAcc::Going(ls, c) => Ok((ls, c)),
            PreviewAcc::Done(ls, c) => Ok((ls, c)),
            PreviewAcc::Failed(e) => Err(e),
        },
    }
}

/// Document `i` got an outcome that `filter` may give on it, if the
/// preview was still collecting when it reached it.
pub open spec fn preview_run_possible(
    values: Seq<Value>,
    filter: Seq<char>,
    outcomes: Seq<Result<Seq<Value>, Failure>>,
    limit: nat,
    options: OutputOptions,
    tui: bool,
    i: int,
) -> bool {
    values_fold(values.take(i), outcomes, limit, options, tui) is Going ==> filter_may_give(filter, values[i], outcomes[i])
}

/// The outcomes of a preview are ones that the filter may give on the
/// documents it ran on (when it compiles; see `preview_run_possible`).
pub open spec fn preview_runs_possible(
    values: Seq<Value>,
    filter: Seq<char>,
    outcomes: Seq<Result<Seq<Value>, Failure>>,
    limit: nat,
    options: OutputOptions,
    tui: bool,
) -> bool {
    program_error(filter) is None ==> forall|i: int|
        0 <= i < values.len() ==> #[trigger] preview_run_possible(values, filter, outcomes, limit, options, tui, i)
}

proof fn lemma_preview_possible_push(
    values: Seq<Value>,
    filter: Seq<char>,
    outs: Seq<Result<Seq<Value>, Failure>>,
    o: Result<Seq<Value>, Failure>,
    limit: nat,
    options: OutputOptions,
    tui: bool,
)
    requires
        outs.len() < values.len(),
    ensures
        forall|k: int|
            0 <= k < outs.len() ==> preview_run_possible(values, filter, outs.push(o), limit, options, tui, k)
                == preview_run_possible(values, filter, outs, limit, options, tui, k),
        preview_run_possible(values, filter, outs.push(o), limit, options, tui, outs.len() as int) == (values_fold(
            values.take(outs.len() as int),
            outs,
            limit,
            options,
            tui,
        ) is Going ==> filter_may_give(filter, values[outs.len() as int], o)),
{
    let o2 = outs.push(o);
    assert forall|k: int|
        0 <= k < outs.len() implies preview_run_possible(values, filter, o2, limit, options, tui, k)
        == preview_run_possible(values, filter, outs, limit, options, tui, k) by {
        lemma_values_outcomes(values.take(k), outs, o2, limit, options, tui);
        assert(o2[k] == outs[k]);
    }
    lemma_values_outcomes(values.take(outs.len() as int), outs, o2, limit, options, tui);
}

/// Once the preview stops collecting, it does not collect again.
proof fn lemma_stopped_stays(
    values: Seq<Value>,
    outs: Seq<Result<Seq<Value>, Failure>>,
    i: int,
    k: int,
    limit: nat,
    options: OutputOptions,
    tui: bool,
)
    requires
        0 <= i <= k <= values.len(),
        !(values_fold(values.take(i), outs, limit, options, tui) is Going),
    ensures
        !(values_fold(values.take(k), outs, limit, options, tui) is Going),
{
    assert(values.take(k).take(i) =~= values.take(i));
    lemma_values_absorb(values.take(k), outs, i, limit, options, tui);
}

pub open spec fn entries_view(r: Result<(Vec<PreviewLine>, usize), String>) -> Result<(Seq<(Seq<char>, LineStyle)>, nat), Seq<char>> {
    match r {
        Ok((ls, c)) => Ok((plines_view(ls@), c as nat)),
        Err(e) => Err(e@),
    }
}

proof fn lemma_results_absorb(acc: PreviewAcc, rs: Seq<Value>, source: Value, limit: nat, options: OutputOptions, tui: bool)
    requires
        !(acc is Going),
    ensures
        results_fold(acc, rs, source, limit, options, tui) == acc,
    decreases rs.len(),
{
    if rs.len() > 0 {
        lemma_results_absorb(acc, rs.drop_last(), source, limit, options, tui);
    }
}

proof fn lemma_values_absorb(
    values: Seq<Value>,
    outcomes: Seq<Result<Seq<Value>, Failure>>,
    i: int,
    limit: nat,
    options: OutputOptions,
    tui: bool,
)
    requires
        0 <= i <= values.len(),
        !(values_fold(values.take(i), outcomes, limit, options, tui) is Going),
    ensures
        values_fold(values, outcomes, limit, options, tui) == values_fold(values.take(i), outcomes, limit, options, tui),
    decreases values.len() - i,
{
    if i < values.len() {
        let t = values.take(i + 1);
        assert(t.drop_last() =~= values.take(i));
        lemma_values_absorb(values, outcomes, i + 1, limit, options, tui);
    } else {
        assert(values.take(i) =~= values);
    }
}

proof fn lemma_values_outcomes(
    values: Seq<Value>,
    o1: Seq<Result<Seq<Value>, Failure>>,
    o2: Seq<Result<Seq<Value>, Failure>>,
    limit: nat,
    options: OutputOptions,
    tui: bool,
)
    requires
        forall|k: int| 0 <= k < values.len() ==> o1[k] == o2[k],
    ensures
        values_fold(values, o1, limit, options, tui) == values_fold(values, o2, limit, options, tui),
    decreases values.len(),
{
    if values.len() > 0 {
        lemma_values_outcomes(values.drop_last(), o1, o2, limit, options, tui);
    }
}

proof fn lemma_results_split(acc: PreviewAcc, rs: Seq<Value>, k: int, source: Value, limit: nat, options: OutputOptions, tui: bool)
    requires
        0 <= k <= rs.len(),
    ensures
        results_fold(acc, rs, source, limit, options, tui) == results_fold(
            results_fold(acc, rs.take(k), source, limit, options, tui),
            rs.subrange(k, rs.len() as int),
            source,
            limit,
            options,
            tui,
        ),
    decreases rs.len(),
{
    if rs.len() == k {
        assert(rs.take(k) =~= rs);
        assert(rs.subrange(k, rs.len() as int) =~= Seq::<Value>::empty());
    } else {
        lemma_results_split(acc, rs.drop_last(), k, source, limit, options, tui);
        assert(rs.drop_last().take(k) =~= rs.take(k));
        let tail = rs.subrange(k, rs.len() as int);
        assert(tail.drop_last() =~= rs.drop_last().subrange(k, rs.len() - 1));
        assert(tail.last() == rs.last());
    }
}

fn entries_for(r: &Value, source: &Value, options: &OutputOptions, tui: bool) -> (e: Result<Vec<PreviewLine>, String>)
    ensures
        match e {
            Ok(ls) => entries_spec(*r, *source, *options, tui) == Ok::<Seq<(Seq<char>, LineStyle)>, Seq<char>>(plines_view(ls@)),
            Err(m) => entries_spec(*r, *source, *options, tui) == Err::<Seq<(Seq<char>, LineStyle)>, Seq<char>>(m@),
        },
{
    if tui {
        let text = format_value(r, options.pretty)?;
        let style = line_style(source, options);
        let mut out: Vec<PreviewLine> = Vec::new();
        let cs = to_chars(text.as_str());
        if cs.len() == 0 {
            out.push(PreviewLine { text: String::new(), style });
            proof {
                assert(plines_view(out@) =~= seq![(Seq::<char>::empty(), style)]);
            }
            return Ok(out);
        }
        let lines = split_lines(text.as_str());
        let ghost ls = lines_spec(text@);
        let n = lines.len();
        for i in 0..n
            invariant
                n == lines@.len(),
                strings_view(lines@) == ls,
                plines_view(out@) == ls.take(i as int).map_values(|l: Seq<char>| (l, style)),
        {
            let t = lines[i].clone();
            let ghost before = out@;
            out.push(PreviewLine { text: t, style });
            proof {
                assert(strings_view(lines@)[i as int] == lines@[i as int]@);
                assert(ls.take(i + 1) =~= ls.take(i as int).push(ls[i as int]));
                assert(plines_view(out@) =~= plines_view(before).push((t@, style)));
                assert(ls.take(i + 1).map_values(|l: Seq<char>| (l, style)) =~= ls.take(i as int).map_values(
                    |l: Seq<char>| (l, style),
                ).push((ls[i as int], style)));
            }
        }
        proof {
            assert(ls.take(n as int) =~= ls);
        }
        Ok(out)
    } else {
        let text = format_result(r, source, options)?;
        let mut out: Vec<PreviewLine> = Vec::new();
        out.push(PreviewLine { text, style: LineStyle::Plain });
        proof {
            assert(plines_view(out@) =~= seq![(text@, LineStyle::Plain)]);
        }
        Ok(out)
    }
}

/// Where a preview under construction stands.
#[derive(Debug)]
pub enum PreviewStatus {
    /// Still collecting matches.
    Going,
    /// The limit was reached, or the filter halted.
    Full,
    /// Running the filter, or rendering a match, failed with this error.
    Failed(String),
}

/// A preview under construction: its lines, its number of matches and
/// where it stands.
#[derive(Debug)]
pub struct PreviewState {
    pub lines: Vec<PreviewLine>,
    pub count: usize,
    pub status: PreviewStatus,
}

impl View for PreviewState {
    type V = PreviewAcc;

    open spec fn view(&self) -> PreviewAcc {
        match self.status {
            PreviewStatus::Going => PreviewAcc::Going(plines_view(self.lines@), self.count as nat),
            PreviewStatus::Full => PreviewAcc::Done(plines_view(self.lines@), self.count as nat),
            PreviewStatus::Failed(e) => PreviewAcc::Failed(e@),
        }
    }
}

impl PreviewState {
    /// A state built with limit `limit`: while collecting, it holds fewer
    /// matches than the limit (or none).
    pub open spec fn wf(&self, limit: usize) -> bool {
        self.status is Going ==> (self.count == 0 || self.count < limit)
    }

    /// An empty preview, still collecting.
    pub fn new() -> (r: PreviewState)
        ensures
            r@ == PreviewAcc::Going(Seq::empty(), 0),
            forall|limit: usize| r.wf(limit),
    {
        let r = PreviewState { lines: Vec::new(), count: 0, status: PreviewStatus::Going };
        proof {
            assert(plines_view(r.lines@) =~= Seq::<(Seq<char>, LineStyle)>::empty());
        }
        r
    }

    /// Whether the preview is still collecting matches.
    pub fn is_going(&self) -> (r: bool)
        ensures
            r == (self.status is Going),
    {
        match self.status {
            PreviewStatus::Going => true,
            _ => false,
        }
    }
}

/// Adds one document to a preview, given the outcome of running the filter
/// on it (see `outcome_step`): each match among its results adds its
/// entries, until the preview holds `limit` matches.
pub fn preview_step(
    acc: &mut PreviewState,
    value: &Value,
    outcome: Result<Vec<Value>, RunError>,
    limit: usize,
    options: &OutputOptions,
    tui: bool,
)
    requires
        old(acc).wf(limit),
    ensures
        final(acc).wf(limit),
        final(acc)@ == outcome_step(old(acc)@, outcome_view(outcome), *value, limit as nat, *options, tui),
{
    match &acc.status {
        PreviewStatus::Going => {},
        _ => return,
    }
    let ghost acc0 = acc@;
    let ghost oc = outcome_view(outcome);
    let rs = match outcome {
        Ok(rs) => rs,
        Err(RunError::Error(e)) => {
            acc.status = PreviewStatus::Failed(e);
            return;
        },
        Err(RunError::Halt(_)) => {
            acc.status = PreviewStatus::Full;
            return;
        },
    };
    let m = rs.len();
    proof {
        assert(rs@.take(0) =~= Seq::<Value>::empty());
    }
    for j in 0..m
        invariant
            m == rs@.len(),
            acc.status is Going,
            acc.count == 0 || acc.count < limit,
            acc0 is Going,
            acc0 == old(acc)@,
            oc == Ok::<Seq<Value>, Failure>(rs@),
            oc == outcome_view(outcome),
            results_fold(acc0, rs@.take(j as int), *value, limit as nat, *options, tui) == acc@,
    {
        let r = &rs[j];
        let ghost acc_j = acc@;
        proof {
            assert(rs@.take(j + 1).drop_last() =~= rs@.take(j as int));
            assert(rs@.take(j + 1).last() == rs@[j as int]);
            assert(results_fold(acc0, rs@.take(j + 1), *value, limit as nat, *options, tui) == match_step(acc_j, *r, *value, limit as nat, *options, tui));
        }
        if is_match(r) {
            match entries_for(r, value, options, tui) {
                Err(e) => {
                    acc.status = PreviewStatus::Failed(e);
                    proof {
                        lemma_results_absorb(acc@, rs@.subrange(j + 1, m as int), *value, limit as nat, *options, tui);
                        lemma_results_split(acc0, rs@, j + 1, *value, limit as nat, *options, tui);
                    }
                    return;
                },
                Ok(es) => {
                    let ghost before = acc.lines@;
                    let ghost esv = es@;
                    let mut es = es;
                    acc.lines.append(&mut es);
                    acc.count = acc.count + 1;
                    proof {
                        assert(acc.lines@ == before + esv);
                        assert(plines_view(acc.lines@) =~= plines_view(before) + plines_view(esv));
                    }
                    if acc.count >= limit {
                        acc.status = PreviewStatus::Full;
                        proof {
                            lemma_results_absorb(acc@, rs@.subrange(j + 1, m as int), *value, limit as nat, *options, tui);
                            lemma_results_split(acc0, rs@, j + 1, *value, limit as nat, *options, tui);
                        }
                        return;
                    }
                },
            }
        }
    }
    proof {
        assert(rs@.take(m as int) =~= rs@);
    }
}

/// The first matches of `filter` over `values`: in the terminal (`tui`) as
/// plain lines on the background of their document's level, else as output
/// lines; with the number of matches.  The filter runs on each document in
/// turn, and `preview_step` adds its outcome, until the preview is full or
/// fails; the outcomes come from the engine, so the contract speaks of an
/// outcome that the filter may give on each document it ran on.
pub fn preview_entries(values: &Vec<Value>, filter: &str, limit: usize, options: &OutputOptions, tui: bool) -> (r: Result<
    (Vec<PreviewLine>, usize),
    String,
>)
    requires
        all_ok(values@),
    ensures
        exists|outcomes: Seq<Result<Seq<Value>, Failure>>|
            preview_runs_possible(values@, filter@, outcomes, limit as nat, *options, tui) && entries_view(r)
                == #[trigger] preview_spec(values@, filter@, outcomes, limit as nat, *options, tui),
{
    let matcher = match Matcher::compile(filter) {
        Ok(m) => m,
        Err(e) => {
            proof {
                let o: Seq<Result<Seq<Value>, Failure>> = Seq::empty();
                assert(entries_view(Err(e)) == preview_spec(values@, filter@, o, limit as nat, *options, tui));
            }
            return Err(e);
        },
    };
    let ghost vs = values@;
    let ghost mut outs: Seq<Result<Seq<Value>, Failure>> = Seq::empty();
    let mut st = PreviewState::new();
    let n = values.len();
    let mut i: usize = 0;
    proof {
        assert(vs.take(0) =~= Seq::<Value>::empty());
    }
    while i < n && st.is_going()
        invariant
            n == vs.len(),
            vs == values@,
            all_ok(vs),
            i <= n,
            program_error(filter@) is None,
            outs.len() == i,
            st.wf(limit),
            values_fold(vs.take(i as int), outs, limit as nat, *options, tui) == st@,
            !(st@ is Going) ==> values_fold(vs, outs, limit as nat, *options, tui) == st@,
            matcher.code() == filter@,
            forall|k: int| 0 <= k < i ==> #[trigger] preview_run_possible(vs, filter@, outs, limit as nat, *options, tui, k),
        decreases n - i,
    {
        let value = &values[i];
        let results = matcher.apply_to(value);
        let ghost o = outcome_view(results);
        let ghost outs2 = outs.push(o);
        proof {
            lemma_preview_possible_push(vs, filter@, outs, o, limit as nat, *options, tui);
            assert(outs.take(i as int) =~= outs);
            assert(preview_run_possible(vs, filter@, outs2, limit as nat, *options, tui, i as int));
            assert forall|k: int| 0 <= k < i + 1 implies #[trigger] preview_run_possible(vs, filter@, outs2, limit as nat, *options, tui, k) by {
                if k < i {
                    assert(preview_run_possible(vs, filter@, outs, limit as nat, *options, tui, k));
                }
            }
        }
        let ghost acc_i = st@;
        preview_step(&mut st, value, results, limit, options, tui);
        proof {
            assert(vs.take(i + 1).drop_last() =~= vs.take(i as int));
            assert(vs.take(i + 1).last() == vs[i as int]);
            lemma_values_outcomes(vs.take(i as int), outs, outs2, limit as nat, *options, tui);
            assert(outs2[i as int] == o);
            assert(values_fold(vs.take(i + 1), outs2, limit as nat, *options, tui) == outcome_step(acc_i, o, *value, limit as nat, *options, tui));
            if !(st@ is Going) {
                lemma_values_absorb(vs, outs2, i + 1, limit as nat, *options, tui);
            }
            outs = outs2;
        }
        i = i + 1;
    }
    proof {
        if st@ is Going {
            assert(i == n);
            assert(vs.take(n as int) =~= vs);
        } else {
            assert forall|k: int| 0 <= k < n implies #[trigger] preview_run_possible(vs, filter@, outs, limit as nat, *options, tui, k) by {
                if k >= i {
                    lemma_stopped_stays(vs, outs, i as int, k, limit as nat, *options, tui);
                }
            }
        }
    }
    let ghost fin = outs;
    match st.status {
        PreviewStatus::Failed(e) => {
            proof {
                assert(entries_view(Err(e)) == preview_spec(values@, filter@, fin, limit as nat, *options, tui));
                assert(preview_runs_possible(values@, filter@, fin, limit as nat, *options, tui));
            }
            Err(e)
        },
        _ => {
            let r = Ok((st.lines, st.count));
            proof {
                assert(entries_view(r) == preview_spec(values@, filter@, fin, limit as nat, *options, tui));
                assert(preview_runs_possible(values@, filter@, fin, limit as nat, *options, tui));
            }
            r
        },
    }
}

/// The texts of preview entries.
pub open spec fn texts_of(ls: Seq<(Seq<char>, LineStyle)>) -> Seq<Seq<char>> {
    ls.map_values(|l: (Seq<char>, LineStyle)| l.0)
}

fn texts(lines: Vec<PreviewLine>) -> (r: Vec<String>)
    ensures
        strings_view(r@) == texts_of(plines_view(lines@)),
{
    let mut out: Vec<String> = Vec::new();
    let n = lines.len();
    for line in it: lines.into_iter()
        invariant
            n == it.seq().len(),
            strings_view(out@) == texts_of(plines_view(it.seq().take(it.index() as int))),
    {
        let ghost i = it.index();
        let ghost before = out@;
        proof {
            assert(it.seq().take(i + 1) =~= it.seq().take(i as int).push(line));
            assert(plines_view(it.seq().take(i + 1)) =~= plines_view(it.seq().take(i as int)).push(pline_view(line)));
            assert(texts_of(plines_view(it.seq().take(i + 1))) =~= texts_of(plines_view(it.seq().take(i as int))).push(line.text@));
        }
        out.push(line.text);
        proof {
            assert(strings_view(out@) =~= strings_view(before).push(line.text@));
        }
    }
    proof {
        assert(lines@.take(n as int) =~= lines@);
    }
    out
}

/// The first `limit` output lines of `filter` over `values`, as `jgrep`
/// would print them (see `preview_spec`).
pub fn preview_values(values: &Vec<Value>, filter: &str, limit: usize, options: &OutputOptions) -> (r: Result<Vec<String>, String>)
    requires
        all_ok(values@),
    ensures
        exists|outcomes: Seq<Result<Seq<Value>, Failure>>|
            preview_runs_possible(values@, filter@, outcomes, limit as nat, *options, false) && match #[trigger] preview_spec(
                values@,
                filter@,
                outcomes,
                limit as nat,
                *options,
                false,
            ) {
                Ok((ls, _)) => r is Ok && strings_view(r->Ok_0@) == texts_of(ls),
                Err(e) => r is Err && r->Err_0@ == e,
            },
{
    match preview_entries(values, filter, limit, options, false) {
        Ok((lines, _)) => Ok(texts(lines)),
        Err(e) => Err(e),
    }
}

/// The terminal preview: its lines and the number of matches shown.
#[derive(Debug)]
pub struct TuiPreview {
    pub lines: Vec<PreviewLine>,
    pub match_count: usize,
}

/// The terminal preview of `filter` over `values` (see `preview_spec`).
pub fn preview_tui_values(values: &Vec<Value>, filter: &str, limit: usize, options: &OutputOptions) -> (r: Result<TuiPreview, String>)
    requires
        all_ok(values@),
    ensures
        exists|outcomes: Seq<Result<Seq<Value>, Failure>>|
            preview_runs_possible(values@, filter@, outcomes, limit as nat, *options, true) && match #[trigger] preview_spec(
                values@,
                filter@,
                outcomes,
                limit as nat,
                *options,
                true,
            ) {
                Ok((ls, c)) => r is Ok && plines_view(r->Ok_0.lines@) == ls && r->Ok_0.match_count == c,
                Err(e) => r is Err && r->Err_0@ == e,
            },
{
    match preview_entries(values, filter, limit, options, true) {
        Ok((lines, match_count)) => Ok(TuiPreview { lines, match_count }),
        Err(e) => Err(e),
    }
}

/// The bookkeeping of a preview under construction: it never holds more
/// than `limit` matches (one at least), and printed output has one entry
/// per match.
pub open spec fn acc_ok(acc: PreviewAcc, limit: nat, tui: bool) -> bool {
    match acc {
        PreviewAcc::Going(ls, c) => (c == 0 || c < limit) && (!tui ==> ls.len() == c),
        PreviewAcc::Done(ls, c) => c <= (if limit == 0 {
            1
        } else {
            limit
        }) && (!tui ==> ls.len() == c),
        PreviewAcc::Failed(_) => true,
    }
}

proof fn lemma_results_ok(acc: PreviewAcc, rs: Seq<Value>, source: Value, limit: nat, options: OutputOptions, tui: bool)
    requires
        acc_ok(acc, limit, tui),
    ensures
        acc_ok(results_fold(acc, rs, source, limit, options, tui), limit, tui),
    decreases rs.len(),
{
    if rs.len() > 0 {
        lemma_results_ok(acc, rs.drop_last(), source, limit, options, tui);
    }
}

proof fn lemma_values_ok(values: Seq<Value>, outcomes: Seq<Result<Seq<Value>, Failure>>, limit: nat, options: OutputOptions, tui: bool)
    ensures
        acc_ok(values_fold(values, outcomes, limit, options, tui), limit, tui),
    decreases values.len(),
{
    if values.len() > 0 {
        lemma_values_ok(values.drop_last(), outcomes, limit, options, tui);
        let acc = values_fold(values.drop_last(), outcomes, limit, options, tui);
        if acc is Going {
            match outcomes[values.len() - 1] {
                Ok(rs) => lemma_results_ok(acc, rs, values.last(), limit, options, tui),
                Err(_) => {},
            }
        }
    }
}

/// A preview shows at most `limit` matches (one when the limit is zero),
/// and as printed output it has exactly one line per match.
pub proof fn law_preview_respects_limit(
    values: Seq<Value>,
    filter: Seq<char>,
    outcomes: Seq<Result<Seq<Value>, Failure>>,
    limit: nat,
    options: OutputOptions,
    tui: bool,
)
    requires
        preview_spec(values, filter, outcomes, limit, options, tui) is Ok,
    ensures
        ({
            let (ls, c) = preview_spec(values, filter, outcomes, limit, options, tui)->Ok_0;
            &&& c <= if limit == 0 {
                1
            } else {
                limit
            }
            &&& !tui ==> ls.len() == c
        }),
{
    lemma_values_ok(values, outcomes, limit, options, tui);
}

} // verus!
