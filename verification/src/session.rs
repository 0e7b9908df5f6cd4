//! The explorer's state and what it does on each key: the two inputs being
//! edited (a filter that selects documents and an output expression), field
//! completion from the inferred schema, filter history, display toggles and
//! the live preview.
//!
//! Writing files is left to the caller: after each step it writes the
//! generated filter when `persist_pending` is set and the history when
//! `history_pending` is set, and it performs a requested save.

use vstd::prelude::*;
use crate::explore::{
    char_pos, compose_explore_jq, compose_spec, decimal, decimal_spec, lemma_char_pos, next_boundary, next_boundary_spec,
    previous_boundary, previous_boundary_spec, saturating_offset, saturating_offset_spec, ExploreConfig,
};
use crate::output::OutputOptions;
use crate::run::{lines_view, OutputLine};
use crate::preview::{lines_acc, lines_spec, strip_cr, plines_view, preview_runs_possible, preview_spec, preview_tui_values, preview_values, split_lines, strings_view, texts_of, LineStyle, PreviewLine};
use crate::schema::{infer_schema, occ_docs, summarizes, FieldSummary};
use crate::shortcuts::join_spec;
use crate::text::{append_range, chars_eq_str, push_char, starts_with, starts_with_exec, string_from_range, to_chars, trim, trimmed};
use crate::utf8_len::{byte_len, byte_offset, char_index_of, char_width, char_width_exec, is_boundary, lemma_byte_offset_monotone};
use crate::value::{all_ok, numbers_ok, Value};
use crate::engine::Failure;

verus! {

/// Which input keys edit.
#[derive(Debug, Clone, Copy, PartialEq, Eq, Structural)]
pub enum ActiveInput {
    Filter,
    Output,
}

/// An edited text and the cursor in it (a byte offset).
#[derive(Debug)]
pub struct TextState {
    pub input: String,
    pub cursor: usize,
}

/// Streaming input: whether it ended, and the errors met so far.
#[derive(Debug)]
pub struct StreamState {
    pub ended: bool,
    pub errors: Vec<String>,
}

/// An explore session.
pub struct ExploreSession {
    pub values: Vec<Value>,
    pub fields: Vec<FieldSummary>,
    pub filter: TextState,
    pub generated: String,
    pub error: Option<String>,
    pub history: Vec<String>,
    pub history_index: Option<usize>,
    pub completions: Vec<String>,
    pub completion_index: usize,
    pub completion_prefix: String,
    pub output: TextState,
    pub active_input: ActiveInput,
    pub preview_fullscreen: bool,
    pub output_options: OutputOptions,
    pub preview_lines: Vec<PreviewLine>,
    pub match_count: usize,
    pub limit: usize,
    pub field_scroll: usize,
    pub preview_scroll: u16,
    pub config: ExploreConfig,
    pub stream: Option<StreamState>,
    pub message: Option<String>,
    /// The generated filter is written out after each refresh.
    pub persist_last_filter: bool,
    /// A refresh produced a filter that is still to be written out.
    pub persist_pending: bool,
    /// The history is written out when it grows.
    pub history_file: bool,
    /// The history grew and is still to be written out.
    pub history_pending: bool,
}

/// The editing state of a session, as the specification sees it.
#[verifier::ext_equal]
pub struct SessionView {
    pub values: Seq<Value>,
    pub fields: Seq<FieldSummary>,
    pub filter: Seq<char>,
    pub filter_cursor: nat,
    pub output: Seq<char>,
    pub output_cursor: nat,
    pub active: ActiveInput,
    pub history: Seq<Seq<char>>,
    pub history_index: Option<nat>,
    pub completions: Seq<Seq<char>>,
    pub completion_index: nat,
    pub completion_prefix: Seq<char>,
    pub fullscreen: bool,
    pub options: OutputOptions,
    pub limit: nat,
    pub field_scroll: nat,
    pub config: ExploreConfig,
    pub stream: Option<(bool, Seq<Seq<char>>)>,
    pub message: Option<Seq<char>>,
    pub persist_enabled: bool,
    pub history_file: bool,
    pub history_pending: bool,
}

/// What the preview shows, as the specification sees it.
#[verifier::ext_equal]
pub struct PreviewView {
    pub generated: Seq<char>,
    pub error: Option<Seq<char>>,
    pub lines: Seq<(Seq<char>, LineStyle)>,
    pub count: nat,
    pub scroll: u16,
    pub persist_pending: bool,
}

pub open spec fn opt_nat(o: Option<usize>) -> Option<nat> {
    match o {
        Some(k) => Some(k as nat),
        None => None,
    }
}

pub open spec fn opt_text(o: Option<String>) -> Option<Seq<char>> {
    match o {
        Some(s) => Some(s@),
        None => None,
    }
}

pub open spec fn stream_view(o: Option<StreamState>) -> Option<(bool, Seq<Seq<char>>)> {
    match o {
        Some(st) => Some((st.ended, strings_view(st.errors@))),
        None => None,
    }
}

/// The last scroll position for `n` lines: the last line, as far as a
/// position can reach.
pub open spec fn max_scroll_spec(n: nat) -> u16 {
    if n == 0 {
        0
    } else if n - 1 > u16::MAX {
        u16::MAX
    } else {
        (n - 1) as u16
    }
}

/// The last scroll position for `n` lines (see `max_scroll_spec`).
pub fn max_scroll(n: usize) -> (r: u16)
    ensures
        r == max_scroll_spec(n as nat),
{
    if n == 0 {
        0
    } else if n - 1 > 65535 {
        65535
    } else {
        (n - 1) as u16
    }
}

/// The scroll position kept within the preview's lines.
pub open spec fn clamp_scroll(scroll: u16, n: nat) -> u16 {
    let max = max_scroll_spec(n);
    if scroll <= max {
        scroll
    } else {
        max
    }
}

/// What a refresh shows for an editing state, given the outcome of running
/// the filter on each document: the filter and output inputs are composed
/// into one jq program; a composition error or a preview error is shown
/// instead of lines.  A composed program is marked for writing out when
/// that is configured.
pub open spec fn refresh_spec(v: SessionView, outcomes: Seq<Result<Seq<Value>, Failure>>, old: PreviewView) -> PreviewView {
    let composed = compose_spec(v.filter, v.output);
    let pending = old.persist_pending || (v.persist_enabled && composed is Ok);
    match composed {
        Err(e) => PreviewView {
            generated: Seq::empty(),
            error: Some(e),
            lines: Seq::empty(),
            count: 0,
            scroll: old.scroll,
            persist_pending: pending,
        },
        Ok(g) => match preview_spec(v.values, g, outcomes, v.limit, v.options, true) {
            Ok((ls, c)) => PreviewView {
                generated: g,
                error: None,
                lines: ls,
                count: c,
                scroll: clamp_scroll(old.scroll, ls.len()),
                persist_pending: pending,
            },
            Err(e) => PreviewView {
                generated: g,
                error: Some(e),
                lines: Seq::empty(),
                count: 0,
                scroll: old.scroll,
                persist_pending: pending,
            },
        },
    }
}

/// The outcomes of a refresh are ones that the composed program may give
/// on the documents it ran on (see `preview_runs_possible`).
pub open spec fn refresh_possible(v: SessionView, outcomes: Seq<Result<Seq<Value>, Failure>>) -> bool {
    match compose_spec(v.filter, v.output) {
        Ok(g) => preview_runs_possible(v.values, g, outcomes, v.limit, v.options, true),
        Err(_) => true,
    }
}

/// The preview of `new` is a refresh of its editing state from what `old`
/// showed, for outcomes the composed program may give.
pub open spec fn refreshed(new: ExploreSession, old: PreviewView) -> bool {
    exists|o: Seq<Result<Seq<Value>, Failure>>|
        refresh_possible(new.state(), o) && new.shown() == #[trigger] refresh_spec(new.state(), o, old)
}

/// The editing state after the completion state is cleared.
pub open spec fn cleared(v: SessionView) -> SessionView {
    SessionView {
        message: None,
        history_index: None,
        completions: Seq::empty(),
        completion_index: 0,
        completion_prefix: Seq::empty(),
        ..v
    }
}

pub open spec fn on_off(b: bool) -> Seq<char> {
    if b {
        "on"@
    } else {
        "off"@
    }
}

/// Switching keys to the other input.
pub open spec fn toggle_input_spec(v: SessionView) -> SessionView {
    let a = match v.active {
        ActiveInput::Filter => ActiveInput::Output,
        ActiveInput::Output => ActiveInput::Filter,
    };
    SessionView { active: a, message: Some("editing "@ + input_name(a)), ..cleared(v) }
}

/// Switching the preview between full width and beside the fields.
pub open spec fn fullscreen_spec(v: SessionView) -> SessionView {
    SessionView {
        fullscreen: !v.fullscreen,
        message: Some(
            "logs "@ + if !v.fullscreen {
                "fullscreen"@
            } else {
                "split"@
            },
        ),
        ..v
    }
}

/// Switching pretty-printing.
pub open spec fn pretty_spec(v: SessionView) -> SessionView {
    SessionView {
        options: OutputOptions { pretty: !v.options.pretty, ..v.options },
        message: Some("pretty "@ + on_off(!v.options.pretty)),
        ..v
    }
}

/// Switching level colouring (which also turns colours back on).
pub open spec fn level_toggle_spec(v: SessionView) -> SessionView {
    SessionView {
        options: OutputOptions { color_level: !v.options.color_level, no_color: false, ..v.options },
        message: Some("level color "@ + on_off(!v.options.color_level)),
        ..v
    }
}

/// Switching all colours off or on.
pub open spec fn no_color_spec(v: SessionView) -> SessionView {
    SessionView {
        options: OutputOptions { no_color: !v.options.no_color, ..v.options },
        message: Some("color "@ + on_off(v.options.no_color)),
        ..v
    }
}

/// The name of an input.
pub open spec fn input_name(a: ActiveInput) -> Seq<char> {
    match a {
        ActiveInput::Filter => "filter"@,
        ActiveInput::Output => "output"@,
    }
}

impl ExploreSession {
    pub open spec fn state(&self) -> SessionView {
        SessionView {
            values: self.values@,
            fields: self.fields@,
            filter: self.filter.input@,
            filter_cursor: self.filter.cursor as nat,
            output: self.output.input@,
            output_cursor: self.output.cursor as nat,
            active: self.active_input,
            history: strings_view(self.history@),
            history_index: opt_nat(self.history_index),
            completions: strings_view(self.completions@),
            completion_index: self.completion_index as nat,
            completion_prefix: self.completion_prefix@,
            fullscreen: self.preview_fullscreen,
            options: self.output_options,
            limit: self.limit as nat,
            field_scroll: self.field_scroll as nat,
            config: self.config,
            stream: stream_view(self.stream),
            message: opt_text(self.message),
            persist_enabled: self.persist_last_filter,
            history_file: self.history_file,
            history_pending: self.history_pending,
        }
    }

    pub open spec fn shown(&self) -> PreviewView {
        PreviewView {
            generated: self.generated@,
            error: opt_text(self.error),
            lines: plines_view(self.preview_lines@),
            count: self.match_count as nat,
            scroll: self.preview_scroll,
            persist_pending: self.persist_pending,
        }
    }

    /// The cursors stand between characters, a history position is within
    /// the history, and the documents' decimal numbers are in number syntax.
    pub open spec fn wf(&self) -> bool {
        &&& all_ok(self.values@)
        &&& is_boundary(self.filter.input@, self.filter.cursor as int)
        &&& is_boundary(self.output.input@, self.output.cursor as int)
        &&& match self.history_index {
            Some(k) => k < self.history@.len(),
            None => true,
        }
        &&& (self.completion_index == 0 || self.completion_index < self.completions@.len())
    }

    /// Opens a session on `values`: the fields are inferred from the first
    /// `max_schema_documents` documents, both cursors stand at the end of
    /// their inputs, the filter input is active, and the preview is
    /// computed.  `history` is the recorded filter history.
    pub fn new(
        values: Vec<Value>,
        filter: String,
        output_input: String,
        config: ExploreConfig,
        output_options: OutputOptions,
        history: Vec<String>,
        persist_last_filter: bool,
        history_file: bool,
    ) -> (s: Self)
        requires
            all_ok(values@),
            byte_len(filter@) <= usize::MAX,
            byte_len(output_input@) <= usize::MAX,
        ensures
            s.wf(),
            summarizes(
                s.fields@,
                occ_docs(
                    values@,
                    if config.max_schema_documents < values@.len() {
                        config.max_schema_documents as int
                    } else {
                        values@.len() as int
                    },
                ),
            ),
            s.state() == (SessionView {
                values: values@,
                fields: s.fields@,
                filter: filter@,
                filter_cursor: byte_len(filter@),
                output: output_input@,
                output_cursor: byte_len(output_input@),
                active: ActiveInput::Filter,
                history: strings_view(history@),
                history_index: None,
                completions: Seq::empty(),
                completion_index: 0,
                completion_prefix: Seq::empty(),
                fullscreen: false,
                options: output_options,
                limit: config.max_preview_results as nat,
                field_scroll: 0,
                config,
                stream: None,
                message: None,
                persist_enabled: persist_last_filter,
                history_file,
                history_pending: false,
            }),
            refreshed(
                s,
                PreviewView {
                    generated: Seq::empty(),
                    error: None,
                    lines: Seq::empty(),
                    count: 0,
                    scroll: 0,
                    persist_pending: false,
                },
            ),
    {
        let fields = infer_schema(values.as_slice(), config.max_schema_documents);
        let fs: &str = filter.as_str();
        let os: &str = output_input.as_str();
        proof {
            crate::utf8_len::lemma_str_len(fs);
            crate::utf8_len::lemma_str_len(os);
        }
        let filter_cursor = fs.len();
        let output_cursor = os.len();
        proof {
            assert(filter@.take(filter@.len() as int) =~= filter@);
            assert(output_input@.take(output_input@.len() as int) =~= output_input@);
            assert(crate::utf8_len::byte_offset(filter@, filter@.len() as int) == filter_cursor);
            assert(crate::utf8_len::byte_offset(output_input@, output_input@.len() as int) == output_cursor);
        }
        let mut session = ExploreSession {
            values,
            fields,
            filter: TextState { input: filter, cursor: filter_cursor },
            generated: String::new(),
            error: None,
            history,
            history_index: None,
            completions: Vec::new(),
            completion_index: 0,
            completion_prefix: String::new(),
            output: TextState { input: output_input, cursor: output_cursor },
            active_input: ActiveInput::Filter,
            preview_fullscreen: false,
            output_options,
            preview_lines: Vec::new(),
            match_count: 0,
            limit: config.max_preview_results,
            field_scroll: 0,
            preview_scroll: 0,
            config,
            stream: None,
            message: None,
            persist_last_filter,
            persist_pending: false,
            history_file,
            history_pending: false,
        };
        proof {
            assert(strings_view(session.completions@) =~= Seq::<Seq<char>>::empty());
            assert(plines_view(session.preview_lines@) =~= Seq::<(Seq<char>, LineStyle)>::empty());
        }
        session.refresh();
        session
    }

    /// Recomputes the generated program and the preview (see
    /// `refresh_spec`).
    pub fn refresh(&mut self)
        requires
            all_ok(old(self).values@),
        ensures
            final(self).state() == old(self).state(),
            refreshed(*final(self), old(self).shown()),
            old(self).wf() ==> final(self).wf(),
    {
        let ghost before = self.shown();
        match compose_explore_jq(self.filter.input.as_str(), self.output.input.as_str()) {
            Ok(generated) => {
                self.generated = generated;
                if self.persist_last_filter {
                    self.persist_pending = true;
                }
                let preview = preview_tui_values(&self.values, self.generated.as_str(), self.limit, &self.output_options);
                let ghost o = choose|o: Seq<Result<Seq<Value>, Failure>>|
                    preview_runs_possible(self.values@, self.generated@, o, self.limit as nat, self.output_options, true)
                        && match #[trigger] preview_spec(self.values@, self.generated@, o, self.limit as nat, self.output_options, true) {
                        Ok((ls, c)) => preview is Ok && plines_view(preview->Ok_0.lines@) == ls && preview->Ok_0.match_count == c,
                        Err(e) => preview is Err && preview->Err_0@ == e,
                    };
                match preview {
                    Ok(p) => {
                        self.preview_lines = p.lines;
                        self.match_count = p.match_count;
                        let max = max_scroll(self.preview_lines.len());
                        if self.preview_scroll > max {
                            self.preview_scroll = max;
                        }
                        self.error = None;
                    },
                    Err(e) => {
                        self.preview_lines = Vec::new();
                        self.match_count = 0;
                        self.error = Some(e);
                        proof {
                            assert(plines_view(self.preview_lines@) =~= Seq::<(Seq<char>, LineStyle)>::empty());
                        }
                    },
                }
                proof {
                    assert(self.shown() == refresh_spec(self.state(), o, before));
                    assert(refresh_possible(self.state(), o));
                }
            },
            Err(e) => {
                self.generated = String::new();
                self.preview_lines = Vec::new();
                self.match_count = 0;
                self.error = Some(e);
                proof {
                    assert(plines_view(self.preview_lines@) =~= Seq::<(Seq<char>, LineStyle)>::empty());
                    let o: Seq<Result<Seq<Value>, Failure>> = Seq::empty();
                    assert(self.shown() == refresh_spec(self.state(), o, before));
                    assert(refresh_possible(self.state(), o));
                }
            },
        }
    }

    /// Forgets completion candidates, the history position and the
    /// message.
    pub fn clear_completion_state(&mut self)
        ensures
            final(self).state() == cleared(old(self).state()),
            final(self).shown() == old(self).shown(),
            old(self).wf() ==> final(self).wf(),
    {
        self.message = None;
        self.history_index = None;
        self.completions = Vec::new();
        self.completion_index = 0;
        self.completion_prefix = String::new();
        proof {
            assert(strings_view(self.completions@) =~= Seq::<Seq<char>>::empty());
        }
    }

    /// Switches keys to the other input.
    pub fn toggle_active_input(&mut self)
        ensures
            final(self).state() == toggle_input_spec(old(self).state()),
            final(self).shown() == old(self).shown(),
            old(self).wf() ==> final(self).wf(),
    {
        self.clear_completion_state();
        self.active_input = match self.active_input {
            ActiveInput::Filter => ActiveInput::Output,
            ActiveInput::Output => ActiveInput::Filter,
        };
        let mut m = "editing ".to_owned();
        match self.active_input {
            ActiveInput::Filter => m.append("filter"),
            ActiveInput::Output => m.append("output"),
        }
        self.message = Some(m);
    }

    /// Shows the preview over the whole width, or beside the fields.
    pub fn toggle_preview_fullscreen(&mut self)
        ensures
            final(self).state() == fullscreen_spec(old(self).state()),
            final(self).shown() == old(self).shown(),
            old(self).wf() ==> final(self).wf(),
    {
        self.preview_fullscreen = !self.preview_fullscreen;
        let mut m = "logs ".to_owned();
        if self.preview_fullscreen {
            m.append("fullscreen");
        } else {
            m.append("split");
        }
        self.message = Some(m);
    }

    /// Turns pretty-printing on or off, and refreshes.
    pub fn toggle_pretty(&mut self)
        requires
            all_ok(old(self).values@),
        ensures
            final(self).state() == pretty_spec(old(self).state()),
            refreshed(*final(self), old(self).shown()),
            old(self).wf() ==> final(self).wf(),
    {
        self.output_options.pretty = !self.output_options.pretty;
        let mut m = "pretty ".to_owned();
        if self.output_options.pretty {
            m.append("on");
        } else {
            m.append("off");
        }
        self.message = Some(m);
        self.refresh();
    }

    /// Turns level colouring on or off (and colours back on), and
    /// refreshes.
    pub fn toggle_level_color(&mut self)
        requires
            all_ok(old(self).values@),
        ensures
            final(self).state() == level_toggle_spec(old(self).state()),
            refreshed(*final(self), old(self).shown()),
            old(self).wf() ==> final(self).wf(),
    {
        self.output_options.color_level = !self.output_options.color_level;
        self.output_options.no_color = false;
        let mut m = "level color ".to_owned();
        if self.output_options.color_level {
            m.append("on");
        } else {
            m.append("off");
        }
        self.message = Some(m);
        self.refresh();
    }

    /// Turns all colours off or back on, and refreshes.
    pub fn toggle_no_color(&mut self)
        requires
            all_ok(old(self).values@),
        ensures
            final(self).state() == no_color_spec(old(self).state()),
            refreshed(*final(self), old(self).shown()),
            old(self).wf() ==> final(self).wf(),
    {
        self.output_options.no_color = !self.output_options.no_color;
        let mut m = "color ".to_owned();
        if self.output_options.no_color {
            m.append("off");
        } else {
            m.append("on");
        }
        self.message = Some(m);
        self.refresh();
    }

    /// Moves the field list by `delta`, within the fields.
    pub fn scroll_fields(&mut self, delta: isize)
        ensures
            final(self).state() == (SessionView {
                field_scroll: saturating_offset_spec(
                    old(self).field_scroll as int,
                    delta as int,
                    old(self).fields@.len() as int,
                ) as nat,
                ..old(self).state()
            }),
            final(self).shown() == old(self).shown(),
            old(self).wf() ==> final(self).wf(),
    {
        self.field_scroll = saturating_offset(self.field_scroll, delta, self.fields.len());
    }

    /// Moves the preview `amount` lines back or forward, within its lines.
    pub fn scroll_preview(&mut self, back: bool, amount: u16)
        ensures
            final(self).state() == old(self).state(),
            final(self).shown() == (PreviewView {
                scroll: clamp_scroll(
                    if back {
                        if old(self).preview_scroll < amount {
                            0
                        } else {
                            (old(self).preview_scroll - amount) as u16
                        }
                    } else {
                        if old(self).preview_scroll + amount > u16::MAX {
                            u16::MAX
                        } else {
                            (old(self).preview_scroll + amount) as u16
                        }
                    },
                    old(self).preview_lines@.len(),
                ),
                ..old(self).shown()
            }),
            old(self).wf() ==> final(self).wf(),
    {
        let n = self.preview_lines.len();
        let max = max_scroll(n);
        let next = if back {
            self.preview_scroll.saturating_sub(amount)
        } else {
            self.preview_scroll.saturating_add(amount)
        };
        self.preview_scroll = if next < max {
            next
        } else {
            max
        };
        proof {
            assert(plines_view(self.preview_lines@).len() == n);
        }
    }
}

// ---------------------------------------------------------------------
// Editing the active input
// ---------------------------------------------------------------------

/// The active input's text.
pub open spec fn active_text(v: SessionView) -> Seq<char> {
    match v.active {
        ActiveInput::Filter => v.filter,
        ActiveInput::Output => v.output,
    }
}

/// The active input's cursor.
pub open spec fn active_cursor(v: SessionView) -> nat {
    match v.active {
        ActiveInput::Filter => v.filter_cursor,
        ActiveInput::Output => v.output_cursor,
    }
}

/// `v` with the active input replaced.
pub open spec fn set_active(v: SessionView, text: Seq<char>, cursor: nat) -> SessionView {
    match v.active {
        ActiveInput::Filter => SessionView { filter: text, filter_cursor: cursor, ..v },
        ActiveInput::Output => SessionView { output: text, output_cursor: cursor, ..v },
    }
}

/// `ch` inserted at the cursor, which moves past it.
pub open spec fn insert_spec(s: Seq<char>, cursor: nat, ch: char) -> (Seq<char>, nat) {
    let k = char_pos(s, cursor as int);
    (s.take(k).push(ch) + s.skip(k), cursor + char_width(ch))
}

/// The character before the cursor removed; the cursor moves to where it
/// began.  Nothing changes at the start.
pub open spec fn backspace_spec(s: Seq<char>, cursor: nat) -> (Seq<char>, nat) {
    let k = char_pos(s, cursor as int);
    if cursor == 0 {
        (s, cursor)
    } else {
        (s.take(k - 1) + s.skip(k), byte_offset(s, k - 1))
    }
}

/// The character at the cursor removed.  Nothing changes at the end.
pub open spec fn delete_spec(s: Seq<char>, cursor: nat) -> Seq<char> {
    let k = char_pos(s, cursor as int);
    if cursor >= byte_len(s) {
        s
    } else {
        s.take(k) + s.skip(k + 1)
    }
}

proof fn lemma_offset_le_len(s: Seq<char>, k: int)
    requires
        0 <= k <= s.len(),
    ensures
        byte_offset(s, k) <= byte_len(s),
        byte_offset(s, s.len() as int) == byte_len(s),
        byte_offset(s, 0) == 0,
{
    assert(s.take(s.len() as int) =~= s);
    assert(s.take(0).len() == 0);
    if k < s.len() {
        lemma_byte_offset_monotone(s, k, s.len() as int);
    }
}

/// The characters `v[..lo]`, then `mid`, then `v[hi..]`.
fn splice(v: &Vec<char>, lo: usize, mid: Option<char>, hi: usize) -> (r: String)
    requires
        lo <= hi <= v.len(),
    ensures
        r@ == v@.take(lo as int) + match mid {
            Some(c) => seq![c],
            None => Seq::empty(),
        } + v@.skip(hi as int),
{
    let mut r = string_from_range(v, 0, lo);
    match mid {
        Some(c) => push_char(&mut r, c),
        None => {},
    }
    append_range(&mut r, v, hi, v.len());
    proof {
        assert(v@.subrange(0, lo as int) =~= v@.take(lo as int));
        assert(v@.subrange(hi as int, v@.len() as int) =~= v@.skip(hi as int));
        match mid {
            Some(c) => assert(v@.take(lo as int).push(c) =~= v@.take(lo as int) + seq![c]),
            None => assert(v@.take(lo as int) =~= v@.take(lo as int) + Seq::<char>::empty()),
        }
    }
    r
}

fn text_insert(t: &mut TextState, ch: char)
    requires
        is_boundary(old(t).input@, old(t).cursor as int),
        byte_len(old(t).input@) + 4 <= usize::MAX,
    ensures
        (final(t).input@, final(t).cursor as nat) == insert_spec(old(t).input@, old(t).cursor as nat, ch),
        is_boundary(final(t).input@, final(t).cursor as int),
{
    let v = to_chars(t.input.as_str());
    let k = char_index_of(&v, t.cursor);
    let w = char_width_exec(ch);
    proof {
        lemma_char_pos(v@, t.cursor as int, k as int);
        lemma_offset_le_len(v@, k as int);
    }
    let s2 = splice(&v, k, Some(ch), k);
    let c2 = t.cursor + w;
    proof {
        let n2 = s2@;
        assert(n2.take(k + 1) =~= v@.take(k as int).push(ch));
        crate::utf8_len::lemma_byte_len_push(v@.take(k as int), ch);
        assert(byte_offset(n2, k + 1) == c2);
        assert(v@.take(k as int).push(ch) + v@.skip(k as int) =~= n2);
    }
    t.input = s2;
    t.cursor = c2;
}

fn text_backspace(t: &mut TextState) -> (changed: bool)
    requires
        is_boundary(old(t).input@, old(t).cursor as int),
    ensures
        (final(t).input@, final(t).cursor as nat) == backspace_spec(old(t).input@, old(t).cursor as nat),
        changed == (old(t).cursor != 0),
        is_boundary(final(t).input@, final(t).cursor as int),
{
    if t.cursor == 0 {
        return false;
    }
    let v = to_chars(t.input.as_str());
    let k = char_index_of(&v, t.cursor);
    proof {
        lemma_char_pos(v@, t.cursor as int, k as int);
        lemma_offset_le_len(v@, k as int);
    }
    let previous = previous_boundary(t.input.as_str(), t.cursor);
    let s2 = splice(&v, k - 1, None, k);
    proof {
        assert(s2@.take(k - 1) =~= v@.take(k - 1));
        assert(v@.take(k - 1) + v@.skip(k as int) =~= s2@);
        assert(byte_offset(s2@, k - 1) == previous);
    }
    t.input = s2;
    t.cursor = previous;
    true
}

fn text_delete(t: &mut TextState) -> (changed: bool)
    requires
        is_boundary(old(t).input@, old(t).cursor as int),
        byte_len(old(t).input@) <= usize::MAX,
    ensures
        final(t).input@ == delete_spec(old(t).input@, old(t).cursor as nat),
        final(t).cursor == old(t).cursor,
        changed == (old(t).cursor < byte_len(old(t).input@)),
        is_boundary(final(t).input@, final(t).cursor as int),
{
    let fs: &str = t.input.as_str();
    proof {
        crate::utf8_len::lemma_str_len(fs);
    }
    let len = fs.len();
    if t.cursor >= len {
        return false;
    }
    let v = to_chars(t.input.as_str());
    let k = char_index_of(&v, t.cursor);
    proof {
        lemma_char_pos(v@, t.cursor as int, k as int);
        lemma_offset_le_len(v@, k as int);
    }
    let s2 = splice(&v, k, None, k + 1);
    proof {
        assert(k < v@.len()) by {
            if k == v@.len() {
                assert(v@.take(k as int) =~= v@);
            }
        }
        assert(s2@.take(k as int) =~= v@.take(k as int));
        assert(v@.take(k as int) + v@.skip(k + 1) =~= s2@);
        assert(0 <= k <= s2@.len() && byte_offset(s2@, k as int) == t.cursor);
    }
    t.input = s2;
    true
}

fn text_left(t: &mut TextState)
    requires
        is_boundary(old(t).input@, old(t).cursor as int),
    ensures
        final(t).input@ == old(t).input@,
        final(t).cursor == previous_boundary_spec(old(t).input@, old(t).cursor as int),
        is_boundary(final(t).input@, final(t).cursor as int),
{
    let c = previous_boundary(t.input.as_str(), t.cursor);
    proof {
        let s = t.input@;
        let k = choose|k: int| 0 <= k <= s.len() && byte_offset(s, k) == t.cursor;
        lemma_char_pos(s, t.cursor as int, k);
        lemma_offset_le_len(s, 0);
        if k > 0 {
            assert(0 <= k - 1 <= s.len() && byte_offset(s, k - 1) == c);
        } else {
            assert(byte_offset(s, 0) == c);
        }
    }
    t.cursor = c;
}

fn text_right(t: &mut TextState)
    requires
        is_boundary(old(t).input@, old(t).cursor as int),
        byte_len(old(t).input@) <= usize::MAX,
    ensures
        final(t).input@ == old(t).input@,
        final(t).cursor == next_boundary_spec(old(t).input@, old(t).cursor as int),
        is_boundary(final(t).input@, final(t).cursor as int),
{
    let c = next_boundary(t.input.as_str(), t.cursor);
    proof {
        let s = t.input@;
        let k = choose|k: int| 0 <= k <= s.len() && byte_offset(s, k) == t.cursor;
        lemma_char_pos(s, t.cursor as int, k);
        lemma_offset_le_len(s, 0);
        if k + 1 < s.len() {
            assert(0 <= k + 1 <= s.len() && byte_offset(s, k + 1) == c);
        } else {
            assert(byte_offset(s, s.len() as int) == c);
        }
    }
    t.cursor = c;
}

fn text_end(t: &mut TextState)
    requires
        byte_len(old(t).input@) <= usize::MAX,
    ensures
        final(t).input@ == old(t).input@,
        final(t).cursor == byte_len(old(t).input@),
        is_boundary(final(t).input@, final(t).cursor as int),
{
    let fs: &str = t.input.as_str();
    proof {
        crate::utf8_len::lemma_str_len(fs);
        lemma_offset_le_len(t.input@, 0);
    }
    let c = fs.len();
    t.cursor = c;
}

fn text_home(t: &mut TextState)
    ensures
        final(t).input@ == old(t).input@,
        final(t).cursor == 0,
        is_boundary(final(t).input@, final(t).cursor as int),
{
    proof {
        lemma_offset_le_len(t.input@, 0);
    }
    t.cursor = 0;
}

/// The filter input, trimmed, appended to the history unless it is empty
/// or the same as the last entry; the history is then marked for writing
/// out when that is configured.
pub open spec fn record_spec(v: SessionView) -> SessionView {
    let t = trim(v.filter);
    if t.len() == 0 || (v.history.len() > 0 && v.history.last() == t) {
        v
    } else {
        SessionView { history: v.history.push(t), history_pending: v.history_pending || v.history_file, ..v }
    }
}

/// Stepping through the history (back when `previous`): from the current
/// position (after the end when none), one step, staying within the
/// history; stepping past the newest entry leaves the history.  An entry
/// that is reached becomes the filter input (cursor at its end, filter
/// input active) and is announced.  The flag says whether the filter
/// changed.
pub open spec fn history_step(v: SessionView, previous: bool) -> (SessionView, bool) {
    let len = v.history.len();
    if len == 0 {
        (v, false)
    } else {
        let current = match v.history_index {
            Some(k) => k,
            None => len,
        };
        let next: nat = if previous {
            if current == 0 {
                0
            } else {
                (current - 1) as nat
            }
        } else if current + 1 < len {
            current + 1
        } else {
            len
        };
        if next >= len {
            (SessionView { history_index: None, ..v }, false)
        } else {
            let e = v.history[next as int];
            (
                SessionView {
                    history_index: Some(next),
                    filter: e,
                    filter_cursor: byte_len(e),
                    active: ActiveInput::Filter,
                    message: Some("history "@ + decimal_spec(next + 1) + "/"@ + decimal_spec(len)),
                    ..v
                },
                true,
            )
        }
    }
}

impl ExploreSession {
    /// The lengths of the texts a session edits fit in memory offsets.
    pub open spec fn fits(&self) -> bool {
        &&& byte_len(self.filter.input@) + 4 <= usize::MAX
        &&& byte_len(self.output.input@) + 4 <= usize::MAX
        &&& forall|i: int| 0 <= i < self.history@.len() ==> byte_len(#[trigger] self.history@[i]@) <= usize::MAX
        &&& forall|i: int| 0 <= i < self.completions@.len() ==> byte_len(#[trigger] self.completions@[i]@) <= usize::MAX
        &&& forall|i: int| 0 <= i < self.fields@.len() ==> byte_len(#[trigger] self.fields@[i].path@) <= usize::MAX
    }

    /// Types `ch` at the cursor of the active input, and refreshes.
    pub fn insert_char(&mut self, ch: char)
        requires
            old(self).wf(),
            old(self).fits(),
        ensures
            final(self).wf(),
            final(self).state() == ({
                let c = cleared(old(self).state());
                let (t, k) = insert_spec(active_text(c), active_cursor(c), ch);
                set_active(c, t, k)
            }),
            refreshed(*final(self), old(self).shown()),
    {
        self.clear_completion_state();
        match self.active_input {
            ActiveInput::Filter => text_insert(&mut self.filter, ch),
            ActiveInput::Output => text_insert(&mut self.output, ch),
        }
        self.refresh();
    }

    /// Removes the character before the cursor of the active input and
    /// refreshes; at the start only the completion state is cleared.
    pub fn backspace(&mut self)
        requires
            old(self).wf(),
        ensures
            final(self).wf(),
            final(self).state() == ({
                let c = cleared(old(self).state());
                let (t, k) = backspace_spec(active_text(c), active_cursor(c));
                set_active(c, t, k)
            }),
            active_cursor(old(self).state()) != 0 ==> refreshed(*final(self), old(self).shown()),
            active_cursor(old(self).state()) == 0 ==> final(self).shown() == old(self).shown(),
    {
        self.clear_completion_state();
        let changed = match self.active_input {
            ActiveInput::Filter => text_backspace(&mut self.filter),
            ActiveInput::Output => text_backspace(&mut self.output),
        };
        if changed {
            self.refresh();
        }
    }

    /// Removes the character at the cursor of the active input and
    /// refreshes; at the end only the completion state is cleared.
    pub fn delete(&mut self)
        requires
            old(self).wf(),
            old(self).fits(),
        ensures
            final(self).wf(),
            final(self).state() == ({
                let c = cleared(old(self).state());
                set_active(c, delete_spec(active_text(c), active_cursor(c)), active_cursor(c))
            }),
            active_cursor(old(self).state()) < byte_len(active_text(old(self).state())) ==> refreshed(
                *final(self),
                old(self).shown(),
            ),
            active_cursor(old(self).state()) >= byte_len(active_text(old(self).state())) ==> final(self).shown()
                == old(self).shown(),
    {
        self.clear_completion_state();
        let changed = match self.active_input {
            ActiveInput::Filter => text_delete(&mut self.filter),
            ActiveInput::Output => text_delete(&mut self.output),
        };
        if changed {
            self.refresh();
        }
    }

    /// Moves the cursor of the active input one character left.
    pub fn move_cursor_left(&mut self)
        requires
            old(self).wf(),
        ensures
            final(self).wf(),
            final(self).state() == set_active(
                old(self).state(),
                active_text(old(self).state()),
                previous_boundary_spec(active_text(old(self).state()), active_cursor(old(self).state()) as int) as nat,
            ),
            final(self).shown() == old(self).shown(),
    {
        match self.active_input {
            ActiveInput::Filter => text_left(&mut self.filter),
            ActiveInput::Output => text_left(&mut self.output),
        }
    }

    /// Moves the cursor of the active input one character right.
    pub fn move_cursor_right(&mut self)
        requires
            old(self).wf(),
            old(self).fits(),
        ensures
            final(self).wf(),
            final(self).state() == set_active(
                old(self).state(),
                active_text(old(self).state()),
                next_boundary_spec(active_text(old(self).state()), active_cursor(old(self).state()) as int) as nat,
            ),
            final(self).shown() == old(self).shown(),
    {
        match self.active_input {
            ActiveInput::Filter => text_right(&mut self.filter),
            ActiveInput::Output => text_right(&mut self.output),
        }
    }

    /// Moves the cursor of the active input to its start.
    pub fn move_cursor_home(&mut self)
        requires
            old(self).wf(),
        ensures
            final(self).wf(),
            final(self).state() == set_active(old(self).state(), active_text(old(self).state()), 0),
            final(self).shown() == old(self).shown(),
    {
        match self.active_input {
            ActiveInput::Filter => text_home(&mut self.filter),
            ActiveInput::Output => text_home(&mut self.output),
        }
    }

    /// Moves the cursor of the active input to its end.
    pub fn move_cursor_end(&mut self)
        requires
            old(self).wf(),
            old(self).fits(),
        ensures
            final(self).wf(),
            final(self).state() == set_active(
                old(self).state(),
                active_text(old(self).state()),
                byte_len(active_text(old(self).state())),
            ),
            final(self).shown() == old(self).shown(),
    {
        match self.active_input {
            ActiveInput::Filter => text_end(&mut self.filter),
            ActiveInput::Output => text_end(&mut self.output),
        }
    }

    /// Records the filter input in the history (see `record_spec`).
    pub fn record_history(&mut self)
        ensures
            final(self).state() == record_spec(old(self).state()),
            final(self).shown() == old(self).shown(),
            old(self).wf() ==> final(self).wf(),
    {
        let input = trimmed(self.filter.input.as_str());
        let chars = to_chars(input.as_str());
        if chars.len() == 0 {
            return;
        }
        let n = self.history.len();
        if n > 0 {
            let last = to_chars(self.history[n - 1].as_str());
            if chars_eq_str(&last, input.as_str()) {
                return;
            }
        }
        let ghost before = self.history@;
        self.history.push(input);
        if self.history_file {
            self.history_pending = true;
        }
        proof {
            assert(strings_view(self.history@) =~= strings_view(before).push(trim(self.filter.input@)));
        }
    }
}

// ---------------------------------------------------------------------
// History and completion
// ---------------------------------------------------------------------

/// The first field at or after `i` whose path is `p`.
pub open spec fn find_field_from(fields: Seq<FieldSummary>, p: Seq<char>, i: int) -> Option<int>
    decreases fields.len() - i,
{
    if i < 0 || i >= fields.len() {
        None
    } else if fields[i].path@ == p {
        Some(i)
    } else {
        find_field_from(fields, p, i + 1)
    }
}

/// The types of the field with path `p`, joined by `|`, or nothing.
pub open spec fn types_text(fields: Seq<FieldSummary>, p: Seq<char>) -> Seq<char> {
    match find_field_from(fields, p, 0) {
        Some(j) => join_spec(strings_view(fields[j].types@), "|"@),
        None => Seq::empty(),
    }
}

/// A completion candidate as listed: its path and, when known, its types.
pub open spec fn candidate_label(fields: Seq<FieldSummary>, p: Seq<char>) -> Seq<char> {
    let t = types_text(fields, p);
    if t.len() == 0 {
        p
    } else {
        p + " ["@ + t + "]"@
    }
}

/// The paths of the fields that start with `prefix`, in order.
pub open spec fn candidates_spec(fields: Seq<FieldSummary>, prefix: Seq<char>) -> Seq<Seq<char>>
    decreases fields.len(),
{
    if fields.len() == 0 {
        Seq::empty()
    } else {
        candidates_spec(fields.drop_last(), prefix) + if starts_with(fields.last().path@, prefix) {
            seq![fields.last().path@]
        } else {
            Seq::empty()
        }
    }
}

/// `completion I/N: CURRENT | C1, C2, ...` with the first five candidates.
pub open spec fn completion_message_spec(v: SessionView) -> Seq<char> {
    let total = v.completions.len();
    let current = if v.completion_index < total {
        v.completions[v.completion_index as int]
    } else {
        Seq::empty()
    };
    let listed = v.completions.take(
        if total < 5 {
            total as int
        } else {
            5
        },
    );
    "completion "@ + decimal_spec(v.completion_index + 1) + "/"@ + decimal_spec(total) + ": "@ + current + " | "@
        + join_spec(listed.map_values(|p: Seq<char>| candidate_label(v.fields, p)), ", "@)
}

/// Tab on the active input.  When it holds the current candidate, the next
/// candidate (cyclically) replaces it.  Otherwise its trimmed text, unless
/// empty or jq (starting with `.` or `select(`), is completed: the field
/// paths starting with it become the candidates and the first replaces the
/// input.  A replaced input has its cursor at the end, and the candidates
/// are announced.  The flag says whether the input changed.
pub open spec fn autocomplete_spec(v: SessionView) -> (SessionView, bool) {
    if cycles(v) {
        (cycle_spec(v), true)
    } else {
        let prefix = trim(active_text(v));
        if prefix.len() == 0 || starts_with(prefix, "."@) || starts_with(prefix, "select("@) {
            (v, false)
        } else {
            start_completion_spec(v, prefix)
        }
    }
}

/// The active input holds the current candidate.
pub open spec fn cycles(v: SessionView) -> bool {
    let n = v.completions.len();
    n > 0 && v.completion_index < n && v.completions[v.completion_index as int] == active_text(v)
}

/// The next candidate replaces the active input.
pub open spec fn cycle_spec(v: SessionView) -> SessionView {
    let i = (v.completion_index + 1) % v.completions.len();
    let r = v.completions[i as int];
    let v2 = set_active(SessionView { completion_index: i, ..v }, r, byte_len(r));
    SessionView { message: Some(completion_message_spec(v2)), ..v2 }
}

/// The fields starting with `prefix` become the candidates; the first, if
/// any, replaces the active input.
pub open spec fn start_completion_spec(v: SessionView, prefix: Seq<char>) -> (SessionView, bool) {
    let cs = candidates_spec(v.fields, prefix);
    let v1 = SessionView { completions: cs, completion_index: 0, completion_prefix: prefix, ..v };
    if cs.len() > 0 {
        let v2 = set_active(v1, cs[0], byte_len(cs[0]));
        (SessionView { message: Some(completion_message_spec(v2)), ..v2 }, true)
    } else {
        (v1, false)
    }
}

proof fn lemma_join_push(parts: Seq<Seq<char>>, x: Seq<char>, sep: Seq<char>)
    ensures
        join_spec(parts.push(x), sep) == if parts.len() == 0 {
            x
        } else {
            join_spec(parts, sep) + sep + x
        },
{
    assert(parts.push(x).drop_last() =~= parts);
}

fn join_strings(parts: &Vec<String>, sep: &str) -> (r: String)
    ensures
        r@ == join_spec(strings_view(parts@), sep@),
{
    let mut out = String::new();
    let n = parts.len();
    for i in 0..n
        invariant
            n == parts@.len(),
            out@ == join_spec(strings_view(parts@).take(i as int), sep@),
    {
        proof {
            assert(strings_view(parts@).take(i + 1) =~= strings_view(parts@).take(i as int).push(parts@[i as int]@));
            lemma_join_push(strings_view(parts@).take(i as int), parts@[i as int]@, sep@);
        }
        if i > 0 {
            out.append(sep);
        }
        out.append(parts[i].as_str());
    }
    proof {
        assert(strings_view(parts@).take(n as int) =~= strings_view(parts@));
    }
    out
}

impl ExploreSession {
    /// The history as written out: one entry per line.
    pub fn history_text(&self) -> (r: String)
        ensures
            r@ == join_spec(strings_view(self.history@), "\n"@) + "\n"@,
    {
        let mut t = join_strings(&self.history, "\n");
        t.append("\n");
        t
    }

    /// Steps through the history (see `history_step`), refreshing when the
    /// filter changed.
    pub fn load_history_entry(&mut self, previous: bool)
        requires
            old(self).wf(),
            old(self).fits(),
        ensures
            final(self).wf(),
            final(self).state() == history_step(old(self).state(), previous).0,
            history_step(old(self).state(), previous).1 ==> refreshed(*final(self), old(self).shown()),
            !history_step(old(self).state(), previous).1 ==> final(self).shown() == old(self).shown(),
    {
        let len = self.history.len();
        if len == 0 {
            return;
        }
        let current = match self.history_index {
            Some(k) => k,
            None => len,
        };
        let next = if previous {
            if current == 0 {
                0
            } else {
                current - 1
            }
        } else if current < len - 1 {
            current + 1
        } else {
            len
        };
        if next >= len {
            self.history_index = None;
            return;
        }
        let entry = self.history[next].clone();
        let es: &str = entry.as_str();
        proof {
            crate::utf8_len::lemma_str_len(es);
            lemma_offset_le_len(entry@, 0);
            assert(byte_len(self.history@[next as int]@) <= usize::MAX);
        }
        let cursor = es.len();
        self.history_index = Some(next);
        self.filter = TextState { input: entry, cursor };
        self.active_input = ActiveInput::Filter;
        let mut m = "history ".to_owned();
        let a = decimal(next + 1);
        m.append(a.as_str());
        m.append("/");
        let b = decimal(len);
        m.append(b.as_str());
        self.message = Some(m);
        self.refresh();
    }

    /// The completion announcement (see `completion_message_spec`).
    pub fn completion_message(&self) -> (r: String)
        requires
            self.completion_index == 0 || self.completion_index < self.completions@.len(),
        ensures
            r@ == completion_message_spec(self.state()),
    {
        let total = self.completions.len();
        let index = self.completion_index + 1;
        let current = if self.completion_index < total {
            self.completions[self.completion_index].clone()
        } else {
            String::new()
        };
        let shown = if total < 5 {
            total
        } else {
            5
        };
        let ghost listed = strings_view(self.completions@).take(shown as int);
        let ghost labels = listed.map_values(|p: Seq<char>| candidate_label(self.fields@, p));
        let mut joined = String::new();
        for i in 0..shown
            invariant
                shown <= total,
                total == self.completions@.len(),
                listed == strings_view(self.completions@).take(shown as int),
                labels == listed.map_values(|p: Seq<char>| candidate_label(self.fields@, p)),
                joined@ == join_spec(labels.take(i as int), ", "@),
        {
            let label = self.candidate_label(self.completions[i].as_str());
            proof {
                assert(labels.take(i + 1) =~= labels.take(i as int).push(label@));
                lemma_join_push(labels.take(i as int), label@, ", "@);
            }
            if i > 0 {
                joined.append(", ");
            }
            joined.append(label.as_str());
        }
        proof {
            assert(labels.take(shown as int) =~= labels);
        }
        let mut m = "completion ".to_owned();
        let a = decimal(index);
        m.append(a.as_str());
        m.append("/");
        let b = decimal(total);
        m.append(b.as_str());
        m.append(": ");
        m.append(current.as_str());
        m.append(" | ");
        m.append(joined.as_str());
        m
    }

    /// A candidate with the types of its field (see `candidate_label`).
    fn candidate_label(&self, path: &str) -> (r: String)
        ensures
            r@ == candidate_label(self.fields@, path@),
    {
        let n = self.fields.len();
        let mut j: usize = 0;
        let mut found: Option<usize> = None;
        while j < n && found.is_none()
            invariant
                n == self.fields@.len(),
                j <= n,
                found is None ==> find_field_from(self.fields@, path@, 0) == find_field_from(self.fields@, path@, j as int),
                found matches Some(k) ==> find_field_from(self.fields@, path@, 0) == Some(k as int) && k < n,
            decreases n - j + if found is None { 1int } else { 0int },
        {
            let pv = to_chars(self.fields[j].path.as_str());
            if chars_eq_str(&pv, path) {
                proof {
                    assert(find_field_from(self.fields@, path@, j as int) == Some(j as int));
                }
                found = Some(j);
            } else {
                proof {
                    assert(find_field_from(self.fields@, path@, j as int) == find_field_from(self.fields@, path@, j + 1));
                }
                j = j + 1;
            }
        }
        let types = match found {
            Some(k) => join_strings(&self.fields[k].types, "|"),
            None => String::new(),
        };
        let tv = to_chars(types.as_str());
        if tv.len() == 0 {
            path.to_owned()
        } else {
            let mut r = path.to_owned();
            r.append(" [");
            r.append(types.as_str());
            r.append("]");
            r
        }
    }

    /// Completes the active input from the inferred fields (see
    /// `autocomplete_spec`), refreshing when it changed.
    pub fn autocomplete_filter(&mut self)
        requires
            old(self).wf(),
            old(self).fits(),
        ensures
            final(self).wf(),
            final(self).state() == autocomplete_spec(old(self).state()).0,
            autocomplete_spec(old(self).state()).1 ==> refreshed(*final(self), old(self).shown()),
            !autocomplete_spec(old(self).state()).1 ==> final(self).shown() == old(self).shown(),
    {
        let text = match self.active_input {
            ActiveInput::Filter => self.filter.input.clone(),
            ActiveInput::Output => self.output.input.clone(),
        };
        if self.holds_current_candidate(text.as_str()) {
            self.cycle_completion();
            return;
        }
        let prefix = trimmed(text.as_str());
        let pv = to_chars(prefix.as_str());
        if pv.len() == 0 || starts_with_exec(&pv, ".") || starts_with_exec(&pv, "select(") {
            return;
        }
        self.start_completion(prefix);
    }

    fn holds_current_candidate(&self, text: &str) -> (r: bool)
        requires
            text@ == active_text(self.state()),
        ensures
            r == cycles(self.state()),
    {
        let n = self.completions.len();
        if n > 0 && self.completion_index < n {
            let cv = to_chars(self.completions[self.completion_index].as_str());
            chars_eq_str(&cv, text)
        } else {
            false
        }
    }

    fn cycle_completion(&mut self)
        requires
            old(self).wf(),
            old(self).fits(),
            cycles(old(self).state()),
        ensures
            final(self).wf(),
            final(self).state() == cycle_spec(old(self).state()),
            refreshed(*final(self), old(self).shown()),
    {
        let n = self.completions.len();
        let i = (self.completion_index + 1) % n;
        self.completion_index = i;
        let replacement = self.completions[i].clone();
        proof {
            assert(byte_len(self.completions@[i as int]@) <= usize::MAX);
        }
        self.set_active_text(replacement);
        let m = self.completion_message();
        self.message = Some(m);
        self.refresh();
    }

    fn start_completion(&mut self, prefix: String)
        requires
            old(self).wf(),
            old(self).fits(),
        ensures
            final(self).wf(),
            final(self).state() == start_completion_spec(old(self).state(), prefix@).0,
            start_completion_spec(old(self).state(), prefix@).1 ==> refreshed(*final(self), old(self).shown()),
            !start_completion_spec(old(self).state(), prefix@).1 ==> final(self).shown() == old(self).shown(),
    {
        let cs = self.field_candidates(prefix.as_str());
        self.completions = cs;
        self.completion_index = 0;
        self.completion_prefix = prefix;
        if self.completions.len() > 0 {
            let first = self.completions[0].clone();
            proof {
                assert(byte_len(self.completions@[0]@) <= usize::MAX);
            }
            self.set_active_text(first);
            let m = self.completion_message();
            self.message = Some(m);
            self.refresh();
        }
    }

    /// The paths of the fields that start with `prefix`.
    fn field_candidates(&self, prefix: &str) -> (cs: Vec<String>)
        requires
            forall|i: int| 0 <= i < self.fields@.len() ==> byte_len(#[trigger] self.fields@[i].path@) <= usize::MAX,
        ensures
            strings_view(cs@) == candidates_spec(self.fields@, prefix@),
            forall|i: int| 0 <= i < cs@.len() ==> byte_len(#[trigger] cs@[i]@) <= usize::MAX,
    {
        let mut cs: Vec<String> = Vec::new();
        let nf = self.fields.len();
        for j in 0..nf
            invariant
                nf == self.fields@.len(),
                strings_view(cs@) == candidates_spec(self.fields@.take(j as int), prefix@),
                forall|i: int| 0 <= i < cs@.len() ==> byte_len(#[trigger] cs@[i]@) <= usize::MAX,
                forall|i: int| 0 <= i < self.fields@.len() ==> byte_len(#[trigger] self.fields@[i].path@) <= usize::MAX,
        {
            proof {
                assert(self.fields@.take(j + 1).drop_last() =~= self.fields@.take(j as int));
                assert(self.fields@.take(j + 1).last() == self.fields@[j as int]);
            }
            let path_chars = to_chars(self.fields[j].path.as_str());
            if starts_with_exec(&path_chars, prefix) {
                let ghost before = cs@;
                cs.push(self.fields[j].path.clone());
                proof {
                    assert(strings_view(cs@) =~= strings_view(before).push(self.fields@[j as int].path@));
                    assert(byte_len(self.fields@[j as int].path@) <= usize::MAX);
                }
            } else {
                proof {
                    assert(strings_view(cs@) =~= strings_view(cs@) + Seq::<Seq<char>>::empty());
                }
            }
        }
        proof {
            assert(self.fields@.take(nf as int) =~= self.fields@);
        }
        cs
    }

    /// Replaces the active input, with the cursor at its end.
    fn set_active_text(&mut self, text: String)
        requires
            byte_len(text@) <= usize::MAX,
        ensures
            final(self).state() == set_active(old(self).state(), text@, byte_len(text@)),
            final(self).shown() == old(self).shown(),
            is_boundary(text@, byte_len(text@) as int),
            final(self).history_index == old(self).history_index,
            final(self).history@ == old(self).history@,
            final(self).completions@ == old(self).completions@,
            final(self).completion_index == old(self).completion_index,
            active_text(final(self).state()) == text@,
            match old(self).active_input {
                ActiveInput::Filter => is_boundary(final(self).filter.input@, final(self).filter.cursor as int)
                    && final(self).output.input@ == old(self).output.input@ && final(self).output.cursor == old(self).output.cursor,
                ActiveInput::Output => is_boundary(final(self).output.input@, final(self).output.cursor as int)
                    && final(self).filter.input@ == old(self).filter.input@ && final(self).filter.cursor == old(self).filter.cursor,
            },
    {
        let ts: &str = text.as_str();
        proof {
            crate::utf8_len::lemma_str_len(ts);
            lemma_offset_le_len(text@, 0);
        }
        let cursor = ts.len();
        match self.active_input {
            ActiveInput::Filter => {
                self.filter = TextState { input: text, cursor };
            },
            ActiveInput::Output => {
                self.output = TextState { input: text, cursor };
            },
        }
    }
}

// ---------------------------------------------------------------------
// Status and keys
// ---------------------------------------------------------------------

/// `n + 1`, staying at the largest `u16`.
pub open spec fn succ_u16(n: u16) -> nat {
    if n == u16::MAX {
        n as nat
    } else {
        (n + 1) as nat
    }
}

/// The status line: matches, active input, toggles, layout, scroll
/// position, output expression, and the message when there is one.
pub open spec fn status_spec(v: SessionView, p: PreviewView) -> Seq<char> {
    let base = status_head(v, p) + " | "@ + layout_text(v) + " | "@ + scroll_text(p) + " | output:"@ + output_text(v);
    match v.message {
        Some(m) => base + " | "@ + m,
        None => base,
    }
}

/// `N matches | editing:INPUT | pretty:X | level-color:X`.
pub open spec fn status_head(v: SessionView, p: PreviewView) -> Seq<char> {
    decimal_spec(p.count) + " matches | editing:"@ + input_name(v.active) + " | pretty:"@ + on_off(v.options.pretty)
        + " | level-color:"@ + on_off(v.options.color_level && !v.options.no_color)
}

pub open spec fn layout_text(v: SessionView) -> Seq<char> {
    if v.fullscreen {
        "logs:full"@
    } else {
        "logs:split"@
    }
}

/// `scroll:POSITION/LINES`, counting from 1.
pub open spec fn scroll_text(p: PreviewView) -> Seq<char> {
    if p.lines.len() == 0 {
        "scroll:0/0"@
    } else {
        "scroll:"@ + decimal_spec(succ_u16(p.scroll)) + "/"@ + decimal_spec(p.lines.len())
    }
}

/// The output expression, `.` when empty.
pub open spec fn output_text(v: SessionView) -> Seq<char> {
    if trim(v.output).len() == 0 {
        "."@
    } else {
        trim(v.output)
    }
}

/// A key as the explorer receives it; `Char` carries whether Control was
/// held.
#[derive(Debug, Clone, Copy, PartialEq, Eq, Structural)]
pub enum Key {
    Enter,
    Esc,
    Tab,
    Left,
    Right,
    Home,
    End,
    Delete,
    Up,
    Down,
    PageUp,
    PageDown,
    Backspace,
    Char(char, bool),
    Other,
}

/// How an explore session ends.
#[derive(Debug, Clone, Copy, PartialEq, Eq, Structural)]
pub enum ExplorerExit {
    PrintResults,
    PrintFilter,
    Quit,
}

/// What a key asks for.
#[derive(Debug, Clone, Copy, PartialEq, Eq, Structural)]
pub enum Action {
    PrintResults,
    PrintFilter,
    Quit,
    Save,
    ToggleInput,
    ToggleFullscreen,
    TogglePretty,
    ToggleLevelColor,
    ToggleNoColor,
    HistoryPrevious,
    HistoryNext,
    Complete,
    Left,
    Right,
    Home,
    End,
    Delete,
    Up,
    Down,
    PageUp,
    PageDown,
    Backspace,
    Insert(char),
    Ignore,
}

/// The key bindings: Enter prints the results, Esc and Ctrl-C quit,
/// Ctrl-Y prints the jq program, Ctrl-S saves it, Ctrl-O switches input,
/// Ctrl-G the layout, Ctrl-F pretty-printing, Ctrl-L level colour, Ctrl-K
/// colours, Ctrl-P / Ctrl-N step through the history, Tab completes; any
/// other character is typed.
pub open spec fn key_action_spec(key: Key) -> Action {
    match key {
        Key::Enter => Action::PrintResults,
        Key::Esc => Action::Quit,
        Key::Tab => Action::Complete,
        Key::Left => Action::Left,
        Key::Right => Action::Right,
        Key::Home => Action::Home,
        Key::End => Action::End,
        Key::Delete => Action::Delete,
        Key::Up => Action::Up,
        Key::Down => Action::Down,
        Key::PageUp => Action::PageUp,
        Key::PageDown => Action::PageDown,
        Key::Backspace => Action::Backspace,
        Key::Char(c, control) => if control && c == 'c' {
            Action::Quit
        } else if control && c == 'y' {
            Action::PrintFilter
        } else if control && c == 's' {
            Action::Save
        } else if control && c == 'o' {
            Action::ToggleInput
        } else if control && c == 'g' {
            Action::ToggleFullscreen
        } else if control && c == 'f' {
            Action::TogglePretty
        } else if control && c == 'l' {
            Action::ToggleLevelColor
        } else if control && c == 'k' {
            Action::ToggleNoColor
        } else if control && c == 'p' {
            Action::HistoryPrevious
        } else if control && c == 'n' {
            Action::HistoryNext
        } else {
            Action::Insert(c)
        },
        Key::Other => Action::Ignore,
    }
}

/// What a key asks for (see `key_action_spec`).
pub fn key_action(key: Key) -> (a: Action)
    ensures
        a == key_action_spec(key),
{
    match key {
        Key::Enter => Action::PrintResults,
        Key::Esc => Action::Quit,
        Key::Tab => Action::Complete,
        Key::Left => Action::Left,
        Key::Right => Action::Right,
        Key::Home => Action::Home,
        Key::End => Action::End,
        Key::Delete => Action::Delete,
        Key::Up => Action::Up,
        Key::Down => Action::Down,
        Key::PageUp => Action::PageUp,
        Key::PageDown => Action::PageDown,
        Key::Backspace => Action::Backspace,
        Key::Char(c, control) => {
            if control && c == 'c' {
                Action::Quit
            } else if control && c == 'y' {
                Action::PrintFilter
            } else if control && c == 's' {
                Action::Save
            } else if control && c == 'o' {
                Action::ToggleInput
            } else if control && c == 'g' {
                Action::ToggleFullscreen
            } else if control && c == 'f' {
                Action::TogglePretty
            } else if control && c == 'l' {
                Action::ToggleLevelColor
            } else if control && c == 'k' {
                Action::ToggleNoColor
            } else if control && c == 'p' {
                Action::HistoryPrevious
            } else if control && c == 'n' {
                Action::HistoryNext
            } else {
                Action::Insert(c)
            }
        },
        Key::Other => Action::Ignore,
    }
}

/// What the caller does after a key: go on, end the session, or save the
/// given text (the generated program and a newline) and report back with
/// `save_finished`.
#[derive(Debug)]
pub enum KeyOutcome {
    Continue,
    Exit(ExplorerExit),
    Save(String),
}

/// A key outcome as the specification sees it.
pub enum StepOutcome {
    Continue,
    Exit(ExplorerExit),
    Save(Seq<char>),
}

pub open spec fn outcome_view(o: KeyOutcome) -> StepOutcome {
    match o {
        KeyOutcome::Continue => StepOutcome::Continue,
        KeyOutcome::Exit(e) => StepOutcome::Exit(e),
        KeyOutcome::Save(t) => StepOutcome::Save(t@),
    }
}

/// How a key changes the preview: not at all, by a refresh, or by
/// scrolling to a position.
pub enum ShownChange {
    Same,
    Refresh,
    Scroll(u16),
}

/// The effect of a key, as the specification sees it.
pub struct KeyStep {
    pub state: SessionView,
    pub outcome: StepOutcome,
    pub shown: ShownChange,
}

/// The preview scrolled `amount` lines back or forward, within its lines.
pub open spec fn scroll_spec(p: PreviewView, back: bool, amount: u16) -> u16 {
    clamp_scroll(
        if back {
            if p.scroll < amount {
                0
            } else {
                (p.scroll - amount) as u16
            }
        } else {
            if p.scroll + amount > u16::MAX {
                u16::MAX
            } else {
                (p.scroll + amount) as u16
            }
        },
        p.lines.len(),
    )
}

pub open spec fn keep(v: SessionView) -> KeyStep {
    KeyStep { state: v, outcome: StepOutcome::Continue, shown: ShownChange::Same }
}

pub open spec fn refresh_to(v: SessionView, refresh: bool) -> KeyStep {
    KeyStep {
        state: v,
        outcome: StepOutcome::Continue,
        shown: if refresh {
            ShownChange::Refresh
        } else {
            ShownChange::Same
        },
    }
}

/// What a key does to a session.  Up and Down scroll the preview while the
/// output input is active or the preview is shown over the whole width,
/// and the field list otherwise; PageUp and PageDown scroll the preview by
/// ten lines.
pub open spec fn key_step(v: SessionView, p: PreviewView, key: Key) -> KeyStep {
    match key_action_spec(key) {
        Action::PrintResults => KeyStep {
            state: record_spec(v),
            outcome: StepOutcome::Exit(ExplorerExit::PrintResults),
            shown: ShownChange::Same,
        },
        Action::PrintFilter => KeyStep {
            state: record_spec(v),
            outcome: StepOutcome::Exit(ExplorerExit::PrintFilter),
            shown: ShownChange::Same,
        },
        Action::Quit => KeyStep { state: v, outcome: StepOutcome::Exit(ExplorerExit::Quit), shown: ShownChange::Same },
        Action::Save => if p.generated.len() == 0 {
            keep(SessionView { message: Some("no valid filter to save"@), ..v })
        } else {
            KeyStep { state: v, outcome: StepOutcome::Save(p.generated + "\n"@), shown: ShownChange::Same }
        },
        Action::ToggleInput => keep(toggle_input_spec(v)),
        Action::ToggleFullscreen => keep(fullscreen_spec(v)),
        Action::TogglePretty => refresh_to(pretty_spec(v), true),
        Action::ToggleLevelColor => refresh_to(level_toggle_spec(v), true),
        Action::ToggleNoColor => refresh_to(no_color_spec(v), true),
        Action::HistoryPrevious => refresh_to(history_step(v, true).0, history_step(v, true).1),
        Action::HistoryNext => refresh_to(history_step(v, false).0, history_step(v, false).1),
        Action::Complete => refresh_to(autocomplete_spec(v).0, autocomplete_spec(v).1),
        Action::Left => keep(set_active(v, active_text(v), previous_boundary_spec(active_text(v), active_cursor(v) as int) as nat)),
        Action::Right => keep(set_active(v, active_text(v), next_boundary_spec(active_text(v), active_cursor(v) as int) as nat)),
        Action::Home => keep(set_active(v, active_text(v), 0)),
        Action::End => keep(set_active(v, active_text(v), byte_len(active_text(v)))),
        Action::Delete => {
            let c = cleared(v);
            refresh_to(
                set_active(c, delete_spec(active_text(c), active_cursor(c)), active_cursor(c)),
                active_cursor(v) < byte_len(active_text(v)),
            )
        },
        Action::Backspace => {
            let c = cleared(v);
            let (t, k) = backspace_spec(active_text(c), active_cursor(c));
            refresh_to(set_active(c, t, k), active_cursor(v) != 0)
        },
        Action::Insert(ch) => {
            let c = cleared(v);
            let (t, k) = insert_spec(active_text(c), active_cursor(c), ch);
            refresh_to(set_active(c, t, k), true)
        },
        Action::Up => if v.active is Output || v.fullscreen {
            KeyStep { state: v, outcome: StepOutcome::Continue, shown: ShownChange::Scroll(scroll_spec(p, true, 1)) }
        } else {
            keep(
                SessionView {
                    field_scroll: saturating_offset_spec(v.field_scroll as int, -1, v.fields.len() as int) as nat,
                    ..v
                },
            )
        },
        Action::Down => if v.active is Output || v.fullscreen {
            KeyStep { state: v, outcome: StepOutcome::Continue, shown: ShownChange::Scroll(scroll_spec(p, false, 1)) }
        } else {
            keep(
                SessionView {
                    field_scroll: saturating_offset_spec(v.field_scroll as int, 1, v.fields.len() as int) as nat,
                    ..v
                },
            )
        },
        Action::PageUp => KeyStep { state: v, outcome: StepOutcome::Continue, shown: ShownChange::Scroll(scroll_spec(p, true, 10)) },
        Action::PageDown => KeyStep { state: v, outcome: StepOutcome::Continue, shown: ShownChange::Scroll(scroll_spec(p, false, 10)) },
        Action::Ignore => keep(v),
    }
}

/// `new` shows what `change` says of `old`'s preview.
pub open spec fn shown_after(new: ExploreSession, old: PreviewView, change: ShownChange) -> bool {
    match change {
        ShownChange::Same => new.shown() == old,
        ShownChange::Refresh => refreshed(new, old),
        ShownChange::Scroll(s) => new.shown() == PreviewView { scroll: s, ..old },
    }
}

impl ExploreSession {
    /// The status line (see `status_spec`).
    pub fn status_line(&self) -> (r: String)
        ensures
            r@ == status_spec(self.state(), self.shown()),
    {
        let mut m = self.status_head();
        m.append(" | ");
        if self.preview_fullscreen {
            m.append("logs:full");
        } else {
            m.append("logs:split");
        }
        m.append(" | ");
        let sc = self.scroll_text();
        m.append(sc.as_str());
        m.append(" | output:");
        let out = self.output_text();
        m.append(out.as_str());
        match &self.message {
            Some(msg) => {
                m.append(" | ");
                m.append(msg.as_str());
            },
            None => {},
        }
        m
    }

    fn status_head(&self) -> (r: String)
        ensures
            r@ == status_head(self.state(), self.shown()),
    {
        let mut m = decimal(self.match_count);
        m.append(" matches | editing:");
        match self.active_input {
            ActiveInput::Filter => m.append("filter"),
            ActiveInput::Output => m.append("output"),
        }
        m.append(" | pretty:");
        if self.output_options.pretty {
            m.append("on");
        } else {
            m.append("off");
        }
        m.append(" | level-color:");
        if self.output_options.color_level && !self.output_options.no_color {
            m.append("on");
        } else {
            m.append("off");
        }
        m
    }

    fn scroll_text(&self) -> (r: String)
        ensures
            r@ == scroll_text(self.shown()),
    {
        let n = self.preview_lines.len();
        proof {
            assert(plines_view(self.preview_lines@).len() == n);
        }
        if n == 0 {
            "scroll:0/0".to_owned()
        } else {
            let mut m = "scroll:".to_owned();
            let s = decimal(self.preview_scroll.saturating_add(1) as usize);
            m.append(s.as_str());
            m.append("/");
            let t = decimal(n);
            m.append(t.as_str());
            m
        }
    }

    fn output_text(&self) -> (r: String)
        ensures
            r@ == output_text(self.state()),
    {
        let out = trimmed(self.output.input.as_str());
        let out_chars = to_chars(out.as_str());
        if out_chars.len() == 0 {
            ".".to_owned()
        } else {
            out
        }
    }

    /// What a key does (see `key_step`); files are left to the caller.
    pub fn handle_key(&mut self, key: Key) -> (r: KeyOutcome)
        requires
            old(self).wf(),
            old(self).fits(),
        ensures
            final(self).wf(),
            final(self).state() == key_step(old(self).state(), old(self).shown(), key).state,
            outcome_view(r) == key_step(old(self).state(), old(self).shown(), key).outcome,
            shown_after(*final(self), old(self).shown(), key_step(old(self).state(), old(self).shown(), key).shown),
    {
        match key_action(key) {
            Action::PrintResults => {
                self.record_history();
                KeyOutcome::Exit(ExplorerExit::PrintResults)
            },
            Action::PrintFilter => {
                self.record_history();
                KeyOutcome::Exit(ExplorerExit::PrintFilter)
            },
            Action::Quit => KeyOutcome::Exit(ExplorerExit::Quit),
            Action::Save => {
                let gv = to_chars(self.generated.as_str());
                if gv.len() == 0 {
                    self.message = Some("no valid filter to save".to_owned());
                    KeyOutcome::Continue
                } else {
                    let mut t = self.generated.clone();
                    t.append("\n");
                    KeyOutcome::Save(t)
                }
            },
            Action::ToggleInput => {
                self.toggle_active_input();
                KeyOutcome::Continue
            },
            Action::ToggleFullscreen => {
                self.toggle_preview_fullscreen();
                KeyOutcome::Continue
            },
            Action::TogglePretty => {
                self.toggle_pretty();
                KeyOutcome::Continue
            },
            Action::ToggleLevelColor => {
                self.toggle_level_color();
                KeyOutcome::Continue
            },
            Action::ToggleNoColor => {
                self.toggle_no_color();
                KeyOutcome::Continue
            },
            Action::HistoryPrevious => {
                self.load_history_entry(true);
                KeyOutcome::Continue
            },
            Action::HistoryNext => {
                self.load_history_entry(false);
                KeyOutcome::Continue
            },
            Action::Complete => {
                self.autocomplete_filter();
                KeyOutcome::Continue
            },
            Action::Left => {
                self.move_cursor_left();
                KeyOutcome::Continue
            },
            Action::Right => {
                self.move_cursor_right();
                KeyOutcome::Continue
            },
            Action::Home => {
                self.move_cursor_home();
                KeyOutcome::Continue
            },
            Action::End => {
                self.move_cursor_end();
                KeyOutcome::Continue
            },
            Action::Delete => {
                self.delete();
                KeyOutcome::Continue
            },
            Action::Up => {
                if self.active_input == ActiveInput::Output || self.preview_fullscreen {
                    self.scroll_preview(true, 1);
                } else {
                    self.scroll_fields(-1);
                }
                KeyOutcome::Continue
            },
            Action::Down => {
                if self.active_input == ActiveInput::Output || self.preview_fullscreen {
                    self.scroll_preview(false, 1);
                } else {
                    self.scroll_fields(1);
                }
                KeyOutcome::Continue
            },
            Action::PageUp => {
                self.scroll_preview(true, 10);
                KeyOutcome::Continue
            },
            Action::PageDown => {
                self.scroll_preview(false, 10);
                KeyOutcome::Continue
            },
            Action::Backspace => {
                self.backspace();
                KeyOutcome::Continue
            },
            Action::Insert(ch) => {
                self.insert_char(ch);
                KeyOutcome::Continue
            },
            Action::Ignore => KeyOutcome::Continue,
        }
    }
}

// ---------------------------------------------------------------------
// Files, streaming and the end of a session
// ---------------------------------------------------------------------

/// After a save: on success the filter is recorded in the history and the
/// file announced; on failure the error is shown.
pub open spec fn save_finished_spec(v: SessionView, path: Seq<char>, result: Result<(), Seq<char>>) -> SessionView {
    match result {
        Ok(_) => SessionView { message: Some("saved "@ + path), ..record_spec(v) },
        Err(e) => SessionView { message: Some("save failed: "@ + e), ..v },
    }
}

/// The announcement of streaming progress.
pub open spec fn stream_message_spec(v: SessionView) -> Seq<char> {
    let ended = match v.stream {
        Some((e, _)) => e,
        None => false,
    };
    "streaming stdin: "@ + decimal_spec(v.values.len()) + " documents ("@ + (if ended {
        "complete"@
    } else {
        "live"@
    }) + ")"@
}

/// One field in the snapshot: path, types and number of occurrences.
pub open spec fn field_line(f: FieldSummary) -> Seq<char> {
    "  "@ + f.path@ + "  "@ + join_spec(strings_view(f.types@), "|"@) + "  ("@ + decimal_spec(f.count as nat) + ")"@
}

/// One previewed result in the snapshot: its lines, indented.
pub open spec fn item_lines(item: Seq<char>) -> Seq<Seq<char>> {
    if item.len() == 0 {
        seq!["  "@]
    } else {
        lines_spec(item).map_values(|l: Seq<char>| "  "@ + l)
    }
}

pub open spec fn items_lines(items: Seq<Seq<char>>) -> Seq<Seq<char>>
    decreases items.len(),
{
    if items.len() == 0 {
        Seq::empty()
    } else {
        items_lines(items.drop_last()) + item_lines(items.last())
    }
}

/// The filter input as shown, `.` when empty.
pub open spec fn filter_text(v: SessionView) -> Seq<char> {
    if trim(v.filter).len() == 0 {
        "."@
    } else {
        trim(v.filter)
    }
}

/// The snapshot printed instead of the terminal view: the inputs, the
/// generated program, the first 25 fields, and the preview (as output
/// lines, indented), given the outcome of running the filter on each
/// document.
pub open spec fn snapshot_spec(v: SessionView, p: PreviewView, outcomes: Seq<Result<Seq<Value>, Failure>>) -> Seq<Seq<char>> {
    let n = v.fields.len();
    let listed = v.fields.take(
        if n < 25 {
            n as int
        } else {
            25
        },
    );
    let more: Seq<Seq<char>> = if n > 25 {
        seq!["  ... "@ + decimal_spec((n - 25) as nat) + " more"@]
    } else {
        Seq::empty()
    };
    let preview = snapshot_preview(v, p, outcomes);
    seq![
        "jgrep explore"@,
        "filter: "@ + filter_text(v),
        "output: "@ + output_text(v),
        "generated jq: "@ + p.generated,
        Seq::empty(),
        "fields:"@,
    ] + listed.map_values(|f: FieldSummary| field_line(f)) + more + seq![Seq::empty(), "preview:"@] + preview
}

/// What printing the results does, given the outcome of running the filter
/// on each document: every result on standard output (exit 0, or 1 when
/// there is none), or the error on standard error (exit 2).
pub open spec fn results_spec(v: SessionView, p: PreviewView, outcomes: Seq<Result<Seq<Value>, Failure>>) -> (
    Seq<(bool, Seq<char>)>,
    i32,
) {
    match p.error {
        Some(e) => (seq![(false, "jgrep: explore: "@ + e)], 2),
        None => match preview_spec(v.values, p.generated, outcomes, usize::MAX as nat, v.options, false) {
            Ok((ls, _)) => (
                texts_of(ls).map_values(|t: Seq<char>| (true, t)),
                if ls.len() == 0 {
                    1
                } else {
                    0
                },
            ),
            Err(e) => (seq![(false, "jgrep: explore: "@ + e)], 2),
        },
    }
}

impl ExploreSession {
    /// Reports the outcome of a requested save of the filter to `path`
    /// (see `save_finished_spec`).
    pub fn save_finished(&mut self, path: &str, result: Result<(), String>)
        ensures
            final(self).state() == save_finished_spec(
                old(self).state(),
                path@,
                match result {
                    Ok(u) => Ok(u),
                    Err(e) => Err(e@),
                },
            ),
            final(self).shown() == old(self).shown(),
            old(self).wf() ==> final(self).wf(),
    {
        match result {
            Ok(()) => {
                self.record_history();
                let mut m = "saved ".to_owned();
                m.append(path);
                self.message = Some(m);
            },
            Err(e) => {
                let mut m = "save failed: ".to_owned();
                m.append(e.as_str());
                self.message = Some(m);
            },
        }
    }

    /// The text to write out as the last generated filter, when a refresh
    /// produced one since the last call.
    pub fn take_persist(&mut self) -> (r: Option<String>)
        ensures
            final(self).state() == old(self).state(),
            final(self).shown() == (PreviewView { persist_pending: false, ..old(self).shown() }),
            r is Some <==> old(self).persist_pending,
            r matches Some(t) ==> t@ == old(self).generated@ + "\n"@,
            old(self).wf() ==> final(self).wf(),
    {
        if self.persist_pending {
            self.persist_pending = false;
            let mut t = self.generated.clone();
            t.append("\n");
            Some(t)
        } else {
            None
        }
    }

    /// Shows that writing out the last generated filter failed.
    pub fn persist_failed(&mut self, error: &str)
        ensures
            final(self).state() == (SessionView {
                message: Some("last-filter write failed: "@ + error@),
                ..old(self).state()
            }),
            final(self).shown() == old(self).shown(),
            old(self).wf() ==> final(self).wf(),
    {
        let mut m = "last-filter write failed: ".to_owned();
        m.append(error);
        self.message = Some(m);
    }

    /// The history to write out, when it grew since the last call.
    pub fn take_history_write(&mut self) -> (r: Option<String>)
        ensures
            final(self).state() == (SessionView { history_pending: false, ..old(self).state() }),
            final(self).shown() == old(self).shown(),
            r is Some <==> old(self).history_pending,
            r matches Some(t) ==> t@ == join_spec(strings_view(old(self).history@), "\n"@) + "\n"@,
            old(self).wf() ==> final(self).wf(),
    {
        if self.history_pending {
            self.history_pending = false;
            Some(self.history_text())
        } else {
            None
        }
    }

    /// Marks the session as reading a stream of documents.
    pub fn start_streaming(&mut self)
        ensures
            final(self).state() == (SessionView {
                stream: Some((false, Seq::empty())),
                message: Some("streaming stdin: waiting for JSON log lines"@),
                ..old(self).state()
            }),
            final(self).shown() == old(self).shown(),
            old(self).wf() ==> final(self).wf(),
    {
        let errors: Vec<String> = Vec::new();
        proof {
            assert(strings_view(errors@) =~= Seq::<Seq<char>>::empty());
        }
        self.stream = Some(StreamState { ended: false, errors });
        self.message = Some("streaming stdin: waiting for JSON log lines".to_owned());
    }

    /// A session with no documents yet that reads a stream.
    pub fn new_streaming(
        filter: String,
        output_input: String,
        config: ExploreConfig,
        output_options: OutputOptions,
        history: Vec<String>,
        persist_last_filter: bool,
        history_file: bool,
    ) -> (s: Self)
        requires
            byte_len(filter@) <= usize::MAX,
            byte_len(output_input@) <= usize::MAX,
        ensures
            s.wf(),
            s.fields@.len() == 0,
            s.state() == (SessionView {
                values: Seq::empty(),
                fields: s.fields@,
                filter: filter@,
                filter_cursor: byte_len(filter@),
                output: output_input@,
                output_cursor: byte_len(output_input@),
                active: ActiveInput::Filter,
                history: strings_view(history@),
                history_index: None,
                completions: Seq::empty(),
                completion_index: 0,
                completion_prefix: Seq::empty(),
                fullscreen: false,
                options: output_options,
                limit: config.max_preview_results as nat,
                field_scroll: 0,
                config,
                stream: Some((false, Seq::empty())),
                message: Some("streaming stdin: waiting for JSON log lines"@),
                persist_enabled: persist_last_filter,
                history_file,
                history_pending: false,
            }),
            refreshed(
                s,
                PreviewView {
                    generated: Seq::empty(),
                    error: None,
                    lines: Seq::empty(),
                    count: 0,
                    scroll: 0,
                    persist_pending: false,
                },
            ),
    {
        let mut s = ExploreSession::new(
            Vec::new(),
            filter,
            output_input,
            config,
            output_options,
            history,
            persist_last_filter,
            history_file,
        );
        proof {
            crate::schema::lemma_no_fields(s.fields@, Seq::<Value>::empty(), config.max_schema_documents as int);
        }
        let ghost q = PreviewView {
            generated: Seq::empty(),
            error: None,
            lines: Seq::empty(),
            count: 0,
            scroll: 0,
            persist_pending: false,
        };
        let ghost o = choose|o: Seq<Result<Seq<Value>, Failure>>|
            refresh_possible(s.state(), o) && s.shown() == #[trigger] refresh_spec(s.state(), o, q);
        let ghost before = s.state();
        s.start_streaming();
        proof {
            assert(refresh_spec(s.state(), o, q) == refresh_spec(before, o, q));
            assert(refresh_possible(s.state(), o) == refresh_possible(before, o));
        }
        s
    }

    /// Adds a streamed document: the fields are inferred again and the
    /// preview refreshed.
    pub fn append_stream_value(&mut self, value: Value)
        requires
            all_ok(old(self).values@),
            numbers_ok(value),
        ensures
            final(self).state() == (SessionView {
                values: old(self).values@.push(value),
                fields: final(self).fields@,
                ..old(self).state()
            }),
            summarizes(
                final(self).fields@,
                occ_docs(
                    old(self).values@.push(value),
                    if old(self).config.max_schema_documents < old(self).values@.len() + 1 {
                        old(self).config.max_schema_documents as int
                    } else {
                        old(self).values@.len() + 1int
                    },
                ),
            ),
            refreshed(*final(self), old(self).shown()),
            old(self).wf() ==> final(self).wf(),
    {
        let ghost before = self.values@;
        self.values.push(value);
        proof {
            assert forall|i: int| 0 <= i < self.values@.len() implies numbers_ok(#[trigger] self.values@[i]) by {
                if i < before.len() {
                    assert(self.values@[i] == before[i]);
                }
            }
        }
        self.fields = infer_schema(self.values.as_slice(), self.config.max_schema_documents);
        self.refresh();
    }

    /// Records an error of the stream.
    pub fn record_stream_error(&mut self, error: String)
        ensures
            final(self).state() == (SessionView {
                stream: match old(self).state().stream {
                    Some((ended, errors)) => Some((ended, errors.push(error@))),
                    None => None,
                },
                ..old(self).state()
            }),
            final(self).shown() == old(self).shown(),
            old(self).wf() ==> final(self).wf(),
    {
        match &mut self.stream {
            Some(stream) => {
                let ghost before = stream.errors@;
                stream.errors.push(error);
                proof {
                    assert(strings_view(stream.errors@) =~= strings_view(before).push(error@));
                }
            },
            None => {},
        }
    }

    /// Records that the stream ended.
    pub fn end_stream(&mut self)
        ensures
            final(self).state() == (SessionView {
                stream: match old(self).state().stream {
                    Some((_, errors)) => Some((true, errors)),
                    None => None,
                },
                ..old(self).state()
            }),
            final(self).shown() == old(self).shown(),
            old(self).wf() ==> final(self).wf(),
    {
        match &mut self.stream {
            Some(stream) => {
                stream.ended = true;
            },
            None => {},
        }
    }

    /// Announces how many documents were streamed and whether the stream
    /// ended.
    pub fn announce_stream(&mut self)
        ensures
            final(self).state() == (SessionView {
                message: Some(stream_message_spec(old(self).state())),
                ..old(self).state()
            }),
            final(self).shown() == old(self).shown(),
            old(self).wf() ==> final(self).wf(),
    {
        let ended = match &self.stream {
            Some(stream) => stream.ended,
            None => false,
        };
        let mut m = "streaming stdin: ".to_owned();
        let n = decimal(self.values.len());
        m.append(n.as_str());
        m.append(" documents (");
        if ended {
            m.append("complete");
        } else {
            m.append("live");
        }
        m.append(")");
        self.message = Some(m);
    }
}

/// The history kept in a file: its lines, trimmed, without empty ones.
pub open spec fn history_entries(lines: Seq<Seq<char>>) -> Seq<Seq<char>>
    decreases lines.len(),
{
    if lines.len() == 0 {
        Seq::empty()
    } else {
        history_entries(lines.drop_last()) + if trim(lines.last()).len() > 0 {
            seq![trim(lines.last())]
        } else {
            Seq::empty()
        }
    }
}

/// The history kept in a file (see `history_entries`).
pub fn parse_history(text: &str) -> (r: Vec<String>)
    ensures
        strings_view(r@) == history_entries(lines_spec(text@)),
{
    let lines = split_lines(text);
    let ghost ls = lines_spec(text@);
    let mut out: Vec<String> = Vec::new();
    let n = lines.len();
    for i in 0..n
        invariant
            n == lines@.len(),
            strings_view(lines@) == ls,
            strings_view(out@) == history_entries(ls.take(i as int)),
    {
        proof {
            assert(ls.take(i + 1).drop_last() =~= ls.take(i as int));
            assert(ls.take(i + 1).last() == lines@[i as int]@);
        }
        let t = trimmed(lines[i].as_str());
        let tv = to_chars(t.as_str());
        if tv.len() > 0 {
            let ghost before = out@;
            out.push(t);
            proof {
                assert(strings_view(out@) =~= strings_view(before).push(t@));
            }
        } else {
            proof {
                assert(history_entries(ls.take(i + 1)) =~= history_entries(ls.take(i as int)));
            }
        }
    }
    proof {
        assert(ls.take(n as int) =~= ls);
    }
    out
}

fn push_line(lines: &mut Vec<String>, line: String)
    ensures
        strings_view(final(lines)@) == strings_view(old(lines)@).push(line@),
{
    let ghost before = lines@;
    lines.push(line);
    proof {
        assert(strings_view(lines@) =~= strings_view(before).push(line@));
    }
}

fn append_lines(lines: &mut Vec<String>, more: Vec<String>)
    ensures
        strings_view(final(lines)@) == strings_view(old(lines)@) + strings_view(more@),
{
    let ghost before = lines@;
    let ghost mv = more@;
    let mut more = more;
    lines.append(&mut more);
    proof {
        assert(lines@ == before + mv);
        assert(strings_view(lines@) =~= strings_view(before) + strings_view(mv));
    }
}

fn prefixed(prefix: &str, text: &str) -> (r: String)
    ensures
        r@ == prefix@ + text@,
{
    let mut m = prefix.to_owned();
    m.append(text);
    m
}

/// The snapshot lines of one previewed result (see `item_lines`).
fn item_lines_exec(item: &str) -> (r: Vec<String>)
    ensures
        strings_view(r@) == item_lines(item@),
{
    let cs = to_chars(item);
    let mut out: Vec<String> = Vec::new();
    if cs.len() == 0 {
        push_line(&mut out, "  ".to_owned());
        proof {
            assert(strings_view(out@) =~= seq!["  "@]);
        }
        return out;
    }
    let lines = split_lines(item);
    let ghost ls = lines_spec(item@);
    let n = lines.len();
    for i in 0..n
        invariant
            n == lines@.len(),
            strings_view(lines@) == ls,
            strings_view(out@) == ls.take(i as int).map_values(|l: Seq<char>| "  "@ + l),
    {
        let l = prefixed("  ", lines[i].as_str());
        let ghost before = out@;
        push_line(&mut out, l);
        proof {
            assert(ls[i as int] == lines@[i as int]@);
            assert(ls.take(i + 1).map_values(|l: Seq<char>| "  "@ + l) =~= ls.take(i as int).map_values(
                |l: Seq<char>| "  "@ + l,
            ).push("  "@ + ls[i as int]));
        }
    }
    proof {
        assert(ls.take(n as int) =~= ls);
    }
    out
}

impl ExploreSession {
    fn field_line(&self, i: usize) -> (r: String)
        requires
            i < self.fields@.len(),
        ensures
            r@ == field_line(self.fields@[i as int]),
    {
        let f = &self.fields[i];
        let mut m = prefixed("  ", f.path.as_str());
        m.append("  ");
        let t = join_strings(&f.types, "|");
        m.append(t.as_str());
        m.append("  (");
        let c = decimal(f.count);
        m.append(c.as_str());
        m.append(")");
        m
    }

    fn field_block(&self) -> (r: Vec<String>)
        ensures
            ({
                let n = self.fields@.len();
                let listed = self.fields@.take(
                    if n < 25 {
                        n as int
                    } else {
                        25
                    },
                );
                strings_view(r@) == listed.map_values(|f: FieldSummary| field_line(f)) + if n > 25 {
                    seq!["  ... "@ + decimal_spec((n - 25) as nat) + " more"@]
                } else {
                    Seq::<Seq<char>>::empty()
                }
            }),
    {
        let n = self.fields.len();
        let shown = if n < 25 {
            n
        } else {
            25
        };
        let ghost listed = self.fields@.take(shown as int);
        let mut out: Vec<String> = Vec::new();
        for i in 0..shown
            invariant
                shown <= n,
                n == self.fields@.len(),
                listed == self.fields@.take(shown as int),
                strings_view(out@) == listed.take(i as int).map_values(|f: FieldSummary| field_line(f)),
        {
            let l = self.field_line(i);
            push_line(&mut out, l);
            proof {
                assert(listed[i as int] == self.fields@[i as int]);
                assert(listed.take(i + 1).map_values(|f: FieldSummary| field_line(f)) =~= listed.take(i as int).map_values(
                    |f: FieldSummary| field_line(f),
                ).push(field_line(listed[i as int])));
            }
        }
        proof {
            assert(listed.take(shown as int) =~= listed);
        }
        if n > 25 {
            let mut m = "  ... ".to_owned();
            let d = decimal(n - 25);
            m.append(d.as_str());
            m.append(" more");
            push_line(&mut out, m);
        } else {
            proof {
                assert(strings_view(out@) =~= strings_view(out@) + Seq::<Seq<char>>::empty());
            }
        }
        out
    }

    fn preview_block(&self) -> (r: Vec<String>)
        requires
            all_ok(self.values@),
        ensures
            exists|o: Seq<Result<Seq<Value>, Failure>>|
                printed_runs_possible(self.state(), self.shown(), o, self.limit as nat) && strings_view(r@)
                    == #[trigger] snapshot_preview(self.state(), self.shown(), o),
    {
        let mut out: Vec<String> = Vec::new();
        match &self.error {
            Some(e) => {
                push_line(&mut out, prefixed("  error: ", e.as_str()));
                proof {
                    let o: Seq<Result<Seq<Value>, Failure>> = Seq::empty();
                    assert(strings_view(out@) =~= snapshot_preview(self.state(), self.shown(), o));
                }
                return out;
            },
            None => {},
        }
        let preview = preview_values(&self.values, self.generated.as_str(), self.limit, &self.output_options);
        let ghost o = choose|o: Seq<Result<Seq<Value>, Failure>>|
            preview_runs_possible(self.values@, self.generated@, o, self.limit as nat, self.output_options, false)
                && match #[trigger] preview_spec(self.values@, self.generated@, o, self.limit as nat, self.output_options, false) {
                Ok((ls, _)) => preview is Ok && strings_view(preview->Ok_0@) == texts_of(ls),
                Err(e) => preview is Err && preview->Err_0@ == e,
            };
        let items: Vec<String> = match preview {
            Ok(v) => v,
            Err(_) => Vec::new(),
        };
        let ghost iv = strings_view(items@);
        proof {
            assert(iv =~= match preview_spec(self.values@, self.generated@, o, self.limit as nat, self.output_options, false) {
                Ok((ls, _)) => texts_of(ls),
                Err(_) => Seq::<Seq<char>>::empty(),
            });
        }
        if items.len() == 0 {
            push_line(&mut out, "  no matches".to_owned());
            proof {
                assert(strings_view(out@) =~= snapshot_preview(self.state(), self.shown(), o));
            }
            return out;
        }
        let n = items.len();
        proof {
            assert(iv.take(0) =~= Seq::<Seq<char>>::empty());
            assert(strings_view(out@) =~= Seq::<Seq<char>>::empty());
        }
        for i in 0..n
            invariant
                n == items@.len(),
                iv == strings_view(items@),
                strings_view(out@) == items_lines(iv.take(i as int)),
        {
            let block = item_lines_exec(items[i].as_str());
            append_lines(&mut out, block);
            proof {
                assert(iv.take(i + 1).drop_last() =~= iv.take(i as int));
                assert(iv.take(i + 1).last() == items@[i as int]@);
            }
        }
        proof {
            assert(iv.take(n as int) =~= iv);
            assert(strings_view(out@) =~= snapshot_preview(self.state(), self.shown(), o));
        }
        out
    }

    /// The snapshot printed instead of the terminal view (see
    /// `snapshot_spec`).
    pub fn snapshot_lines(&self) -> (r: Vec<String>)
        requires
            all_ok(self.values@),
        ensures
            exists|o: Seq<Result<Seq<Value>, Failure>>|
                printed_runs_possible(self.state(), self.shown(), o, self.limit as nat) && strings_view(r@)
                    == #[trigger] snapshot_spec(self.state(), self.shown(), o),
    {
        let mut out: Vec<String> = Vec::new();
        push_line(&mut out, "jgrep explore".to_owned());
        let f = self.filter_text();
        push_line(&mut out, prefixed("filter: ", f.as_str()));
        let o = self.output_text();
        push_line(&mut out, prefixed("output: ", o.as_str()));
        push_line(&mut out, prefixed("generated jq: ", self.generated.as_str()));
        push_line(&mut out, String::new());
        push_line(&mut out, "fields:".to_owned());
        let ghost head = strings_view(out@);
        let fields = self.field_block();
        let ghost fv = strings_view(fields@);
        append_lines(&mut out, fields);
        push_line(&mut out, String::new());
        push_line(&mut out, "preview:".to_owned());
        let preview = self.preview_block();
        let ghost pv = strings_view(preview@);
        let ghost oc = choose|oc: Seq<Result<Seq<Value>, Failure>>|
            printed_runs_possible(self.state(), self.shown(), oc, self.limit as nat) && pv == #[trigger] snapshot_preview(
                self.state(),
                self.shown(),
                oc,
            );
        append_lines(&mut out, preview);
        proof {
            assert(head =~= seq![
                "jgrep explore"@,
                "filter: "@ + filter_text(self.state()),
                "output: "@ + output_text(self.state()),
                "generated jq: "@ + self.generated@,
                Seq::<char>::empty(),
                "fields:"@,
            ]);
            assert(strings_view(out@) =~= snapshot_spec(self.state(), self.shown(), oc));
        }
        out
    }

    /// The exit status after printing the snapshot: 2 when the preview
    /// shows an error, else 0.
    pub fn snapshot_exit_code(&self) -> (r: i32)
        ensures
            r == (if self.shown().error is Some {
                2i32
            } else {
                0i32
            }),
    {
        match &self.error {
            Some(_) => 2,
            None => 0,
        }
    }

    fn filter_text(&self) -> (r: String)
        ensures
            r@ == filter_text(self.state()),
    {
        let t = trimmed(self.filter.input.as_str());
        let tc = to_chars(t.as_str());
        if tc.len() == 0 {
            ".".to_owned()
        } else {
            t
        }
    }

    /// Printing the results (see `results_spec`).
    pub fn results_output(&self) -> (r: (Vec<OutputLine>, i32))
        requires
            all_ok(self.values@),
        ensures
            exists|o: Seq<Result<Seq<Value>, Failure>>|
                printed_runs_possible(self.state(), self.shown(), o, usize::MAX as nat) && (lines_view(r.0@), r.1)
                    == #[trigger] results_spec(self.state(), self.shown(), o),
    {
        let mut out: Vec<OutputLine> = Vec::new();
        match &self.error {
            Some(e) => {
                out.push(OutputLine::Stderr(prefixed("jgrep: explore: ", e.as_str())));
                proof {
                    let o: Seq<Result<Seq<Value>, Failure>> = Seq::empty();
                    assert(lines_view(out@) =~= results_spec(self.state(), self.shown(), o).0);
                }
                return (out, 2);
            },
            None => {},
        }
        let preview = preview_values(&self.values, self.generated.as_str(), usize::MAX, &self.output_options);
        let ghost o = choose|o: Seq<Result<Seq<Value>, Failure>>|
            preview_runs_possible(self.values@, self.generated@, o, usize::MAX as nat, self.output_options, false)
                && match #[trigger] preview_spec(self.values@, self.generated@, o, usize::MAX as nat, self.output_options, false) {
                Ok((ls, _)) => preview is Ok && strings_view(preview->Ok_0@) == texts_of(ls),
                Err(e) => preview is Err && preview->Err_0@ == e,
            };
        match preview {
            Err(e) => {
                out.push(OutputLine::Stderr(prefixed("jgrep: explore: ", e.as_str())));
                proof {
                    assert(lines_view(out@) =~= results_spec(self.state(), self.shown(), o).0);
                }
                (out, 2)
            },
            Ok(results) => {
                let ghost rv = strings_view(results@);
                let n = results.len();
                for t in it: results.into_iter()
                    invariant
                        n == it.seq().len(),
                        rv == strings_view(it.seq()),
                        lines_view(out@) == rv.take(it.index() as int).map_values(|t: Seq<char>| (true, t)),
                {
                    let ghost i = it.index();
                    let ghost before = out@;
                    out.push(OutputLine::Stdout(t));
                    proof {
                        assert(rv[i as int] == t@);
                        assert(lines_view(out@) =~= lines_view(before).push((true, t@)));
                        assert(rv.take(i + 1).map_values(|t: Seq<char>| (true, t)) =~= rv.take(i as int).map_values(
                            |t: Seq<char>| (true, t),
                        ).push((true, rv[i as int])));
                    }
                }
                proof {
                    assert(rv.take(n as int) =~= rv);
                    assert(lines_view(out@) =~= results_spec(self.state(), self.shown(), o).0);
                }
                let code = if n == 0 {
                    1
                } else {
                    0
                };
                (out, code)
            },
        }
    }

    /// What ending the session prints: the results, the generated program
    /// (after recording the filter in the history), or nothing; with the
    /// exit status.
    pub fn finish(&mut self, exit: ExplorerExit) -> (r: (Vec<OutputLine>, i32))
        requires
            all_ok(old(self).values@),
        ensures
            final(self).shown() == old(self).shown(),
            old(self).wf() ==> final(self).wf(),
            match exit {
                ExplorerExit::PrintResults => final(self).state() == old(self).state() && exists|o: Seq<Result<Seq<Value>, Failure>>|
                    printed_runs_possible(old(self).state(), old(self).shown(), o, usize::MAX as nat) && (lines_view(r.0@), r.1)
                        == #[trigger] results_spec(old(self).state(), old(self).shown(), o),
                ExplorerExit::PrintFilter => final(self).state() == record_spec(old(self).state()) && lines_view(r.0@) == seq![
                    (true, old(self).generated@),
                ] && r.1 == 0,
                ExplorerExit::Quit => final(self).state() == old(self).state() && r.0@.len() == 0 && r.1 == 0,
            },
    {
        match exit {
            ExplorerExit::PrintResults => self.results_output(),
            ExplorerExit::PrintFilter => {
                self.record_history();
                let mut out: Vec<OutputLine> = Vec::new();
                out.push(OutputLine::Stdout(self.generated.clone()));
                proof {
                    assert(lines_view(out@) =~= seq![(true, self.generated@)]);
                }
                (out, 0)
            },
            ExplorerExit::Quit => (Vec::new(), 0),
        }
    }
}

/// The outcomes behind a printed preview (with at most `limit` matches)
/// are ones that the generated program may give on the documents it ran on
/// (see `preview_runs_possible`); nothing runs when an error is shown.
pub open spec fn printed_runs_possible(v: SessionView, p: PreviewView, outcomes: Seq<Result<Seq<Value>, Failure>>, limit: nat) -> bool {
    p.error is None ==> preview_runs_possible(v.values, p.generated, outcomes, limit, v.options, false)
}

/// The preview part of the snapshot.
pub open spec fn snapshot_preview(v: SessionView, p: PreviewView, outcomes: Seq<Result<Seq<Value>, Failure>>) -> Seq<Seq<char>> {
    match p.error {
        Some(e) => seq!["  error: "@ + e],
        None => {
            let items = match preview_spec(v.values, p.generated, outcomes, v.limit, v.options, false) {
                Ok((ls, _)) => texts_of(ls),
                Err(_) => Seq::empty(),
            };
            if items.len() == 0 {
                seq!["  no matches"@]
            } else {
                items_lines(items)
            }
        },
    }
}

// ---------------------------------------------------------------------
// Panel texts
// ---------------------------------------------------------------------

/// The key help shown below the status line.
pub open spec fn help_spec() -> Seq<char> {
    "Ctrl-O input | Ctrl-G logs | Tab complete | Ctrl-F pretty | Ctrl-L level color | Ctrl-K color off/on | Ctrl-P/N history | Enter print | Ctrl-Y jq | Ctrl-S save | Esc quit"@
}

/// The title of the field list: the position of its first shown field
/// and the number of fields.
pub open spec fn fields_title_spec(v: SessionView) -> Seq<char> {
    let n = v.fields.len();
    if n == 0 {
        "Fields 0/0"@
    } else {
        "Fields "@ + decimal_spec(
            if v.field_scroll + 1 < n {
                (v.field_scroll + 1) as nat
            } else {
                n
            },
        ) + "/"@ + decimal_spec(n)
    }
}

/// The state of a stream: live or complete, documents read, errors met.
pub open spec fn stream_line_text(v: SessionView) -> Option<Seq<char>> {
    match v.stream {
        Some((ended, errors)) => Some(
            "stream "@ + (if ended {
                "complete"@
            } else {
                "live"@
            }) + ": "@ + decimal_spec(v.values.len()) + " docs, "@ + decimal_spec(errors.len()) + " errors"@,
        ),
        None => None,
    }
}

/// The text below the panels: the status line, the stream's state when
/// streaming, and the key help.
pub open spec fn hint_spec(v: SessionView, p: PreviewView) -> Seq<char> {
    match stream_line_text(v) {
        Some(l) => status_spec(v, p) + "\n"@ + l + "\n"@ + help_spec(),
        None => status_spec(v, p) + "\n"@ + help_spec(),
    }
}

impl ExploreSession {
    /// The title of the field list (see `fields_title_spec`).
    pub fn fields_title(&self) -> (r: String)
        ensures
            r@ == fields_title_spec(self.state()),
    {
        let n = self.fields.len();
        if n == 0 {
            return "Fields 0/0".to_owned();
        }
        let first = if self.field_scroll < n - 1 {
            self.field_scroll + 1
        } else {
            n
        };
        let mut m = "Fields ".to_owned();
        let a = decimal(first);
        m.append(a.as_str());
        m.append("/");
        let b = decimal(n);
        m.append(b.as_str());
        m
    }

    /// The text below the panels (see `hint_spec`).
    pub fn hint_text(&self) -> (r: String)
        ensures
            r@ == hint_spec(self.state(), self.shown()),
    {
        let mut m = self.status_line();
        m.append("\n");
        match &self.stream {
            Some(stream) => {
                m.append("stream ");
                if stream.ended {
                    m.append("complete");
                } else {
                    m.append("live");
                }
                m.append(": ");
                let a = decimal(self.values.len());
                m.append(a.as_str());
                m.append(" docs, ");
                let b = decimal(stream.errors.len());
                m.append(b.as_str());
                m.append(" errors");
                m.append("\n");
                proof {
                    assert(strings_view(stream.errors@).len() == stream.errors@.len());
                }
            },
            None => {},
        }
        m.append("Ctrl-O input | Ctrl-G logs | Tab complete | Ctrl-F pretty | Ctrl-L level color | Ctrl-K color off/on | Ctrl-P/N history | Enter print | Ctrl-Y jq | Ctrl-S save | Esc quit");
        m
    }
}

// ---------------------------------------------------------------------
// Laws
// ---------------------------------------------------------------------

/// Typing a character and then pressing Backspace gives back the active
/// input and its cursor.
#[verifier::spinoff_prover]
#[verifier::rlimit(60)]
pub proof fn law_backspace_undoes_typing(v: SessionView, p: PreviewView, q: PreviewView, ch: char)
    requires
        is_boundary(active_text(v), active_cursor(v) as int),
    ensures
        ({
            let v1 = key_step(v, p, Key::Char(ch, false)).state;
            let v2 = key_step(v1, q, Key::Backspace).state;
            active_text(v2) == active_text(v) && active_cursor(v2) == active_cursor(v) && v2.active == v.active
        }),
{
    let s = active_text(v);
    let c = active_cursor(v);
    let k = choose|k: int| 0 <= k <= s.len() && byte_offset(s, k) == c;
    lemma_char_pos(s, c as int, k);
    let t = s.take(k).push(ch) + s.skip(k);
    let c2 = c + char_width(ch);
    assert(t.take(k + 1) =~= s.take(k).push(ch));
    crate::utf8_len::lemma_byte_len_push(s.take(k), ch);
    assert(byte_offset(t, k + 1) == c2);
    lemma_char_pos(t, c2 as int, k + 1);
    assert(t.take(k) =~= s.take(k));
    assert(t.skip(k + 1) =~= s.skip(k));
    assert(s.take(k) + s.skip(k) =~= s);
    assert(key_action_spec(Key::Char(ch, false)) == Action::Insert(ch));
    assert(key_action_spec(Key::Backspace) == Action::Backspace);
    let cv = cleared(v);
    assert(active_text(cv) == s && active_cursor(cv) == c);
    assert(insert_spec(s, c, ch) == (t, c2));
    let v1 = set_active(cv, t, c2);
    assert(key_step(v, p, Key::Char(ch, false)).state == v1);
    assert(active_text(v1) == t && active_cursor(v1) == c2);
    let cv1 = cleared(v1);
    assert(active_text(cv1) == t && active_cursor(cv1) == c2);
    assert(backspace_spec(t, c2) == (s, c));
}

/// Pressing Right and then Left inside the active input (not at its end)
/// gives back the cursor.
#[verifier::spinoff_prover]
#[verifier::rlimit(60)]
pub proof fn law_left_undoes_right(v: SessionView, p: PreviewView, q: PreviewView)
    requires
        is_boundary(active_text(v), active_cursor(v) as int),
        active_cursor(v) < byte_len(active_text(v)),
    ensures
        ({
            let v1 = key_step(v, p, Key::Right).state;
            let v2 = key_step(v1, q, Key::Left).state;
            active_text(v2) == active_text(v) && active_cursor(v2) == active_cursor(v)
        }),
{
    let s = active_text(v);
    let c = active_cursor(v);
    let k = choose|k: int| 0 <= k <= s.len() && byte_offset(s, k) == c;
    lemma_char_pos(s, c as int, k);
    lemma_offset_le_len(s, k);
    if k == s.len() {
        assert(false);
    }
    let n = next_boundary_spec(s, c as int);
    if k + 1 < s.len() {
        lemma_char_pos(s, n, k + 1);
    } else {
        assert(byte_offset(s, s.len() as int) == byte_len(s));
        lemma_char_pos(s, n, k + 1);
    }
}

/// Switching input, layout, pretty-printing or all colours twice gives
/// back the session as it was, but for the message.
#[verifier::spinoff_prover]
#[verifier::rlimit(60)]
pub proof fn law_toggles_are_involutions(v: SessionView, p: PreviewView, q: PreviewView, c: char)
    requires
        c == 'o' || c == 'g' || c == 'f' || c == 'k',
    ensures
        ({
            let v2 = key_step(key_step(v, p, Key::Char(c, true)).state, q, Key::Char(c, true)).state;
            SessionView { message: None, ..v2 } == SessionView {
                message: None,
                ..if c == 'o' {
                    cleared(v)
                } else {
                    v
                }
            }
        }),
{
}

/// Recording the filter twice records it once.
pub proof fn law_record_history_idempotent(v: SessionView)
    ensures
        record_spec(record_spec(v)) == record_spec(v),
{
}

/// Every completion candidate is the path of an inferred field and starts
/// with the completed prefix.
pub proof fn law_candidates_are_matching_fields(fields: Seq<FieldSummary>, prefix: Seq<char>, i: int)
    requires
        0 <= i < candidates_spec(fields, prefix).len(),
    ensures
        starts_with(candidates_spec(fields, prefix)[i], prefix),
        exists|j: int| 0 <= j < fields.len() && (#[trigger] fields[j]).path@ == candidates_spec(fields, prefix)[i],
    decreases fields.len(),
{
    let rest = candidates_spec(fields.drop_last(), prefix);
    if i < rest.len() {
        law_candidates_are_matching_fields(fields.drop_last(), prefix, i);
        let j = choose|j: int| 0 <= j < fields.drop_last().len() && (#[trigger] fields.drop_last()[j]).path@ == rest[i];
        assert(fields[j] == fields.drop_last()[j]);
    } else {
        assert(fields[fields.len() - 1] == fields.last());
    }
}

/// After a refresh that shows results, the scroll position lies within the
/// preview's lines.
pub proof fn law_refresh_keeps_scroll_in_preview(v: SessionView, o: Seq<Result<Seq<Value>, Failure>>, p: PreviewView)
    requires
        refresh_spec(v, o, p).error is None,
    ensures
        refresh_spec(v, o, p).lines.len() == 0 ==> refresh_spec(v, o, p).scroll == 0,
        refresh_spec(v, o, p).lines.len() > 0 ==> refresh_spec(
            v,
            o,
            p,
        ).scroll < refresh_spec(v, o, p).lines.len(),
{
}

proof fn lemma_lines_acc_concat(a: Seq<char>, b: Seq<char>)
    requires
        lines_acc(a).1.len() == 0,
    ensures
        lines_acc(a + b) == (lines_acc(a).0 + lines_acc(b).0, lines_acc(b).1),
    decreases b.len(),
{
    if b.len() == 0 {
        assert(a + b =~= a);
        assert(lines_acc(a).1 =~= Seq::<char>::empty());
        assert(lines_acc(a).0 + Seq::<Seq<char>>::empty() =~= lines_acc(a).0);
    } else {
        lemma_lines_acc_concat(a, b.drop_last());
        assert((a + b).drop_last() =~= a + b.drop_last());
        assert((a + b).last() == b.last());
        let (da, _) = lines_acc(a);
        let (db, cb) = lines_acc(b.drop_last());
        if b.last() == '\n' {
            assert(da + db.push(strip_cr(cb)) =~= (da + db).push(strip_cr(cb)));
        }
    }
}

proof fn lemma_lines_acc_single(e: Seq<char>)
    requires
        !e.contains('\n'),
    ensures
        lines_acc(e) == (Seq::<Seq<char>>::empty(), e),
    decreases e.len(),
{
    if e.len() > 0 {
        assert(!e.drop_last().contains('\n')) by {
            if e.drop_last().contains('\n') {
                let i = choose|i: int| 0 <= i < e.drop_last().len() && e.drop_last()[i] == '\n';
                assert(e[i] == '\n');
            }
        }
        lemma_lines_acc_single(e.drop_last());
        assert(e[e.len() - 1] != '\n');
        assert(e.drop_last().push(e.last()) =~= e);
    } else {
        assert(e =~= Seq::<char>::empty());
    }
}

proof fn lemma_trimmed_last_not_ws(e: Seq<char>)
    requires
        trim(e) == e,
        e.len() > 0,
    ensures
        !crate::text::is_ws(e.last()),
{
    crate::text::lemma_skip_ws_bounds(e, 0);
    let a = crate::text::skip_ws_from(e, 0);
    crate::text::lemma_back_ws_bounds(e, a, e.len() as int);
    let b = crate::text::back_ws_from(e, a, e.len() as int);
    assert(trim(e).len() == b - a);
    assert(a == 0 && b == e.len());
}

proof fn lemma_history_lines(h: Seq<Seq<char>>)
    requires
        h.len() > 0,
        forall|i: int| 0 <= i < h.len() ==> trim(#[trigger] h[i]) == h[i] && h[i].len() > 0 && !h[i].contains('\n'),
    ensures
        lines_acc(join_spec(h, "\n"@) + "\n"@) == (h, Seq::<char>::empty()),
    decreases h.len(),
{
    reveal_strlit("\n");
    let e = h.last();
    assert(trim(h[h.len() - 1]) == h[h.len() - 1]);
    lemma_trimmed_last_not_ws(e);
    lemma_lines_acc_single(e);
    let t = e + "\n"@;
    assert(t.drop_last() =~= e);
    assert(t.last() == '\n');
    assert(strip_cr(e) == e);
    assert(lines_acc(t) == (seq![e], Seq::<char>::empty()));
    if h.len() == 1 {
        assert(join_spec(h, "\n"@) == h[0]);
        assert(h =~= seq![e]);
    } else {
        let rest = h.drop_last();
        assert forall|i: int| 0 <= i < rest.len() implies trim(#[trigger] rest[i]) == rest[i] && rest[i].len() > 0
            && !rest[i].contains('\n') by {
            assert(rest[i] == h[i]);
        }
        lemma_history_lines(rest);
        let before = join_spec(rest, "\n"@) + "\n"@;
        assert(join_spec(h, "\n"@) + "\n"@ =~= before + t);
        lemma_lines_acc_concat(before, t);
        assert(rest + seq![e] =~= h);
    }
}

proof fn lemma_entries_of_trimmed(h: Seq<Seq<char>>)
    requires
        forall|i: int| 0 <= i < h.len() ==> trim(#[trigger] h[i]) == h[i] && h[i].len() > 0,
    ensures
        history_entries(h) == h,
    decreases h.len(),
{
    if h.len() > 0 {
        let rest = h.drop_last();
        assert forall|i: int| 0 <= i < rest.len() implies trim(#[trigger] rest[i]) == rest[i] && rest[i].len() > 0 by {
            assert(rest[i] == h[i]);
        }
        lemma_entries_of_trimmed(rest);
        assert(trim(h[h.len() - 1]) == h[h.len() - 1]);
        assert(rest.push(h.last()) =~= h);
    }
}

/// The history as written out reads back as the same history, for entries
/// as the session records them (trimmed and not empty) that hold no line
/// break.
pub proof fn law_history_round_trip(h: Seq<Seq<char>>)
    requires
        forall|i: int| 0 <= i < h.len() ==> trim(#[trigger] h[i]) == h[i] && h[i].len() > 0 && !h[i].contains('\n'),
    ensures
        history_entries(lines_spec(join_spec(h, "\n"@) + "\n"@)) == h,
{
    reveal_strlit("\n");
    if h.len() == 0 {
        let t = join_spec(h, "\n"@) + "\n"@;
        assert(t =~= seq!['\n']);
        assert(t.drop_last() =~= Seq::<char>::empty());
        assert(lines_acc(t.drop_last()) == (Seq::<Seq<char>>::empty(), Seq::<char>::empty()));
        assert(t.last() == '\n');
        assert(strip_cr(Seq::<char>::empty()) == Seq::<char>::empty());
        assert(lines_acc(t) == (seq![Seq::<char>::empty()], Seq::<char>::empty()));
        let l = lines_spec(t);
        assert(l =~= seq![Seq::<char>::empty()]);
        assert(l.drop_last() =~= Seq::<Seq<char>>::empty());
        assert(trim(Seq::<char>::empty()) =~= Seq::<char>::empty()) by {
            crate::text::lemma_skip_ws_bounds(Seq::<char>::empty(), 0);
        }
        assert(l.last() == Seq::<char>::empty());
        assert(trim(l.last()).len() == 0);
        assert(history_entries(l.drop_last()) == Seq::<Seq<char>>::empty());
        assert(history_entries(l) =~= Seq::<Seq<char>>::empty());
    } else {
        lemma_history_lines(h);
        lemma_entries_of_trimmed(h);
    }
}

} // verus!
