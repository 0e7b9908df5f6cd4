use jgrep::explore::{parse_values, ExploreConfig};
use jgrep::input::InputKind;
use jgrep::output::OutputOptions;
use jgrep::preview::{preview_values, LineStyle};
use jgrep::session::{parse_history, ActiveInput, ExploreSession, ExplorerExit, Key, KeyOutcome};
use jgrep::shortcuts::expression_to_jq;
use jgrep::run::OutputLine;
use jgrep::value::Value;

fn config() -> ExploreConfig {
    ExploreConfig {
        max_input_bytes: 1024 * 1024,
        max_schema_documents: 10,
        max_preview_results: 10,
        max_schema_depth: 4,
    }
}

fn values(input: &[u8]) -> Vec<Value> {
    parse_values(InputKind::Json, input, false).unwrap()
}

fn session(values: Vec<Value>, filter: &str, output: &str) -> ExploreSession {
    ExploreSession::new(
        values,
        filter.to_owned(),
        output.to_owned(),
        config(),
        OutputOptions::plain(),
        Vec::new(),
        false,
        false,
    )
}

fn preview_text(session: &ExploreSession) -> Vec<String> {
    session.preview_lines.iter().map(|line| line.text.clone()).collect()
}

fn ctrl(c: char) -> Key {
    Key::Char(c, true)
}

fn typed(c: char) -> Key {
    Key::Char(c, false)
}

#[test]
fn preview_applies_shortcut_filter() {
    let values = values(
        br#"{"name":"Alice","status":"active"}
{"name":"Bob","status":"blocked"}
"#,
    );
    let jq = expression_to_jq("status=active").unwrap();

    let preview = preview_values(&values, &jq, 10, &OutputOptions::plain()).unwrap();

    assert_eq!(preview, [r#"{"name":"Alice","status":"active"}"#]);
}

#[test]
fn output_input_can_be_edited_live() {
    let mut session = session(values(br#"{"name":"Alice","status":"active"}"#), "status=active", "");

    session.handle_key(ctrl('o'));
    for ch in "name".chars() {
        session.handle_key(typed(ch));
    }

    assert_eq!(session.active_input, ActiveInput::Output);
    assert_eq!(session.output.input, "name");
    assert_eq!(session.generated, "select(.status == \"active\") | .name");
    assert_eq!(preview_text(&session), ["Alice"]);
}

#[test]
fn output_options_can_be_toggled_live() {
    let mut session = session(Vec::new(), "", "");

    session.handle_key(ctrl('f'));
    session.handle_key(ctrl('l'));
    session.handle_key(ctrl('k'));

    assert!(session.output_options.pretty);
    assert!(session.output_options.color_level);
    assert!(session.output_options.no_color);
}

#[test]
fn output_options_apply_to_live_preview() {
    let mut session = session(
        values(br#"{"log":{"level":"ERROR"},"message":"boom","details":{"code":42}}"#),
        "",
        "{message,details}",
    );

    session.handle_key(ctrl('f'));
    session.handle_key(ctrl('l'));

    let text = preview_text(&session);
    assert!(text.iter().any(|line| line == "{"));
    assert!(text.iter().any(|line| line.contains("\"message\"")));
    assert!(session.preview_lines.iter().any(|line| line.style == LineStyle::Red));
}

#[test]
fn output_mode_arrows_scroll_preview() {
    let mut session = session(values(br#"{"items":[{"name":"a"},{"name":"b"},{"name":"c"}]}"#), "", ".");
    session.handle_key(ctrl('f'));
    session.handle_key(ctrl('o'));

    session.handle_key(Key::Down);

    assert_eq!(session.preview_scroll, 1);
}

#[test]
fn toggles_preview_fullscreen() {
    let mut session = session(Vec::new(), "", "");

    session.handle_key(ctrl('g'));

    assert!(session.preview_fullscreen);
    assert!(session.status_line().contains("logs:full"));
}

#[test]
fn autocomplete_cycles_candidates_with_type_info() {
    let mut session = session(values(br#"{"name":"Alice","namespace":"prod","node":"worker-1"}"#), "n", "");

    session.handle_key(Key::Tab);

    assert_eq!(session.filter.input, "name");
    assert!(session.message.as_deref().unwrap_or("").contains("[string]"));

    session.handle_key(Key::Tab);

    assert_eq!(session.filter.input, "namespace");
    assert!(session.message.as_deref().unwrap_or("").contains("completion 2/3"));
}

#[test]
fn cursor_editing_inserts_and_deletes_in_middle() {
    let mut session = session(values(br#"{"name":"Alice"}"#), "name", "");

    session.handle_key(Key::Left);
    session.handle_key(Key::Left);
    session.handle_key(typed('X'));

    assert_eq!(session.filter.input, "naXme");
    assert_eq!(session.filter.cursor, 3);

    session.handle_key(Key::Backspace);
    session.handle_key(Key::Delete);

    assert_eq!(session.filter.input, "nae");
    assert_eq!(session.filter.cursor, 2);
}

#[test]
fn history_navigation_loads_previous_filters() {
    let mut session = session(values(br#"{"name":"Alice","status":"active"}"#), "", "");
    session.history = vec!["name".to_owned(), "status=active".to_owned()];

    session.handle_key(ctrl('p'));

    assert_eq!(session.filter.input, "status=active");
    assert_eq!(preview_text(&session), [r#"{"name":"Alice","status":"active"}"#]);

    session.handle_key(ctrl('p'));

    assert_eq!(session.filter.input, "name");
    assert_eq!(preview_text(&session), ["Alice"]);
}

#[test]
fn stepping_past_the_newest_history_entry_leaves_the_history() {
    let mut session = session(Vec::new(), "", "");
    session.history = vec!["a".to_owned(), "b".to_owned()];

    session.handle_key(ctrl('p'));
    assert_eq!(session.history_index, Some(1));
    assert_eq!(session.message.as_deref(), Some("history 2/2"));
    session.handle_key(ctrl('n'));
    assert_eq!(session.history_index, None);
    assert_eq!(session.filter.input, "b");
}

#[test]
fn editing_handles_multibyte_characters() {
    let mut session = session(Vec::new(), "é", "");
    assert_eq!(session.filter.cursor, 2);
    session.handle_key(typed('€'));
    assert_eq!(session.filter.input, "é€");
    assert_eq!(session.filter.cursor, 5);
    session.handle_key(Key::Left);
    assert_eq!(session.filter.cursor, 2);
    session.handle_key(Key::Backspace);
    assert_eq!(session.filter.input, "€");
    assert_eq!(session.filter.cursor, 0);
    session.handle_key(Key::Delete);
    assert_eq!(session.filter.input, "");
    session.handle_key(Key::End);
    assert_eq!(session.filter.cursor, 0);
}

#[test]
fn control_letters_without_binding_are_typed() {
    let mut session = session(Vec::new(), "", "");
    session.handle_key(ctrl('a'));
    assert_eq!(session.filter.input, "a");
}

#[test]
fn exit_keys_end_the_session() {
    let mut session = session(values(br#"{"name":"Alice"}"#), "name", "");
    assert!(matches!(session.handle_key(Key::Esc), KeyOutcome::Exit(ExplorerExit::Quit)));
    assert!(matches!(session.handle_key(ctrl('c')), KeyOutcome::Exit(ExplorerExit::Quit)));
    assert!(matches!(session.handle_key(Key::Enter), KeyOutcome::Exit(ExplorerExit::PrintResults)));
    assert_eq!(session.history, ["name"]);
    assert!(matches!(session.handle_key(ctrl('y')), KeyOutcome::Exit(ExplorerExit::PrintFilter)));
    assert_eq!(session.history, ["name"]);
}

#[test]
fn save_requests_the_generated_filter() {
    let mut session = session(values(br#"{"name":"Alice"}"#), "name", "");
    match session.handle_key(ctrl('s')) {
        KeyOutcome::Save(text) => assert_eq!(text, ".name\n"),
        _ => panic!("expected a save request"),
    }
    session.save_finished("out.jq", Ok(()));
    assert_eq!(session.message.as_deref(), Some("saved out.jq"));
    assert_eq!(session.history, ["name"]);
    session.save_finished("out.jq", Err("denied".to_owned()));
    assert_eq!(session.message.as_deref(), Some("save failed: denied"));
}

#[test]
fn save_without_a_valid_filter_is_refused() {
    let mut session = session(Vec::new(), "a=", "");
    assert!(session.error.is_some());
    assert!(matches!(session.handle_key(ctrl('s')), KeyOutcome::Continue));
    assert_eq!(session.message.as_deref(), Some("no valid filter to save"));
}

#[test]
fn status_line_reports_state() {
    let session = session(values(br#"{"name":"Alice"}"#), "name", "");
    assert_eq!(
        session.status_line(),
        "1 matches | editing:filter | pretty:off | level-color:off | logs:split | scroll:1/1 | output:."
    );
}

#[test]
fn snapshot_lists_fields_and_preview() {
    let session = session(values(br#"{"name":"Alice","status":"active"}"#), "status=active", "name");
    assert_eq!(
        session.snapshot_lines(),
        [
            "jgrep explore",
            "filter: status=active",
            "output: name",
            "generated jq: select(.status == \"active\") | .name",
            "",
            "fields:",
            "  name  string  (1)",
            "  status  string  (1)",
            "",
            "preview:",
            "  Alice",
        ]
    );
}

#[test]
fn finishing_prints_results_or_filter() {
    let mut session = session(values(b"{\"v\":1}\n{\"v\":2}\n"), "v", "");
    let (lines, code) = session.finish(ExplorerExit::PrintResults);
    assert_eq!(code, 0);
    assert!(matches!(&lines[..], [OutputLine::Stdout(a), OutputLine::Stdout(b)] if a == "1" && b == "2"));
    let (lines, code) = session.finish(ExplorerExit::PrintFilter);
    assert_eq!(code, 0);
    assert!(matches!(&lines[..], [OutputLine::Stdout(f)] if f == ".v"));
    let (lines, code) = session.finish(ExplorerExit::Quit);
    assert_eq!(code, 0);
    assert!(lines.is_empty());
}

#[test]
fn printing_without_matches_exits_one() {
    let mut session = session(values(b"{\"v\":1}\n"), "v=2", "");
    let (lines, code) = session.finish(ExplorerExit::PrintResults);
    assert_eq!(code, 1);
    assert!(lines.is_empty());
}

#[test]
fn streamed_documents_update_fields_and_preview() {
    let mut session = ExploreSession::new_streaming(
        String::new(),
        "message".to_owned(),
        config(),
        OutputOptions::plain(),
        Vec::new(),
        false,
        false,
    );
    assert_eq!(session.message.as_deref(), Some("streaming stdin: waiting for JSON log lines"));
    for v in values(br#"{"message":"up"}"#) {
        session.append_stream_value(v);
    }
    session.record_stream_error("stdin: parse error: x".to_owned());
    session.end_stream();
    session.announce_stream();
    assert_eq!(session.message.as_deref(), Some("streaming stdin: 1 documents (complete)"));
    assert_eq!(preview_text(&session), ["up"]);
    assert_eq!(session.fields.len(), 1);
    assert_eq!(session.stream.as_ref().unwrap().errors.len(), 1);
}

#[test]
fn persisted_filter_and_history_are_handed_out_once() {
    let mut session = ExploreSession::new(
        Vec::new(),
        "a".to_owned(),
        String::new(),
        config(),
        OutputOptions::plain(),
        vec!["x".to_owned()],
        true,
        true,
    );
    assert_eq!(session.take_persist().as_deref(), Some(".a\n"));
    assert_eq!(session.take_persist(), None);
    session.handle_key(Key::Enter);
    assert_eq!(session.take_history_write().as_deref(), Some("x\na\n"));
    assert_eq!(session.take_history_write(), None);
    session.persist_failed("denied");
    assert_eq!(session.message.as_deref(), Some("last-filter write failed: denied"));
}

#[test]
fn history_file_lines_are_trimmed_and_blank_ones_dropped() {
    assert_eq!(parse_history("  name \n\n status=active\r\n"), ["name", "status=active"]);
    assert!(parse_history("").is_empty());
}

#[test]
fn toggling_twice_restores_the_session() {
    let mut session = session(values(br#"{"name":"Alice"}"#), "name", "");
    for c in ['o', 'g', 'f', 'k'] {
        let (active, full, pretty, no_color) = (
            session.active_input,
            session.preview_fullscreen,
            session.output_options.pretty,
            session.output_options.no_color,
        );
        session.handle_key(ctrl(c));
        session.handle_key(ctrl(c));
        assert_eq!(session.active_input, active);
        assert_eq!(session.preview_fullscreen, full);
        assert_eq!(session.output_options.pretty, pretty);
        assert_eq!(session.output_options.no_color, no_color);
    }
}

#[test]
fn typing_then_backspace_restores_the_input() {
    let mut session = session(Vec::new(), "ab", "");
    session.handle_key(Key::Left);
    session.handle_key(typed('ß'));
    session.handle_key(Key::Backspace);
    assert_eq!(session.filter.input, "ab");
    assert_eq!(session.filter.cursor, 1);
}

#[test]
fn scroll_stays_within_the_preview() {
    let mut session = session(values(b"1\n2\n3\n"), "", "");
    session.handle_key(ctrl('o'));
    for _ in 0..10 {
        session.handle_key(Key::PageDown);
    }
    assert_eq!(session.preview_scroll, 2);
    session.handle_key(ctrl('o'));
    for ch in "select(. == 1)".chars() {
        session.handle_key(typed(ch));
    }
    assert_eq!(session.preview_lines.len(), 1);
    assert_eq!(session.preview_scroll, 0);
}

#[test]
fn history_written_out_reads_back() {
    let mut session = ExploreSession::new(
        Vec::new(),
        "status=active".to_owned(),
        String::new(),
        config(),
        OutputOptions::plain(),
        vec!["name".to_owned()],
        false,
        true,
    );
    session.record_history();
    let written = session.take_history_write().unwrap();
    assert_eq!(parse_history(&written), ["name", "status=active"]);
}

#[test]
fn panel_texts_show_fields_and_help() {
    let session = session(values(br#"{"name":"Alice","status":"active"}"#), "name", "");
    assert_eq!(session.fields_title(), "Fields 1/2");
    let hint = session.hint_text();
    assert!(hint.contains("Tab complete"));
    assert!(hint.starts_with("1 matches | editing:filter"));
    assert_eq!(preview_text(&session), ["Alice"]);
}

#[test]
fn stream_state_keeps_shortcut_help_visible() {
    let session = ExploreSession::new_streaming(
        String::new(),
        String::new(),
        config(),
        OutputOptions::plain(),
        Vec::new(),
        false,
        false,
    );
    let hint = session.hint_text();
    assert!(hint.contains("stream live: 0 docs, 0 errors"));
    assert!(hint.contains("Ctrl-O input"));
    assert_eq!(session.fields_title(), "Fields 0/0");
}

#[test]
fn arrows_scroll_the_preview_in_wide_logs() {
    let mut session = session(values(b"1\n2\n3\n"), "", "");
    session.handle_key(ctrl('g'));
    assert_eq!(session.active_input, ActiveInput::Filter);
    session.handle_key(Key::Down);
    assert_eq!(session.preview_scroll, 1);
    assert_eq!(session.field_scroll, 0);
    session.handle_key(Key::Up);
    assert_eq!(session.preview_scroll, 0);
}

#[test]
fn snapshot_exit_code_follows_the_preview_error() {
    let good = session(values(b"1\n"), ".", "");
    assert_eq!(good.snapshot_exit_code(), 0);
    let bad = session(values(b"1\n"), "error(\"boom\")", "");
    assert!(bad.error.is_some());
    assert_eq!(bad.snapshot_exit_code(), 2);
}

#[test]
fn streamed_values_extend_the_preview() {
    let mut s = session(Vec::new(), "", "");
    for v in values(b"{\"a\":1.5}\n{\"a\":2}\n") {
        s.append_stream_value(v);
    }
    assert_eq!(preview_text(&s), ["{\"a\":1.5}", "{\"a\":2}"]);
}

#[test]
fn scroll_limit_saturates_for_long_previews() {
    assert_eq!(jgrep::session::max_scroll(0), 0);
    assert_eq!(jgrep::session::max_scroll(1), 0);
    assert_eq!(jgrep::session::max_scroll(65536), 65535);
    assert_eq!(jgrep::session::max_scroll(65537), 65535);
    assert_eq!(jgrep::session::max_scroll(200000), 65535);
}
