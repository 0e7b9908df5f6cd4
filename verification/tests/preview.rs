use jgrep::explore::parse_values;
use jgrep::input::InputKind;
use jgrep::output::OutputOptions;
use jgrep::engine::RunError;
use jgrep::preview::{preview_step, preview_tui_values, preview_values, split_lines, LineStyle, PreviewState, PreviewStatus};

#[test]
fn lines_split_like_str_lines() {
    assert_eq!(split_lines("foo\r\nbar\n\nbaz\r"), ["foo", "bar", "", "baz\r"]);
    assert_eq!(split_lines("a\n"), ["a"]);
    assert_eq!(split_lines("\n"), [""]);
    assert!(split_lines("").is_empty());
}

#[test]
fn preview_stops_at_the_limit() {
    let values = parse_values(InputKind::Json, b"1\n2\n3\n", false).unwrap();
    assert_eq!(preview_values(&values, ".", 2, &OutputOptions::plain()).unwrap(), ["1", "2"]);
    assert_eq!(preview_values(&values, ".", 0, &OutputOptions::plain()).unwrap(), ["1"]);
    assert_eq!(preview_values(&values, "select(. > 5)", 2, &OutputOptions::plain()).unwrap(), Vec::<String>::new());
}

#[test]
fn preview_reports_filter_errors() {
    let values = parse_values(InputKind::Json, b"1\n", false).unwrap();
    assert!(preview_values(&values, "(", 2, &OutputOptions::plain()).is_err());
    assert!(preview_values(&values, "error(\"boom\")", 2, &OutputOptions::plain()).is_err());
}

#[test]
fn terminal_preview_uses_level_backgrounds() {
    let values = parse_values(InputKind::Json, b"{\"level\":\"WARN\",\"m\":\"x\"}\n", false).unwrap();
    let options = OutputOptions {
        pretty: true,
        json_color: false,
        color_level: true,
        no_color: false,
        color_level_field: None,
    };
    let preview = preview_tui_values(&values, ".", 10, &options).unwrap();
    assert_eq!(preview.match_count, 1);
    assert_eq!(preview.lines.len(), 4);
    assert!(preview.lines.iter().all(|l| l.style == LineStyle::Yellow));
    assert_eq!(preview.lines[0].text, "{");
}

#[test]
fn empty_text_results_keep_one_line() {
    let values = parse_values(InputKind::Json, b"\"\"\n", false).unwrap();
    let preview = preview_tui_values(&values, ".", 10, &OutputOptions::plain()).unwrap();
    assert_eq!(preview.lines.len(), 1);
    assert_eq!(preview.lines[0].text, "");
    assert_eq!(preview.lines[0].style, LineStyle::Plain);
}

fn texts(state: &PreviewState) -> Vec<&str> {
    state.lines.iter().map(|l| l.text.as_str()).collect()
}

#[test]
fn preview_step_adds_matches_up_to_the_limit() {
    let doc = parse_values(InputKind::Json, b"{\"a\":1}\n", false).unwrap().remove(0);
    let results = parse_values(InputKind::Json, b"null\nfalse\n1\n2\n3\n", false).unwrap();
    let mut state = PreviewState::new();
    preview_step(&mut state, &doc, Ok(results), 2, &OutputOptions::plain(), false);
    assert_eq!(texts(&state), ["1", "2"]);
    assert_eq!(state.count, 2);
    assert!(matches!(state.status, PreviewStatus::Full));
    let more = parse_values(InputKind::Json, b"4\n", false).unwrap();
    preview_step(&mut state, &doc, Ok(more), 2, &OutputOptions::plain(), false);
    assert_eq!(texts(&state), ["1", "2"]);
}

#[test]
fn preview_step_keeps_collecting_below_the_limit() {
    let doc = parse_values(InputKind::Json, b"{\"a\":1}\n", false).unwrap().remove(0);
    let mut state = PreviewState::new();
    let first = parse_values(InputKind::Json, b"\"x\"\n", false).unwrap();
    preview_step(&mut state, &doc, Ok(first), 5, &OutputOptions::plain(), false);
    let second = parse_values(InputKind::Json, b"[1]\n", false).unwrap();
    preview_step(&mut state, &doc, Ok(second), 5, &OutputOptions::plain(), false);
    assert_eq!(texts(&state), ["x", "[1]"]);
    assert_eq!(state.count, 2);
    assert!(matches!(state.status, PreviewStatus::Going));
}

#[test]
fn preview_step_stops_on_an_error() {
    let doc = parse_values(InputKind::Json, b"1\n", false).unwrap().remove(0);
    let mut state = PreviewState::new();
    preview_step(&mut state, &doc, Err(RunError::Error("boom".to_owned())), 5, &OutputOptions::plain(), false);
    assert!(matches!(&state.status, PreviewStatus::Failed(e) if e == "boom"));
}

#[test]
fn preview_step_ends_the_preview_on_halt() {
    let doc = parse_values(InputKind::Json, b"1\n", false).unwrap().remove(0);
    let mut state = PreviewState::new();
    let first = parse_values(InputKind::Json, b"7\n", false).unwrap();
    preview_step(&mut state, &doc, Ok(first), 5, &OutputOptions::plain(), false);
    preview_step(&mut state, &doc, Err(RunError::Halt(3)), 5, &OutputOptions::plain(), false);
    assert_eq!(texts(&state), ["7"]);
    assert!(matches!(state.status, PreviewStatus::Full));
}

#[test]
fn preview_runs_the_filter_on_each_document() {
    let values = parse_values(InputKind::Json, b"{\"a\":1}\n{\"a\":2}\n{\"a\":3}\n", false).unwrap();
    assert_eq!(preview_values(&values, ".a", 10, &OutputOptions::plain()).unwrap(), ["1", "2", "3"]);
}

#[test]
fn preview_of_a_halting_filter_shows_what_came_before() {
    let values = parse_values(InputKind::Json, b"1\n2\n3\n", false).unwrap();
    assert_eq!(preview_values(&values, "if . == 2 then halt else . end", 10, &OutputOptions::plain()).unwrap(), ["1"]);
}

#[test]
fn preview_computes_with_decimal_numbers() {
    let values = parse_values(InputKind::Json, b"{\"a\":1.75}\n", false).unwrap();
    assert_eq!(preview_values(&values, ".a | floor", 10, &OutputOptions::plain()).unwrap(), ["1"]);
}
