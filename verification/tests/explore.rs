use jgrep::explore::{
    compose_explore_jq, file_values, filter_view, next_boundary, pad_preview_line, parse_stream_line,
    check_size, previous_boundary, saturating_offset, stdin_values, stream_first_line, stream_line_event, too_large_message,
    StreamEvent,
};
use jgrep::output::OutputOptions;
use jgrep::preview::preview_values;
use jgrep::shortcuts::expression_to_jq;

#[test]
fn combines_filter_and_output_projection() {
    assert_eq!(
        compose_explore_jq("log.level=ERROR", "message").unwrap(),
        "select((if type == \"object\" and has(\"log.level\") then .[\"log.level\"] else .log.level end) == \"ERROR\") | .message"
    );
    assert_eq!(compose_explore_jq("", "message").unwrap(), ".message");
    assert_eq!(
        compose_explore_jq("status=active", "").unwrap(),
        "select(.status == \"active\") | ."
    );
    assert_eq!(
        compose_explore_jq("log.level=ERROR", "{message, level: .log.level}").unwrap(),
        "select((if type == \"object\" and has(\"log.level\") then .[\"log.level\"] else .log.level end) == \"ERROR\") | {message, level: .log.level}"
    );
}

#[test]
fn filter_view_keeps_long_input_cursor_visible() {
    let input = "select(.items[] | .metadata.annotations.owner)";

    let (visible, cursor_column) = filter_view(input, input.len(), 12);

    assert_eq!(visible, "ions.owner)");
    assert_eq!(cursor_column, 11);
}

#[test]
fn filter_view_of_short_input_and_zero_width() {
    assert_eq!(filter_view("abc", 1, 10), ("abc".to_owned(), 1));
    assert_eq!(filter_view("abc", 1, 0), (String::new(), 0));
}

#[test]
fn boundaries_step_over_multibyte_characters() {
    let s = "aé€b";
    assert_eq!(next_boundary(s, 0), 1);
    assert_eq!(next_boundary(s, 1), 3);
    assert_eq!(next_boundary(s, 3), 6);
    assert_eq!(next_boundary(s, 6), 7);
    assert_eq!(previous_boundary(s, 7), 6);
    assert_eq!(previous_boundary(s, 6), 3);
    assert_eq!(previous_boundary(s, 3), 1);
    assert_eq!(previous_boundary(s, 0), 0);
}

#[test]
fn offsets_saturate() {
    assert_eq!(saturating_offset(3, -5, 10), 0);
    assert_eq!(saturating_offset(3, 100, 10), 9);
    assert_eq!(saturating_offset(3, 2, 10), 5);
    assert_eq!(saturating_offset(0, 1, 0), 0);
    assert_eq!(saturating_offset(5, isize::MIN, 10), 0);
}

#[test]
fn pads_preview_lines() {
    assert_eq!(pad_preview_line("ab", 4), "ab  ");
    assert_eq!(pad_preview_line("abcdef", 4), "abcdef");
    assert_eq!(pad_preview_line("é", 2), "é ");
}

#[test]
fn stream_lines_are_trimmed_and_limited() {
    let mut read = 0usize;
    match stream_line_event(b"  {\"a\":1}\n", &mut read, 100) {
        Some(StreamEvent::Line(l)) => assert_eq!(l, b"{\"a\":1}".to_vec()),
        other => panic!("unexpected {other:?}"),
    }
    assert_eq!(read, 10);
    assert!(stream_line_event(b" \n", &mut read, 100).is_none());
    match stream_line_event(b"0123456789", &mut read, 15) {
        Some(StreamEvent::Error(m)) => {
            assert_eq!(m, "stdin: input is larger than --max-input-bytes (15 bytes)")
        }
        other => panic!("unexpected {other:?}"),
    }
}

#[test]
fn unknown_extension_can_fall_back_to_yaml() {
    let values = file_values("selection", b"name: Alice\n").unwrap();
    let jq = expression_to_jq("name").unwrap();
    let preview = preview_values(&values, &jq, 10, &OutputOptions::plain()).unwrap();

    assert_eq!(preview, ["Alice"]);
}

#[test]
fn known_extension_does_not_fall_back() {
    let error = file_values("data.json", b"name: Alice\n").unwrap_err();
    assert!(error.starts_with("data.json: "));
}

#[test]
fn refuses_input_larger_than_limit() {
    let error = too_large_message("large.json", 4);

    assert!(error.contains("--max-input-bytes"));
    assert_eq!(error, "large.json: input is larger than --max-input-bytes (4 bytes)");
    assert_eq!(
        stdin_values(b"{\"name\":\"Alice\"}\n", 4).unwrap_err(),
        "stdin: input is larger than --max-input-bytes (4 bytes)"
    );
}

#[test]
fn stdin_values_detect_yaml() {
    let values = stdin_values(b"name: Alice\n", 1024).unwrap();
    assert_eq!(values.len(), 1);
}

#[test]
fn streamed_lines_parse_every_document() {
    assert_eq!(parse_stream_line(b"{\"a\":1} {\"a\":2}").unwrap().len(), 2);
    assert!(parse_stream_line(b"{\"a\":").unwrap_err().starts_with("stdin: parse error: "));
}

#[test]
fn first_line_decides_streaming() {

    assert_eq!(stream_first_line(b"{\"a\":1}\n", 100), Ok(true));
    assert_eq!(stream_first_line(b"name: x\n", 100), Ok(false));
    assert_eq!(stream_first_line(b"[1]\n", 100), Ok(false));
    assert!(stream_first_line(b"{\"a\":1}\n", 3).unwrap_err().contains("--max-input-bytes"));
}

#[test]
fn sizes_are_checked_against_the_limit() {
    assert_eq!(check_size("large.json", 4, 4), Ok(()));
    assert_eq!(
        check_size("large.json", 5, 4).unwrap_err(),
        "large.json: input is larger than --max-input-bytes (4 bytes)"
    );
}
