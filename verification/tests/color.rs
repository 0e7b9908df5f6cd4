use jgrep::cli::Cli;
use jgrep::color::{color_for_level, colorize_by_level, colorize_json};
use jgrep::input::{parse_many, InputKind};

const CYAN: &str = "\u{1b}[36m";
const GREEN: &str = "\u{1b}[32m";
const BLUE: &str = "\u{1b}[34m";
const YELLOW: &str = "\u{1b}[33m";
const MAGENTA: &str = "\u{1b}[35m";
const RED: &str = "\u{1b}[31m";
const BOLD_RED: &str = "\u{1b}[1;31m";
const RESET: &str = "\u{1b}[0m";

#[test]
fn maps_common_levels() {
    assert_eq!(color_for_level("TRACE"), Some(MAGENTA));
    assert_eq!(color_for_level("DEBUG"), Some(BLUE));
    assert_eq!(color_for_level("INFO"), Some(CYAN));
    assert_eq!(color_for_level("WARN"), Some(YELLOW));
    assert_eq!(color_for_level("ERROR"), Some(RED));
    assert_eq!(color_for_level("FATAL"), Some(BOLD_RED));
    assert_eq!(color_for_level("UNKNOWN"), None);
}

#[test]
fn levels_are_trimmed_and_case_insensitive() {
    assert_eq!(color_for_level("  warning\n"), Some(YELLOW));
    assert_eq!(color_for_level("Notice"), Some(CYAN));
    assert_eq!(color_for_level("err"), Some(RED));
    assert_eq!(color_for_level("emergency"), Some(BOLD_RED));
    assert_eq!(color_for_level(""), None);
}

#[test]
fn colorizes_json_tokens() {
    let out = colorize_json(r#"{"a":1,"b":[true,null,"x"]}"#);
    let expected = format!(
        "{{{CYAN}\"a\"{RESET}:{YELLOW}1{RESET},{CYAN}\"b\"{RESET}:[{MAGENTA}true{RESET},{MAGENTA}null{RESET},{GREEN}\"x\"{RESET}]}}"
    );
    assert_eq!(out, expected);
}

#[test]
fn colorize_keeps_escaped_quotes_inside_strings() {
    let out = colorize_json(r#""a\"b" : -1.5e3"#);
    let expected = format!("{CYAN}\"a\\\"b\"{RESET} : {YELLOW}-1.5e3{RESET}");
    assert_eq!(out, expected);
}

#[test]
fn colorize_leaves_other_words() {
    assert_eq!(colorize_json("tru fals nul"), "tru fals nul");
    assert_eq!(colorize_json(r#""open"#), format!("{GREEN}\"open{RESET}"));
}

fn strip(s: &str) -> String {
    let mut out = s.to_owned();
    for code in [CYAN, GREEN, YELLOW, MAGENTA, RESET] {
        out = out.replace(code, "");
    }
    out
}

#[test]
fn colorize_only_adds_codes() {
    for s in [r#"{"k": [1, -2.5, "v\"", false]}"#, "plain text", "", "\"\\"] {
        assert_eq!(strip(&colorize_json(s)), s);
    }
}

#[test]
fn colorize_by_level_follows_the_command_line() {
    let source = parse_many(InputKind::Json, br#"{"app":{"level":"WARN"},"message":"slow"}"#)
        .unwrap()
        .remove(0)
        .unwrap();
    let mut cli = Cli {
        command: None,
        recursive: false,
        files_with_matches: false,
        count: false,
        slurp: false,
        null_input: false,
        from_file: None,
        pretty: false,
        path_filter: None,
        where_filters: Vec::new(),
        no_color: false,
        color_level: true,
        color_level_field: Some("app.level".to_owned()),
        filter: None,
        files: Vec::new(),
        filter_is_path: false,
        no_color_env: false,
        stdout_is_terminal: false,
    };
    assert_eq!(
        colorize_by_level("[WARN] slow", &source, &cli).as_deref(),
        Some("\u{1b}[33m[WARN] slow\u{1b}[0m")
    );
    cli.no_color = true;
    assert_eq!(colorize_by_level("[WARN] slow", &source, &cli), None);
    cli.no_color = false;
    cli.no_color_env = true;
    assert_eq!(colorize_by_level("[WARN] slow", &source, &cli), None);
}

#[test]
fn level_names_are_normalized_before_lookup() {
    for s in [" warning ", "Info", "  error\t", "crit", "nope", ""] {
        let normalized = s.trim().to_ascii_uppercase();
        assert_eq!(color_for_level(s), color_for_level(&normalized));
    }
    assert_eq!(color_for_level(" warning "), Some(YELLOW));
    assert_eq!(color_for_level("information"), Some(CYAN));
    assert_eq!(color_for_level("Notice"), Some(CYAN));
    assert_eq!(color_for_level("ERR"), Some(RED));
    assert_eq!(color_for_level("emergency"), Some(BOLD_RED));
    assert_eq!(color_for_level("alert"), Some(BOLD_RED));
    assert_eq!(color_for_level("verbose"), None);
}
