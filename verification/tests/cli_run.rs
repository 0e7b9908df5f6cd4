use jgrep::cli::Cli;
use jgrep::completion::{completion_shell, Shell};
use jgrep::discovery::{resolve, PathProbe, WalkEntry};
use jgrep::input::{detect_stdin_kind, Source};
use jgrep::matcher::Matcher;
use jgrep::run::{exit_code, finish_slurp, options_conflict, process_bytes, process_value, resolve_filter, OutputLine, RunState};
use jgrep::value::Value;

fn cli(filter: Option<&str>) -> Cli {
    Cli {
        command: None,
        recursive: false,
        files_with_matches: false,
        count: false,
        slurp: false,
        null_input: false,
        from_file: None,
        pretty: false,
        path_filter: None,
        where_filters: Vec::new(),
        no_color: false,
        color_level: false,
        color_level_field: None,
        filter: filter.map(str::to_owned),
        files: Vec::new(),
        filter_is_path: false,
        no_color_env: false,
        stdout_is_terminal: false,
    }
}

fn stdout_of(lines: &[OutputLine]) -> String {
    let mut s = String::new();
    for line in lines {
        if let OutputLine::Stdout(t) = line {
            s.push_str(t);
            s.push('\n');
        }
    }
    s
}

fn run_stdin(cli: &Cli, input: &[u8]) -> (String, i32) {
    let filter = resolve_filter(cli, None).unwrap();
    let matcher = Matcher::compile(&filter).unwrap();
    let mut out = Vec::new();
    let mut state = RunState::new();
    let mut slurp = Vec::new();
    process_bytes(cli, &matcher, &Source::Stdin, false, detect_stdin_kind(input), input, &mut out, &mut state, &mut slurp);
    finish_slurp(cli, slurp, &mut out, &mut state);
    (stdout_of(&out), exit_code(&state))
}

fn run_null(cli: &Cli) -> (String, i32) {
    let filter = resolve_filter(cli, None).unwrap();
    let matcher = Matcher::compile(&filter).unwrap();
    let mut out = Vec::new();
    let mut state = RunState::new();
    let mut slurp = Vec::new();
    process_value(cli, &matcher, None, false, &Value::Null, &mut out, &mut state, &mut slurp);
    finish_slurp(cli, slurp, &mut out, &mut state);
    (stdout_of(&out), exit_code(&state))
}

#[test]
fn defaults_to_identity_filter_for_stdin() {
    assert_eq!(run_stdin(&cli(None), b"name: Alice\n"), ("{\"name\":\"Alice\"}\n".to_owned(), 0));
}

#[test]
fn detects_yaml_from_stdin() {
    assert_eq!(run_stdin(&cli(Some(".name")), b"name: Alice\nage: 30\n"), ("Alice\n".to_owned(), 0));
}

#[test]
fn zero_empty_string_array_and_object_are_matches() {
    assert_eq!(run_null(&cli(Some("0"))), ("0\n".to_owned(), 0));
    assert_eq!(run_null(&cli(Some(r#""""#))), ("\n".to_owned(), 0));
    assert_eq!(run_null(&cli(Some("[]"))), ("[]\n".to_owned(), 0));
    assert_eq!(run_null(&cli(Some("{}"))), ("{}\n".to_owned(), 0));
}

#[test]
fn null_and_false_results_are_not_matches() {
    assert_eq!(run_null(&cli(Some("null"))), (String::new(), 1));
    assert_eq!(run_null(&cli(Some("false"))), (String::new(), 1));
}

#[test]
fn count_and_files_with_matches_cannot_be_combined() {
    let mut c = cli(Some("."));
    c.count = true;
    c.files_with_matches = true;
    assert!(options_conflict(&c).unwrap().contains("cannot be used together"));
    c.count = false;
    assert!(options_conflict(&c).is_none());
}

#[test]
fn slurp_collects_results_into_one_array() {
    let mut c = cli(Some(".v"));
    c.slurp = true;
    assert_eq!(run_stdin(&c, b"{\"v\":1}\n{\"v\":2}\n"), ("[1,2]\n".to_owned(), 0));
    let mut c = cli(Some("select(.v > 99)"));
    c.slurp = true;
    assert_eq!(run_stdin(&c, b"{\"v\":1}\n"), ("[]\n".to_owned(), 1));
}

#[test]
fn directory_without_recursive_is_error() {
    let errors = resolve(vec![PathProbe::Dir("data".to_owned(), Vec::new())], false).unwrap_err();
    assert_eq!(errors, ["data: Is a directory"]);
}

#[test]
fn recursive_search_keeps_json_and_yaml_in_path_order() {
    let entries = vec![
        WalkEntry::Other,
        WalkEntry::File("d/sub/b.yaml".to_owned()),
        WalkEntry::File("d/ignored.txt".to_owned()),
        WalkEntry::File("d/a.json".to_owned()),
        WalkEntry::File("d/c.yml".to_owned()),
    ];
    let files = resolve(vec![PathProbe::Dir("d".to_owned(), entries)], true).unwrap().unwrap();
    let paths: Vec<String> = files.iter().map(|s| s.label()).collect();
    assert_eq!(paths, ["d/a.json", "d/c.yml", "d/sub/b.yaml"]);
}

#[test]
fn walk_errors_are_all_reported() {
    let entries = vec![WalkEntry::Failed("e1".to_owned()), WalkEntry::File("a.json".to_owned()), WalkEntry::Failed("e2".to_owned())];
    assert_eq!(resolve(vec![PathProbe::Dir("d".to_owned(), entries)], true).unwrap_err(), ["e1", "e2"]);
}

#[test]
fn no_paths_means_standard_input() {
    assert!(resolve(Vec::new(), false).unwrap().is_none());
    let files = resolve(vec![PathProbe::File("b.txt".to_owned()), PathProbe::File("a.txt".to_owned())], false).unwrap().unwrap();
    let paths: Vec<String> = files.iter().map(|s| s.label()).collect();
    assert_eq!(paths, ["a.txt", "b.txt"]);
}

#[test]
fn completion_outputs_supported_shells() {
    assert_eq!(completion_shell("bash").unwrap(), Shell::Bash);
    assert_eq!(completion_shell("PwSh").unwrap(), Shell::PowerShell);
    let lines = completion_shell("tcsh").unwrap_err();
    assert!(lines[0].contains("unsupported shell"));
    assert_eq!(lines, ["jgrep: unsupported shell: tcsh", "Supported shells: bash, zsh, fish, powershell"]);
}

#[test]
fn parse_error_after_match_keeps_output_and_returns_two() {
    let c = cli(Some(".name"));
    let matcher = Matcher::compile(".name").unwrap();
    let mut out = Vec::new();
    let mut state = RunState::new();
    let mut slurp = Vec::new();
    let source = Source::File("broken.json".to_owned());
    process_bytes(&c, &matcher, &source, false, jgrep::input::InputKind::Json, b"{\"name\":\"Alice\"}\n{\"name\":\n", &mut out, &mut state, &mut slurp);
    assert!(stdout_of(&out).contains("Alice"));
    assert!(out.iter().any(|l| matches!(l, OutputLine::Stderr(t) if t.contains("parse error"))));
    assert_eq!(exit_code(&state), 2);
}

#[test]
fn count_prints_matches_per_file() {
    let mut c = cli(Some("select(.active == true)"));
    c.count = true;
    let matcher = Matcher::compile("select(.active == true)").unwrap();
    let mut out = Vec::new();
    let mut state = RunState::new();
    let mut slurp = Vec::new();
    let a = Source::File("a.json".to_owned());
    let b = Source::File("b.json".to_owned());
    process_bytes(&c, &matcher, &a, true, jgrep::input::InputKind::Json, b"{\"active\":true}\n{\"active\":false}\n", &mut out, &mut state, &mut slurp);
    process_bytes(&c, &matcher, &b, true, jgrep::input::InputKind::Json, b"{\"active\":false}\n", &mut out, &mut state, &mut slurp);
    assert_eq!(stdout_of(&out), "a.json:1\nb.json:0\n");
    assert_eq!(exit_code(&state), 0);
}

#[test]
fn halt_stops_the_run_with_its_exit_code() {
    let input = b"{\"a\":1}\n{\"a\":2}\n{\"a\":3}\n";
    let c = cli(Some("if .a == 2 then \"stop\" | halt_error(4) else . end"));
    assert_eq!(run_stdin(&c, input), ("{\"a\":1}\n".to_owned(), 4));
    assert_eq!(run_stdin(&cli(Some("if .a == 2 then halt else . end")), input), ("{\"a\":1}\n".to_owned(), 0));
}

#[test]
fn halt_skips_the_count_and_the_slurped_output() {
    let input = b"{\"a\":1}\n{\"a\":2}\n";
    let mut c = cli(Some("if .a == 2 then halt else . end"));
    c.count = true;
    assert_eq!(run_stdin(&c, input), (String::new(), 0));
    let mut s = cli(Some("if .a == 2 then halt else . end"));
    s.slurp = true;
    assert_eq!(run_stdin(&s, input), (String::new(), 0));
}

#[test]
fn decimal_numbers_are_computed_with() {
    assert_eq!(run_stdin(&cli(Some(".a | floor")), b"{\"a\":2.5}\n"), ("2\n".to_owned(), 0));
    assert_eq!(run_stdin(&cli(Some(".a")), b"{\"a\":1.50}\n"), ("1.50\n".to_owned(), 0));
}

#[test]
fn malformed_yaml_ends_with_one_parse_error() {
    let docs = jgrep::input::parse_many(jgrep::input::InputKind::Yaml, b">\n@").unwrap();
    assert_eq!(docs.len(), 1);
    assert!(docs[0].is_err());
    let docs = jgrep::input::parse_many(jgrep::input::InputKind::Yaml, b"a: 1\n---\n>\n@").unwrap();
    assert!(docs.len() <= 2);
    assert!(docs.last().unwrap().is_err());
}

#[test]
fn bad_json_on_stdin_is_a_parse_error() {
    assert_eq!(run_stdin(&cli(None), b"{bad json"), (String::new(), 2));
}

#[test]
fn paths_that_compare_equal_keep_their_order() {
    let files = resolve(vec![PathProbe::File("a//b".to_owned()), PathProbe::File("a/b".to_owned())], false)
        .unwrap()
        .unwrap();
    assert_eq!(files.iter().map(|s| s.path().to_owned()).collect::<Vec<_>>(), ["a//b", "a/b"]);
    let files = resolve(vec![PathProbe::File("a/b".to_owned()), PathProbe::File("a//b".to_owned())], false)
        .unwrap()
        .unwrap();
    assert_eq!(files.iter().map(|s| s.path().to_owned()).collect::<Vec<_>>(), ["a/b", "a//b"]);
}
