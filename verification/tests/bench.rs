use jgrep::bench::{command_spec, escape, java_spec, ndjson_fixture, require_file, yaml_fixture};

#[test]
fn escapes_html_special_characters() {
    assert_eq!(escape("a & <b> \"c\""), "a &amp; &lt;b&gt; &quot;c&quot;");
    assert_eq!(escape("&lt;"), "&amp;lt;");
}

#[test]
fn builds_commands() {
    let args = vec!["-n".to_owned(), "1 + 1".to_owned()];
    let rust = command_spec("/bin/jgrep", &args);
    assert_eq!(rust.program, "/bin/jgrep");
    assert_eq!(rust.args, ["-n", "1 + 1"]);
    let java = java_spec("j.jar", &args);
    assert_eq!(java.program, "java");
    assert_eq!(java.args, ["-jar", "j.jar", "-n", "1 + 1"]);
}

#[test]
fn reports_missing_files() {
    assert!(require_file(true, "x", "Rust jgrep binary").is_ok());
    assert_eq!(require_file(false, "/x", "Java jgrep jar").unwrap_err(), "Java jgrep jar not found at /x");
}

#[test]
fn generates_fixtures() {
    assert_eq!(
        ndjson_fixture(2),
        "{\"id\":0,\"active\":true,\"value\":\"item-0\"}\n{\"id\":1,\"active\":false,\"value\":\"item-1\"}\n"
    );
    assert_eq!(yaml_fixture(1), "---\nid: 0\nactive: true\nvalue: item-0\n");
}
