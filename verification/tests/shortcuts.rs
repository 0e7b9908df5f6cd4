use jgrep::shortcuts::{apply_where_filters, expression_to_jq, output_expression_to_jq, path_filter, where_condition};

#[test]
fn builds_path_filters() {
    assert_eq!(path_filter("name").unwrap(), ".name");
    assert_eq!(
        path_filter("app.level").unwrap(),
        "(if type == \"object\" and has(\"app.level\") then .[\"app.level\"] else .app.level end)"
    );
    assert_eq!(
        path_filter("log.level").unwrap(),
        "(if type == \"object\" and has(\"log.level\") then .[\"log.level\"] else .log.level end)"
    );
    assert_eq!(path_filter("log-level").unwrap(), ".[\"log-level\"]");
}

#[test]
fn keeps_raw_output_expressions() {
    assert_eq!(
        output_expression_to_jq("{message, level: .log.level}").unwrap(),
        "{message, level: .log.level}"
    );
    assert_eq!(
        output_expression_to_jq("[.timestamp, .message]").unwrap(),
        "[.timestamp, .message]"
    );
    assert_eq!(output_expression_to_jq("message").unwrap(), ".message");
}

#[test]
fn builds_where_filters() {
    assert_eq!(
        apply_where_filters(".name".to_owned(), &[String::from("active=true")]).unwrap(),
        "select(.active == true) | .name"
    );
    assert_eq!(
        apply_where_filters(
            ".".to_owned(),
            &[String::from("status=active"), String::from("age>=18")]
        )
        .unwrap(),
        "select(.status == \"active\" and .age >= 18) | ."
    );
    assert_eq!(
        apply_where_filters(".".to_owned(), &[String::from("log.level=ERROR")]).unwrap(),
        "select((if type == \"object\" and has(\"log.level\") then .[\"log.level\"] else .log.level end) == \"ERROR\") | ."
    );
}

#[test]
fn expands_explore_expressions() {
    assert_eq!(expression_to_jq("").unwrap(), ".");
    assert_eq!(expression_to_jq("name").unwrap(), ".name");
    assert_eq!(expression_to_jq(".items[]").unwrap(), ".items[]");
    assert_eq!(
        expression_to_jq("status=active").unwrap(),
        "select(.status == \"active\") | ."
    );
}

#[test]
fn empty_path_is_rejected() {
    assert_eq!(path_filter("   ").unwrap_err(), "path must not be empty");
    assert_eq!(path_filter(" name ").unwrap(), ".name");
}

#[test]
fn empty_condition_is_rejected() {
    assert_eq!(where_condition("  ").unwrap_err(), "condition must not be empty");
}

#[test]
fn condition_without_field_or_value_is_rejected() {
    assert_eq!(
        where_condition("=active").unwrap_err(),
        "expected FIELD=VALUE, got \"=active\""
    );
    assert_eq!(
        where_condition("age>= ").unwrap_err(),
        "expected FIELD>=VALUE, got \"age>=\""
    );
}

#[test]
fn condition_without_operator_is_rejected() {
    assert_eq!(
        where_condition("status").unwrap_err(),
        "expected a condition such as status=active, age>=18, or level!=DEBUG; got \"status\""
    );
}

#[test]
fn operators_are_tried_in_order() {
    assert_eq!(where_condition("level!=DEBUG").unwrap(), ".level != \"DEBUG\"");
    assert_eq!(where_condition("age<=3").unwrap(), ".age <= 3");
    assert_eq!(where_condition("a=b!=c").unwrap(), ".[\"a=b\"] != \"c\"");
    assert_eq!(where_condition("n>1e3").unwrap(), ".n > 1e3");
}

#[test]
fn literals_keep_numbers_booleans_and_quoted_strings() {
    assert_eq!(where_condition("x=null").unwrap(), ".x == null");
    assert_eq!(where_condition("x=-1.5").unwrap(), ".x == -1.5");
    assert_eq!(where_condition("x=.5").unwrap(), ".x == .5");
    assert_eq!(where_condition("x=inf").unwrap(), ".x == inf");
    assert_eq!(where_condition("x=NaN").unwrap(), ".x == NaN");
    assert_eq!(where_condition("x=\"a b\"").unwrap(), ".x == \"a b\"");
    assert_eq!(where_condition("x=1.").unwrap(), ".x == 1.");
    assert_eq!(where_condition("x=.").unwrap(), ".x == \".\"");
    assert_eq!(where_condition("x=1e").unwrap(), ".x == \"1e\"");
}

#[test]
fn quoting_escapes_backslashes_and_quotes() {
    assert_eq!(where_condition("x=a\\b").unwrap(), ".x == \"a\\\\b\"");
    assert_eq!(where_condition("x=say \"hi").unwrap(), ".x == \"say \\\"hi\"");
}

#[test]
fn empty_path_segments_are_skipped() {
    assert_eq!(
        path_filter("a..b").unwrap(),
        "(if type == \"object\" and has(\"a..b\") then .[\"a..b\"] else .a.b end)"
    );
    assert_eq!(path_filter("_x9").unwrap(), "._x9");
    assert_eq!(path_filter("9x").unwrap(), ".[\"9x\"]");
}

#[test]
fn where_filters_report_first_error() {
    assert_eq!(
        apply_where_filters(".".to_owned(), &[String::from("a=1"), String::from(""), String::from("x")])
            .unwrap_err(),
        "condition must not be empty"
    );
    assert_eq!(apply_where_filters(".x".to_owned(), &[]).unwrap(), ".x");
}

#[test]
fn explore_expressions_pass_jq_through() {
    assert_eq!(expression_to_jq("  select(.a)  ").unwrap(), "select(.a)");
    assert_eq!(output_expression_to_jq("").unwrap(), ".");
    assert_eq!(output_expression_to_jq("  ").unwrap(), ".");
}

#[test]
fn explore_expression_cases() {
    assert_eq!(expression_to_jq("").unwrap(), ".");
    assert_eq!(expression_to_jq("  .a | .b ").unwrap(), ".a | .b");
    assert_eq!(expression_to_jq("age>=18").unwrap(), "select(.age >= 18) | .");
    assert!(expression_to_jq("=active").is_err());
    assert_eq!(expression_to_jq(" user.name ").unwrap(), path_filter("user.name").unwrap());
}

#[test]
fn output_expressions_never_fail() {
    assert_eq!(output_expression_to_jq("a=b").unwrap(), r#".["a=b"]"#);
    assert_eq!(output_expression_to_jq(" {a: .b} ").unwrap(), "{a: .b}");
    assert_eq!(output_expression_to_jq("[.a]").unwrap(), "[.a]");
    assert_eq!(output_expression_to_jq("message").unwrap(), ".message");
}
