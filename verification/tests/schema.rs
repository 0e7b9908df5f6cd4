use jgrep::input::{parse_many, InputKind};
use jgrep::schema::infer_schema;
use jgrep::value::Value;

fn parse_values(input: &[u8]) -> Vec<Value> {
    parse_many(InputKind::Json, input)
        .unwrap()
        .into_iter()
        .collect::<Result<Vec<_>, _>>()
        .unwrap()
}

#[test]
fn infers_nested_and_array_fields() {
    let values = parse_values(
        br#"{"name":"Alice","tags":["admin"],"profile":{"age":30}}
{"name":"Bob","tags":["user"],"profile":{"age":15}}
"#,
    );

    let fields = infer_schema(&values, 500);

    assert!(fields
        .iter()
        .any(|f| f.path == "name" && f.types == ["string"] && f.count == 2));
    assert!(fields
        .iter()
        .any(|f| f.path == "profile.age" && f.types == ["number"]));
    assert!(fields
        .iter()
        .any(|f| f.path == "tags[]" && f.types == ["string"]));
}

#[test]
fn schema_is_sorted_and_merges_types() {
    let values = parse_values(br#"{"b":1,"a":[1,"x",null]} {"b":"s"} {"c":true}"#);
    let fields = infer_schema(&values, 2);
    let paths: Vec<&str> = fields.iter().map(|f| f.path.as_str()).collect();
    assert_eq!(paths, ["a", "a[]", "b"]);
    assert_eq!(fields[1].types, ["null", "number", "string"]);
    assert_eq!(fields[1].count, 3);
    assert_eq!(fields[2].types, ["number", "string"]);
    assert_eq!(fields[2].count, 2);
}

#[test]
fn top_level_arrays_use_bracket_path() {
    let values = parse_values(br#"[{"k":1}]"#);
    let fields = infer_schema(&values, 10);
    let paths: Vec<&str> = fields.iter().map(|f| f.path.as_str()).collect();
    assert_eq!(paths, ["[]", "[].k"]);
    assert_eq!(fields[0].types, ["object"]);
}

#[test]
fn no_documents_give_no_fields() {
    let values = parse_values(b"1 2");
    assert!(infer_schema(&values, 10).is_empty());
    assert!(infer_schema(&[], 10).is_empty());
}
