use apimock::json::{parse, to_text, Json};
use apimock::shape::{apply_filter_recursive, find_array_by_field, set_json_field};

fn chars(s: &str) -> Vec<char> {
    s.chars().collect()
}

#[test]
fn documents_read_and_written_compactly() {
    let j = parse(r#" { "b" : 1 , "a" : [ true , null , "x\"y" , 2.5 ] } "#).unwrap();
    assert_eq!(to_text(&j), r#"{"a":[true,null,"x\"y",2.5],"b":1}"#);
    assert!(parse("{").is_none());
    assert!(parse("1 2").is_none());
    assert_eq!(to_text(&parse("\"é\\n\"").unwrap()), "\"é\\n\"");
    assert_eq!(to_text(&parse("{\"a\":1,\"a\":2}").unwrap()), "{\"a\":2}");
}

#[test]
fn filtering_keeps_matching_objects() {
    let j = parse(r#"{"list":[{"id":1,"ok":true},{"id":2,"ok":false},3]}"#).unwrap();
    let fs = vec![(chars("ok"), chars("true"))];
    assert_eq!(to_text(&apply_filter_recursive(&j, &fs)), r#"{"list":[{"id":1,"ok":true},3]}"#);
    let none: Vec<(Vec<char>, Vec<char>)> = Vec::new();
    assert_eq!(to_text(&apply_filter_recursive(&j, &none)), to_text(&j));
    let nulls = parse(r#"[{"v":null},{"v":1}]"#).unwrap();
    let fnull = vec![(chars("v"), chars("null"))];
    assert_eq!(to_text(&apply_filter_recursive(&nulls, &fnull)), r#"[{"v":null}]"#);
}

#[test]
fn fields_found_and_replaced() {
    let j = parse(r#"{"a":{"b":[1,2]},"c":{"b":[3]}}"#).unwrap();
    let found = find_array_by_field(&j, &chars("c.b")).unwrap();
    assert_eq!(to_text(&Json::Array(found)), "[3]");
    let dfs = find_array_by_field(&j, &chars("b")).unwrap();
    assert_eq!(to_text(&Json::Array(dfs)), "[1,2]");
    assert!(find_array_by_field(&j, &chars("zz")).is_none());
    let replaced = set_json_field(&j, &chars("c.b"), &Json::Null);
    assert_eq!(to_text(&replaced), r#"{"a":{"b":[1,2]},"c":{"b":null}}"#);
    let first = set_json_field(&j, &chars("b"), &Json::Bool(false));
    assert_eq!(to_text(&first), r#"{"a":{"b":false},"c":{"b":[3]}}"#);
}

#[test]
fn strings_escaped_as_serde_json_writes_them() {
    let j = Json::Str("q\"b\\\u{8}\t\n\u{c}\r\u{1}\u{1f}/é".to_owned());
    assert_eq!(to_text(&j), "\"q\\\"b\\\\\\b\\t\\n\\f\\r\\u0001\\u001f/é\"");
}
