//! The JSON codec on concrete documents.

use agx::json::Json;
use agx::json_parse::parse_json;
use agx::json_print::json_to_string;

#[test]
fn parses_a_nested_document() {
    let text = r#" { "plan" : [ {"cmd": "cat", "args": ["file.txt"], "n": -3}, true, null ] } "#;
    let doc = parse_json(text).expect("valid document");
    match doc {
        Json::Obj(fields) => {
            assert_eq!(fields.len(), 1);
            assert_eq!(fields[0].0, "plan");
            match &fields[0].1 {
                Json::Arr(items) => {
                    assert_eq!(items.len(), 3);
                    assert!(matches!(items[1], Json::Bool(true)));
                    assert!(matches!(items[2], Json::Null));
                    match &items[0] {
                        Json::Obj(inner) => {
                            assert_eq!(inner.len(), 3);
                            assert!(matches!(&inner[2].1, Json::Int(-3)));
                        }
                        other => panic!("unexpected element: {other:?}"),
                    }
                }
                other => panic!("unexpected value: {other:?}"),
            }
        }
        other => panic!("unexpected document: {other:?}"),
    }
}

#[test]
fn decodes_escapes_and_encodes_them_back() {
    let text = "\"a\\\"b\\\\c\\ndA\\u00e9\"";
    let doc = parse_json(text).expect("valid string");
    match &doc {
        Json::Str(s) => assert_eq!(s, "a\"b\\c\ndA\u{e9}"),
        other => panic!("unexpected value: {other:?}"),
    }
    let printed = json_to_string(&doc);
    let again = parse_json(&printed).expect("printed text parses");
    match again {
        Json::Str(s) => assert_eq!(s, "a\"b\\c\ndA\u{e9}"),
        other => panic!("unexpected value: {other:?}"),
    }
}

#[test]
fn decodes_surrogate_pairs() {
    let doc = parse_json(r#""\ud83d\ude00""#).expect("paired surrogates decode");
    match doc {
        Json::Str(s) => assert_eq!(s, "\u{1f600}"),
        other => panic!("unexpected value: {other:?}"),
    }
    assert!(parse_json(r#""\ud83d""#).is_err());
}

#[test]
fn rejects_malformed_documents() {
    assert!(parse_json("{").is_err());
    assert!(parse_json("[1,]").is_err());
    assert!(parse_json("{\"a\" 1}").is_err());
    assert!(parse_json("[] trailing").is_err());
    assert!(parse_json("01").is_err());
    assert!(parse_json("1.").is_err());
    assert!(parse_json("1e").is_err());
    assert!(parse_json("1e+").is_err());
    assert!(parse_json(".5").is_err());
    assert!(parse_json("\"raw\ncontrol\"").is_err());
}

#[test]
fn carries_non_integer_numbers_as_written() {
    for text in ["1.5", "6.02e23", "-0.25", "1e9", "9223372036854775808"] {
        let doc = parse_json(text).expect("numeric token parses");
        match &doc {
            Json::NumLit(t) => assert_eq!(t, text),
            other => panic!("unexpected value: {other:?}"),
        }
        assert_eq!(json_to_string(&doc), text);
    }
}

#[test]
fn prints_minimal_text() {
    let doc = Json::Obj(vec![
        ("a".to_string(), Json::Arr(vec![Json::Int(1), Json::Int(-2)])),
        ("b".to_string(), Json::Bool(false)),
    ]);
    assert_eq!(json_to_string(&doc), r#"{"a":[1,-2],"b":false}"#);
}

#[test]
fn round_trips_integers_at_the_edges() {
    for text in ["9223372036854775807", "-9223372036854775808", "0"] {
        let doc = parse_json(text).expect("integer parses");
        assert!(matches!(doc, Json::Int(_)));
        assert_eq!(json_to_string(&doc), text);
    }
}
