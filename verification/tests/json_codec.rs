use mq_edit::json::Json;
use mq_edit::json::json_from_str;
use mq_edit::json::json_to_string;

fn round_trips(v: Json) {
    let text = json_to_string(&v);
    let back = json_from_str(&text).unwrap();
    let again = json_to_string(&back);
    assert_eq!(text, again);
}

#[test]
fn test_json_serialize_forms() {
    assert_eq!(json_to_string(&Json::Null), "null");
    assert_eq!(json_to_string(&Json::Bool(true)), "true");
    assert_eq!(json_to_string(&Json::Bool(false)), "false");
    assert_eq!(json_to_string(&Json::Num { neg: false, mag: 12 }), "12");
    assert_eq!(json_to_string(&Json::Num { neg: true, mag: 7 }), "-7");
    assert_eq!(json_to_string(&Json::Str("a\"b\\c".to_owned())), "\"a\\\"b\\\\c\"");
    assert_eq!(
        json_to_string(&Json::Arr(vec![Json::Null, Json::Num { neg: false, mag: 1 }])),
        "[null,1]"
    );
    assert_eq!(
        json_to_string(
            &Json::Obj(vec![("k".to_owned(), Json::Str("v".to_owned()))])
        ),
        "{\"k\":\"v\"}"
    );
}

#[test]
fn test_json_round_trip_values() {
    round_trips(Json::Null);
    round_trips(Json::Bool(true));
    round_trips(Json::Num { neg: true, mag: 123456789 });
    round_trips(Json::Str("newline\nand tab\tand quote\"".to_owned()));
    round_trips(Json::Arr(vec![
        Json::Num { neg: false, mag: 0 },
        Json::Str(String::new()),
        Json::Obj(vec![]),
    ]));
    round_trips(Json::Obj(vec![
        ("a".to_owned(), Json::Arr(vec![Json::Bool(false)])),
        ("b".to_owned(), Json::Obj(vec![("c".to_owned(), Json::Null)])),
    ]));
}

#[test]
fn test_json_parse_accepts_whitespace_and_escapes() {
    let v = json_from_str(" { \"a\" : [ 1 , -2 , \"x\\u0041y\" ] } ").unwrap();
    assert_eq!(json_to_string(&v), "{\"a\":[1,-2,\"xAy\"]}");
}

#[test]
fn test_json_parse_rejects_malformed() {
    assert!(json_from_str("").is_none());
    assert!(json_from_str("{").is_none());
    assert!(json_from_str("1.5").is_none());
    assert!(json_from_str("1e3").is_none());
    assert!(json_from_str("nul").is_none());
    assert!(json_from_str("\"unterminated").is_none());
    assert!(json_from_str("{\"a\":1,}").is_none());
    assert!(json_from_str("[1 2]").is_none());
    assert!(json_from_str("{\"a\":1} trailing").is_none());
}
