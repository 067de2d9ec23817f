use labelizer::json::Json;
use labelizer::request::{default_langs, request_wrapper, split_request, RequestError};

fn text(s: &str) -> Json {
    Json::String(s.to_string())
}

fn object(pairs: Vec<(&str, Json)>) -> Json {
    Json::object(pairs.into_iter().map(|(k, v)| (k.to_string(), v)).collect())
}

#[test]
fn parsing_keeps_every_kind_of_value() {
    assert_eq!(
        Json::parse(r#"{"b": 1, "a": [true, null, "s", -2.5e3, {}], "c": {"y": "2", "x": "1"}}"#),
        Some(Json::Object(vec![
            (
                "a".to_string(),
                Json::Array(vec![
                    Json::Bool(true),
                    Json::Null,
                    text("s"),
                    Json::Number("-2500.0".to_string()),
                    Json::Object(vec![]),
                ]),
            ),
            ("b".to_string(), Json::Number("1".to_string())),
            (
                "c".to_string(),
                Json::Object(vec![("x".to_string(), text("1")), ("y".to_string(), text("2"))]),
            ),
        ]))
    );
    assert_eq!(Json::parse(r#""aé""#), Some(text("aé")));
}

#[test]
fn parsing_refuses_what_is_no_json() {
    assert_eq!(Json::parse(""), None);
    assert_eq!(Json::parse("{"), None);
    assert_eq!(Json::parse("hello"), None);
    assert_eq!(Json::parse(r#"{"a": 1} x"#), None);
}

#[test]
fn parsing_keeps_the_last_of_two_members_with_one_key() {
    assert_eq!(Json::parse(r#"{"a": "1", "a": "2"}"#), Some(object(vec![("a", text("2"))])));
}

#[test]
fn objects_are_maps() {
    let o = object(vec![("b", text("1")), ("a", text("2")), ("b", text("3"))]);
    assert_eq!(
        o,
        Json::Object(vec![("a".to_string(), text("2")), ("b".to_string(), text("3"))])
    );
    assert_eq!(o.get("b"), Some(&text("3")));
    assert_eq!(o.get("c"), None);
    assert_eq!(text("b").get("b"), None);
    assert_eq!(
        Json::Object(vec![("b".to_string(), text("1")), ("a".to_string(), text("2"))]).into_regular(),
        object(vec![("a", text("2")), ("b", text("1"))])
    );
    assert_eq!(
        Json::pair("type", text("t"), "args", text("a")),
        Json::Object(vec![("args".to_string(), text("a")), ("type".to_string(), text("t"))])
    );
}

#[test]
fn a_request_with_data_and_langs() {
    assert_eq!(
        request_wrapper(r#"{"data": {"k": "v"}, "langs": ["Z1830", "Z1002"]}"#.to_string()),
        Ok((object(vec![("k", text("v"))]), vec!["Z1830".to_string(), "Z1002".to_string()]))
    );
    assert_eq!(
        request_wrapper(r#"{"data": "x", "langs": [], "more": 1}"#.to_string()),
        Ok((text("x"), vec![]))
    );
}

#[test]
fn a_request_that_is_the_document() {
    assert_eq!(request_wrapper(r#""hello""#.to_string()), Ok((text("hello"), default_langs())));
    assert_eq!(default_langs(), vec!["Z1002".to_string()]);
    assert_eq!(
        request_wrapper(r#"{"data": "x"}"#.to_string()),
        Ok((object(vec![("data", text("x"))]), default_langs()))
    );
    assert_eq!(
        request_wrapper(r#"{"langs": ["Z1"]}"#.to_string()),
        Ok((object(vec![("langs", Json::Array(vec![text("Z1")]))]), default_langs()))
    );
    assert_eq!(
        request_wrapper(r#"["Z6", "a"]"#.to_string()),
        Ok((Json::Array(vec![text("Z6"), text("a")]), default_langs()))
    );
}

#[test]
fn a_request_that_is_refused() {
    assert_eq!(request_wrapper("not json".to_string()), Err(RequestError::InvalidJson));
    assert_eq!(
        request_wrapper(r#"{"data": "x", "langs": "Z1002"}"#.to_string()),
        Err(RequestError::BadLangs)
    );
    assert_eq!(
        request_wrapper(r#"{"data": "x", "langs": ["Z1002", 1]}"#.to_string()),
        Err(RequestError::BadLangs)
    );
    assert_eq!(
        split_request(object(vec![("data", text("x")), ("langs", Json::Null)])),
        Err(RequestError::BadLangs)
    );
    assert_eq!(RequestError::InvalidJson.reason(), "invalid json object");
    assert_eq!(RequestError::BadLangs.reason(), "value of langs should be an array of string");
}
