use labelizer::json::Json;
use labelizer::labelize::{
    _labelize, _labelize_wrapped, checked_labelize, fetch_plan, fetch_url, key_labels_of, labelize,
    owner_of, persistent_labels_of, read_response, response_data, IdKind, MyError, Upstream,
};
use labelizer::simple_value::{LabelledNode, SimpleValue, StringType};

fn text(s: &str) -> Json {
    Json::String(s.to_string())
}

fn object(pairs: Vec<(&str, Json)>) -> Json {
    Json::object(pairs.into_iter().map(|(k, v)| (k.to_string(), v)).collect())
}

fn plain(s: &str) -> StringType {
    StringType::String(s.to_string())
}

fn node(z: &str, labels: &[(&str, &str)]) -> StringType {
    StringType::LabelledNode(LabelledNode::from(
        labels.iter().map(|(k, v)| (k.to_string(), v.to_string())).collect(),
        z.to_string(),
    ))
}

fn mono(lang: &str, label: &str) -> Json {
    object(vec![("Z1K1", text("Z11")), ("Z11K1", text(lang)), ("Z11K2", text(label))])
}

fn multilingual(labels: &[(&str, &str)]) -> Json {
    let mut items = vec![text("Z11")];
    items.extend(labels.iter().map(|(l, t)| mono(l, t)));
    object(vec![("Z1K1", text("Z12")), ("Z12K1", Json::Array(items))])
}

fn persistent(labels: &[(&str, &str)]) -> Json {
    object(vec![("Z2K3", multilingual(labels))])
}

fn with_keys(keys: &[(&str, &str)]) -> Json {
    let mut entries = vec![text("Z3")];
    for (id, label) in keys {
        entries.push(object(vec![
            ("Z1K1", text("Z3")),
            ("Z3K1", text("Z6")),
            ("Z3K2", text(id)),
            ("Z3K3", multilingual(&[("Z1002", label)])),
        ]));
    }
    object(vec![
        ("Z2K2", object(vec![("Z1K1", text("Z4")), ("Z4K2", Json::Array(entries))])),
        ("Z2K3", multilingual(&[("Z1002", "Thing")])),
    ])
}

fn schema(message: &str) -> MyError {
    MyError::SchemaError(message.to_string())
}

#[test]
fn kinds_of_strings() {
    assert_eq!(IdKind::of("Z11"), IdKind::Persistent);
    assert_eq!(IdKind::of("Z0"), IdKind::Persistent);
    assert_eq!(IdKind::of("Z11K2"), IdKind::GlobalKey);
    assert_eq!(IdKind::of("hello"), IdKind::Plain);
    assert_eq!(IdKind::of(""), IdKind::Plain);
    assert_eq!(IdKind::of("Z"), IdKind::Plain);
    assert_eq!(IdKind::of("z11"), IdKind::Plain);
    assert_eq!(IdKind::of("Z11K"), IdKind::Plain);
    assert_eq!(IdKind::of("Z11 "), IdKind::Plain);
    assert_eq!(IdKind::of("Z11\n"), IdKind::Plain);
    assert_eq!(IdKind::of("aZ11"), IdKind::Plain);
    assert_eq!(IdKind::of("Z11K2K3"), IdKind::Plain);
    assert_eq!(IdKind::of("Z١٢"), IdKind::Persistent);
    assert_eq!(IdKind::of("Z1K٢"), IdKind::GlobalKey);
}

#[test]
fn kinds_from_matches() {
    assert_eq!(IdKind::from_matches(Some(true), Some(false)), IdKind::Persistent);
    assert_eq!(IdKind::from_matches(Some(true), Some(true)), IdKind::Persistent);
    assert_eq!(IdKind::from_matches(Some(false), Some(true)), IdKind::GlobalKey);
    assert_eq!(IdKind::from_matches(None, Some(true)), IdKind::GlobalKey);
    assert_eq!(IdKind::from_matches(Some(false), Some(false)), IdKind::Plain);
    assert_eq!(IdKind::from_matches(None, None), IdKind::Plain);
    assert_eq!(IdKind::from_matches(Some(false), None), IdKind::Plain);
}

#[test]
fn owner_of_a_key() {
    assert_eq!(owner_of("Z881K1"), "Z881");
    assert_eq!(owner_of("Z4K12"), "Z4");
    assert_eq!(owner_of("K"), "");
    assert_eq!(owner_of("abc"), "abc");
    assert_eq!(owner_of(""), "");
    assert_eq!(owner_of("éKé"), "é");
}

#[test]
fn address_of_an_object() {
    assert_eq!(
        fetch_url("https://wikifunctions.org/w", "Z11"),
        "https://wikifunctions.org/w/api.php?action=query&format=json&list=wikilambdaload_zobjects&wikilambdaload_zids=Z11&wikilambdaload_canonical=true"
    );
}

#[test]
fn data_of_an_answer() {
    let data = persistent(&[("Z1002", "Thing")]);
    let body = object(vec![(
        "query",
        object(vec![("wikilambdaload_zobjects", object(vec![("Z11", object(vec![("data", data.clone())]))]))]),
    )]);
    assert_eq!(response_data(&body, "Z11"), Ok(data));
    assert_eq!(
        response_data(&body, "Z12"),
        Err(schema("no key for self (Z12) in wikifunction response"))
    );
    assert_eq!(
        response_data(&object(vec![]), "Z11"),
        Err(schema("no \"query\" key in wikifunction response"))
    );
    assert_eq!(
        response_data(&text("query"), "Z11"),
        Err(schema("no \"query\" key in wikifunction response"))
    );
    assert_eq!(
        response_data(&object(vec![("query", object(vec![]))]), "Z11"),
        Err(schema("no \"wikilambdaload_zobjects\" key in wikifunction response"))
    );
    let no_data = object(vec![(
        "query",
        object(vec![("wikilambdaload_zobjects", object(vec![("Z11", object(vec![]))]))]),
    )]);
    assert_eq!(
        response_data(&no_data, "Z11"),
        Err(schema("no \"data\" key in wikifunction response"))
    );
}

#[test]
fn data_of_the_text_of_an_answer() {
    let body = r#"{"query":{"wikilambdaload_zobjects":{"Z11":{"data":{"Z2K3":"x"}}}}}"#;
    assert_eq!(read_response(body, "Z11"), Ok(object(vec![("Z2K3", text("x"))])));
    assert_eq!(
        read_response("<html>", "Z11"),
        Err(schema("failed parsing wikifunction response"))
    );
}

#[test]
fn errors_as_text() {
    assert_eq!(MyError::NetworkError("down".to_string()).to_text(), "network error: down");
    assert_eq!(schema("bad").to_text(), "schema error: bad");
}

#[test]
fn labels_of_a_persistent_object() {
    assert_eq!(
        persistent_labels_of(&persistent(&[("Z1002", "Thing"), ("Z1006", "东西")])),
        Ok(vec![
            ("Z1002".to_string(), "Thing".to_string()),
            ("Z1006".to_string(), "东西".to_string()),
        ])
    );
    assert_eq!(persistent_labels_of(&persistent(&[])), Ok(vec![]));
}

#[test]
fn errors_in_the_labels_of_a_persistent_object() {
    assert_eq!(
        persistent_labels_of(&object(vec![])),
        Err(schema("wikifunction response is not a Persistent Object, no Z2K3 key "))
    );
    assert_eq!(
        persistent_labels_of(&object(vec![("Z2K3", object(vec![]))])),
        Err(schema("no Z12K1 (Multilingual Text) key in Persistent Object"))
    );
    assert_eq!(
        persistent_labels_of(&object(vec![("Z2K3", object(vec![("Z12K1", text("x"))]))])),
        Err(schema("Z12K1 is not an array"))
    );
    let with_items = |items: Vec<Json>| object(vec![("Z2K3", object(vec![("Z12K1", Json::Array(items))]))]);
    assert_eq!(
        persistent_labels_of(&with_items(vec![text("Z11"), object(vec![("Z11K2", text("x"))])])),
        Err(schema("no key Z11K1 in item of Z12K1"))
    );
    assert_eq!(
        persistent_labels_of(&with_items(vec![text("Z11"), object(vec![("Z11K1", text("x"))])])),
        Err(schema("no key Z11K1 in item of Z12K1"))
    );
    assert_eq!(
        persistent_labels_of(&with_items(vec![
            text("Z11"),
            object(vec![("Z11K1", Json::Array(vec![])), ("Z11K2", Json::Array(vec![]))]),
        ])),
        Err(schema("value of Z11K1 not a str"))
    );
    assert_eq!(
        persistent_labels_of(&with_items(vec![
            text("Z11"),
            mono("Z1002", "fine"),
            object(vec![("Z11K1", text("Z1006")), ("Z11K2", Json::Array(vec![]))]),
            object(vec![]),
        ])),
        Err(schema("value of Z11K2 not a str"))
    );
    assert_eq!(
        persistent_labels_of(&with_items(vec![object(vec![]), mono("Z1002", "fine")])),
        Ok(vec![("Z1002".to_string(), "fine".to_string())])
    );
}

#[test]
fn labels_of_a_key_are_quoted() {
    let data = with_keys(&[("Z4K1", "first"), ("Z4K2", "second")]);
    assert_eq!(
        key_labels_of(&data, "Z4K2"),
        Ok(vec![("Z1002".to_string(), "'second'".to_string())])
    );
    assert_eq!(
        key_labels_of(&data, "Z4K1"),
        Ok(vec![("Z1002".to_string(), "'first'".to_string())])
    );
}

#[test]
fn a_key_named_one_level_down_is_found() {
    let entry = object(vec![
        ("Z17K2", object(vec![("Z1K1", text("Z6")), ("Z6K1", text("Z811K1"))])),
        ("Z17K3", multilingual(&[("Z1002", "list")])),
    ]);
    let data = object(vec![(
        "Z2K2",
        object(vec![("Z8K1", Json::Array(vec![text("Z17"), entry])), ("Z8K2", text("Z1"))]),
    )]);
    assert_eq!(
        key_labels_of(&data, "Z811K1"),
        Ok(vec![("Z1002".to_string(), "'list'".to_string())])
    );
}

#[test]
fn errors_in_the_labels_of_a_key() {
    assert_eq!(
        key_labels_of(&object(vec![]), "Z4K1"),
        Err(schema("wikifunction response is not a Persistent Object, no Z2K2 key "))
    );
    assert_eq!(
        key_labels_of(&object(vec![("Z2K2", text("x"))]), "Z4K1"),
        Err(schema("value of Z2K2 is not object"))
    );
    assert_eq!(
        key_labels_of(&with_keys(&[("Z4K1", "first")]), "Z4K7"),
        Err(schema("no entry for the key in Z2K2"))
    );
    let bare = object(vec![(
        "Z2K2",
        object(vec![("Z4K2", Json::Array(vec![text("Z3"), object(vec![("Z3K2", text("Z4K1"))])]))]),
    )]);
    assert_eq!(
        key_labels_of(&bare, "Z4K1"),
        Err(schema("no Z12 (Multilingual Text) in the entry of the key"))
    );
    let no_list = object(vec![(
        "Z2K2",
        object(vec![(
            "Z4K2",
            Json::Array(vec![
                text("Z3"),
                object(vec![("Z3K2", text("Z4K1")), ("Z3K3", object(vec![("Z1K1", text("Z12"))]))]),
            ]),
        )]),
    )]);
    assert_eq!(
        key_labels_of(&no_list, "Z4K1"),
        Err(schema("no \"Z12K1\" key in wikifunction response"))
    );
    let second_is_no_object = object(vec![(
        "Z2K2",
        object(vec![(
            "Z4K2",
            Json::Array(vec![object(vec![("Z3K2", text("Z4K1"))]), text("Z3")]),
        )]),
    )]);
    assert_eq!(
        key_labels_of(&second_is_no_object, "Z4K1"),
        Err(schema("no entry for the key in Z2K2"))
    );
}

#[test]
fn labelling_a_string() {
    let mut upstream = Upstream::new();
    upstream.record("Z4".to_string(), Ok(with_keys(&[("Z4K1", "first")])));
    upstream.record("Z5".to_string(), Err(MyError::NetworkError("down".to_string())));
    assert_eq!(_labelize("Z4".to_string(), &upstream), Ok(node("Z4", &[("Z1002", "Thing")])));
    assert_eq!(
        _labelize("Z4K1".to_string(), &upstream),
        Ok(node("Z4K1", &[("Z1002", "'first'")]))
    );
    assert_eq!(_labelize("hello".to_string(), &upstream), Ok(plain("hello")));
    assert_eq!(
        _labelize("Z5".to_string(), &upstream),
        Err(MyError::NetworkError("down".to_string()))
    );
    assert_eq!(
        _labelize("Z6".to_string(), &upstream),
        Err(MyError::NetworkError("nothing was fetched for the identifier".to_string()))
    );
    assert_eq!(
        _labelize("Z4K9".to_string(), &upstream),
        Err(schema("no entry for the key in Z2K2"))
    );
}

#[test]
fn a_string_without_labels_stays_plain() {
    let mut upstream = Upstream::new();
    upstream.record("Z5".to_string(), Err(MyError::NetworkError("down".to_string())));
    upstream.record("Z7".to_string(), Ok(object(vec![])));
    for s in ["", "hello", "Z5", "Z6", "Z7", "Z7K1", "Z"] {
        assert_eq!(_labelize_wrapped(s.to_string(), &upstream), plain(s));
    }
}

#[test]
fn the_first_answer_for_an_identifier_counts() {
    let mut upstream = Upstream::new();
    upstream.record("Z4".to_string(), Ok(persistent(&[("Z1002", "one")])));
    upstream.record("Z4".to_string(), Ok(persistent(&[("Z1002", "two")])));
    assert_eq!(upstream.fetch("Z4"), Ok(persistent(&[("Z1002", "one")])));
    assert_eq!(_labelize_wrapped("Z4".to_string(), &upstream), node("Z4", &[("Z1002", "one")]));
}

#[test]
fn labelling_a_document() {
    let mut upstream = Upstream::new();
    upstream.record("Z4".to_string(), Ok(with_keys(&[("Z4K1", "first")])));
    let doc = object(vec![
        ("Z4K1", Json::Array(vec![text("Z4"), text("x")])),
        ("k", object(vec![("Z4", text("Z9"))])),
    ]);
    let z4 = node("Z4", &[("Z1002", "Thing")]);
    let expected = SimpleValue::Object(vec![
        (
            plain("k"),
            SimpleValue::Object(vec![(z4.clone(), SimpleValue::StringType(plain("Z9")))]),
        ),
        (
            node("Z4K1", &[("Z1002", "'first'")]),
            SimpleValue::Array(vec![SimpleValue::StringType(z4), SimpleValue::StringType(plain("x"))]),
        ),
    ]);
    let labelled = labelize(doc, &upstream);
    assert_eq!(labelled, expected);
    assert_eq!(
        labelled.choose_lang(&vec!["Z1002".to_string()]),
        object(vec![
            ("Z4K1: 'first'", Json::Array(vec![text("Z4: Thing"), text("x")])),
            ("k", object(vec![("Z4: Thing", text("Z9"))])),
        ])
    );
}

#[test]
fn documents_with_other_than_strings_are_not_labelled() {
    let upstream = Upstream::new();
    assert_eq!(checked_labelize(&Json::Null, &upstream), None);
    assert_eq!(checked_labelize(&Json::Bool(true), &upstream), None);
    assert_eq!(checked_labelize(&Json::Number("1".to_string()), &upstream), None);
    assert_eq!(checked_labelize(&Json::Array(vec![text("a"), Json::Null]), &upstream), None);
    assert_eq!(checked_labelize(&object(vec![("k", Json::Bool(false))]), &upstream), None);
    assert_eq!(
        checked_labelize(&Json::Array(vec![]), &upstream),
        Some(SimpleValue::Array(vec![]))
    );
}

#[test]
fn the_plan_names_each_object_once() {
    let doc = object(vec![
        ("Z4K1", Json::Array(vec![text("Z6"), text("Z4"), text("hello"), text("Z6K1")])),
        ("a", object(vec![("Z6", text("Z881K2")), ("Z7", Json::Number("1".to_string()))])),
        ("b", text("")),
    ]);
    assert_eq!(fetch_plan(&doc), vec!["Z4", "Z6", "Z881", "Z7"]);
    assert_eq!(fetch_plan(&text("plain")), Vec::<String>::new());
}
