use labelizer::compact_key::{CompactKey, SimpleType};
use labelizer::compact_value::{rebuild_obj_with_type_args, CompactValue};
use labelizer::intermediate_form::IntermediateForm;
use labelizer::json::Json;
use labelizer::labelize::{labelize, Upstream};
use labelizer::order::Rank;
use labelizer::simple_value::StringType;
use labelizer::typed_form::TypedForm;
use std::cmp::Ordering;

fn text(s: &str) -> Json {
    Json::String(s.to_string())
}

fn object(pairs: Vec<(&str, Json)>) -> Json {
    Json::object(pairs.into_iter().map(|(k, v)| (k.to_string(), v)).collect())
}

fn plain(s: &str) -> StringType {
    StringType::String(s.to_string())
}

fn key(s: &str) -> CompactKey {
    CompactKey::from(plain(s))
}

fn typed_key(s: &str, types: &[&str]) -> CompactKey {
    CompactKey::StringType(plain(s), types.iter().map(|t| SimpleType(plain(t))).collect())
}

fn transient(types: &[&str]) -> CompactKey {
    CompactKey::Transient(types.iter().map(|t| SimpleType(plain(t))).collect())
}

fn leaf(s: &str) -> CompactValue {
    CompactValue::KeyType(key(s))
}

fn form(doc: Json) -> IntermediateForm {
    IntermediateForm::from(TypedForm::from(labelize(doc, &Upstream::new())))
}

fn langs() -> Vec<String> {
    vec!["Z1002".to_string()]
}

fn rank(o: Ordering) -> Rank {
    match o {
        Ordering::Less => Rank::Less,
        Ordering::Equal => Rank::Equal,
        Ordering::Greater => Rank::Greater,
    }
}

#[test]
fn an_array_drops_the_identifier_of_its_type() {
    let doc = Json::Array(vec![text("Z6"), text("a")]);
    assert_eq!(CompactValue::from(form(doc)), CompactValue::Array(vec![leaf("a")]));
}

#[test]
fn an_array_keeps_the_arguments_of_its_type_as_first_item() {
    let head = object(vec![("Z1K1", text("Z7")), ("Z7K1", text("Z881"))]);
    let doc = Json::Array(vec![head, text("a")]);
    assert_eq!(
        CompactValue::from(form(doc)),
        CompactValue::Array(vec![
            CompactValue::Object(vec![(key("Z7K1"), leaf("Z881"))]),
            leaf("a"),
        ])
    );
}

#[test]
fn the_type_of_a_field_moves_into_its_key() {
    let head = object(vec![("Z1K1", text("Z7")), ("Z7K1", text("Z881"))]);
    let doc = object(vec![
        ("plain", text("x")),
        ("list", Json::Array(vec![text("Z6"), text("a")])),
        ("typed list", Json::Array(vec![head.clone(), text("a")])),
        ("thing", object(vec![("Z1K1", text("Z40")), ("Z40K1", text("Z41"))])),
        ("call", object(vec![("Z1K1", head), ("K", text("v"))])),
        ("bare", object(vec![("k", text("v"))])),
    ]);
    let args = CompactValue::Object(vec![(key("Z7K1"), leaf("Z881"))]);
    assert_eq!(
        CompactValue::from(form(doc)),
        CompactValue::Object(vec![
            (key("bare"), CompactValue::Object(vec![(key("k"), leaf("v"))])),
            (
                typed_key("call", &["Z7"]),
                CompactValue::Object(vec![(key("K"), leaf("v")), (key("Z1K1"), args.clone())]),
            ),
            (typed_key("list", &["Z6"]), CompactValue::Array(vec![leaf("a")])),
            (key("plain"), leaf("x")),
            (
                typed_key("thing", &["Z40"]),
                CompactValue::Object(vec![(key("Z40K1"), leaf("Z41"))]),
            ),
            (typed_key("typed list", &["Z7"]), CompactValue::Array(vec![args, leaf("a")])),
        ])
    );
}

#[test]
fn a_typed_object_at_the_root_gets_a_key_of_its_type_alone() {
    let doc = object(vec![("Z1K1", text("Z40")), ("Z40K1", text("a")), ("Z40K2", text("b"))]);
    let compact = CompactValue::from(form(doc));
    assert_eq!(
        compact,
        CompactValue::Object(vec![(
            transient(&["Z40"]),
            CompactValue::Object(vec![(key("Z40K1"), leaf("a")), (key("Z40K2"), leaf("b"))]),
        )])
    );
    assert_eq!(
        compact.choose_lang(&langs()),
        object(vec![("[Z40]", object(vec![("Z40K1", text("a")), ("Z40K2", text("b"))]))])
    );
}

#[test]
fn the_arguments_of_a_type_become_a_field() {
    let obj = vec![(plain("a"), IntermediateForm::KeyType(key("1")))];
    let args = vec![(plain("T"), IntermediateForm::KeyType(key("x")))];
    assert_eq!(
        rebuild_obj_with_type_args(obj, args),
        CompactValue::Object(vec![
            (key("Z1K1"), CompactValue::Object(vec![(key("T"), leaf("x"))])),
            (key("a"), leaf("1")),
        ])
    );
}

#[test]
fn chains_of_single_fields_collapse_in_one_run() {
    let chain = CompactValue::object(vec![(
        key("a"),
        CompactValue::object(vec![(
            typed_key("b", &["T"]),
            CompactValue::object(vec![(transient(&["U"]), CompactValue::object(vec![(key("c"), leaf("v"))]))]),
        )]),
    )]);
    let once = chain.compress_simple_classes();
    assert_eq!(
        once,
        CompactValue::Object(vec![(typed_key("a", &["b", "T", "U", "c"]), leaf("v"))])
    );
    assert_eq!(once.clone().compress_simple_classes(), once);
    assert_eq!(once.choose_lang(&langs()), object(vec![("a [b, T, U, c]", text("v"))]));
}

#[test]
fn objects_of_more_fields_and_arrays_stay() {
    let two = CompactValue::object(vec![(key("x"), leaf("1")), (key("y"), leaf("2"))]);
    let value = CompactValue::object(vec![
        (key("two"), two.clone()),
        (key("none"), CompactValue::object(vec![])),
        (key("list"), CompactValue::Array(vec![CompactValue::object(vec![(key("k"), leaf("v"))])])),
        (transient(&["T"]), CompactValue::object(vec![(key("k"), leaf("v"))])),
    ]);
    let out = value.compress_simple_classes();
    assert_eq!(
        out,
        CompactValue::Object(vec![
            (
                key("list"),
                CompactValue::Array(vec![CompactValue::Object(vec![(key("k"), leaf("v"))])]),
            ),
            (key("none"), CompactValue::Object(vec![])),
            (key("two"), two),
            (transient(&["T", "k"]), leaf("v")),
        ])
    );
    assert_eq!(out.clone().compress_simple_classes(), out);
}

#[test]
fn a_labelled_document_without_its_types() {
    let doc = object(vec![("Z1K1", text("Z40")), ("list", Json::Array(vec![text("a")]))]);
    assert_eq!(
        CompactValue::from_simple(labelize(doc, &Upstream::new())),
        CompactValue::Object(vec![
            (key("Z1K1"), leaf("Z40")),
            (key("list"), CompactValue::Array(vec![leaf("a")])),
        ])
    );
    assert_eq!(CompactValue::from_key(key("k")), leaf("k"));
}

#[test]
fn rendering_keeps_the_later_of_two_fields_with_one_text() {
    let value = CompactValue::object(vec![
        (typed_key("k", &["T"]), leaf("first")),
        (key("k [T]"), leaf("second")),
    ]);
    assert_eq!(
        value,
        CompactValue::Object(vec![(typed_key("k", &["T"]), leaf("first")), (key("k [T]"), leaf("second"))])
    );
    assert_eq!(value.choose_lang(&langs()), object(vec![("k [T]", text("second"))]));
}

#[test]
fn rendered_objects_are_sorted_by_the_rendered_key() {
    let value = CompactValue::object(vec![
        (transient(&["Z"]), leaf("3")),
        (key("b"), leaf("2")),
        (typed_key("a", &["T"]), leaf("1")),
    ]);
    assert_eq!(
        value.choose_lang(&langs()),
        Json::Object(vec![
            ("[Z]".to_string(), text("3")),
            ("a [T]".to_string(), text("1")),
            ("b".to_string(), text("2")),
        ])
    );
}

#[test]
fn canonical_order_of_compact_values_is_the_derived_order() {
    let values = vec![
        leaf("a"),
        CompactValue::KeyType(typed_key("a", &["T"])),
        CompactValue::KeyType(transient(&[])),
        CompactValue::Array(vec![]),
        CompactValue::Array(vec![leaf("a")]),
        CompactValue::object(vec![]),
        CompactValue::object(vec![(key("k"), leaf("a"))]),
        CompactValue::object(vec![(key("k"), leaf("a")), (transient(&["T"]), leaf("a"))]),
        CompactValue::object(vec![(typed_key("k", &["T"]), leaf("a"))]),
    ];
    for a in &values {
        for b in &values {
            assert_eq!(a.compare(b), rank(a.cmp(b)));
        }
    }
}

#[test]
fn a_document_that_states_no_type_keeps_its_shape() {
    let doc = object(vec![
        ("b", object(vec![("y", text("2")), ("x", text("1"))])),
        ("a", text("0")),
        ("c", object(vec![])),
    ]);
    let labelled = labelize(doc, &Upstream::new());
    assert_eq!(
        CompactValue::from(IntermediateForm::from(TypedForm::from(labelled.clone()))),
        CompactValue::from_simple(labelled)
    );
}
