use labelizer::compact_key::{CompactKey, SimpleType};
use labelizer::intermediate_form::{IntermediateForm, IntermediateType};
use labelizer::json::Json;
use labelizer::labelize::{labelize, Upstream};
use labelizer::simple_value::{LabelledNode, StringType};
use labelizer::typed_form::TypedForm;

fn text(s: &str) -> Json {
    Json::String(s.to_string())
}

fn object(pairs: Vec<(&str, Json)>) -> Json {
    Json::object(pairs.into_iter().map(|(k, v)| (k.to_string(), v)).collect())
}

fn plain(s: &str) -> StringType {
    StringType::String(s.to_string())
}

fn key(s: &str) -> IntermediateForm {
    IntermediateForm::KeyType(CompactKey::from(plain(s)))
}

fn form(doc: Json) -> IntermediateForm {
    IntermediateForm::from(TypedForm::from(labelize(doc, &Upstream::new())))
}

fn reference(to: &str) -> Json {
    object(vec![("Z1K1", text("Z9")), ("Z9K1", text(to))])
}

#[test]
fn references_collapse_everywhere() {
    let doc = object(vec![
        ("a", reference("Z11")),
        ("b", Json::Array(vec![text("Z1"), reference("Z12"), text("x")])),
        ("c", object(vec![("Z1K1", text("Z40")), ("Z40K1", reference("Z41"))])),
    ]);
    let out = form(doc).compress_reference();
    assert_eq!(
        out,
        IntermediateForm::Object(vec![
            (plain("a"), key("Z11")),
            (
                plain("b"),
                IntermediateForm::Array(
                    IntermediateType::Simple(plain("Z1")),
                    vec![key("Z12"), key("x")],
                ),
            ),
            (
                plain("c"),
                IntermediateForm::TypedObject(
                    IntermediateType::Simple(plain("Z40")),
                    vec![(plain("Z40K1"), key("Z41"))],
                ),
            ),
        ])
    );
    assert_eq!(out.clone().compress_reference(), out);
}

#[test]
fn a_type_that_is_a_reference_is_replaced_by_what_it_refers_to() {
    let doc = Json::Array(vec![reference("Z6"), text("a")]);
    let before = form(doc);
    assert_eq!(
        before,
        IntermediateForm::Array(
            IntermediateType::WithArgs(plain("Z9"), vec![(plain("Z9K1"), key("Z6"))]),
            vec![key("a")],
        )
    );
    assert_eq!(
        before.compress_reference(),
        IntermediateForm::Array(IntermediateType::Simple(plain("Z6")), vec![key("a")])
    );
}

#[test]
fn a_reference_type_without_its_key_looks_under_the_type_key() {
    let t = IntermediateType::WithArgs(
        plain("Z9"),
        vec![
            (plain("K"), form(reference("Z5"))),
            (plain("Z1K1"), IntermediateForm::Object(vec![(plain("Z9K1"), key("Z881"))])),
        ],
    );
    assert_eq!(
        t.compress_reference(),
        IntermediateType::WithArgs(plain("Z881"), vec![(plain("K"), form(reference("Z5")))])
    );
}

#[test]
fn a_reference_without_a_string_cannot_be_collapsed() {
    let missing = form(object(vec![("Z1K1", text("Z9")), ("K", text("x"))]));
    assert_eq!(missing.checked_compress_reference(), None);
    let nested = form(object(vec![("Z1K1", text("Z9")), ("Z9K1", Json::Array(vec![text("Z6")]))]));
    assert_eq!(nested.checked_compress_reference(), None);
    let fine = form(object(vec![("k", reference("Z1"))]));
    assert_eq!(
        fine.checked_compress_reference(),
        Some(IntermediateForm::Object(vec![(plain("k"), key("Z1"))]))
    );
}

#[test]
fn a_second_run_goes_on_where_a_type_resolves_to_a_reference() {
    let doc = object(vec![("Z1K1", reference("Z9")), ("Z9K1", text("x"))]);
    let once = form(doc).compress_reference();
    assert_eq!(
        once,
        IntermediateForm::TypedObject(
            IntermediateType::Simple(plain("Z9")),
            vec![(plain("Z9K1"), key("x"))],
        )
    );
    assert_eq!(once.compress_reference(), key("x"));
}

#[test]
fn strings_collapse_without_their_labels() {
    let doc = object(vec![("k", object(vec![("Z1K1", text("Z6")), ("Z6K1", text("abc"))]))]);
    let out = form(doc).compress_string();
    assert_eq!(out, IntermediateForm::Object(vec![(plain("k"), key("abc"))]));
    assert_eq!(out.clone().compress_string(), out);

    let labelled = StringType::LabelledNode(LabelledNode::from(
        vec![("Z1002".to_string(), "String".to_string())],
        "Z6".to_string(),
    ));
    let wrapped = IntermediateForm::TypedObject(
        IntermediateType::Simple(plain("Z6")),
        vec![(plain("Z6K1"), IntermediateForm::KeyType(CompactKey::from(labelled)))],
    );
    assert_eq!(wrapped.compress_string(), key("Z6"));
}

#[test]
fn a_type_that_is_a_string_object_is_replaced_by_its_string() {
    let doc = Json::Array(vec![
        object(vec![("Z1K1", text("Z6")), ("Z6K1", text("Z40"))]),
        object(vec![("Z1K1", text("Z6")), ("Z6K1", text("a"))]),
    ]);
    assert_eq!(
        form(doc).compress_string(),
        IntermediateForm::Array(IntermediateType::Simple(plain("Z40")), vec![key("a")])
    );
}

#[test]
fn a_string_object_without_its_string_cannot_be_collapsed() {
    let doc = object(vec![("Z1K1", text("Z6"))]);
    assert_eq!(form(doc).checked_compress_string(), None);
}

#[test]
fn monolingual_texts_collapse_with_their_language() {
    let mono = object(vec![("Z1K1", text("Z11")), ("Z11K1", text("Z1002")), ("Z11K2", text("hello"))]);
    let doc = Json::Array(vec![text("Z11"), mono]);
    let out = form(doc).compress_monolingual();
    assert_eq!(
        out,
        IntermediateForm::Array(
            IntermediateType::Simple(plain("Z11")),
            vec![IntermediateForm::KeyType(CompactKey::StringType(
                plain("hello"),
                vec![SimpleType(plain("Z1002"))],
            ))],
        )
    );
    assert_eq!(out.clone().compress_monolingual(), out);
}

#[test]
fn a_monolingual_text_without_its_strings_cannot_be_collapsed() {
    let doc = object(vec![("Z1K1", text("Z11")), ("Z11K1", text("Z1002"))]);
    assert_eq!(form(doc).checked_compress_monolingual(), None);
    let doc = object(vec![("Z1K1", text("Z11")), ("Z11K2", text("hello"))]);
    assert_eq!(form(doc).checked_compress_monolingual(), None);
}

#[test]
fn items_of_arrays_lose_their_type() {
    let item = object(vec![("Z1K1", text("Z40")), ("Z40K1", text("a"))]);
    let doc = object(vec![
        ("list", Json::Array(vec![text("Z40"), item.clone(), text("x")])),
        ("one", item),
    ]);
    let typed_item = IntermediateForm::TypedObject(
        IntermediateType::Simple(plain("Z40")),
        vec![(plain("Z40K1"), key("a"))],
    );
    let out = form(doc).drop_array_item_types();
    assert_eq!(
        out,
        IntermediateForm::Object(vec![
            (
                plain("list"),
                IntermediateForm::Array(
                    IntermediateType::Simple(plain("Z40")),
                    vec![IntermediateForm::Object(vec![(plain("Z40K1"), key("a"))]), key("x")],
                ),
            ),
            (plain("one"), typed_item),
        ])
    );
    assert_eq!(out.clone().drop_array_item_types(), out);
}

#[test]
fn the_type_of_an_array_stays_as_it_is() {
    let item = object(vec![("Z1K1", text("Z40")), ("Z40K1", text("a"))]);
    let head = object(vec![
        ("Z1K1", text("Z7")),
        ("Z7K1", Json::Array(vec![text("Z40"), item.clone()])),
    ]);
    let doc = Json::Array(vec![head, item]);
    let before = form(doc);
    let after = before.clone().drop_array_item_types();
    match (before, after) {
        (IntermediateForm::Array(t, _), IntermediateForm::Array(u, items)) => {
            assert_eq!(t, u);
            assert_eq!(items, vec![IntermediateForm::Object(vec![(plain("Z40K1"), key("a"))])]);
        }
        _ => panic!("an array stays an array"),
    }
}

#[test]
fn passes_on_the_fields_of_an_object() {
    let fields = vec![(plain("k"), form(reference("Z1")))];
    assert_eq!(
        labelizer::passes::compress_reference(fields.clone()),
        vec![(plain("k"), key("Z1"))]
    );
    assert_eq!(labelizer::passes::compress_string(fields.clone()), fields);
    assert_eq!(labelizer::passes::compress_monolingual(fields.clone()), fields);
    assert_eq!(labelizer::passes::drop_array_item_types(fields.clone()), fields);
}

#[test]
fn a_second_run_goes_on_where_a_type_resolves_to_the_string_type() {
    let string_object = |s: &str| object(vec![("Z1K1", text("Z6")), ("Z6K1", text(s))]);
    let doc = object(vec![("Z1K1", string_object("Z6")), ("Z6K1", text("x"))]);
    let once = form(doc).compress_string();
    assert_eq!(
        once,
        IntermediateForm::TypedObject(
            IntermediateType::Simple(plain("Z6")),
            vec![(plain("Z6K1"), key("x"))],
        )
    );
    assert_eq!(once.compress_string(), key("x"));
}
