use labelizer::intermediate_form::{IntermediateForm, IntermediateType};
use labelizer::json::Json;
use labelizer::labelize::{labelize, Upstream};
use labelizer::order::Rank;
use labelizer::simple_value::{SimpleValue, StringType};
use labelizer::typed_form::{Type, TypedForm};
use std::cmp::Ordering;

fn text(s: &str) -> Json {
    Json::String(s.to_string())
}

fn object(pairs: Vec<(&str, Json)>) -> Json {
    Json::object(pairs.into_iter().map(|(k, v)| (k.to_string(), v)).collect())
}

fn plain(s: &str) -> StringType {
    StringType::String(s.to_string())
}

fn simple(doc: Json) -> SimpleValue {
    labelize(doc, &Upstream::new())
}

fn leaf(s: &str) -> TypedForm {
    TypedForm::StringType(plain(s))
}

fn rank(o: Ordering) -> Rank {
    match o {
        Ordering::Less => Rank::Less,
        Ordering::Equal => Rank::Equal,
        Ordering::Greater => Rank::Greater,
    }
}

#[test]
fn a_string_is_a_type_without_arguments() {
    assert_eq!(Type::try_from(simple(text("Z6"))), Ok(Type::Simple(plain("Z6"))));
}

#[test]
fn an_array_is_no_type() {
    assert_eq!(Type::try_from(simple(Json::Array(vec![text("Z6")]))), Err(()));
    assert_eq!(Type::checked_try_from(&simple(Json::Array(vec![]))), Some(Err(())));
}

#[test]
fn an_object_without_type_key_is_no_type() {
    assert_eq!(Type::try_from(simple(object(vec![("k", text("v"))]))), Err(()));
}

#[test]
fn an_object_with_type_key_is_a_type_with_arguments() {
    let doc = object(vec![("Z1K1", text("Z7")), ("Z7K1", text("Z881")), ("Z881K1", text("Z6"))]);
    assert_eq!(
        Type::try_from(simple(doc)),
        Ok(Type::WithArgs(
            plain("Z7"),
            vec![(plain("Z7K1"), leaf("Z881")), (plain("Z881K1"), leaf("Z6"))],
        ))
    );
}

#[test]
fn arguments_of_the_inner_type_are_kept_under_the_type_key() {
    let inner = object(vec![("Z1K1", text("Z7")), ("Z7K1", text("Z881"))]);
    let doc = object(vec![("Z1K1", inner), ("K", text("v"))]);
    assert_eq!(
        Type::try_from(simple(doc)),
        Ok(Type::WithArgs(
            plain("Z7"),
            vec![
                (plain("K"), leaf("v")),
                (plain("Z1K1"), TypedForm::Object(vec![(plain("Z7K1"), leaf("Z881"))])),
            ],
        ))
    );
}

#[test]
fn an_object_whose_type_is_no_type_is_no_type() {
    let doc = object(vec![("Z1K1", Json::Array(vec![text("Z6")])), ("K", Json::Array(vec![]))]);
    assert_eq!(Type::checked_try_from(&simple(doc)), Some(Err(())));
}

#[test]
fn malformed_arguments_stop_the_search_for_a_type() {
    let doc = object(vec![("Z1K1", text("Z7")), ("K", Json::Array(vec![]))]);
    assert_eq!(Type::checked_try_from(&simple(doc)), None);
}

#[test]
fn an_empty_array_cannot_be_lifted() {
    assert_eq!(TypedForm::checked_from(&simple(Json::Array(vec![]))), None);
}

#[test]
fn an_array_whose_head_is_no_type_cannot_be_lifted() {
    let doc = Json::Array(vec![Json::Array(vec![text("Z6")]), text("a")]);
    assert_eq!(TypedForm::checked_from(&simple(doc)), None);
    let doc = Json::Array(vec![object(vec![("k", text("v"))]), text("a")]);
    assert_eq!(TypedForm::checked_from(&simple(doc)), None);
}

#[test]
fn an_object_whose_type_is_an_array_cannot_be_lifted() {
    let doc = object(vec![("Z1K1", Json::Array(vec![text("Z6")]))]);
    assert_eq!(TypedForm::checked_from(&simple(doc)), None);
}

#[test]
fn an_array_with_only_its_type_is_empty() {
    let doc = Json::Array(vec![text("Z6")]);
    assert_eq!(
        TypedForm::checked_from(&simple(doc)),
        Some(TypedForm::Array(Type::Simple(plain("Z6")), vec![]))
    );
}

#[test]
fn an_object_with_type_key_becomes_a_typed_object() {
    let doc = object(vec![("Z1K1", text("Z40")), ("Z40K1", text("Z41"))]);
    assert_eq!(
        TypedForm::from(simple(doc)),
        TypedForm::TypedObject(Type::Simple(plain("Z40")), vec![(plain("Z40K1"), leaf("Z41"))])
    );
}

#[test]
fn an_object_without_type_key_stays_plain() {
    let doc = object(vec![("b", text("2")), ("a", Json::Array(vec![text("Z6"), text("x")]))]);
    assert_eq!(
        TypedForm::from(simple(doc)),
        TypedForm::Object(vec![
            (plain("a"), TypedForm::Array(Type::Simple(plain("Z6")), vec![leaf("x")])),
            (plain("b"), leaf("2")),
        ])
    );
}

#[test]
fn the_intermediate_form_keeps_the_tree() {
    let doc = object(vec![
        ("Z1K1", object(vec![("Z1K1", text("Z7")), ("Z7K1", text("Z881"))])),
        ("items", Json::Array(vec![text("Z6"), text("x")])),
    ]);
    let key = |s: &str| IntermediateForm::KeyType(labelizer::compact_key::CompactKey::from(plain(s)));
    assert_eq!(
        IntermediateForm::from(TypedForm::from(simple(doc))),
        IntermediateForm::TypedObject(
            IntermediateType::WithArgs(plain("Z7"), vec![(plain("Z7K1"), key("Z881"))]),
            vec![(
                plain("items"),
                IntermediateForm::Array(IntermediateType::Simple(plain("Z6")), vec![key("x")]),
            )],
        )
    );
}

#[test]
fn canonical_order_of_typed_forms_is_the_derived_order() {
    let docs = vec![
        text("a"),
        Json::Array(vec![text("Z6")]),
        Json::Array(vec![text("Z6"), text("a")]),
        Json::Array(vec![object(vec![("Z1K1", text("Z7")), ("Z7K1", text("Z6"))]), text("a")]),
        object(vec![]),
        object(vec![("k", text("a"))]),
        object(vec![("Z1K1", text("Z40"))]),
        object(vec![("Z1K1", text("Z40")), ("Z40K1", text("a"))]),
        object(vec![("Z1K1", object(vec![("Z1K1", text("Z7")), ("Z7K1", text("Z6"))]))]),
    ];
    let typed: Vec<TypedForm> = docs.iter().map(|d| TypedForm::from(simple(d.clone()))).collect();
    for a in &typed {
        for b in &typed {
            assert_eq!(a.compare(b), rank(a.cmp(b)));
        }
    }
    let inter: Vec<IntermediateForm> = typed.iter().map(|t| IntermediateForm::from(t.clone())).collect();
    for a in &inter {
        for b in &inter {
            assert_eq!(a.compare(b), rank(a.cmp(b)));
        }
    }
}

#[test]
fn debug_rendering_shows_the_types() {
    let doc = object(vec![
        ("Z1K1", object(vec![("Z1K1", text("Z7")), ("Z7K1", text("Z881"))])),
        ("items", Json::Array(vec![text("Z6"), text("x")])),
    ]);
    let langs = vec!["Z1002".to_string()];
    let expected = object(vec![
        (
            "debug type",
            object(vec![("type", text("Z7")), ("args", object(vec![("Z7K1", text("Z881"))]))]),
        ),
        ("debug obj", object(vec![("items", Json::Array(vec![text("Z6"), text("x")]))])),
    ]);
    let typed = TypedForm::from(simple(doc));
    assert_eq!(typed.clone().choose_lang(&langs), expected);
    assert_eq!(IntermediateForm::from(typed).choose_lang(&langs), expected);
}
