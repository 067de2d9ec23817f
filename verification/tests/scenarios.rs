use labelizer::compact_key::{CompactKey, SimpleType};
use labelizer::compact_value::CompactValue;
use labelizer::intermediate_form::IntermediateForm;
use labelizer::json::Json;
use labelizer::labelize::{labelize, Upstream};
use labelizer::pipeline::Stage;
use labelizer::simple_value::{SimpleValue, StringType};
use labelizer::typed_form::{Type, TypedForm};

fn text(s: &str) -> Json {
    Json::String(s.to_string())
}

fn object(pairs: Vec<(&str, Json)>) -> Json {
    Json::object(pairs.into_iter().map(|(k, v)| (k.to_string(), v)).collect())
}

fn plain(s: &str) -> StringType {
    StringType::String(s.to_string())
}

fn key(s: &str) -> CompactKey {
    CompactKey::StringType(plain(s), Vec::new())
}

fn langs(list: &[&str]) -> Vec<String> {
    list.iter().map(|s| s.to_string()).collect()
}

fn compactify(doc: Json, upstream: &Upstream) -> CompactValue {
    let val = labelize(doc, upstream);
    let by_steps = {
        let val = IntermediateForm::from(TypedForm::from(val.clone()));
        let val = val.compress_reference();
        let val = val.compress_string();
        let val = val.compress_monolingual();
        let val = val.drop_array_item_types();
        CompactValue::from(val).compress_simple_classes()
    };
    assert_eq!(labelizer::pipeline::compactify(&val), Ok(by_steps.clone()));
    by_steps
}

#[test]
fn plain_string() {
    let upstream = Upstream::new();
    let val = labelize(text("hello"), &upstream);
    assert_eq!(val, SimpleValue::StringType(plain("hello")));
    assert_eq!(val.choose_lang(&langs(&[])), text("hello"));
}

#[test]
fn persistent_object_labeling() {
    let data = object(vec![(
        "Z2K3",
        object(vec![(
            "Z12K1",
            Json::Array(vec![
                text("Z11"),
                object(vec![("Z1K1", text("Z11")), ("Z11K1", text("Z1002")), ("Z11K2", text("Monolingual text"))]),
                object(vec![("Z1K1", text("Z11")), ("Z11K1", text("Z1006")), ("Z11K2", text("单语文本"))]),
            ]),
        )]),
    )]);
    let mut upstream = Upstream::new();
    upstream.record("Z11".to_string(), Ok(data));
    let val = labelize(text("Z11"), &upstream);
    assert_eq!(val.choose_lang(&langs(&["Z1006", "Z1002"])), text("Z11: 单语文本"));
}

#[test]
fn reference_collapse() {
    let upstream = Upstream::new();
    let doc = object(vec![("Z1K1", text("Z9")), ("Z9K1", text("Z11"))]);
    let val = IntermediateForm::from(TypedForm::from(labelize(doc.clone(), &upstream)));
    let val = val.compress_reference();
    assert_eq!(val, IntermediateForm::KeyType(key("Z11")));
    assert_eq!(compactify(doc, &upstream).choose_lang(&langs(&["Z1002"])), text("Z11"));
}

#[test]
fn monolingual_collapse() {
    let upstream = Upstream::new();
    let doc = object(vec![(
        "greet",
        object(vec![("Z1K1", text("Z11")), ("Z11K1", text("Z1002")), ("Z11K2", text("hello"))]),
    )]);
    let val = IntermediateForm::from(TypedForm::from(labelize(doc.clone(), &upstream)));
    let val = val.compress_monolingual();
    let collapsed = IntermediateForm::KeyType(CompactKey::StringType(
        plain("hello"),
        vec![SimpleType(plain("Z1002"))],
    ));
    assert_eq!(val, IntermediateForm::Object(vec![(plain("greet"), collapsed)]));
    let out = compactify(doc, &upstream).choose_lang(&langs(&["Z1002"]));
    assert_eq!(out, object(vec![("greet", text("hello [Z1002]"))]));
}

#[test]
fn array_type_stripping() {
    let upstream = Upstream::new();
    let doc = Json::Array(vec![text("Z6"), text("a"), text("b")]);
    let typed = TypedForm::from(labelize(doc, &upstream));
    assert_eq!(
        typed,
        TypedForm::Array(
            Type::Simple(plain("Z6")),
            vec![TypedForm::StringType(plain("a")), TypedForm::StringType(plain("b"))],
        )
    );
    let compact = CompactValue::from(IntermediateForm::from(typed));
    assert_eq!(
        compact,
        CompactValue::Array(vec![CompactValue::KeyType(key("a")), CompactValue::KeyType(key("b"))])
    );
}

#[test]
fn simple_class_compression() {
    let innermost = CompactValue::object(vec![(key("Z40K1"), CompactValue::KeyType(key("Z41")))]);
    let middle = CompactValue::object(vec![(
        CompactKey::Transient(vec![SimpleType(plain("Z40"))]),
        innermost,
    )]);
    let outer = CompactValue::object(vec![(key("k"), middle)]);
    let out = outer.compress_simple_classes();
    assert_eq!(
        out,
        CompactValue::Object(vec![(
            CompactKey::StringType(
                plain("k"),
                vec![SimpleType(plain("Z40")), SimpleType(plain("Z40K1"))],
            ),
            CompactValue::KeyType(key("Z41")),
        )])
    );
    assert_eq!(
        out.choose_lang(&langs(&["Z1002"])),
        object(vec![("k [Z40, Z40K1]", text("Z41"))])
    );
}

#[test]
fn typed_child_moves_its_type_into_the_key() {
    let upstream = Upstream::new();
    let doc = object(vec![(
        "k",
        object(vec![("Z1K1", text("Z40")), ("Z40K1", text("Z41"))]),
    )]);
    let out = compactify(doc, &upstream).choose_lang(&langs(&["Z1002"]));
    assert_eq!(out, object(vec![("k [Z40, Z40K1]", text("Z41"))]));
}

#[test]
fn the_step_that_cannot_work_is_named() {
    let upstream = Upstream::new();
    let at = |doc: Json| labelizer::pipeline::compactify(&labelize(doc, &upstream));
    assert_eq!(at(Json::Array(vec![])), Err(Stage::Lift));
    assert_eq!(at(object(vec![("Z1K1", text("Z9"))])), Err(Stage::Reference));
    assert_eq!(at(object(vec![("Z1K1", text("Z6"))])), Err(Stage::String));
    assert_eq!(
        at(object(vec![("Z1K1", text("Z11")), ("Z11K1", text("Z1002"))])),
        Err(Stage::Monolingual)
    );
    assert_eq!(
        at(Json::Array(vec![text("Z6"), object(vec![("Z1K1", text("Z9"))]), Json::Array(vec![])])),
        Err(Stage::Lift)
    );
    assert_eq!(
        at(Json::Array(vec![
            text("Z1"),
            object(vec![("Z1K1", text("Z6"))]),
            object(vec![("Z1K1", text("Z9"))]),
        ])),
        Err(Stage::Reference)
    );
    assert_eq!(
        at(object(vec![("Z1K1", text("Z9")), ("Z9K1", text("x"))])),
        Ok(CompactValue::KeyType(key("x")))
    );
}
