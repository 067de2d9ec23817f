use labelizer::compact_key::{CompactKey, SimpleType};
use labelizer::order::Rank;
use labelizer::simple_value::{LabelledNode, SimpleValue, StringType};
use labelizer::text::compare_strings;
use std::cmp::Ordering;

fn plain(s: &str) -> StringType {
    StringType::String(s.to_string())
}

fn node(z: &str, labels: &[(&str, &str)]) -> LabelledNode {
    LabelledNode::from(
        labels.iter().map(|(k, v)| (k.to_string(), v.to_string())).collect(),
        z.to_string(),
    )
}

fn langs(list: &[&str]) -> Vec<String> {
    list.iter().map(|s| s.to_string()).collect()
}

fn rank(o: Ordering) -> Rank {
    match o {
        Ordering::Less => Rank::Less,
        Ordering::Equal => Rank::Equal,
        Ordering::Greater => Rank::Greater,
    }
}

#[test]
fn strings_compare_by_code_point() {
    assert_eq!(compare_strings("a", "b"), Rank::Less);
    assert_eq!(compare_strings("b", "a"), Rank::Greater);
    assert_eq!(compare_strings("a", "a"), Rank::Equal);
    assert_eq!(compare_strings("a", "ab"), Rank::Less);
    assert_eq!(compare_strings("", ""), Rank::Equal);
    assert_eq!(compare_strings("é", "z"), Rank::Greater);
    assert_eq!(compare_strings("Z10", "Z9"), Rank::Less);
}

#[test]
fn label_of_first_preferred_language() {
    let n = node("Z1", &[("Z1006", "b"), ("Z1002", "a")]);
    assert_eq!(n.clone().choose_lang(&langs(&["Z9999", "Z1006", "Z1002"])), "Z1: b");
    assert_eq!(n.clone().choose_lang(&langs(&["Z1002", "Z1006"])), "Z1: a");
}

#[test]
fn label_falls_back_to_first_language_in_order() {
    let n = node("Z1", &[("Z1006", "b"), ("Z1002", "a")]);
    assert_eq!(n.clone().choose_lang(&langs(&[])), "Z1: a");
    assert_eq!(n.choose_lang(&langs(&["Z5"])), "Z1: a");
}

#[test]
fn label_placeholder_without_labels() {
    let n = node("Z1", &[]);
    assert_eq!(n.choose_lang(&langs(&["Z1002"])), "Z1: <no label>");
}

#[test]
fn rendering_of_a_labelled_node_is_never_empty() {
    let n = node("", &[("", "")]);
    assert_eq!(n.choose_lang(&langs(&[])), ": ");
}

#[test]
fn last_label_of_a_language_counts() {
    let n = node("Z1", &[("Z1002", "x"), ("Z1002", "y")]);
    assert_eq!(n, node("Z1", &[("Z1002", "y")]));
    assert_eq!(n.readable_labels(), &vec![("Z1002".to_string(), "y".to_string())]);
    assert_eq!(n.z_label(), "Z1");
    let sorted = node("Z1", &[("b", "2"), ("a", "1")]);
    assert_eq!(
        sorted.readable_labels(),
        &vec![("a".to_string(), "1".to_string()), ("b".to_string(), "2".to_string())]
    );
    assert_eq!(n.choose_lang(&langs(&["Z1002"])), "Z1: y");
}

#[test]
fn is_labelled_looks_at_the_identifier() {
    assert!(plain("Z1K1").is_labelled("Z1K1"));
    assert!(!plain("Z1K1").is_labelled("Z1K2"));
    let n = StringType::LabelledNode(node("Z1K1", &[("Z1002", "type")]));
    assert!(n.is_labelled("Z1K1"));
    assert!(!n.is_labelled("type"));
    assert_eq!(n.to_raw(), "Z1K1");
}

#[test]
fn string_type_renders() {
    assert_eq!(plain("hello").choose_lang(&langs(&["Z1002"])), "hello");
    let n = StringType::LabelledNode(node("Z6", &[("Z1002", "String")]));
    assert_eq!(n.choose_lang(&langs(&["Z1002"])), "Z6: String");
}

#[test]
fn canonical_order_of_strings_is_the_derived_order() {
    let values = vec![
        plain(""),
        plain("a"),
        plain("b"),
        StringType::LabelledNode(node("Z1", &[])),
        StringType::LabelledNode(node("Z0", &[("Z1002", "a")])),
        StringType::LabelledNode(node("Z1", &[("Z1002", "a")])),
        StringType::LabelledNode(node("Z1", &[("Z1002", "a"), ("Z1003", "")])),
        StringType::LabelledNode(node("Z1", &[("Z1002", "b")])),
    ];
    for a in &values {
        for b in &values {
            assert_eq!(a.compare(b), rank(a.cmp(b)));
        }
    }
    assert_eq!(plain("z").compare(&StringType::LabelledNode(node("A", &[]))), Rank::Less);
}

#[test]
fn canonical_order_of_values_is_the_derived_order() {
    let s = |x: &str| SimpleValue::StringType(plain(x));
    let values = vec![
        s("a"),
        s("b"),
        SimpleValue::Array(vec![]),
        SimpleValue::Array(vec![s("a")]),
        SimpleValue::Array(vec![s("a"), s("a")]),
        SimpleValue::Array(vec![s("b")]),
        SimpleValue::object(vec![]),
        SimpleValue::object(vec![(plain("k"), s("a"))]),
        SimpleValue::object(vec![(plain("k"), s("b"))]),
        SimpleValue::object(vec![(plain("k"), s("a")), (plain("l"), s("a"))]),
    ];
    for a in &values {
        for b in &values {
            assert_eq!(a.compare(b), rank(a.cmp(b)));
        }
    }
}

#[test]
fn object_fields_are_a_sorted_set() {
    let s = |x: &str| SimpleValue::StringType(plain(x));
    let o = SimpleValue::object(vec![
        (plain("b"), s("2")),
        (plain("a"), s("1")),
        (plain("b"), s("2")),
        (plain("a"), s("0")),
    ]);
    assert_eq!(
        o,
        SimpleValue::Object(vec![(plain("a"), s("0")), (plain("a"), s("1")), (plain("b"), s("2"))])
    );
}

#[test]
fn key_rendering() {
    let l = langs(&["Z1002"]);
    let t = |x: &str| SimpleType(plain(x));
    assert_eq!(CompactKey::from(plain("k")).choose_lang(&l), "k");
    assert_eq!(CompactKey::StringType(plain("k"), vec![t("Z1")]).choose_lang(&l), "k [Z1]");
    assert_eq!(
        CompactKey::StringType(plain("k"), vec![t("Z1"), t("Z2"), t("Z3")]).choose_lang(&l),
        "k [Z1, Z2, Z3]"
    );
    assert_eq!(CompactKey::Transient(vec![t("Z1"), t("Z2")]).choose_lang(&l), "[Z1, Z2]");
    assert_eq!(CompactKey::Transient(vec![]).choose_lang(&l), "[]");
    let labelled = StringType::LabelledNode(node("Z6", &[("Z1002", "String")]));
    assert_eq!(
        CompactKey::StringType(plain("k"), vec![SimpleType(labelled)]).choose_lang(&l),
        "k [Z6: String]"
    );
}

#[test]
fn canonical_order_of_keys_is_the_derived_order() {
    let t = |x: &str| SimpleType(plain(x));
    let values = vec![
        CompactKey::from(plain("a")),
        CompactKey::StringType(plain("a"), vec![t("Z1")]),
        CompactKey::StringType(plain("a"), vec![t("Z1"), t("Z0")]),
        CompactKey::StringType(plain("b"), vec![]),
        CompactKey::Transient(vec![]),
        CompactKey::Transient(vec![t("Z1")]),
    ];
    for a in &values {
        for b in &values {
            assert_eq!(a.compare(b), rank(a.cmp(b)));
        }
    }
}
