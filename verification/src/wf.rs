//! Every step of the way from a document to its compact value keeps forms
//! well-formed: the fields of every object remain a set in its one
//! representation.

use crate::compact_key::CompactKeyView;
use crate::compact_value::{
    args_key, classes_fields, classes_items, compact, compact_fields, compact_items,
    compact_object, merged, plain_compact, plain_fields, plain_items, type_ident,
    untyped, CompactValueView,
};
use crate::intermediate_form::{
    inter_fields_wf, retag, retag_fields, retag_items, retag_type, IntermediateFormView,
    IntermediateTypeView,
};
use crate::json::JsonView;
use crate::labelize::{
    fetched, id_kind, key_labels, labelled, labelled_fields, labelled_items, owner,
    persistent_labels, resolved, IdKind, MyErrorView,
};
use crate::laws::lemma_text_under_wf;
use crate::order::{
    ascending, collect, insert, lemma_collect_keeps, lemma_gather, lemma_insert_keeps,
};
use crate::passes::{
    drop_fields, drop_items, language_key, monolingual_admits_fields, monolingual_fields,
    monolingual_items, monolingual_tag, text_key,
};
use crate::simple_value::{
    field_keys, first_labelled, lemma_first_labelled, lemma_without_keeps, without,
    SimpleValueView, StringTypeView,
};
use crate::typed_form::{
    lift, lift_fields, lift_items, lift_type, liftable, liftable_type, rest_liftable, type_key,
    typed_fields_wf, TypeView, TypedFormView,
};
use vstd::prelude::*;

verus! {

/// A field of a labelled document with well-formed key and value.
pub open spec fn simple_field_ok() -> spec_fn((StringTypeView, SimpleValueView)) -> bool {
    |e: (StringTypeView, SimpleValueView)| e.0.wf() && e.1.wf()
}

/// A field of a typed form with well-formed key and value.
pub open spec fn typed_field_ok() -> spec_fn((StringTypeView, TypedFormView)) -> bool {
    |e: (StringTypeView, TypedFormView)| e.0.wf() && e.1.wf()
}

/// A field of an intermediate form with well-formed key and value.
pub open spec fn inter_field_ok() -> spec_fn((StringTypeView, IntermediateFormView)) -> bool {
    |e: (StringTypeView, IntermediateFormView)| e.0.wf() && e.1.wf()
}

/// A field of a compact value with well-formed key and value.
pub open spec fn compact_field_ok() -> spec_fn((CompactKeyView, CompactValueView)) -> bool {
    |e: (CompactKeyView, CompactValueView)| e.0.wf() && e.1.wf()
}

// ---- labelling ----

/// A resolved string is well-formed: its labels are a map.
pub proof fn lemma_resolved_wf(
    s: Seq<char>,
    answers: Seq<(Seq<char>, Result<JsonView, MyErrorView>)>,
)
    ensures
        resolved(s, answers).wf(),
{
    match id_kind(s) {
        IdKind::Persistent => match fetched(answers, s) {
            Ok(data) => match persistent_labels(data) {
                Ok(pairs) => {
                    lemma_gather(pairs);
                },
                Err(_) => {},
            },
            Err(_) => {},
        },
        IdKind::GlobalKey => match fetched(answers, owner(s)) {
            Ok(data) => match key_labels(data, s) {
                Ok(pairs) => {
                    lemma_gather(pairs);
                },
                Err(_) => {},
            },
            Err(_) => {},
        },
        IdKind::Plain => {},
    }
}

/// A labelled document is well-formed.
pub proof fn lemma_labelled_wf(
    v: JsonView,
    answers: Seq<(Seq<char>, Result<JsonView, MyErrorView>)>,
)
    ensures
        labelled(v, answers).wf(),
    decreases v,
{
    match v {
        JsonView::String(s) => {
            lemma_resolved_wf(s, answers);
        },
        JsonView::Array(items) => {
            let after = labelled_items(items, answers);
            assert forall|i: int| 0 <= i < after.len() implies (#[trigger] after[i]).wf() by {
                lemma_labelled_wf(items[i], answers);
            }
        },
        JsonView::Object(members) => {
            let m = labelled_fields(members, answers);
            assert forall|i: int| 0 <= i < m.len() implies simple_field_ok()(#[trigger] m[i]) by {
                lemma_resolved_wf(members[i].0, answers);
                lemma_labelled_wf(members[i].1, answers);
            }
            lemma_collect_keeps(m, simple_field_ok());
            let kept = collect(m);
            assert forall|j: int| 0 <= j < kept.len() implies (#[trigger] kept[j]).0.wf() && kept[j].1.wf() by {
                assert(simple_field_ok()(kept[j]));
            }
        },
        _ => {},
    }
}

// ---- lifting ----

/// Whether key and value of every field are well-formed.
pub open spec fn simple_fields_ok(o: Seq<(StringTypeView, SimpleValueView)>) -> bool {
    forall|i: int| 0 <= i < o.len() ==> (#[trigger] o[i]).0.wf() && o[i].1.wf()
}

proof fn lemma_lift_rest_wf(o: Seq<(StringTypeView, SimpleValueView)>)
    requires
        simple_fields_ok(o),
        rest_liftable(o),
    ensures
        typed_fields_wf(collect(without(lift_fields(o), type_key()))),
    decreases o, 0int,
{
    let l = lift_fields(o);
    assert forall|i: int| 0 <= i < l.len() && !(#[trigger] l[i]).0.is_labelled(type_key()) implies typed_field_ok()(
        l[i],
    ) by {
        assert(o[i].0.wf() && o[i].1.wf());
        assert(liftable(o[i].1));
        lemma_lift_wf(o[i].1);
    }
    lemma_without_keeps(l, type_key(), typed_field_ok());
    lemma_collect_keeps(without(l, type_key()), typed_field_ok());
    let c = collect(without(l, type_key()));
    assert forall|j: int| 0 <= j < c.len() implies (#[trigger] c[j]).0.wf() && c[j].1.wf() by {
        assert(typed_field_ok()(c[j]));
    }
}

/// The type that a well-formed value describes is well-formed.
pub proof fn lemma_lift_type_wf(v: SimpleValueView)
    requires
        v.wf(),
        liftable_type(v),
        lift_type(v) is Some,
    ensures
        lift_type(v).unwrap().wf(),
    decreases v, 1int,
{
    match v {
        SimpleValueView::Object(o) => {
            let i = first_labelled(field_keys(o), type_key(), 0);
            assert(0 <= i < o.len());
            assert(o[i].0.wf() && o[i].1.wf());
            let inner = lift_type(o[i].1);
            assert(inner is Some);
            assert(liftable_type(o[i].1));
            assert(rest_liftable(o));
            assert(simple_fields_ok(o));
            lemma_lift_type_wf(o[i].1);
            lemma_lift_rest_wf(o);
            let rest = collect(without(lift_fields(o), type_key()));
            match inner.unwrap() {
                TypeView::Simple(s) => {
                    assert(lift_type(v).unwrap() == TypeView::WithArgs(s, rest));
                },
                TypeView::WithArgs(s, args) => {
                    assert(typed_fields_wf(args));
                    lemma_stripped_wf(args);
                    let extra = (
                        o[i].0,
                        TypedFormView::Object(collect(without(args, type_key()))),
                    );
                    assert(typed_field_ok()(extra));
                    assert forall|j: int| 0 <= j < rest.len() implies typed_field_ok()(
                        #[trigger] rest[j],
                    ) by {
                        assert(rest[j].0.wf() && rest[j].1.wf());
                    }
                    lemma_insert_keeps(rest, extra, typed_field_ok());
                    let all = insert(rest, extra);
                    assert forall|j: int| 0 <= j < all.len() implies (#[trigger] all[j]).0.wf()
                        && all[j].1.wf() by {
                        assert(typed_field_ok()(all[j]));
                    }
                    assert(lift_type(v).unwrap() == TypeView::WithArgs(s, all));
                },
            }
        },
        _ => {},
    }
}

/// The arguments of a type without those under the type key are
/// well-formed fields.
proof fn lemma_stripped_wf(args: Seq<(StringTypeView, TypedFormView)>)
    requires
        typed_fields_wf(args),
    ensures
        typed_fields_wf(collect(without(args, type_key()))),
{
    assert forall|j: int|
        0 <= j < args.len() && !(#[trigger] args[j]).0.is_labelled(type_key()) implies typed_field_ok()(
        args[j],
    ) by {
        assert(args[j].0.wf() && args[j].1.wf());
    }
    lemma_without_keeps(args, type_key(), typed_field_ok());
    lemma_collect_keeps(without(args, type_key()), typed_field_ok());
    let c = collect(without(args, type_key()));
    assert forall|j: int| 0 <= j < c.len() implies (#[trigger] c[j]).0.wf() && c[j].1.wf() by {
        assert(typed_field_ok()(c[j]));
    }
}

/// Lifting keeps a value well-formed.
pub proof fn lemma_lift_wf(v: SimpleValueView)
    requires
        v.wf(),
        liftable(v),
    ensures
        lift(v).wf(),
    decreases v, 1int,
{
    match v {
        SimpleValueView::StringType(_) => {},
        SimpleValueView::Array(items) => {
            lemma_lift_array_wf(items);
        },
        SimpleValueView::Object(o) => {
            assert(simple_fields_ok(o));
            lemma_lift_object_wf(o);
        },
    }
}

proof fn lemma_lift_array_wf(items: Seq<SimpleValueView>)
    requires
        SimpleValueView::Array(items).wf(),
        liftable(SimpleValueView::Array(items)),
    ensures
        lift(SimpleValueView::Array(items)).wf(),
    decreases items, 0int,
{
    assert(items.len() > 0);
    assert(items[0].wf());
    assert(liftable_type(items[0]) && lift_type(items[0]) is Some);
    lemma_lift_type_wf(items[0]);
    let head = lift_type(items[0]).unwrap();
    let after = lift_items(items.drop_first());
    assert forall|i: int| 0 <= i < after.len() implies (#[trigger] after[i]).wf() by {
        assert(items.drop_first()[i] == items[i + 1]);
        assert(items[i + 1].wf());
        assert(liftable(items[i + 1]));
        lemma_lift_wf(items[i + 1]);
        assert(after[i] == lift(items[i + 1]));
    }
    assert(lift(SimpleValueView::Array(items)) == TypedFormView::Array(head, after));
    assert(TypedFormView::Array(head, after).wf());
}

proof fn lemma_lift_object_wf(o: Seq<(StringTypeView, SimpleValueView)>)
    requires
        simple_fields_ok(o),
        liftable(SimpleValueView::Object(o)),
    ensures
        lift(SimpleValueView::Object(o)).wf(),
    decreases o, 2int,
{
    let i = first_labelled(field_keys(o), type_key(), 0);
    lemma_first_labelled(field_keys(o), type_key(), 0);
    if 0 <= i < o.len() {
        lemma_lift_typed_object_wf(o, i);
    } else {
        lemma_lift_all_wf(o);
    }
}

proof fn lemma_lift_typed_object_wf(o: Seq<(StringTypeView, SimpleValueView)>, i: int)
    requires
        simple_fields_ok(o),
        rest_liftable(o),
        0 <= i < o.len(),
        liftable_type(o[i].1),
        lift_type(o[i].1) is Some,
    ensures
        lift_type(o[i].1).unwrap().wf(),
        typed_fields_wf(collect(without(lift_fields(o), type_key()))),
    decreases o, 1int,
{
    assert(o[i].0.wf() && o[i].1.wf());
    lemma_lift_type_wf(o[i].1);
    lemma_lift_rest_wf(o);
}

proof fn lemma_lift_all_wf(o: Seq<(StringTypeView, SimpleValueView)>)
    requires
        simple_fields_ok(o),
        rest_liftable(o),
        first_labelled(field_keys(o), type_key(), 0) >= o.len(),
    ensures
        typed_fields_wf(collect(lift_fields(o))),
    decreases o, 0int,
{
    let l = lift_fields(o);
    lemma_first_labelled(field_keys(o), type_key(), 0);
    assert forall|j: int| 0 <= j < l.len() implies typed_field_ok()(#[trigger] l[j]) by {
        assert(o[j].0.wf() && o[j].1.wf());
        assert(!field_keys(o)[j].is_labelled(type_key()));
        assert(!o[j].0.is_labelled(type_key()));
        assert(liftable(o[j].1));
        lemma_lift_wf(o[j].1);
    }
    lemma_collect_keeps(l, typed_field_ok());
    let c = collect(l);
    assert forall|j: int| 0 <= j < c.len() implies (#[trigger] c[j]).0.wf() && c[j].1.wf() by {
        assert(typed_field_ok()(c[j]));
    }
}

// ---- into the intermediate form ----

proof fn lemma_retag_fields_wf(o: Seq<(StringTypeView, TypedFormView)>)
    requires
        typed_fields_wf(o),
    ensures
        inter_fields_wf(collect(retag_fields(o))),
    decreases o,
{
    let m = retag_fields(o);
    assert forall|i: int| 0 <= i < m.len() implies inter_field_ok()(#[trigger] m[i]) by {
        assert(o[i].0.wf() && o[i].1.wf());
        lemma_retag_wf(o[i].1);
    }
    lemma_collect_keeps(m, inter_field_ok());
            let kept = collect(m);
            assert forall|j: int| 0 <= j < kept.len() implies (#[trigger] kept[j]).0.wf() && kept[j].1.wf() by {
                assert(inter_field_ok()(kept[j]));
            }
}

/// The type with its arguments in the intermediate form stays well-formed.
pub proof fn lemma_retag_type_wf(t: TypeView)
    requires
        t.wf(),
    ensures
        retag_type(t).wf(),
    decreases t,
{
    match t {
        TypeView::Simple(_) => {},
        TypeView::WithArgs(_, args) => {
            lemma_retag_fields_wf(args);
        },
    }
}

/// The intermediate form of a well-formed typed form is well-formed.
pub proof fn lemma_retag_wf(v: TypedFormView)
    requires
        v.wf(),
    ensures
        retag(v).wf(),
    decreases v,
{
    match v {
        TypedFormView::StringType(_) => {},
        TypedFormView::Array(t, items) => {
            lemma_retag_type_wf(t);
            let after = retag_items(items);
            assert forall|i: int| 0 <= i < after.len() implies (#[trigger] after[i]).wf() by {
                assert(items[i].wf());
                lemma_retag_wf(items[i]);
            }
        },
        TypedFormView::Object(o) => {
            lemma_retag_fields_wf(o);
        },
        TypedFormView::TypedObject(t, o) => {
            lemma_retag_type_wf(t);
            lemma_retag_fields_wf(o);
        },
    }
}

// ---- monolingual texts ----

/// The pass on the value of every field keeps the fields well-formed.
pub proof fn lemma_monolingual_wf_fields(o: Seq<(StringTypeView, IntermediateFormView)>)
    requires
        inter_fields_wf(o),
        monolingual_admits_fields(o),
    ensures
        inter_fields_wf(collect(monolingual_fields(o))),
    decreases o,
{
    let m = monolingual_fields(o);
    assert forall|i: int| 0 <= i < m.len() implies inter_field_ok()(#[trigger] m[i]) by {
        assert(o[i].0.wf() && o[i].1.wf() && o[i].1.admits_compress_monolingual());
        lemma_compress_monolingual_wf(o[i].1);
    }
    lemma_collect_keeps(m, inter_field_ok());
            let kept = collect(m);
            assert forall|j: int| 0 <= j < kept.len() implies (#[trigger] kept[j]).0.wf() && kept[j].1.wf() by {
                assert(inter_field_ok()(kept[j]));
            }
}

/// The pass keeps a type well-formed.
pub proof fn lemma_monolingual_wf_type(t: IntermediateTypeView)
    requires
        t.wf(),
        t.admits_compress_monolingual(),
    ensures
        t.compress_monolingual().wf(),
    decreases t,
{
    match t {
        IntermediateTypeView::Simple(_) => {},
        IntermediateTypeView::WithArgs(_, args) => {
            lemma_monolingual_wf_fields(args);
        },
    }
}

/// `compress_monolingual` keeps a form well-formed.
pub proof fn lemma_compress_monolingual_wf(v: IntermediateFormView)
    requires
        v.wf(),
        v.admits_compress_monolingual(),
    ensures
        v.compress_monolingual().wf(),
    decreases v,
{
    match v {
        IntermediateFormView::KeyType(_) => {},
        IntermediateFormView::Array(t, items) => {
            lemma_monolingual_wf_type(t);
            let after = monolingual_items(items);
            assert forall|i: int| 0 <= i < after.len() implies (#[trigger] after[i]).wf() by {
                assert(items[i].wf() && items[i].admits_compress_monolingual());
                lemma_compress_monolingual_wf(items[i]);
            }
        },
        IntermediateFormView::Object(o) => {
            lemma_monolingual_wf_fields(o);
        },
        IntermediateFormView::TypedObject(t, o) => {
            if t.names(monolingual_tag()) {
                lemma_text_under_wf(o, text_key());
                lemma_text_under_wf(o, language_key());
            } else {
                lemma_monolingual_wf_type(t);
                lemma_monolingual_wf_fields(o);
            }
        },
    }
}

// ---- types of the items of arrays ----

/// The pass on the value of every field keeps the fields well-formed.
pub proof fn lemma_drop_fields_wf(o: Seq<(StringTypeView, IntermediateFormView)>)
    requires
        inter_fields_wf(o),
    ensures
        inter_fields_wf(collect(drop_fields(o))),
    decreases o, 0int,
{
    let m = drop_fields(o);
    assert forall|i: int| 0 <= i < m.len() implies inter_field_ok()(#[trigger] m[i]) by {
        assert(o[i].0.wf() && o[i].1.wf());
        lemma_drop_array_item_types_wf(o[i].1);
    }
    lemma_collect_keeps(m, inter_field_ok());
            let kept = collect(m);
            assert forall|j: int| 0 <= j < kept.len() implies (#[trigger] kept[j]).0.wf() && kept[j].1.wf() by {
                assert(inter_field_ok()(kept[j]));
            }
}

/// `drop_array_item_types` keeps a form well-formed.
pub proof fn lemma_drop_array_item_types_wf(v: IntermediateFormView)
    requires
        v.wf(),
    ensures
        v.drop_array_item_types().wf(),
    decreases v, 1int,
{
    match v {
        IntermediateFormView::KeyType(_) => {},
        IntermediateFormView::Array(t, items) => {
            assert(t.wf());
            let after = drop_items(items);
            assert forall|i: int| 0 <= i < after.len() implies (#[trigger] after[i]).wf() by {
                assert(items[i].wf());
                match items[i] {
                    IntermediateFormView::TypedObject(_, o) => {
                        assert(inter_fields_wf(o));
                        lemma_drop_fields_wf(o);
                        assert(after[i] == IntermediateFormView::Object(collect(drop_fields(o))));
                    },
                    _ => {
                        lemma_drop_array_item_types_wf(items[i]);
                        assert(after[i] == items[i].drop_array_item_types());
                    },
                }
            }
            assert(v.drop_array_item_types() == IntermediateFormView::Array(t, after));
        },
        IntermediateFormView::Object(o) => {
            lemma_drop_fields_wf(o);
        },
        IntermediateFormView::TypedObject(t, o) => {
            assert(t.wf());
            match t {
                IntermediateTypeView::Simple(_) => {},
                IntermediateTypeView::WithArgs(s, args) => {
                    assert(inter_fields_wf(args));
                    lemma_drop_fields_wf(args);
                    assert(t.drop_array_item_types() == IntermediateTypeView::WithArgs(
                        s,
                        collect(drop_fields(args)),
                    ));
                },
            }
            assert(t.drop_array_item_types().wf());
            lemma_drop_fields_wf(o);
        },
    }
}

// ---- into the compact value ----

proof fn lemma_compact_fields_wf(o: Seq<(StringTypeView, IntermediateFormView)>)
    requires
        inter_fields_wf(o),
    ensures
        compact_object(o).wf(),
    decreases o, 2int,
{
    let m = compact_fields(o);
    assert forall|i: int| 0 <= i < m.len() implies compact_field_ok()(#[trigger] m[i]) by {
        assert(o[i].0.wf() && o[i].1.wf());
        lemma_untyped_wf(o[i].1);
        match o[i].1 {
            IntermediateFormView::Array(t, _) => {
                assert(t.wf());
                assert(type_ident(t).wf());
            },
            IntermediateFormView::TypedObject(t, _) => {
                assert(t.wf());
                assert(type_ident(t).wf());
            },
            _ => {},
        }
    }
    lemma_collect_keeps(m, compact_field_ok());
            let kept = collect(m);
            assert forall|j: int| 0 <= j < kept.len() implies (#[trigger] kept[j]).0.wf() && kept[j].1.wf() by {
                assert(compact_field_ok()(kept[j]));
            }
}

/// A well-formed form without the identifier of its type is a well-formed
/// compact value.
pub proof fn lemma_untyped_wf(v: IntermediateFormView)
    requires
        v.wf(),
    ensures
        untyped(v).wf(),
    decreases v, 0int,
{
    match v {
        IntermediateFormView::KeyType(_) => {},
        IntermediateFormView::Array(t, items) => {
            let after = compact_items(items);
            assert forall|i: int| 0 <= i < after.len() implies (#[trigger] after[i]).wf() by {
                assert(items[i].wf());
                lemma_compact_wf(items[i]);
            }
            assert(t.wf());
            match t {
                IntermediateTypeView::Simple(_) => {},
                IntermediateTypeView::WithArgs(_, args) => {
                    assert(inter_fields_wf(args));
                    lemma_compact_fields_wf(args);
                    let all = seq![compact_object(args)] + after;
                    assert forall|i: int| 0 <= i < all.len() implies (#[trigger] all[i]).wf() by {
                        if i > 0 {
                            assert(all[i] == after[i - 1]);
                        }
                    }
                },
            }
        },
        IntermediateFormView::Object(o) => {
            lemma_compact_fields_wf(o);
        },
        IntermediateFormView::TypedObject(t, o) => {
            lemma_compact_fields_wf(o);
            assert(t.wf());
            match t {
                IntermediateTypeView::Simple(_) => {},
                IntermediateTypeView::WithArgs(_, args) => {
                    assert(inter_fields_wf(args));
                    lemma_compact_fields_wf(args);
                    let extra = (args_key(), compact_object(args));
                    let rest = collect(compact_fields(o));
                    assert(compact_field_ok()(extra));
                    assert forall|j: int| 0 <= j < rest.len() implies compact_field_ok()(
                        #[trigger] rest[j],
                    ) by {
                        assert(rest[j].0.wf() && rest[j].1.wf());
                    }
                    lemma_insert_keeps(rest, extra, compact_field_ok());
                    let all = insert(rest, extra);
                    assert forall|j: int| 0 <= j < all.len() implies (#[trigger] all[j]).0.wf()
                        && all[j].1.wf() by {
                        assert(compact_field_ok()(all[j]));
                    }
                },
            }
        },
    }
}

/// The compact value of a well-formed form is well-formed.
pub proof fn lemma_compact_wf(v: IntermediateFormView)
    requires
        v.wf(),
    ensures
        compact(v).wf(),
    decreases v, 1int,
{
    lemma_untyped_wf(v);
    match v {
        IntermediateFormView::TypedObject(t, _) => {
            assert(t.wf());
            assert(type_ident(t).wf());
            let key = CompactKeyView::Transient(seq![type_ident(t)]);
            assert(key.wf());
            let fields = seq![(key, untyped(v))];
            assert(ascending(fields));
            assert(compact(v) == CompactValueView::Object(fields));
        },
        _ => {},
    }
}

/// The compact value of a well-formed labelled document is well-formed.
pub proof fn lemma_plain_compact_wf(v: SimpleValueView)
    requires
        v.wf(),
    ensures
        plain_compact(v).wf(),
    decreases v,
{
    match v {
        SimpleValueView::StringType(_) => {},
        SimpleValueView::Array(items) => {
            let after = plain_items(items);
            assert forall|i: int| 0 <= i < after.len() implies (#[trigger] after[i]).wf() by {
                assert(items[i].wf());
                lemma_plain_compact_wf(items[i]);
            }
        },
        SimpleValueView::Object(o) => {
            let m = plain_fields(o);
            assert forall|i: int| 0 <= i < m.len() implies compact_field_ok()(#[trigger] m[i]) by {
                assert(o[i].0.wf() && o[i].1.wf());
                lemma_plain_compact_wf(o[i].1);
            }
            lemma_collect_keeps(m, compact_field_ok());
            let kept = collect(m);
            assert forall|j: int| 0 <= j < kept.len() implies (#[trigger] kept[j]).0.wf() && kept[j].1.wf() by {
                assert(compact_field_ok()(kept[j]));
            }
        },
    }
}

// ---- objects of one field ----

/// `compress_simple_classes` keeps a value well-formed.
pub proof fn lemma_compress_simple_classes_wf(v: CompactValueView)
    requires
        v.wf(),
    ensures
        v.compress_simple_classes().wf(),
    decreases v,
{
    match v {
        CompactValueView::KeyType(_) => {},
        CompactValueView::Array(items) => {
            let after = classes_items(items);
            assert forall|i: int| 0 <= i < after.len() implies (#[trigger] after[i]).wf() by {
                assert(items[i].wf());
                lemma_compress_simple_classes_wf(items[i]);
            }
        },
        CompactValueView::Object(o) => {
            let m = classes_fields(o);
            assert forall|i: int| 0 <= i < m.len() implies compact_field_ok()(#[trigger] m[i]) by {
                assert(o[i].0.wf() && o[i].1.wf());
                lemma_compress_simple_classes_wf(o[i].1);
                let w = o[i].1.compress_simple_classes();
                match w {
                    CompactValueView::Object(inner) => {
                        if inner.len() == 1 {
                            assert(inner[0].0.wf() && inner[0].1.wf());
                            assert(merged(o[i].0, inner[0].0).wf());
                        }
                    },
                    _ => {},
                }
            }
            lemma_collect_keeps(m, compact_field_ok());
            let kept = collect(m);
            assert forall|j: int| 0 <= j < kept.len() implies (#[trigger] kept[j]).0.wf() && kept[j].1.wf() by {
                assert(compact_field_ok()(kept[j]));
            }
        },
    }
}

} // verus!
