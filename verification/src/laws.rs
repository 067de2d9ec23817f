//! What holds of the passes whatever they are applied to: a pass that has
//! run once finds nothing more to do.

use crate::compact_value::{
    classes_fields, classes_items, compact, compact_field, compact_fields, plain_compact,
    plain_fields, squeezed, CompactValueView,
};
use crate::compact_key::CompactKeyView;
use crate::intermediate_form::{
    inter_fields_wf, retag, retag_fields, IntermediateFormView, IntermediateTypeView,
};
use crate::order::{collect, lemma_collect, lemma_collect_ascending, lemma_collect_fusion};
use crate::ranks::{
    lemma_compact_fields_tell_apart, lemma_inter_fields_tell_apart,
    lemma_typed_fields_tell_apart,
};
use crate::passes::{
    drop_fields, drop_items, has_key, monolingual_admits_fields, monolingual_admits_items,
    monolingual_fields, monolingual_items, monolingual_tag, reference_admits_fields,
    reference_fields, reference_items, reference_key, reference_tag, string_admits_fields,
    string_fields, string_items, string_key, string_tag, text_under,
};
use crate::simple_value::{
    field_keys, first_labelled, lemma_first_labelled, without, SimpleValueView, StringTypeView,
};
use crate::typed_form::{lift, lift_fields, liftable, rest_liftable, type_key, TypedFormView};
use vstd::prelude::*;

verus! {

// ---- monolingual texts ----

proof fn lemma_monolingual_items(items: Seq<IntermediateFormView>)
    requires
        monolingual_admits_items(items),
    ensures
        monolingual_admits_items(monolingual_items(items)),
        monolingual_items(monolingual_items(items)) == monolingual_items(items),
    decreases items,
{
    let once = monolingual_items(items);
    assert forall|i: int| 0 <= i < once.len() implies (#[trigger] once[i]).admits_compress_monolingual()
        && once[i].compress_monolingual() == once[i] by {
        assert(items[i].admits_compress_monolingual());
        lemma_compress_monolingual_idempotent(items[i]);
    }
    assert(monolingual_items(once) =~= once);
}

proof fn lemma_monolingual_fields(o: Seq<(StringTypeView, IntermediateFormView)>)
    requires
        monolingual_admits_fields(o),
    ensures
        monolingual_admits_fields(collect(monolingual_fields(o))),
        collect(monolingual_fields(collect(monolingual_fields(o)))) == collect(
            monolingual_fields(o),
        ),
    decreases o,
{
    let m = monolingual_fields(o);
    let c = collect(m);
    lemma_collect(m);
    assert forall|i: int| 0 <= i < c.len() implies (#[trigger] c[i]).1.admits_compress_monolingual()
        && monolingual_fields(c)[i] == c[i] by {
        assert(c.contains(c[i]));
        let j = choose|j: int| 0 <= j < m.len() && m[j] == c[i];
        assert(o[j].1.admits_compress_monolingual());
        lemma_compress_monolingual_idempotent(o[j].1);
    }
    assert(monolingual_fields(c) =~= c);
    lemma_collect_ascending(c);
}

proof fn lemma_monolingual_type(t: IntermediateTypeView)
    requires
        t.admits_compress_monolingual(),
    ensures
        t.compress_monolingual().admits_compress_monolingual(),
        t.compress_monolingual().compress_monolingual() == t.compress_monolingual(),
        t.compress_monolingual().names(monolingual_tag()) == t.names(monolingual_tag()),
    decreases t,
{
    match t {
        IntermediateTypeView::Simple(_) => {},
        IntermediateTypeView::WithArgs(_, args) => {
            lemma_monolingual_fields(args);
        },
    }
}

/// `compress_monolingual` is idempotent: on what it has worked on once it
/// can work again, and changes nothing.
pub proof fn lemma_compress_monolingual_idempotent(v: IntermediateFormView)
    requires
        v.admits_compress_monolingual(),
    ensures
        v.compress_monolingual().admits_compress_monolingual(),
        v.compress_monolingual().compress_monolingual() == v.compress_monolingual(),
    decreases v,
{
    match v {
        IntermediateFormView::KeyType(_) => {},
        IntermediateFormView::Array(t, items) => {
            lemma_monolingual_type(t);
            lemma_monolingual_items(items);
        },
        IntermediateFormView::Object(o) => {
            lemma_monolingual_fields(o);
        },
        IntermediateFormView::TypedObject(t, o) => {
            if !t.names(monolingual_tag()) {
                lemma_monolingual_type(t);
                lemma_monolingual_fields(o);
            }
        },
    }
}

// ---- types of the items of arrays ----

proof fn lemma_drop_items(items: Seq<IntermediateFormView>)
    ensures
        drop_items(drop_items(items)) == drop_items(items),
    decreases items, 0int,
{
    let once = drop_items(items);
    assert forall|i: int| 0 <= i < once.len() implies (#[trigger] once[i]).drop_own_type()
        == once[i] by {
        match items[i] {
            IntermediateFormView::TypedObject(_, o) => {
                lemma_drop_fields(o);
            },
            _ => {
                lemma_drop_array_item_types_idempotent(items[i]);
            },
        }
    }
    assert(drop_items(once) =~= once);
}

proof fn lemma_drop_fields(o: Seq<(StringTypeView, IntermediateFormView)>)
    ensures
        collect(drop_fields(collect(drop_fields(o)))) == collect(drop_fields(o)),
    decreases o, 0int,
{
    let m = drop_fields(o);
    let c = collect(m);
    lemma_collect(m);
    assert forall|i: int| 0 <= i < c.len() implies drop_fields(c)[i] == #[trigger] c[i] by {
        assert(c.contains(c[i]));
        let j = choose|j: int| 0 <= j < m.len() && m[j] == c[i];
        lemma_drop_array_item_types_idempotent(o[j].1);
    }
    assert(drop_fields(c) =~= c);
    lemma_collect_ascending(c);
}

/// `drop_array_item_types` is idempotent.
pub proof fn lemma_drop_array_item_types_idempotent(v: IntermediateFormView)
    ensures
        v.drop_array_item_types().drop_array_item_types() == v.drop_array_item_types(),
    decreases v, 1int,
{
    match v {
        IntermediateFormView::KeyType(_) => {},
        IntermediateFormView::Array(t, items) => {
            lemma_drop_items(items);
        },
        IntermediateFormView::Object(o) => {
            lemma_drop_fields(o);
        },
        IntermediateFormView::TypedObject(t, o) => {
            match t {
                IntermediateTypeView::Simple(_) => {},
                IntermediateTypeView::WithArgs(_, args) => {
                    lemma_drop_fields(args);
                },
            }
            lemma_drop_fields(o);
        },
    }
}

// ---- objects of one field ----

/// Whether a value is an object of one field.
pub open spec fn is_single(v: CompactValueView) -> bool {
    v matches CompactValueView::Object(inner) && inner.len() == 1
}

/// Whether `compress_simple_classes` has nothing to do on a value: it would
/// leave it as it is, and none of its fields holds an object of one field.
pub open spec fn is_squeezed(v: CompactValueView) -> bool {
    &&& v.compress_simple_classes() == v
    &&& v matches CompactValueView::Object(fields) ==> forall|i: int|
        0 <= i < fields.len() ==> !is_single((#[trigger] fields[i]).1)
            && fields[i].1.compress_simple_classes() == fields[i].1
}

proof fn lemma_classes_items(items: Seq<CompactValueView>)
    ensures
        classes_items(classes_items(items)) == classes_items(items),
    decreases items,
{
    let once = classes_items(items);
    assert forall|i: int| 0 <= i < once.len() implies (#[trigger] once[i]).compress_simple_classes()
        == once[i] by {
        lemma_compress_simple_classes_squeezes(items[i]);
    }
    assert(classes_items(once) =~= once);
}

proof fn lemma_classes_fields(o: Seq<(CompactKeyView, CompactValueView)>)
    ensures
        is_squeezed(CompactValueView::Object(collect(classes_fields(o)))),
    decreases o,
{
    let m = classes_fields(o);
    let c = collect(m);
    lemma_collect(m);
    assert forall|i: int| 0 <= i < c.len() implies !is_single((#[trigger] c[i]).1)
        && c[i].1.compress_simple_classes() == c[i].1 by {
        assert(c.contains(c[i]));
        let j = choose|j: int| 0 <= j < m.len() && m[j] == c[i];
        let w = o[j].1.compress_simple_classes();
        lemma_compress_simple_classes_squeezes(o[j].1);
        assert(m[j] == squeezed(o[j].0, w));
        if is_single(w) {
            let inner = w->Object_0;
            assert(!is_single(inner[0].1) && inner[0].1.compress_simple_classes() == inner[0].1);
        }
    }
    assert forall|i: int| 0 <= i < c.len() implies classes_fields(c)[i] == #[trigger] c[i] by {
        assert(!is_single(c[i].1) && c[i].1.compress_simple_classes() == c[i].1);
    }
    assert(classes_fields(c) =~= c);
    lemma_collect_ascending(c);
}

/// What `compress_simple_classes` gives holds no object of one field under
/// a key, and the pass would leave it as it is.
pub proof fn lemma_compress_simple_classes_squeezes(v: CompactValueView)
    ensures
        is_squeezed(v.compress_simple_classes()),
    decreases v,
{
    match v {
        CompactValueView::KeyType(_) => {},
        CompactValueView::Array(items) => {
            lemma_classes_items(items);
        },
        CompactValueView::Object(o) => {
            lemma_classes_fields(o);
        },
    }
}

/// `compress_simple_classes` is idempotent.
pub proof fn lemma_compress_simple_classes_idempotent(v: CompactValueView)
    ensures
        v.compress_simple_classes().compress_simple_classes() == v.compress_simple_classes(),
{
    lemma_compress_simple_classes_squeezes(v);
}


// ---- well-formed forms ----

/// The string under a key of well-formed fields is well-formed.
pub proof fn lemma_text_under_wf(fields: Seq<(StringTypeView, IntermediateFormView)>, label: Seq<char>)
    requires
        inter_fields_wf(fields),
        text_under(fields, label) is Some,
    ensures
        text_under(fields, label).unwrap().wf(),
{
    let i = first_labelled(field_keys(fields), label, 0);
    assert(fields[i].1.wf());
}

/// What `without` keeps are fields of what it was given.
pub proof fn lemma_without_items<V>(fields: Seq<(StringTypeView, V)>, label: Seq<char>)
    ensures
        forall|e: (StringTypeView, V)| #[trigger] without(fields, label).contains(e) ==> fields.contains(e),
    decreases fields.len(),
{
    if fields.len() > 0 {
        let rest = fields.drop_last();
        let w = without(rest, label);
        lemma_without_items(rest, label);
        assert forall|e: (StringTypeView, V)| #[trigger] without(fields, label).contains(e) implies fields.contains(e) by {
            if e == fields.last() {
                assert(fields[fields.len() - 1] == e);
            } else {
                let k = choose|k: int| 0 <= k < without(fields, label).len() && without(fields, label)[k] == e;
                if fields.last().0.is_labelled(label) {
                    assert(w.contains(e));
                } else {
                    assert(w.push(fields.last())[k] == e);
                    assert(k < w.len());
                    assert(w[k] == e);
                    assert(w.contains(e));
                }
                let j = choose|j: int| 0 <= j < rest.len() && rest[j] == e;
                assert(fields[j] == e);
            }
        }
    }
}

/// Leaving out the fields under a key keeps the fields well-formed.
pub proof fn lemma_without_wf(fields: Seq<(StringTypeView, IntermediateFormView)>, label: Seq<char>)
    requires
        inter_fields_wf(fields),
    ensures
        inter_fields_wf(collect(without(fields, label))),
{
    let w = without(fields, label);
    let c = collect(w);
    lemma_collect(w);
    lemma_without_items(fields, label);
    assert forall|i: int| 0 <= i < c.len() implies (#[trigger] c[i]).0.wf() && c[i].1.wf() by {
        assert(c.contains(c[i]));
        assert(w.contains(c[i]));
        assert(fields.contains(c[i]));
        let j = choose|j: int| 0 <= j < fields.len() && fields[j] == c[i];
        assert(fields[j].0.wf());
    }
}

// ---- references ----

/// Whether no field's value holds a reference for `compress_reference` to collapse.
pub open spec fn reference_free_fields(fields: Seq<(StringTypeView, IntermediateFormView)>) -> bool
    decreases fields,
{
    forall|i: int| 0 <= i < fields.len() ==> (#[trigger] fields[i]).1.holds_no_reference()
}

impl IntermediateTypeView {
    /// Whether the type holds nothing for `compress_reference` to collapse.
    pub open spec fn holds_no_reference(self) -> bool
        decreases self,
    {
        match self {
            IntermediateTypeView::Simple(_) => true,
            IntermediateTypeView::WithArgs(typ, args) => !typ.is_labelled(reference_tag())
                && reference_free_fields(args),
        }
    }
}

impl IntermediateFormView {
    /// Whether the form holds nothing for `compress_reference` to collapse: no object of
    /// type `Z9`, and no type with arguments whose identifier is `Z9`.
    pub open spec fn holds_no_reference(self) -> bool
        decreases self,
    {
        match self {
            IntermediateFormView::KeyType(_) => true,
            IntermediateFormView::Array(t, items) => t.holds_no_reference() && forall|i: int|
                0 <= i < items.len() ==> (#[trigger] items[i]).holds_no_reference(),
            IntermediateFormView::Object(o) => reference_free_fields(o),
            IntermediateFormView::TypedObject(t, o) => !t.names(reference_tag()) && t.holds_no_reference()
                && reference_free_fields(o),
        }
    }
}

proof fn lemma_reference_fixed_fields(o: Seq<(StringTypeView, IntermediateFormView)>)
    requires
        inter_fields_wf(o),
        reference_free_fields(o),
    ensures
        reference_admits_fields(o),
        collect(reference_fields(o)) == o,
    decreases o,
{
    assert forall|i: int| 0 <= i < o.len() implies (#[trigger] o[i]).1.admits_compress_reference()
        && reference_fields(o)[i] == o[i] by {
        lemma_reference_fixed(o[i].1);
    }
    assert(reference_fields(o) =~= o);
    lemma_collect_ascending(o);
}

proof fn lemma_reference_fixed_type(t: IntermediateTypeView)
    requires
        t.wf(),
        t.holds_no_reference(),
    ensures
        t.admits_compress_reference(),
        t.compress_reference() == t,
    decreases t,
{
    match t {
        IntermediateTypeView::Simple(_) => {},
        IntermediateTypeView::WithArgs(_, args) => {
            lemma_reference_fixed_fields(args);
        },
    }
}

/// `compress_reference` changes nothing in a well-formed form that holds nothing for it
/// to collapse.
pub proof fn lemma_reference_fixed(v: IntermediateFormView)
    requires
        v.wf(),
        v.holds_no_reference(),
    ensures
        v.admits_compress_reference(),
        v.compress_reference() == v,
    decreases v,
{
    match v {
        IntermediateFormView::KeyType(_) => {},
        IntermediateFormView::Array(t, items) => {
            lemma_reference_fixed_type(t);
            assert forall|i: int| 0 <= i < items.len() implies (#[trigger] items[i]).admits_compress_reference()
                && reference_items(items)[i] == items[i] by {
                lemma_reference_fixed(items[i]);
            }
            assert(reference_items(items) =~= items);
        },
        IntermediateFormView::Object(o) => {
            lemma_reference_fixed_fields(o);
        },
        IntermediateFormView::TypedObject(t, o) => {
            lemma_reference_fixed_type(t);
            lemma_reference_fixed_fields(o);
        },
    }
}

/// The pass on the value of every field keeps the fields well-formed.
pub proof fn lemma_reference_wf_fields(o: Seq<(StringTypeView, IntermediateFormView)>)
    requires
        inter_fields_wf(o),
        reference_admits_fields(o),
    ensures
        inter_fields_wf(collect(reference_fields(o))),
    decreases o,
{
    let m = reference_fields(o);
    let c = collect(m);
    lemma_collect(m);
    assert forall|i: int| 0 <= i < c.len() implies (#[trigger] c[i]).0.wf() && c[i].1.wf() by {
        assert(c.contains(c[i]));
        let j = choose|j: int| 0 <= j < m.len() && m[j] == c[i];
        assert(o[j].0.wf() && o[j].1.admits_compress_reference());
        lemma_compress_reference_wf(o[j].1);
    }
}

/// The pass keeps a type well-formed.
pub proof fn lemma_reference_wf_type(t: IntermediateTypeView)
    requires
        t.wf(),
        t.admits_compress_reference(),
    ensures
        t.compress_reference().wf(),
    decreases t,
{
    match t {
        IntermediateTypeView::Simple(_) => {},
        IntermediateTypeView::WithArgs(typ, args) => {
            if typ.is_labelled(reference_tag()) {
                if has_key(args, reference_key()) {
                    lemma_text_under_wf(args, reference_key());
                } else {
                    let j = first_labelled(field_keys(args), type_key(), 0);
                    lemma_first_labelled(field_keys(args), type_key(), 0);
                    assert(args[j].1.wf());
                    lemma_text_under_wf(args[j].1->Object_0, reference_key());
                    lemma_without_wf(args, type_key());
                }
            } else {
                lemma_reference_wf_fields(args);
            }
        },
    }
}

/// `compress_reference` keeps a form well-formed.
pub proof fn lemma_compress_reference_wf(v: IntermediateFormView)
    requires
        v.wf(),
        v.admits_compress_reference(),
    ensures
        v.compress_reference().wf(),
    decreases v,
{
    match v {
        IntermediateFormView::KeyType(_) => {},
        IntermediateFormView::Array(t, items) => {
            lemma_reference_wf_type(t);
            let after = reference_items(items);
            assert forall|i: int| 0 <= i < after.len() implies (#[trigger] after[i]).wf() by {
                assert(items[i].wf() && items[i].admits_compress_reference());
                lemma_compress_reference_wf(items[i]);
            }
        },
        IntermediateFormView::Object(o) => {
            lemma_reference_wf_fields(o);
        },
        IntermediateFormView::TypedObject(t, o) => {
            if t.names(reference_tag()) {
                lemma_text_under_wf(o, reference_key());
            } else {
                lemma_reference_wf_type(t);
                lemma_reference_wf_fields(o);
                }
        },
    }
}

/// `compress_reference` is idempotent on every well-formed form that it can work on and
/// in which one run leaves nothing for a second to collapse: the second run
/// can work, and changes nothing. (A type whose identifier is `Z9` may
/// resolve to `Z9` again: there, and only there, a second run goes on.)
pub proof fn lemma_compress_reference_idempotent(v: IntermediateFormView)
    requires
        v.wf(),
        v.admits_compress_reference(),
        v.compress_reference().holds_no_reference(),
    ensures
        v.compress_reference().admits_compress_reference(),
        v.compress_reference().compress_reference() == v.compress_reference(),
{
    lemma_compress_reference_wf(v);
    lemma_reference_fixed(v.compress_reference());
}

// ---- strings ----

/// Whether no field's value holds a string object for `compress_string` to collapse.
pub open spec fn string_free_fields(fields: Seq<(StringTypeView, IntermediateFormView)>) -> bool
    decreases fields,
{
    forall|i: int| 0 <= i < fields.len() ==> (#[trigger] fields[i]).1.holds_no_string()
}

impl IntermediateTypeView {
    /// Whether the type holds nothing for `compress_string` to collapse.
    pub open spec fn holds_no_string(self) -> bool
        decreases self,
    {
        match self {
            IntermediateTypeView::Simple(_) => true,
            IntermediateTypeView::WithArgs(typ, args) => !typ.is_labelled(string_tag())
                && string_free_fields(args),
        }
    }
}

impl IntermediateFormView {
    /// Whether the form holds nothing for `compress_string` to collapse: no object of
    /// type `Z6`, and no type with arguments whose identifier is `Z6`.
    pub open spec fn holds_no_string(self) -> bool
        decreases self,
    {
        match self {
            IntermediateFormView::KeyType(_) => true,
            IntermediateFormView::Array(t, items) => t.holds_no_string() && forall|i: int|
                0 <= i < items.len() ==> (#[trigger] items[i]).holds_no_string(),
            IntermediateFormView::Object(o) => string_free_fields(o),
            IntermediateFormView::TypedObject(t, o) => !t.names(string_tag()) && t.holds_no_string()
                && string_free_fields(o),
        }
    }
}

proof fn lemma_string_fixed_fields(o: Seq<(StringTypeView, IntermediateFormView)>)
    requires
        inter_fields_wf(o),
        string_free_fields(o),
    ensures
        string_admits_fields(o),
        collect(string_fields(o)) == o,
    decreases o,
{
    assert forall|i: int| 0 <= i < o.len() implies (#[trigger] o[i]).1.admits_compress_string()
        && string_fields(o)[i] == o[i] by {
        lemma_string_fixed(o[i].1);
    }
    assert(string_fields(o) =~= o);
    lemma_collect_ascending(o);
}

proof fn lemma_string_fixed_type(t: IntermediateTypeView)
    requires
        t.wf(),
        t.holds_no_string(),
    ensures
        t.admits_compress_string(),
        t.compress_string() == t,
    decreases t,
{
    match t {
        IntermediateTypeView::Simple(_) => {},
        IntermediateTypeView::WithArgs(_, args) => {
            lemma_string_fixed_fields(args);
        },
    }
}

/// `compress_string` changes nothing in a well-formed form that holds nothing for it
/// to collapse.
pub proof fn lemma_string_fixed(v: IntermediateFormView)
    requires
        v.wf(),
        v.holds_no_string(),
    ensures
        v.admits_compress_string(),
        v.compress_string() == v,
    decreases v,
{
    match v {
        IntermediateFormView::KeyType(_) => {},
        IntermediateFormView::Array(t, items) => {
            lemma_string_fixed_type(t);
            assert forall|i: int| 0 <= i < items.len() implies (#[trigger] items[i]).admits_compress_string()
                && string_items(items)[i] == items[i] by {
                lemma_string_fixed(items[i]);
            }
            assert(string_items(items) =~= items);
        },
        IntermediateFormView::Object(o) => {
            lemma_string_fixed_fields(o);
        },
        IntermediateFormView::TypedObject(t, o) => {
            lemma_string_fixed_type(t);
            lemma_string_fixed_fields(o);
        },
    }
}

/// The pass on the value of every field keeps the fields well-formed.
pub proof fn lemma_string_wf_fields(o: Seq<(StringTypeView, IntermediateFormView)>)
    requires
        inter_fields_wf(o),
        string_admits_fields(o),
    ensures
        inter_fields_wf(collect(string_fields(o))),
    decreases o,
{
    let m = string_fields(o);
    let c = collect(m);
    lemma_collect(m);
    assert forall|i: int| 0 <= i < c.len() implies (#[trigger] c[i]).0.wf() && c[i].1.wf() by {
        assert(c.contains(c[i]));
        let j = choose|j: int| 0 <= j < m.len() && m[j] == c[i];
        assert(o[j].0.wf() && o[j].1.admits_compress_string());
        lemma_compress_string_wf(o[j].1);
    }
}

/// The pass keeps a type well-formed.
pub proof fn lemma_string_wf_type(t: IntermediateTypeView)
    requires
        t.wf(),
        t.admits_compress_string(),
    ensures
        t.compress_string().wf(),
    decreases t,
{
    match t {
        IntermediateTypeView::Simple(_) => {},
        IntermediateTypeView::WithArgs(typ, args) => {
            if typ.is_labelled(string_tag()) {
                lemma_text_under_wf(args, string_key());
            } else {
                lemma_string_wf_fields(args);
            }
        },
    }
}

/// `compress_string` keeps a form well-formed.
pub proof fn lemma_compress_string_wf(v: IntermediateFormView)
    requires
        v.wf(),
        v.admits_compress_string(),
    ensures
        v.compress_string().wf(),
    decreases v,
{
    match v {
        IntermediateFormView::KeyType(_) => {},
        IntermediateFormView::Array(t, items) => {
            lemma_string_wf_type(t);
            let after = string_items(items);
            assert forall|i: int| 0 <= i < after.len() implies (#[trigger] after[i]).wf() by {
                assert(items[i].wf() && items[i].admits_compress_string());
                lemma_compress_string_wf(items[i]);
            }
        },
        IntermediateFormView::Object(o) => {
            lemma_string_wf_fields(o);
        },
        IntermediateFormView::TypedObject(t, o) => {
            if t.names(string_tag()) {
                lemma_text_under_wf(o, string_key());
            } else {
                lemma_string_wf_type(t);
                lemma_string_wf_fields(o);
            }
        },
    }
}

/// `compress_string` is idempotent on every well-formed form that it can work on and
/// in which one run leaves nothing for a second to collapse: the second run
/// can work, and changes nothing. (A type whose identifier is `Z6` may
/// resolve to `Z6` again: there, and only there, a second run goes on.)
pub proof fn lemma_compress_string_idempotent(v: IntermediateFormView)
    requires
        v.wf(),
        v.admits_compress_string(),
        v.compress_string().holds_no_string(),
    ensures
        v.compress_string().admits_compress_string(),
        v.compress_string().compress_string() == v.compress_string(),
{
    lemma_compress_string_wf(v);
    lemma_string_fixed(v.compress_string());
}


// ---- documents without types ----

/// Whether a labelled document holds no array and no field under the type
/// key: nothing in it states a type.
pub open spec fn states_no_type(v: SimpleValueView) -> bool
    decreases v,
{
    match v {
        SimpleValueView::StringType(_) => true,
        SimpleValueView::Array(_) => false,
        SimpleValueView::Object(o) => forall|i: int|
            0 <= i < o.len() ==> !(#[trigger] o[i]).0.is_labelled(type_key()) && states_no_type(
                o[i].1,
            ),
    }
}

/// A field of an intermediate form as a field of a compact value.
pub open spec fn compacted() -> spec_fn((StringTypeView, IntermediateFormView)) -> (
    CompactKeyView,
    CompactValueView,
) {
    |e: (StringTypeView, IntermediateFormView)| compact_field(e.0, e.1)
}

/// A field of a typed form as a field of a compact value.
pub open spec fn retagged_and_compacted() -> spec_fn((StringTypeView, TypedFormView)) -> (
    CompactKeyView,
    CompactValueView,
) {
    |e: (StringTypeView, TypedFormView)| compact_field(e.0, retag(e.1))
}

/// Whether no field is under the type key and nothing in a value states a
/// type.
pub open spec fn fields_state_no_type(o: Seq<(StringTypeView, SimpleValueView)>) -> bool {
    forall|i: int|
        0 <= i < o.len() ==> !(#[trigger] o[i]).0.is_labelled(type_key()) && states_no_type(o[i].1)
}

proof fn lemma_untyped_fields_lift(o: Seq<(StringTypeView, SimpleValueView)>)
    requires
        fields_state_no_type(o),
    ensures
        rest_liftable(o),
        first_labelled(field_keys(o), type_key(), 0) >= o.len(),
    decreases o, 0int,
{
    lemma_first_labelled(field_keys(o), type_key(), 0);
    let found = first_labelled(field_keys(o), type_key(), 0);
    if found < o.len() {
        assert(field_keys(o)[found] == o[found].0);
        assert(!o[found].0.is_labelled(type_key()));
    }
    assert forall|j: int| 0 <= j < o.len() implies liftable((#[trigger] o[j]).1) by {
        assert(states_no_type(o[j].1));
        lemma_shape_kept(o[j].1);
    }
}

proof fn lemma_untyped_fields_compact(o: Seq<(StringTypeView, SimpleValueView)>)
    requires
        fields_state_no_type(o),
    ensures
        collect(compact_fields(collect(retag_fields(collect(lift_fields(o)))))) == collect(
            plain_fields(o),
        ),
    decreases o, 0int,
{
    let l = lift_fields(o);
    let c2 = Seq::new(l.len(), |i: int| retagged_and_compacted()(l[i]));
    let p = plain_fields(o);
    assert forall|i: int| 0 <= i < o.len() implies c2[i] == #[trigger] p[i] by {
        assert(states_no_type(o[i].1));
        lemma_shape_kept(o[i].1);
        assert(l[i] == (o[i].0, lift(o[i].1)));
        let x = retag(lift(o[i].1));
        assert(c2[i] == compact_field(o[i].0, x));
        assert(compact_field(o[i].0, x) == (
            CompactKeyView::StringType(o[i].0, Seq::empty()),
            compact(x),
        ));
    }
    assert(c2 =~= p);
    lemma_fused(l, c2);
}

/// Collecting after each of the two steps from typed fields to compact
/// fields gives what collecting once at the end gives.
proof fn lemma_fused(
    l: Seq<(StringTypeView, TypedFormView)>,
    c2: Seq<(CompactKeyView, CompactValueView)>,
)
    requires
        c2.len() == l.len(),
        forall|i: int| 0 <= i < l.len() ==> #[trigger] c2[i] == retagged_and_compacted()(l[i]),
    ensures
        collect(compact_fields(collect(retag_fields(collect(l))))) == collect(c2),
{
    let r = retag_fields(collect(l));
    let c = compact_fields(collect(r));
    let c1 = Seq::new(r.len(), |i: int| compacted()(r[i]));
    lemma_typed_fields_tell_apart();
    lemma_inter_fields_tell_apart();
    lemma_compact_fields_tell_apart();
    assert forall|i: int| 0 <= i < c.len() implies #[trigger] c[i] == compacted()(collect(r)[i]) by {
        assert(c[i] == compact_field(collect(r)[i].0, collect(r)[i].1));
    }
    lemma_collect_fusion(r, compacted(), c1, c);
    assert forall|i: int| 0 <= i < c1.len() implies #[trigger] c1[i] == retagged_and_compacted()(
        collect(l)[i],
    ) by {
        assert(r[i] == (collect(l)[i].0, retag(collect(l)[i].1)));
    }
    lemma_collect_fusion(l, retagged_and_compacted(), c2, c1);
}

/// A document in which nothing states a type keeps its shape on the way to
/// its compact value: it can be lifted, and its compact value is the
/// document itself, each string a key with no type attached.
pub proof fn lemma_shape_kept(v: SimpleValueView)
    requires
        states_no_type(v),
    ensures
        liftable(v),
        !(retag(lift(v)) is Array),
        !(retag(lift(v)) is TypedObject),
        compact(retag(lift(v))) == plain_compact(v),
    decreases v, 1int,
{
    match v {
        SimpleValueView::Object(o) => {
            assert(fields_state_no_type(o));
            lemma_untyped_fields_lift(o);
            lemma_untyped_fields_compact(o);
        },
        _ => {},
    }
}


// ---- forms whose types are no references and no string objects ----

/// Whether no field's value holds a type with arguments whose identifier is
/// `Z9`.
pub open spec fn reference_plain_fields(fields: Seq<(StringTypeView, IntermediateFormView)>) -> bool
    decreases fields,
{
    forall|i: int| 0 <= i < fields.len() ==> (#[trigger] fields[i]).1.has_no_reference_type()
}

impl IntermediateTypeView {
    /// Whether neither the type nor a type among its arguments has
    /// arguments and the identifier `Z9`.
    pub open spec fn has_no_reference_type(self) -> bool
        decreases self,
    {
        match self {
            IntermediateTypeView::Simple(_) => true,
            IntermediateTypeView::WithArgs(typ, args) => !typ.is_labelled(reference_tag())
                && reference_plain_fields(args),
        }
    }
}

impl IntermediateFormView {
    /// Whether no type in the form has arguments and the identifier `Z9`.
    pub open spec fn has_no_reference_type(self) -> bool
        decreases self,
    {
        match self {
            IntermediateFormView::KeyType(_) => true,
            IntermediateFormView::Array(t, items) => t.has_no_reference_type() && forall|i: int|
                0 <= i < items.len() ==> (#[trigger] items[i]).has_no_reference_type(),
            IntermediateFormView::Object(o) => reference_plain_fields(o),
            IntermediateFormView::TypedObject(t, o) => t.has_no_reference_type() && reference_plain_fields(o),
        }
    }
}

proof fn lemma_reference_settles_fields(o: Seq<(StringTypeView, IntermediateFormView)>)
    requires
        reference_admits_fields(o),
        reference_plain_fields(o),
    ensures
        reference_free_fields(collect(reference_fields(o))),
    decreases o,
{
    let m = reference_fields(o);
    let c = collect(m);
    lemma_collect(m);
    assert forall|i: int| 0 <= i < c.len() implies (#[trigger] c[i]).1.holds_no_reference() by {
        assert(c.contains(c[i]));
        let j = choose|j: int| 0 <= j < m.len() && m[j] == c[i];
        assert(o[j].1.admits_compress_reference() && o[j].1.has_no_reference_type());
        lemma_reference_settles(o[j].1);
    }
}

proof fn lemma_reference_settles_type(t: IntermediateTypeView)
    requires
        t.admits_compress_reference(),
        t.has_no_reference_type(),
    ensures
        t.compress_reference().holds_no_reference(),
        t.compress_reference().names(reference_tag()) == t.names(reference_tag()),
    decreases t,
{
    match t {
        IntermediateTypeView::Simple(_) => {},
        IntermediateTypeView::WithArgs(_, args) => {
            lemma_reference_settles_fields(args);
        },
    }
}

/// In a form in which no type has arguments and the identifier `Z9`,
/// one run of `compress_reference` leaves nothing for a second to collapse.
pub proof fn lemma_reference_settles(v: IntermediateFormView)
    requires
        v.admits_compress_reference(),
        v.has_no_reference_type(),
    ensures
        v.compress_reference().holds_no_reference(),
    decreases v,
{
    match v {
        IntermediateFormView::KeyType(_) => {},
        IntermediateFormView::Array(t, items) => {
            lemma_reference_settles_type(t);
            let after = reference_items(items);
            assert forall|i: int| 0 <= i < after.len() implies (#[trigger] after[i]).holds_no_reference() by {
                assert(items[i].admits_compress_reference() && items[i].has_no_reference_type());
                lemma_reference_settles(items[i]);
            }
        },
        IntermediateFormView::Object(o) => {
            lemma_reference_settles_fields(o);
        },
        IntermediateFormView::TypedObject(t, o) => {
            if !t.names(reference_tag()) {
                lemma_reference_settles_type(t);
                lemma_reference_settles_fields(o);
            }
        },
    }
}

/// `compress_reference` is idempotent on every well-formed form that it can work on and
/// in which no type has arguments and the identifier `Z9`.
pub proof fn lemma_compress_reference_idempotent_without_reference_types(v: IntermediateFormView)
    requires
        v.wf(),
        v.admits_compress_reference(),
        v.has_no_reference_type(),
    ensures
        v.compress_reference().admits_compress_reference(),
        v.compress_reference().compress_reference() == v.compress_reference(),
{
    lemma_reference_settles(v);
    lemma_compress_reference_idempotent(v);
}

/// Whether no field's value holds a type with arguments whose identifier is
/// `Z6`.
pub open spec fn string_plain_fields(fields: Seq<(StringTypeView, IntermediateFormView)>) -> bool
    decreases fields,
{
    forall|i: int| 0 <= i < fields.len() ==> (#[trigger] fields[i]).1.has_no_string_type()
}

impl IntermediateTypeView {
    /// Whether neither the type nor a type among its arguments has
    /// arguments and the identifier `Z6`.
    pub open spec fn has_no_string_type(self) -> bool
        decreases self,
    {
        match self {
            IntermediateTypeView::Simple(_) => true,
            IntermediateTypeView::WithArgs(typ, args) => !typ.is_labelled(string_tag())
                && string_plain_fields(args),
        }
    }
}

impl IntermediateFormView {
    /// Whether no type in the form has arguments and the identifier `Z6`.
    pub open spec fn has_no_string_type(self) -> bool
        decreases self,
    {
        match self {
            IntermediateFormView::KeyType(_) => true,
            IntermediateFormView::Array(t, items) => t.has_no_string_type() && forall|i: int|
                0 <= i < items.len() ==> (#[trigger] items[i]).has_no_string_type(),
            IntermediateFormView::Object(o) => string_plain_fields(o),
            IntermediateFormView::TypedObject(t, o) => t.has_no_string_type() && string_plain_fields(o),
        }
    }
}

proof fn lemma_string_settles_fields(o: Seq<(StringTypeView, IntermediateFormView)>)
    requires
        string_admits_fields(o),
        string_plain_fields(o),
    ensures
        string_free_fields(collect(string_fields(o))),
    decreases o,
{
    let m = string_fields(o);
    let c = collect(m);
    lemma_collect(m);
    assert forall|i: int| 0 <= i < c.len() implies (#[trigger] c[i]).1.holds_no_string() by {
        assert(c.contains(c[i]));
        let j = choose|j: int| 0 <= j < m.len() && m[j] == c[i];
        assert(o[j].1.admits_compress_string() && o[j].1.has_no_string_type());
        lemma_string_settles(o[j].1);
    }
}

proof fn lemma_string_settles_type(t: IntermediateTypeView)
    requires
        t.admits_compress_string(),
        t.has_no_string_type(),
    ensures
        t.compress_string().holds_no_string(),
        t.compress_string().names(string_tag()) == t.names(string_tag()),
    decreases t,
{
    match t {
        IntermediateTypeView::Simple(_) => {},
        IntermediateTypeView::WithArgs(_, args) => {
            lemma_string_settles_fields(args);
        },
    }
}

/// In a form in which no type has arguments and the identifier `Z6`,
/// one run of `compress_string` leaves nothing for a second to collapse.
pub proof fn lemma_string_settles(v: IntermediateFormView)
    requires
        v.admits_compress_string(),
        v.has_no_string_type(),
    ensures
        v.compress_string().holds_no_string(),
    decreases v,
{
    match v {
        IntermediateFormView::KeyType(_) => {},
        IntermediateFormView::Array(t, items) => {
            lemma_string_settles_type(t);
            let after = string_items(items);
            assert forall|i: int| 0 <= i < after.len() implies (#[trigger] after[i]).holds_no_string() by {
                assert(items[i].admits_compress_string() && items[i].has_no_string_type());
                lemma_string_settles(items[i]);
            }
        },
        IntermediateFormView::Object(o) => {
            lemma_string_settles_fields(o);
        },
        IntermediateFormView::TypedObject(t, o) => {
            if !t.names(string_tag()) {
                lemma_string_settles_type(t);
                lemma_string_settles_fields(o);
            }
        },
    }
}

/// `compress_string` is idempotent on every well-formed form that it can work on and
/// in which no type has arguments and the identifier `Z6`.
pub proof fn lemma_compress_string_idempotent_without_string_types(v: IntermediateFormView)
    requires
        v.wf(),
        v.admits_compress_string(),
        v.has_no_string_type(),
    ensures
        v.compress_string().admits_compress_string(),
        v.compress_string().compress_string() == v.compress_string(),
{
    lemma_string_settles(v);
    lemma_compress_string_idempotent(v);
}

} // verus!
