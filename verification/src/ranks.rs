//! Values of equal rank are the same value: the canonical order tells any
//! two different nodes apart, so that fields kept ascending are a set.

use crate::compact_key::CompactKeyView;
use crate::compact_value::{compact_field_terms, compact_item_terms, compact_term, CompactValueView};
use crate::intermediate_form::{
    inter_field_terms, inter_item_terms, inter_term, inter_type_term, IntermediateFormView,
    IntermediateTypeView,
};
use crate::order::{compare_term, lemma_term_equal, tells_apart, terms, Rank, Ranked, Term};
use crate::simple_value::{
    label_terms, simple_field_terms, simple_item_terms, simple_term, LabelledNodeView,
    SimpleValueView, StringTypeView,
};
use crate::typed_form::{
    type_term, typed_field_terms, typed_item_terms, typed_term, TypeView, TypedFormView,
};
use vstd::prelude::*;

verus! {

proof fn lemma_pair_of_terms(a: Term, b: Term, c: Term, d: Term)
    requires
        seq![a, b] == seq![c, d],
    ensures
        a == c,
        b == d,
{
    assert(seq![a, b][0] == a && seq![c, d][0] == c);
    assert(seq![a, b][1] == b && seq![c, d][1] == d);
}

proof fn lemma_one_term(a: Term, c: Term)
    requires
        seq![a] == seq![c],
    ensures
        a == c,
{
    assert(seq![a][0] == a);
    assert(seq![c][0] == c);
}

proof fn lemma_labels_rank(a: Seq<(Seq<char>, Seq<char>)>, b: Seq<(Seq<char>, Seq<char>)>)
    requires
        label_terms(a) == label_terms(b),
    ensures
        a == b,
{
    assert(a.len() == label_terms(a).len() && b.len() == label_terms(b).len());
    assert forall|i: int| 0 <= i < a.len() implies a[i] == b[i] by {
        assert(label_terms(a)[i] == label_terms(b)[i]);
        assert(b.len() == a.len());
        assert(label_terms(a)[i] == Term::Node(0, seq![Term::Text(a[i].0), Term::Text(a[i].1)]));
        assert(label_terms(b)[i] == Term::Node(0, seq![Term::Text(b[i].0), Term::Text(b[i].1)]));
        lemma_pair_of_terms(
            Term::Text(a[i].0),
            Term::Text(a[i].1),
            Term::Text(b[i].0),
            Term::Text(b[i].1),
        );
    }
    assert(a =~= b);
}

/// Labelled nodes of one rank are the same node.
pub proof fn lemma_labelled_node_rank(a: LabelledNodeView, b: LabelledNodeView)
    requires
        a.term() == b.term(),
    ensures
        a == b,
{
    lemma_pair_of_terms(
        Term::Node(0, label_terms(a.readable_labels)),
        Term::Text(a.z_label),
        Term::Node(0, label_terms(b.readable_labels)),
        Term::Text(b.z_label),
    );
    lemma_labels_rank(a.readable_labels, b.readable_labels);
}

/// Strings of one rank are the same string.
pub proof fn lemma_string_rank(a: StringTypeView, b: StringTypeView)
    requires
        a.term() == b.term(),
    ensures
        a == b,
{
    match a {
        StringTypeView::String(s) => match b {
            StringTypeView::String(t) => {
                lemma_one_term(Term::Text(s), Term::Text(t));
            },
            StringTypeView::LabelledNode(_) => {},
        },
        StringTypeView::LabelledNode(m) => match b {
            StringTypeView::String(_) => {},
            StringTypeView::LabelledNode(n) => {
                lemma_one_term(m.term(), n.term());
                lemma_labelled_node_rank(m, n);
            },
        },
    }
}

proof fn lemma_types_rank(a: Seq<StringTypeView>, b: Seq<StringTypeView>)
    requires
        terms(a) == terms(b),
    ensures
        a == b,
{
    assert(a.len() == terms(a).len() && b.len() == terms(b).len());
    assert forall|i: int| 0 <= i < a.len() implies a[i] == b[i] by {
        assert(terms(a)[i] == terms(b)[i]);
        assert(b.len() == a.len());
        assert(terms(a)[i] == a[i].term());
        assert(terms(b)[i] == b[i].term());
        lemma_string_rank(a[i], b[i]);
    }
    assert(a =~= b);
}

/// Keys of one rank are the same key.
pub proof fn lemma_key_rank(a: CompactKeyView, b: CompactKeyView)
    requires
        a.term() == b.term(),
    ensures
        a == b,
{
    match a {
        CompactKeyView::StringType(s, x) => match b {
            CompactKeyView::StringType(t, y) => {
                lemma_pair_of_terms(
                    s.term(),
                    Term::Node(0, terms(x)),
                    t.term(),
                    Term::Node(0, terms(y)),
                );
                lemma_string_rank(s, t);
                lemma_types_rank(x, y);
            },
            CompactKeyView::Transient(_) => {},
        },
        CompactKeyView::Transient(x) => match b {
            CompactKeyView::StringType(_, _) => {},
            CompactKeyView::Transient(y) => {
                lemma_one_term(Term::Node(0, terms(x)), Term::Node(0, terms(y)));
                lemma_types_rank(x, y);
            },
        },
    }
}

// ---- labelled documents ----

proof fn lemma_simple_items_rank(a: Seq<SimpleValueView>, b: Seq<SimpleValueView>)
    requires
        simple_item_terms(a) == simple_item_terms(b),
    ensures
        a == b,
    decreases a,
{
    assert(a.len() == simple_item_terms(a).len() && b.len() == simple_item_terms(b).len());
    assert forall|i: int| 0 <= i < a.len() implies a[i] == b[i] by {
        assert(simple_item_terms(a)[i] == simple_item_terms(b)[i]);
        assert(b.len() == a.len());
        assert(simple_item_terms(a)[i] == simple_term(a[i]));
        assert(simple_item_terms(b)[i] == simple_term(b[i]));
        lemma_simple_rank(a[i], b[i]);
    }
    assert(a =~= b);
}

proof fn lemma_simple_fields_rank(
    a: Seq<(StringTypeView, SimpleValueView)>,
    b: Seq<(StringTypeView, SimpleValueView)>,
)
    requires
        simple_field_terms(a) == simple_field_terms(b),
    ensures
        a == b,
    decreases a,
{
    assert(a.len() == simple_field_terms(a).len() && b.len() == simple_field_terms(b).len());
    assert forall|i: int| 0 <= i < a.len() implies a[i] == b[i] by {
        assert(simple_field_terms(a)[i] == simple_field_terms(b)[i]);
        assert(b.len() == a.len());
        assert(simple_field_terms(a)[i] == Term::Node(0, seq![a[i].0.term(), simple_term(a[i].1)]));
        assert(simple_field_terms(b)[i] == Term::Node(0, seq![b[i].0.term(), simple_term(b[i].1)]));
        lemma_pair_of_terms(
            a[i].0.term(),
            simple_term(a[i].1),
            b[i].0.term(),
            simple_term(b[i].1),
        );
        lemma_string_rank(a[i].0, b[i].0);
        lemma_simple_rank(a[i].1, b[i].1);
    }
    assert(a =~= b);
}

/// Labelled documents of one rank are the same document.
pub proof fn lemma_simple_rank(a: SimpleValueView, b: SimpleValueView)
    requires
        a.term() == b.term(),
    ensures
        a == b,
    decreases a,
{
    match a {
        SimpleValueView::StringType(s) => match b {
            SimpleValueView::StringType(t) => {
                lemma_one_term(s.term(), t.term());
                lemma_string_rank(s, t);
            },
            _ => {},
        },
        SimpleValueView::Array(x) => match b {
            SimpleValueView::Array(y) => {
                lemma_simple_items_rank(x, y);
            },
            _ => {},
        },
        SimpleValueView::Object(x) => match b {
            SimpleValueView::Object(y) => {
                lemma_simple_fields_rank(x, y);
            },
            _ => {},
        },
    }
}

// ---- typed forms ----

proof fn lemma_typed_items_rank(a: Seq<TypedFormView>, b: Seq<TypedFormView>)
    requires
        typed_item_terms(a) == typed_item_terms(b),
    ensures
        a == b,
    decreases a,
{
    assert(a.len() == typed_item_terms(a).len() && b.len() == typed_item_terms(b).len());
    assert forall|i: int| 0 <= i < a.len() implies a[i] == b[i] by {
        assert(typed_item_terms(a)[i] == typed_item_terms(b)[i]);
        assert(b.len() == a.len());
        assert(typed_item_terms(a)[i] == typed_term(a[i]));
        assert(typed_item_terms(b)[i] == typed_term(b[i]));
        lemma_typed_rank(a[i], b[i]);
    }
    assert(a =~= b);
}

proof fn lemma_typed_fields_rank(
    a: Seq<(StringTypeView, TypedFormView)>,
    b: Seq<(StringTypeView, TypedFormView)>,
)
    requires
        typed_field_terms(a) == typed_field_terms(b),
    ensures
        a == b,
    decreases a,
{
    assert(a.len() == typed_field_terms(a).len() && b.len() == typed_field_terms(b).len());
    assert forall|i: int| 0 <= i < a.len() implies a[i] == b[i] by {
        assert(typed_field_terms(a)[i] == typed_field_terms(b)[i]);
        assert(b.len() == a.len());
        assert(typed_field_terms(a)[i] == Term::Node(0, seq![a[i].0.term(), typed_term(a[i].1)]));
        assert(typed_field_terms(b)[i] == Term::Node(0, seq![b[i].0.term(), typed_term(b[i].1)]));
        lemma_pair_of_terms(a[i].0.term(), typed_term(a[i].1), b[i].0.term(), typed_term(b[i].1));
        lemma_string_rank(a[i].0, b[i].0);
        lemma_typed_rank(a[i].1, b[i].1);
    }
    assert(a =~= b);
}

/// Types of one rank are the same type.
pub proof fn lemma_type_rank(a: TypeView, b: TypeView)
    requires
        a.term() == b.term(),
    ensures
        a == b,
    decreases a,
{
    match a {
        TypeView::Simple(s) => match b {
            TypeView::Simple(t) => {
                lemma_one_term(s.term(), t.term());
                lemma_string_rank(s, t);
            },
            _ => {},
        },
        TypeView::WithArgs(s, x) => match b {
            TypeView::WithArgs(t, y) => {
                lemma_pair_of_terms(
                    s.term(),
                    Term::Node(0, typed_field_terms(x)),
                    t.term(),
                    Term::Node(0, typed_field_terms(y)),
                );
                lemma_string_rank(s, t);
                lemma_typed_fields_rank(x, y);
            },
            _ => {},
        },
    }
}

/// Typed forms of one rank are the same form.
pub proof fn lemma_typed_rank(a: TypedFormView, b: TypedFormView)
    requires
        a.term() == b.term(),
    ensures
        a == b,
    decreases a,
{
    match a {
        TypedFormView::StringType(s) => match b {
            TypedFormView::StringType(t) => {
                lemma_one_term(s.term(), t.term());
                lemma_string_rank(s, t);
            },
            _ => {},
        },
        TypedFormView::Array(s, x) => match b {
            TypedFormView::Array(t, y) => {
                lemma_pair_of_terms(
                    type_term(s),
                    Term::Node(0, typed_item_terms(x)),
                    type_term(t),
                    Term::Node(0, typed_item_terms(y)),
                );
                lemma_type_rank(s, t);
                lemma_typed_items_rank(x, y);
            },
            _ => {},
        },
        TypedFormView::Object(x) => match b {
            TypedFormView::Object(y) => {
                lemma_typed_fields_rank(x, y);
            },
            _ => {},
        },
        TypedFormView::TypedObject(s, x) => match b {
            TypedFormView::TypedObject(t, y) => {
                lemma_pair_of_terms(
                    type_term(s),
                    Term::Node(0, typed_field_terms(x)),
                    type_term(t),
                    Term::Node(0, typed_field_terms(y)),
                );
                lemma_type_rank(s, t);
                lemma_typed_fields_rank(x, y);
            },
            _ => {},
        },
    }
}

// ---- intermediate forms ----

proof fn lemma_inter_items_rank(a: Seq<IntermediateFormView>, b: Seq<IntermediateFormView>)
    requires
        inter_item_terms(a) == inter_item_terms(b),
    ensures
        a == b,
    decreases a,
{
    assert(a.len() == inter_item_terms(a).len() && b.len() == inter_item_terms(b).len());
    assert forall|i: int| 0 <= i < a.len() implies a[i] == b[i] by {
        assert(inter_item_terms(a)[i] == inter_item_terms(b)[i]);
        assert(b.len() == a.len());
        assert(inter_item_terms(a)[i] == inter_term(a[i]));
        assert(inter_item_terms(b)[i] == inter_term(b[i]));
        lemma_inter_rank(a[i], b[i]);
    }
    assert(a =~= b);
}

proof fn lemma_inter_fields_rank(
    a: Seq<(StringTypeView, IntermediateFormView)>,
    b: Seq<(StringTypeView, IntermediateFormView)>,
)
    requires
        inter_field_terms(a) == inter_field_terms(b),
    ensures
        a == b,
    decreases a,
{
    assert(a.len() == inter_field_terms(a).len() && b.len() == inter_field_terms(b).len());
    assert forall|i: int| 0 <= i < a.len() implies a[i] == b[i] by {
        assert(inter_field_terms(a)[i] == inter_field_terms(b)[i]);
        assert(b.len() == a.len());
        assert(inter_field_terms(a)[i] == Term::Node(0, seq![a[i].0.term(), inter_term(a[i].1)]));
        assert(inter_field_terms(b)[i] == Term::Node(0, seq![b[i].0.term(), inter_term(b[i].1)]));
        lemma_pair_of_terms(a[i].0.term(), inter_term(a[i].1), b[i].0.term(), inter_term(b[i].1));
        lemma_string_rank(a[i].0, b[i].0);
        lemma_inter_rank(a[i].1, b[i].1);
    }
    assert(a =~= b);
}

/// Types of one rank are the same type.
pub proof fn lemma_inter_type_rank(a: IntermediateTypeView, b: IntermediateTypeView)
    requires
        a.term() == b.term(),
    ensures
        a == b,
    decreases a,
{
    match a {
        IntermediateTypeView::Simple(s) => match b {
            IntermediateTypeView::Simple(t) => {
                lemma_one_term(s.term(), t.term());
                lemma_string_rank(s, t);
            },
            _ => {},
        },
        IntermediateTypeView::WithArgs(s, x) => match b {
            IntermediateTypeView::WithArgs(t, y) => {
                lemma_pair_of_terms(
                    s.term(),
                    Term::Node(0, inter_field_terms(x)),
                    t.term(),
                    Term::Node(0, inter_field_terms(y)),
                );
                lemma_string_rank(s, t);
                lemma_inter_fields_rank(x, y);
            },
            _ => {},
        },
    }
}

/// Intermediate forms of one rank are the same form.
pub proof fn lemma_inter_rank(a: IntermediateFormView, b: IntermediateFormView)
    requires
        a.term() == b.term(),
    ensures
        a == b,
    decreases a,
{
    match a {
        IntermediateFormView::KeyType(s) => match b {
            IntermediateFormView::KeyType(t) => {
                lemma_one_term(s.term(), t.term());
                lemma_key_rank(s, t);
            },
            _ => {},
        },
        IntermediateFormView::Array(s, x) => match b {
            IntermediateFormView::Array(t, y) => {
                lemma_pair_of_terms(
                    inter_type_term(s),
                    Term::Node(0, inter_item_terms(x)),
                    inter_type_term(t),
                    Term::Node(0, inter_item_terms(y)),
                );
                lemma_inter_type_rank(s, t);
                lemma_inter_items_rank(x, y);
            },
            _ => {},
        },
        IntermediateFormView::Object(x) => match b {
            IntermediateFormView::Object(y) => {
                lemma_inter_fields_rank(x, y);
            },
            _ => {},
        },
        IntermediateFormView::TypedObject(s, x) => match b {
            IntermediateFormView::TypedObject(t, y) => {
                lemma_pair_of_terms(
                    inter_type_term(s),
                    Term::Node(0, inter_field_terms(x)),
                    inter_type_term(t),
                    Term::Node(0, inter_field_terms(y)),
                );
                lemma_inter_type_rank(s, t);
                lemma_inter_fields_rank(x, y);
            },
            _ => {},
        },
    }
}

// ---- compact values ----

proof fn lemma_compact_items_rank(a: Seq<CompactValueView>, b: Seq<CompactValueView>)
    requires
        compact_item_terms(a) == compact_item_terms(b),
    ensures
        a == b,
    decreases a,
{
    assert(a.len() == compact_item_terms(a).len() && b.len() == compact_item_terms(b).len());
    assert forall|i: int| 0 <= i < a.len() implies a[i] == b[i] by {
        assert(compact_item_terms(a)[i] == compact_item_terms(b)[i]);
        assert(b.len() == a.len());
        assert(compact_item_terms(a)[i] == compact_term(a[i]));
        assert(compact_item_terms(b)[i] == compact_term(b[i]));
        lemma_compact_rank(a[i], b[i]);
    }
    assert(a =~= b);
}

proof fn lemma_compact_fields_rank(
    a: Seq<(CompactKeyView, CompactValueView)>,
    b: Seq<(CompactKeyView, CompactValueView)>,
)
    requires
        compact_field_terms(a) == compact_field_terms(b),
    ensures
        a == b,
    decreases a,
{
    assert(a.len() == compact_field_terms(a).len() && b.len() == compact_field_terms(b).len());
    assert forall|i: int| 0 <= i < a.len() implies a[i] == b[i] by {
        assert(compact_field_terms(a)[i] == compact_field_terms(b)[i]);
        assert(b.len() == a.len());
        assert(compact_field_terms(a)[i] == Term::Node(0, seq![a[i].0.term(), compact_term(a[i].1)]));
        assert(compact_field_terms(b)[i] == Term::Node(0, seq![b[i].0.term(), compact_term(b[i].1)]));
        lemma_pair_of_terms(
            a[i].0.term(),
            compact_term(a[i].1),
            b[i].0.term(),
            compact_term(b[i].1),
        );
        lemma_key_rank(a[i].0, b[i].0);
        lemma_compact_rank(a[i].1, b[i].1);
    }
    assert(a =~= b);
}

/// Compact values of one rank are the same value.
pub proof fn lemma_compact_rank(a: CompactValueView, b: CompactValueView)
    requires
        a.term() == b.term(),
    ensures
        a == b,
    decreases a,
{
    match a {
        CompactValueView::KeyType(s) => match b {
            CompactValueView::KeyType(t) => {
                lemma_one_term(s.term(), t.term());
                lemma_key_rank(s, t);
            },
            _ => {},
        },
        CompactValueView::Array(x) => match b {
            CompactValueView::Array(y) => {
                lemma_compact_items_rank(x, y);
            },
            _ => {},
        },
        CompactValueView::Object(x) => match b {
            CompactValueView::Object(y) => {
                lemma_compact_fields_rank(x, y);
            },
            _ => {},
        },
    }
}

/// Two fields of a compact value rank equal exactly when they are the same
/// field: fields kept ascending are a set.
pub proof fn lemma_compact_field_rank(
    a: (CompactKeyView, CompactValueView),
    b: (CompactKeyView, CompactValueView),
)
    ensures
        (compare_term(a.term(), b.term()) == Rank::Equal) <==> a == b,
{
    lemma_term_equal(a.term(), b.term());
    if a.term() == b.term() {
        lemma_pair_of_terms(a.0.term(), a.1.term(), b.0.term(), b.1.term());
        lemma_key_rank(a.0, b.0);
        lemma_compact_rank(a.1, b.1);
    }
}

/// Two fields of an intermediate form rank equal exactly when they are the
/// same field.
pub proof fn lemma_inter_field_rank(
    a: (StringTypeView, IntermediateFormView),
    b: (StringTypeView, IntermediateFormView),
)
    ensures
        (compare_term(a.term(), b.term()) == Rank::Equal) <==> a == b,
{
    lemma_term_equal(a.term(), b.term());
    if a.term() == b.term() {
        lemma_pair_of_terms(a.0.term(), a.1.term(), b.0.term(), b.1.term());
        lemma_string_rank(a.0, b.0);
        lemma_inter_rank(a.1, b.1);
    }
}

/// Two fields of a typed form rank equal exactly when they are the same
/// field.
pub proof fn lemma_typed_field_rank(
    a: (StringTypeView, TypedFormView),
    b: (StringTypeView, TypedFormView),
)
    ensures
        (compare_term(a.term(), b.term()) == Rank::Equal) <==> a == b,
{
    lemma_term_equal(a.term(), b.term());
    if a.term() == b.term() {
        lemma_pair_of_terms(a.0.term(), a.1.term(), b.0.term(), b.1.term());
        lemma_string_rank(a.0, b.0);
        lemma_typed_rank(a.1, b.1);
    }
}

/// Two fields of a labelled document rank equal exactly when they are the
/// same field.
pub proof fn lemma_simple_field_rank(
    a: (StringTypeView, SimpleValueView),
    b: (StringTypeView, SimpleValueView),
)
    ensures
        (compare_term(a.term(), b.term()) == Rank::Equal) <==> a == b,
{
    lemma_term_equal(a.term(), b.term());
    if a.term() == b.term() {
        lemma_pair_of_terms(a.0.term(), a.1.term(), b.0.term(), b.1.term());
        lemma_string_rank(a.0, b.0);
        lemma_simple_rank(a.1, b.1);
    }
}

/// Different fields of a labelled document have different ranks.
pub proof fn lemma_simple_fields_tell_apart()
    ensures
        tells_apart::<(StringTypeView, SimpleValueView)>(),
{
    assert forall|a: (StringTypeView, SimpleValueView), b: (StringTypeView, SimpleValueView)|
        #[trigger] a.term() == #[trigger] b.term() implies a == b by {
        lemma_term_equal(a.term(), b.term());
        lemma_simple_field_rank(a, b);
    }
}

/// Different fields of a typed form have different ranks.
pub proof fn lemma_typed_fields_tell_apart()
    ensures
        tells_apart::<(StringTypeView, TypedFormView)>(),
{
    assert forall|a: (StringTypeView, TypedFormView), b: (StringTypeView, TypedFormView)|
        #[trigger] a.term() == #[trigger] b.term() implies a == b by {
        lemma_term_equal(a.term(), b.term());
        lemma_typed_field_rank(a, b);
    }
}

/// Different fields of an intermediate form have different ranks.
pub proof fn lemma_inter_fields_tell_apart()
    ensures
        tells_apart::<(StringTypeView, IntermediateFormView)>(),
{
    assert forall|a: (StringTypeView, IntermediateFormView), b: (StringTypeView, IntermediateFormView)|
        #[trigger] a.term() == #[trigger] b.term() implies a == b by {
        lemma_term_equal(a.term(), b.term());
        lemma_inter_field_rank(a, b);
    }
}

/// Different fields of a compact value have different ranks.
pub proof fn lemma_compact_fields_tell_apart()
    ensures
        tells_apart::<(CompactKeyView, CompactValueView)>(),
{
    assert forall|a: (CompactKeyView, CompactValueView), b: (CompactKeyView, CompactValueView)|
        #[trigger] a.term() == #[trigger] b.term() implies a == b by {
        lemma_term_equal(a.term(), b.term());
        lemma_compact_field_rank(a, b);
    }
}

} // verus!
