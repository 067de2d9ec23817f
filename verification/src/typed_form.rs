//! The document with its types set apart: an object's `Z1K1` field and an
//! array's first item become the type of the object or array.

use crate::json::{json_items_view, json_members_view, put_member, Json, JsonView};
use crate::order::{
    ascending, collect, compare_term, compare_terms, gather, insert, keyed, lemma_insert_before,
    lemma_insert_present, lemma_put_keyed, lemma_rank_decided, lemma_rank_pair,
    lemma_rank_single, Rank, Ranked, Term,
};
use crate::simple_value::{
    field_keys, find_labelled, first_labelled, keys_view, lemma_first_labelled,
    lemma_without_none,
    simple_fields_view, simple_items_view, without, SimpleValue, SimpleValueView, StringType,
    StringTypeView,
};
use crate::wf::{lemma_lift_type_wf, lemma_lift_wf};
use vstd::pervasive::unreached;
use vstd::prelude::*;

verus! {

/// A type: its identifier, and the arguments where it has any.
#[derive(Debug, PartialEq, Eq, PartialOrd, Ord, Hash)]
pub enum Type {
    Simple(StringType),
    WithArgs(StringType, Vec<(StringType, TypedForm)>),
}

/// What a [`Type`] holds.
pub enum TypeView {
    Simple(StringTypeView),
    WithArgs(StringTypeView, Seq<(StringTypeView, TypedFormView)>),
}

/// A document whose arrays and typed objects hold their type apart from
/// their items and fields.
#[derive(Debug, PartialEq, Eq, PartialOrd, Ord, Hash)]
pub enum TypedForm {
    StringType(StringType),
    Array(Type, Vec<TypedForm>),
    Object(Vec<(StringType, TypedForm)>),
    TypedObject(Type, Vec<(StringType, TypedForm)>),
}

/// What a [`TypedForm`] holds.
pub enum TypedFormView {
    StringType(StringTypeView),
    Array(TypeView, Seq<TypedFormView>),
    Object(Seq<(StringTypeView, TypedFormView)>),
    TypedObject(TypeView, Seq<(StringTypeView, TypedFormView)>),
}

/// The key under which an object holds its type.
pub open spec fn type_key() -> Seq<char> {
    "Z1K1"@
}

/// The views of a list of forms.
pub open spec fn typed_items_view(v: Seq<TypedForm>) -> Seq<TypedFormView>
    decreases v,
{
    Seq::new(
        v.len(),
        |i: int|
            if 0 <= i < v.len() {
                v[i]@
            } else {
                arbitrary()
            },
    )
}

/// The views of a list of fields.
pub open spec fn typed_fields_view(v: Seq<(StringType, TypedForm)>) -> Seq<
    (StringTypeView, TypedFormView),
>
    decreases v,
{
    Seq::new(
        v.len(),
        |i: int|
            if 0 <= i < v.len() {
                (v[i].0@, v[i].1@)
            } else {
                arbitrary()
            },
    )
}

impl View for Type {
    type V = TypeView;

    open spec fn view(&self) -> TypeView
        decreases self,
    {
        match self {
            Type::Simple(s) => TypeView::Simple(s@),
            Type::WithArgs(s, args) => TypeView::WithArgs(s@, typed_fields_view(args@)),
        }
    }
}

impl View for TypedForm {
    type V = TypedFormView;

    open spec fn view(&self) -> TypedFormView
        decreases self,
    {
        match self {
            TypedForm::StringType(s) => TypedFormView::StringType(s@),
            TypedForm::Array(t, v) => TypedFormView::Array(t@, typed_items_view(v@)),
            TypedForm::Object(o) => TypedFormView::Object(typed_fields_view(o@)),
            TypedForm::TypedObject(t, o) => TypedFormView::TypedObject(t@, typed_fields_view(o@)),
        }
    }
}

/// The term that a type is ranked by.
pub open spec fn type_term(t: TypeView) -> Term
    decreases t,
{
    match t {
        TypeView::Simple(s) => Term::Node(0, seq![s.term()]),
        TypeView::WithArgs(s, args) => Term::Node(
            1,
            seq![s.term(), Term::Node(0, typed_field_terms(args))],
        ),
    }
}

/// The term that a form is ranked by.
pub open spec fn typed_term(v: TypedFormView) -> Term
    decreases v,
{
    match v {
        TypedFormView::StringType(s) => Term::Node(0, seq![s.term()]),
        TypedFormView::Array(t, items) => Term::Node(
            1,
            seq![type_term(t), Term::Node(0, typed_item_terms(items))],
        ),
        TypedFormView::Object(fields) => Term::Node(2, typed_field_terms(fields)),
        TypedFormView::TypedObject(t, fields) => Term::Node(
            3,
            seq![type_term(t), Term::Node(0, typed_field_terms(fields))],
        ),
    }
}

/// The terms that a list of forms is ranked by.
pub open spec fn typed_item_terms(items: Seq<TypedFormView>) -> Seq<Term>
    decreases items,
{
    Seq::new(
        items.len(),
        |i: int|
            if 0 <= i < items.len() {
                typed_term(items[i])
            } else {
                arbitrary()
            },
    )
}

/// The terms that a list of fields is ranked by: each by its key, then by its value.
pub open spec fn typed_field_terms(fields: Seq<(StringTypeView, TypedFormView)>) -> Seq<Term>
    decreases fields,
{
    Seq::new(
        fields.len(),
        |i: int|
            if 0 <= i < fields.len() {
                Term::Node(0, seq![fields[i].0.term(), typed_term(fields[i].1)])
            } else {
                arbitrary()
            },
    )
}

/// Whether the fields are a set in its one representation, of well-formed
/// keys and values.
pub open spec fn typed_fields_wf(fields: Seq<(StringTypeView, TypedFormView)>) -> bool
    decreases fields,
{
    ascending(fields) && forall|i: int|
        0 <= i < fields.len() ==> (#[trigger] fields[i]).0.wf() && fields[i].1.wf()
}

impl TypeView {
    /// The arguments are a set of well-formed fields.
    pub open spec fn wf(self) -> bool
        decreases self,
    {
        match self {
            TypeView::Simple(s) => s.wf(),
            TypeView::WithArgs(s, args) => s.wf() && typed_fields_wf(args),
        }
    }
}

impl TypedFormView {
    /// Every object's fields ascend, and every labelled string's labels are a map.
    pub open spec fn wf(self) -> bool
        decreases self,
    {
        match self {
            TypedFormView::StringType(s) => s.wf(),
            TypedFormView::Array(t, items) => t.wf() && forall|i: int|
                0 <= i < items.len() ==> (#[trigger] items[i]).wf(),
            TypedFormView::Object(o) => typed_fields_wf(o),
            TypedFormView::TypedObject(t, o) => t.wf() && typed_fields_wf(o),
        }
    }
}

impl Ranked for TypeView {
    open spec fn term(self) -> Term {
        type_term(self)
    }
}

impl Ranked for TypedFormView {
    open spec fn term(self) -> Term {
        typed_term(self)
    }
}

fn clone_typed_items(items: &Vec<TypedForm>) -> (r: Vec<TypedForm>)
    ensures
        typed_items_view(r@) == typed_items_view(items@),
    decreases items,
{
    let mut out: Vec<TypedForm> = Vec::new();
    let mut i: usize = 0;
    while i < items.len()
        invariant
            i <= items.len(),
            out.len() == i,
            forall|j: int| 0 <= j < i ==> out[j]@ == items[j]@,
        decreases items.len() - i,
    {
        out.push(items[i].clone());
        i += 1;
    }
    assert(typed_items_view(out@) =~= typed_items_view(items@));
    out
}

fn clone_typed_fields(fields: &Vec<(StringType, TypedForm)>) -> (r: Vec<(StringType, TypedForm)>)
    ensures
        typed_fields_view(r@) == typed_fields_view(fields@),
    decreases fields,
{
    let mut out: Vec<(StringType, TypedForm)> = Vec::new();
    let mut i: usize = 0;
    while i < fields.len()
        invariant
            i <= fields.len(),
            out.len() == i,
            forall|j: int| 0 <= j < i ==> out[j].0@ == fields[j].0@ && out[j].1@ == fields[j].1@,
        decreases fields.len() - i,
    {
        out.push((fields[i].0.clone(), fields[i].1.clone()));
        i += 1;
    }
    assert(typed_fields_view(out@) =~= typed_fields_view(fields@));
    out
}

impl Clone for Type {
    fn clone(&self) -> (r: Self)
        ensures
            r@ == self@,
        decreases self,
    {
        match self {
            Type::Simple(s) => Type::Simple(s.clone()),
            Type::WithArgs(s, args) => Type::WithArgs(s.clone(), clone_typed_fields(args)),
        }
    }
}

impl Clone for TypedForm {
    fn clone(&self) -> (r: Self)
        ensures
            r@ == self@,
        decreases self,
    {
        match self {
            TypedForm::StringType(s) => TypedForm::StringType(s.clone()),
            TypedForm::Array(t, v) => TypedForm::Array(t.clone(), clone_typed_items(v)),
            TypedForm::Object(o) => TypedForm::Object(clone_typed_fields(o)),
            TypedForm::TypedObject(t, o) => TypedForm::TypedObject(t.clone(), clone_typed_fields(o)),
        }
    }
}

fn compare_typed_items(a: &Vec<TypedForm>, b: &Vec<TypedForm>) -> (r: Rank)
    ensures
        r == compare_terms(
            typed_item_terms(typed_items_view(a@)),
            typed_item_terms(typed_items_view(b@)),
        ),
    decreases a,
{
    let ghost x = typed_item_terms(typed_items_view(a@));
    let ghost y = typed_item_terms(typed_items_view(b@));
    let mut i: usize = 0;
    while i < a.len() && i < b.len()
        invariant
            i <= a.len(),
            i <= b.len(),
            x == typed_item_terms(typed_items_view(a@)),
            y == typed_item_terms(typed_items_view(b@)),
            forall|j: int| 0 <= j < i ==> compare_term(#[trigger] x[j], y[j]) == Rank::Equal,
        decreases a.len() - i,
    {
        let r = a[i].compare(&b[i]);
        if r != Rank::Equal {
            proof {
                lemma_rank_decided(x, y, i as int);
            }
            return r;
        }
        i += 1;
    }
    proof {
        lemma_rank_decided(x, y, i as int);
    }
    if i < b.len() {
        Rank::Less
    } else if i < a.len() {
        Rank::Greater
    } else {
        Rank::Equal
    }
}

fn compare_typed_field(a: &(StringType, TypedForm), b: &(StringType, TypedForm)) -> (r: Rank)
    ensures
        r == compare_term((a.0@, a.1@).term(), (b.0@, b.1@).term()),
    decreases a,
{
    proof {
        lemma_rank_pair(0, a.0@.term(), a.1@.term(), b.0@.term(), b.1@.term());
    }
    match a.0.compare(&b.0) {
        Rank::Equal => a.1.compare(&b.1),
        r => r,
    }
}

fn compare_typed_fields(a: &Vec<(StringType, TypedForm)>, b: &Vec<(StringType, TypedForm)>) -> (r:
    Rank)
    ensures
        r == compare_terms(
            typed_field_terms(typed_fields_view(a@)),
            typed_field_terms(typed_fields_view(b@)),
        ),
    decreases a,
{
    let ghost x = typed_field_terms(typed_fields_view(a@));
    let ghost y = typed_field_terms(typed_fields_view(b@));
    let mut i: usize = 0;
    while i < a.len() && i < b.len()
        invariant
            i <= a.len(),
            i <= b.len(),
            x == typed_field_terms(typed_fields_view(a@)),
            y == typed_field_terms(typed_fields_view(b@)),
            forall|j: int| 0 <= j < i ==> compare_term(#[trigger] x[j], y[j]) == Rank::Equal,
        decreases a.len() - i,
    {
        let r = compare_typed_field(&a[i], &b[i]);
        if r != Rank::Equal {
            proof {
                lemma_rank_decided(x, y, i as int);
            }
            return r;
        }
        i += 1;
    }
    proof {
        lemma_rank_decided(x, y, i as int);
    }
    if i < b.len() {
        Rank::Less
    } else if i < a.len() {
        Rank::Greater
    } else {
        Rank::Equal
    }
}

/// Puts a field at its place among `fields`, unless it is there already.
pub fn insert_typed_field(fields: &mut Vec<(StringType, TypedForm)>, field: (StringType, TypedForm))
    ensures
        typed_fields_view(final(fields)@) == insert(
            typed_fields_view(old(fields)@),
            (field.0@, field.1@),
        ),
{
    let ghost s = typed_fields_view(fields@);
    let ghost x = (field.0@, field.1@);
    let mut i: usize = 0;
    let mut found = false;
    while i < fields.len() && !found
        invariant
            i <= fields.len(),
            *fields == *old(fields),
            s == typed_fields_view(fields@),
            x == (field.0@, field.1@),
            forall|j: int| 0 <= j < i ==> compare_term(x.term(), (#[trigger] s[j]).term()) == Rank::Greater,
            found ==> i < fields.len() && compare_term(x.term(), s[i as int].term()) == Rank::Less,
        decreases fields.len() - i, if found { 0int } else { 1int },
    {
        match compare_typed_field(&field, &fields[i]) {
            Rank::Less => {
                found = true;
            },
            Rank::Equal => {
                proof {
                    lemma_insert_present(s, x, i as int);
                }
                return ;
            },
            Rank::Greater => {
                i += 1;
            },
        }
    }
    proof {
        lemma_insert_before(s, x, i as int);
    }
    fields.insert(i, field);
    assert(typed_fields_view(fields@) =~= s.insert(i as int, x));
}

impl Type {
    /// Three-way comparison in the canonical order: types without arguments
    /// first, by the identifier and then by the arguments.
    pub fn compare(&self, other: &Type) -> (r: Rank)
        ensures
            r == compare_term(self@.term(), other@.term()),
        decreases self,
    {
        match self {
            Type::Simple(a) => match other {
                Type::Simple(b) => {
                    proof {
                        lemma_rank_single(0, a@.term(), b@.term());
                    }
                    a.compare(b)
                },
                Type::WithArgs(_, _) => Rank::Less,
            },
            Type::WithArgs(a, s) => match other {
                Type::Simple(_) => Rank::Greater,
                Type::WithArgs(b, t) => {
                    proof {
                        lemma_rank_pair(
                            1,
                            a@.term(),
                            Term::Node(0, typed_field_terms(typed_fields_view(s@))),
                            b@.term(),
                            Term::Node(0, typed_field_terms(typed_fields_view(t@))),
                        );
                    }
                    match a.compare(b) {
                        Rank::Equal => compare_typed_fields(s, t),
                        r => r,
                    }
                },
            },
        }
    }
}

impl TypedForm {
    /// Three-way comparison in the canonical order: strings, arrays, plain
    /// objects, typed objects; within a kind by the type and then item by
    /// item.
    pub fn compare(&self, other: &TypedForm) -> (r: Rank)
        ensures
            r == compare_term(self@.term(), other@.term()),
        decreases self,
    {
        match self {
            TypedForm::StringType(a) => match other {
                TypedForm::StringType(b) => {
                    proof {
                        lemma_rank_single(0, a@.term(), b@.term());
                    }
                    a.compare(b)
                },
                _ => Rank::Less,
            },
            TypedForm::Array(t, a) => match other {
                TypedForm::StringType(_) => Rank::Greater,
                TypedForm::Array(u, b) => {
                    proof {
                        lemma_rank_pair(
                            1,
                            t@.term(),
                            Term::Node(0, typed_item_terms(typed_items_view(a@))),
                            u@.term(),
                            Term::Node(0, typed_item_terms(typed_items_view(b@))),
                        );
                    }
                    match t.compare(u) {
                        Rank::Equal => compare_typed_items(a, b),
                        r => r,
                    }
                },
                _ => Rank::Less,
            },
            TypedForm::Object(a) => match other {
                TypedForm::Object(b) => compare_typed_fields(a, b),
                TypedForm::TypedObject(_, _) => Rank::Less,
                _ => Rank::Greater,
            },
            TypedForm::TypedObject(t, a) => match other {
                TypedForm::TypedObject(u, b) => {
                    proof {
                        lemma_rank_pair(
                            3,
                            t@.term(),
                            Term::Node(0, typed_field_terms(typed_fields_view(a@))),
                            u@.term(),
                            Term::Node(0, typed_field_terms(typed_fields_view(b@))),
                        );
                    }
                    match t.compare(u) {
                        Rank::Equal => compare_typed_fields(a, b),
                        r => r,
                    }
                },
                _ => Rank::Greater,
            },
        }
    }
}

/// Each item lifted.
pub open spec fn lift_items(items: Seq<SimpleValueView>) -> Seq<TypedFormView>
    decreases items,
{
    Seq::new(
        items.len(),
        |i: int|
            if 0 <= i < items.len() {
                lift(items[i])
            } else {
                arbitrary()
            },
    )
}

/// Each field with its value lifted.
pub open spec fn lift_fields(fields: Seq<(StringTypeView, SimpleValueView)>) -> Seq<
    (StringTypeView, TypedFormView),
>
    decreases fields,
{
    Seq::new(
        fields.len(),
        |i: int|
            if 0 <= i < fields.len() {
                (fields[i].0, lift(fields[i].1))
            } else {
                arbitrary()
            },
    )
}

/// The type that a value describes, if it describes one. A string is a type
/// without arguments. An object with a `Z1K1` field is a type with
/// arguments: its identifier is that of the type under `Z1K1`, its
/// arguments are its other fields; where the type under `Z1K1` has
/// arguments of its own, they are kept as one more argument under the
/// `Z1K1` key. Nothing else is a type.
pub open spec fn lift_type(v: SimpleValueView) -> Option<TypeView>
    decreases v,
{
    match v {
        SimpleValueView::StringType(k) => Some(TypeView::Simple(k)),
        SimpleValueView::Array(_) => None,
        SimpleValueView::Object(o) => {
            let i = first_labelled(field_keys(o), type_key(), 0);
            if 0 <= i < o.len() {
                let rest = collect(without(lift_fields(o), type_key()));
                match lift_type(o[i].1) {
                    None => None,
                    Some(TypeView::Simple(s)) => Some(TypeView::WithArgs(s, rest)),
                    Some(TypeView::WithArgs(s, args)) => Some(
                        TypeView::WithArgs(
                            s,
                            insert(
                                rest,
                                (o[i].0, TypedFormView::Object(collect(without(args, type_key())))),
                            ),
                        ),
                    ),
                }
            } else {
                None
            }
        },
    }
}

/// The value with its types set apart. An array's first item is the type of
/// the others. An object with a `Z1K1` field becomes a typed object of the
/// type under `Z1K1`, with its other fields.
pub open spec fn lift(v: SimpleValueView) -> TypedFormView
    decreases v,
{
    match v {
        SimpleValueView::StringType(s) => TypedFormView::StringType(s),
        SimpleValueView::Array(items) => if items.len() > 0 {
            TypedFormView::Array(lift_type(items[0]).unwrap(), lift_items(items.drop_first()))
        } else {
            TypedFormView::Array(arbitrary(), Seq::empty())
        },
        SimpleValueView::Object(o) => {
            let i = first_labelled(field_keys(o), type_key(), 0);
            if 0 <= i < o.len() {
                TypedFormView::TypedObject(
                    lift_type(o[i].1).unwrap(),
                    collect(without(lift_fields(o), type_key())),
                )
            } else {
                TypedFormView::Object(collect(lift_fields(o)))
            }
        },
    }
}

/// Whether every field but those under `Z1K1` can be lifted.
pub open spec fn rest_liftable(fields: Seq<(StringTypeView, SimpleValueView)>) -> bool
    decreases fields,
{
    forall|j: int|
        0 <= j < fields.len() && !(#[trigger] fields[j]).0.is_labelled(type_key()) ==> liftable(
            fields[j].1,
        )
}

/// Whether the search for a type in `v` meets nothing malformed on its way:
/// where `v` is an object whose `Z1K1` field describes a type, its other
/// fields can be lifted.
pub open spec fn liftable_type(v: SimpleValueView) -> bool
    decreases v,
{
    match v {
        SimpleValueView::Object(o) => {
            let i = first_labelled(field_keys(o), type_key(), 0);
            0 <= i < o.len() ==> liftable_type(o[i].1) && (lift_type(o[i].1) is Some
                ==> rest_liftable(o))
        },
        _ => true,
    }
}

/// Whether a value can be lifted: every array in it has a first item, which
/// describes a type; the `Z1K1` field of every object describes a type.
pub open spec fn liftable(v: SimpleValueView) -> bool
    decreases v,
{
    match v {
        SimpleValueView::StringType(_) => true,
        SimpleValueView::Array(items) => items.len() > 0 && liftable_type(items[0]) && lift_type(
            items[0],
        ) is Some && forall|j: int| 1 <= j < items.len() ==> liftable(#[trigger] items[j]),
        SimpleValueView::Object(o) => {
            let i = first_labelled(field_keys(o), type_key(), 0);
            (0 <= i < o.len() ==> liftable_type(o[i].1) && lift_type(o[i].1) is Some)
                && rest_liftable(o)
        },
    }
}

/// The fields of `args` that are not under `Z1K1`, as a set.
fn strip_type_key(args: Vec<(StringType, TypedForm)>) -> (r: Vec<(StringType, TypedForm)>)
    ensures
        typed_fields_view(r@) == collect(without(typed_fields_view(args@), type_key())),
{
    let ghost a = typed_fields_view(args@);
    let mut out: Vec<(StringType, TypedForm)> = Vec::new();
    assert(a.take(0) =~= Seq::empty());
    assert(typed_fields_view(out@) =~= collect(without(a.take(0), type_key())));
    for field in it: args
        invariant
            it.seq() == args@,
            a == typed_fields_view(args@),
            typed_fields_view(out@) == collect(without(a.take(it.index() as int), type_key())),
    {
        proof {
            let n = it.index() as int;
            let w = without(a.take(n), type_key());
            assert(a.take(n + 1).drop_last() =~= a.take(n));
            assert(a.take(n + 1).last() == (field.0@, field.1@));
            assert(w.push(a[n]).drop_last() =~= w);
        }
        if !field.0.is_labelled("Z1K1") {
            insert_typed_field(&mut out, field);
        }
    }
    assert(a.take(a.len() as int) =~= a);
    out
}

#[verifier::loop_isolation(false)]
fn try_lift_rest(o: &Vec<(StringType, SimpleValue)>) -> (r: Option<Vec<(StringType, TypedForm)>>)
    ensures
        r is Some <==> rest_liftable(simple_fields_view(o@)),
        r is Some ==> typed_fields_view(r.unwrap()@) == collect(
            without(lift_fields(simple_fields_view(o@)), type_key()),
        ),
    decreases o,
{
    let ghost f = simple_fields_view(o@);
    let ghost l = lift_fields(f);
    let mut out: Vec<(StringType, TypedForm)> = Vec::new();
    let mut i: usize = 0;
    assert(l.take(0) =~= Seq::empty());
    assert(typed_fields_view(out@) =~= collect(without(l.take(0), type_key())));
    while i < o.len()
        invariant
            i <= o.len(),
            typed_fields_view(out@) == collect(without(l.take(i as int), type_key())),
            forall|j: int|
                0 <= j < i && !(#[trigger] f[j]).0.is_labelled(type_key()) ==> liftable(f[j].1),
        decreases o.len() - i,
    {
        proof {
            let w = without(l.take(i as int), type_key());
            assert(l.take(i + 1).drop_last() =~= l.take(i as int));
            assert(l.take(i + 1).last() == l[i as int]);
            assert(w.push(l[i as int]).drop_last() =~= w);
        }
        if !o[i].0.is_labelled("Z1K1") {
            match try_lift(&o[i].1) {
                None => {
                    assert(!liftable(f[i as int].1));
                    return None;
                },
                Some(t) => {
                    insert_typed_field(&mut out, (o[i].0.clone(), t));
                },
            }
        }
        i += 1;
    }
    assert(l.take(o.len() as int) =~= l);
    Some(out)
}

/// The type that `value` describes: `Err` where it describes none, nothing
/// where the search meets something malformed.
fn try_lift_type(value: &SimpleValue) -> (r: Option<Result<Type, ()>>)
    ensures
        r is Some <==> liftable_type(value@),
        r matches Some(Ok(t)) ==> lift_type(value@) == Some(t@),
        r matches Some(Err(_)) ==> lift_type(value@) is None,
    decreases value,
{
    match value {
        SimpleValue::StringType(k) => Some(Ok(Type::Simple(k.clone()))),
        SimpleValue::Array(_) => Some(Err(())),
        SimpleValue::Object(o) => {
            let i = find_labelled(o, "Z1K1");
            proof {
                assert(keys_view(o@) =~= field_keys(simple_fields_view(o@)));
            }
            if i >= o.len() {
                return Some(Err(()));
            }
            match try_lift_type(&o[i].1) {
                None => None,
                Some(Err(e)) => Some(Err(e)),
                Some(Ok(inner)) => match try_lift_rest(o) {
                    None => None,
                    Some(rest) => match inner {
                        Type::Simple(s) => Some(Ok(Type::WithArgs(s, rest))),
                        Type::WithArgs(s, args) => {
                            let mut rest = rest;
                            let stripped = strip_type_key(args);
                            insert_typed_field(
                                &mut rest,
                                (o[i].0.clone(), TypedForm::Object(stripped)),
                            );
                            Some(Ok(Type::WithArgs(s, rest)))
                        },
                    },
                },
            }
        },
    }
}

/// The lifted value; nothing where `val` cannot be lifted.
#[verifier::loop_isolation(false)]
fn try_lift(val: &SimpleValue) -> (r: Option<TypedForm>)
    ensures
        r is Some <==> liftable(val@),
        r is Some ==> r.unwrap()@ == lift(val@),
    decreases val,
{
    match val {
        SimpleValue::StringType(s) => Some(TypedForm::StringType(s.clone())),
        SimpleValue::Array(items) => {
            if items.len() == 0 {
                return None;
            }
            let ghost iv = simple_items_view(items@);
            match try_lift_type(&items[0]) {
                Some(Ok(t)) => {
                    let mut out: Vec<TypedForm> = Vec::new();
                    let mut i: usize = 1;
                    while i < items.len()
                        invariant
                            1 <= i <= items.len(),
                            out.len() == i - 1,
                            forall|j: int| 0 <= j < out.len() ==> (#[trigger] out[j])@ == lift(iv[j + 1]),
                            forall|j: int| 1 <= j < i ==> liftable(#[trigger] iv[j]),
                        decreases items.len() - i,
                    {
                        match try_lift(&items[i]) {
                            None => {
                                assert(!liftable(iv[i as int]));
                                return None;
                            },
                            Some(x) => {
                                out.push(x);
                            },
                        }
                        i += 1;
                    }
                    assert(typed_items_view(out@) =~= lift_items(iv.drop_first()));
                    Some(TypedForm::Array(t, out))
                },
                _ => None,
            }
        },
        SimpleValue::Object(o) => {
            let i = find_labelled(o, "Z1K1");
            proof {
                assert(keys_view(o@) =~= field_keys(simple_fields_view(o@)));
            }
            if i < o.len() {
                match try_lift_type(&o[i].1) {
                    Some(Ok(t)) => match try_lift_rest(o) {
                        Some(rest) => Some(TypedForm::TypedObject(t, rest)),
                        None => None,
                    },
                    _ => None,
                }
            } else {
                match try_lift_rest(o) {
                    Some(rest) => {
                        proof {
                            let l = lift_fields(simple_fields_view(o@));
                            let keys = field_keys(simple_fields_view(o@));
                            lemma_first_labelled(keys, type_key(), 0);
                            assert forall|j: int| 0 <= j < l.len() implies !(#[trigger] l[j]).0.is_labelled(
                                type_key(),
                            ) by {
                                assert(l[j].0 == keys[j]);
                            }
                            lemma_without_none(l, type_key());
                        }
                        Some(TypedForm::Object(rest))
                    },
                    None => None,
                }
            }
        },
    }
}

impl Type {
    /// The type that `value` describes, or `Err` where it describes none.
    pub fn try_from(value: SimpleValue) -> (r: Result<Type, ()>)
        requires
            liftable_type(value@),
        ensures
            match r {
                Ok(t) => lift_type(value@) == Some(t@) && (value@.wf() ==> t@.wf()),
                Err(_) => lift_type(value@) is None,
            },
    {
        proof {
            if value@.wf() && lift_type(value@) is Some {
                lemma_lift_type_wf(value@);
            }
        }
        match try_lift_type(&value) {
            Some(r) => r,
            None => unreached(),
        }
    }

    /// As `try_from`, for any value: nothing where the search for the type
    /// meets something malformed.
    pub fn checked_try_from(value: &SimpleValue) -> (r: Option<Result<Type, ()>>)
        ensures
            r is Some <==> liftable_type(value@),
            r matches Some(Ok(t)) ==> lift_type(value@) == Some(t@),
            r matches Some(Err(_)) ==> lift_type(value@) is None,
    {
        try_lift_type(value)
    }
}

impl TypedForm {
    /// The value with its types set apart.
    pub fn from(val: SimpleValue) -> (r: Self)
        requires
            liftable(val@),
        ensures
            r@ == lift(val@),
            val@.wf() ==> r@.wf(),
    {
        proof {
            if val@.wf() {
                lemma_lift_wf(val@);
            }
        }
        match try_lift(&val) {
            Some(r) => r,
            None => unreached(),
        }
    }

    /// As `from`, for any value: nothing where `val` cannot be lifted.
    pub fn checked_from(val: &SimpleValue) -> (r: Option<Self>)
        ensures
            r is Some <==> liftable(val@),
            r is Some ==> r.unwrap()@ == lift(val@),
            r is Some && val@.wf() ==> r.unwrap()@.wf(),
    {
        proof {
            if val@.wf() && liftable(val@) {
                lemma_lift_wf(val@);
            }
        }
        try_lift(val)
    }
}

/// Each item as a document.
pub open spec fn typed_items_chosen(items: Seq<TypedFormView>, langs: Seq<Seq<char>>) -> Seq<
    JsonView,
>
    decreases items,
{
    Seq::new(
        items.len(),
        |i: int|
            if 0 <= i < items.len() {
                items[i].choose_lang(langs)
            } else {
                arbitrary()
            },
    )
}

/// Each field as a member: the key as text, the value as a document.
pub open spec fn typed_fields_chosen(
    fields: Seq<(StringTypeView, TypedFormView)>,
    langs: Seq<Seq<char>>,
) -> Seq<(Seq<char>, JsonView)>
    decreases fields,
{
    Seq::new(
        fields.len(),
        |i: int|
            if 0 <= i < fields.len() {
                (fields[i].0.choose_lang(langs), fields[i].1.choose_lang(langs))
            } else {
                arbitrary()
            },
    )
}

impl TypeView {
    /// The type as a document: its identifier as text, or an object of the
    /// identifier under `type` and the arguments under `args`.
    pub open spec fn choose_lang(self, langs: Seq<Seq<char>>) -> JsonView
        decreases self,
    {
        match self {
            TypeView::Simple(k) => JsonView::String(k.choose_lang(langs)),
            TypeView::WithArgs(s, args) => JsonView::Object(
                gather(
                    seq![
                        ("type"@, JsonView::String(s.choose_lang(langs))),
                        ("args"@, JsonView::Object(gather(typed_fields_chosen(args, langs)))),
                    ],
                ),
            ),
        }
    }
}

impl TypedFormView {
    /// The form as a document that shows its types: an array starts with
    /// its type; a typed object is an object of its type under `debug type`
    /// and its fields under `debug obj`.
    pub open spec fn choose_lang(self, langs: Seq<Seq<char>>) -> JsonView
        decreases self,
    {
        match self {
            TypedFormView::StringType(s) => JsonView::String(s.choose_lang(langs)),
            TypedFormView::Array(t, items) => JsonView::Array(
                seq![t.choose_lang(langs)] + typed_items_chosen(items, langs),
            ),
            TypedFormView::Object(fields) => JsonView::Object(
                gather(typed_fields_chosen(fields, langs)),
            ),
            TypedFormView::TypedObject(t, fields) => JsonView::Object(
                gather(
                    seq![
                        ("debug type"@, t.choose_lang(langs)),
                        ("debug obj"@, JsonView::Object(gather(typed_fields_chosen(fields, langs)))),
                    ],
                ),
            ),
        }
    }
}

#[verifier::loop_isolation(false)]
fn chosen_typed_members(o: Vec<(StringType, TypedForm)>, langs: &Vec<String>) -> (r: Json)
    ensures
        r@ == JsonView::Object(
            gather(typed_fields_chosen(typed_fields_view(o@), langs.deep_view())),
        ),
        r@.wf(),
    decreases o,
{
    let ghost s = typed_fields_chosen(typed_fields_view(o@), langs.deep_view());
    let mut members: Vec<(String, Json)> = Vec::new();
    assert(json_members_view(members@) =~= gather(s.take(0)));
    for field in it: o
        invariant
            it.seq() == o@,
            json_members_view(members@) == gather(s.take(it.index() as int)),
            keyed(json_members_view(members@)),
            forall|j: int|
                0 <= j < members.len() ==> (#[trigger] json_members_view(members@)[j]).1.wf(),
    {
        let ghost n = it.index() as int;
        let ghost before = json_members_view(members@);
        let (k, v) = field;
        let key = k.choose_lang(langs);
        let value = v.choose_lang(langs);
        proof {
            assert(s.take(n + 1).drop_last() =~= s.take(n));
            assert(s.take(n + 1).last() == (key@, value@));
            lemma_put_keyed(before, key@, value@);
        }
        put_member(&mut members, key, value);
        proof {
            let after = json_members_view(members@);
            assert forall|j: int| 0 <= j < members.len() implies (#[trigger] after[j]).1.wf() by {
                if after[j] != (key@, value@) {
                    let m = choose|m: int| 0 <= m < before.len() && before[m] == after[j];
                    assert(before[m].1.wf());
                }
            }
        }
    }
    assert(s.take(s.len() as int) =~= s);
    Json::Object(members)
}

impl Type {
    /// The type as a document, each string in the language that `langs`
    /// prefers.
    pub fn choose_lang(self, langs: &Vec<String>) -> (r: Json)
        ensures
            r@ == self@.choose_lang(langs.deep_view()),
            r@.wf(),
        decreases self,
    {
        match self {
            Type::Simple(k) => Json::String(k.choose_lang(langs)),
            Type::WithArgs(s, args) => Json::pair(
                "type",
                Json::String(s.choose_lang(langs)),
                "args",
                chosen_typed_members(args, langs),
            ),
        }
    }
}

impl TypedForm {
    /// The form as a document that shows its types, each string in the
    /// language that `langs` prefers.
    #[verifier::loop_isolation(false)]
    pub fn choose_lang(self, langs: &Vec<String>) -> (r: Json)
        ensures
            r@ == self@.choose_lang(langs.deep_view()),
            r@.wf(),
        decreases self,
    {
        match self {
            TypedForm::StringType(s) => Json::String(s.choose_lang(langs)),
            TypedForm::Array(t, v) => {
                let ghost items = typed_items_view(v@);
                let ghost head = t@.choose_lang(langs.deep_view());
                let mut out: Vec<Json> = Vec::new();
                out.push(t.choose_lang(langs));
                for x in it: v
                    invariant
                        it.seq() == v@,
                        out.len() == it.index() + 1,
                        out[0]@ == head,
                        out[0]@.wf(),
                        forall|j: int|
                            1 <= j < out.len() ==> (#[trigger] out[j])@ == v[j - 1]@.choose_lang(
                                langs.deep_view(),
                            ) && out[j]@.wf(),
                {
                    out.push(x.choose_lang(langs));
                }
                assert(json_items_view(out@) =~= seq![head] + typed_items_chosen(
                    items,
                    langs.deep_view(),
                ));
                Json::Array(out)
            },
            TypedForm::Object(o) => chosen_typed_members(o, langs),
            TypedForm::TypedObject(t, o) => Json::pair(
                "debug type",
                t.choose_lang(langs),
                "debug obj",
                chosen_typed_members(o, langs),
            ),
        }
    }
}

} // verus!
