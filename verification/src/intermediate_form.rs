//! The form that the rewriting passes work on, and the passes.

use crate::compact_key::{CompactKey, CompactKeyView};
use crate::json::{json_items_view, json_members_view, put_member, Json, JsonView};
use crate::order::{
    ascending, collect, compare_term, compare_terms, gather, insert, keyed, lemma_insert_before,
    lemma_insert_present, lemma_put_keyed, lemma_rank_decided, lemma_rank_pair,
    lemma_rank_single, Rank, Ranked, Term,
};
use crate::simple_value::{StringType, StringTypeView};
use crate::typed_form::{
    typed_fields_view, typed_items_view, Type, TypeView, TypedForm, TypedFormView,
};
use crate::wf::{lemma_retag_type_wf, lemma_retag_wf};
use vstd::prelude::*;

verus! {

/// A type: its identifier, and the arguments where it has any.
#[derive(Debug, PartialEq, Eq, PartialOrd, Ord, Hash)]
pub enum IntermediateType {
    Simple(StringType),
    WithArgs(StringType, Vec<(StringType, IntermediateForm)>),
}

/// What an [`IntermediateType`] holds.
pub enum IntermediateTypeView {
    Simple(StringTypeView),
    WithArgs(StringTypeView, Seq<(StringTypeView, IntermediateFormView)>),
}

/// The form that the rewriting passes work on: as the typed form, with keys
/// that can carry types in place of plain strings.
#[derive(Debug, PartialEq, Eq, PartialOrd, Ord, Hash)]
pub enum IntermediateForm {
    KeyType(CompactKey),
    Array(IntermediateType, Vec<IntermediateForm>),
    Object(Vec<(StringType, IntermediateForm)>),
    TypedObject(IntermediateType, Vec<(StringType, IntermediateForm)>),
}

/// What an [`IntermediateForm`] holds.
pub enum IntermediateFormView {
    KeyType(CompactKeyView),
    Array(IntermediateTypeView, Seq<IntermediateFormView>),
    Object(Seq<(StringTypeView, IntermediateFormView)>),
    TypedObject(IntermediateTypeView, Seq<(StringTypeView, IntermediateFormView)>),
}

/// The views of a list of forms.
pub open spec fn inter_items_view(v: Seq<IntermediateForm>) -> Seq<IntermediateFormView>
    decreases v,
{
    Seq::new(
        v.len(),
        |i: int|
            if 0 <= i < v.len() {
                v[i]@
            } else {
                arbitrary()
            },
    )
}

/// The views of a list of fields.
pub open spec fn inter_fields_view(v: Seq<(StringType, IntermediateForm)>) -> Seq<
    (StringTypeView, IntermediateFormView),
>
    decreases v,
{
    Seq::new(
        v.len(),
        |i: int|
            if 0 <= i < v.len() {
                (v[i].0@, v[i].1@)
            } else {
                arbitrary()
            },
    )
}

impl View for IntermediateType {
    type V = IntermediateTypeView;

    open spec fn view(&self) -> IntermediateTypeView
        decreases self,
    {
        match self {
            IntermediateType::Simple(s) => IntermediateTypeView::Simple(s@),
            IntermediateType::WithArgs(s, args) => IntermediateTypeView::WithArgs(s@, inter_fields_view(args@)),
        }
    }
}

impl View for IntermediateForm {
    type V = IntermediateFormView;

    open spec fn view(&self) -> IntermediateFormView
        decreases self,
    {
        match self {
            IntermediateForm::KeyType(k) => IntermediateFormView::KeyType(k@),
            IntermediateForm::Array(t, v) => IntermediateFormView::Array(t@, inter_items_view(v@)),
            IntermediateForm::Object(o) => IntermediateFormView::Object(inter_fields_view(o@)),
            IntermediateForm::TypedObject(t, o) => IntermediateFormView::TypedObject(t@, inter_fields_view(o@)),
        }
    }
}

/// The term that a type is ranked by.
pub open spec fn inter_type_term(t: IntermediateTypeView) -> Term
    decreases t,
{
    match t {
        IntermediateTypeView::Simple(s) => Term::Node(0, seq![s.term()]),
        IntermediateTypeView::WithArgs(s, args) => Term::Node(
            1,
            seq![s.term(), Term::Node(0, inter_field_terms(args))],
        ),
    }
}

/// The term that a form is ranked by.
pub open spec fn inter_term(v: IntermediateFormView) -> Term
    decreases v,
{
    match v {
        IntermediateFormView::KeyType(k) => Term::Node(0, seq![k.term()]),
        IntermediateFormView::Array(t, items) => Term::Node(
            1,
            seq![inter_type_term(t), Term::Node(0, inter_item_terms(items))],
        ),
        IntermediateFormView::Object(fields) => Term::Node(2, inter_field_terms(fields)),
        IntermediateFormView::TypedObject(t, fields) => Term::Node(
            3,
            seq![inter_type_term(t), Term::Node(0, inter_field_terms(fields))],
        ),
    }
}

/// The terms that a list of forms is ranked by.
pub open spec fn inter_item_terms(items: Seq<IntermediateFormView>) -> Seq<Term>
    decreases items,
{
    Seq::new(
        items.len(),
        |i: int|
            if 0 <= i < items.len() {
                inter_term(items[i])
            } else {
                arbitrary()
            },
    )
}

/// The terms that a list of fields is ranked by: each by its key, then by its value.
pub open spec fn inter_field_terms(fields: Seq<(StringTypeView, IntermediateFormView)>) -> Seq<Term>
    decreases fields,
{
    Seq::new(
        fields.len(),
        |i: int|
            if 0 <= i < fields.len() {
                Term::Node(0, seq![fields[i].0.term(), inter_term(fields[i].1)])
            } else {
                arbitrary()
            },
    )
}

/// Whether the fields are a set in its one representation, of well-formed
/// keys and values.
pub open spec fn inter_fields_wf(fields: Seq<(StringTypeView, IntermediateFormView)>) -> bool
    decreases fields,
{
    ascending(fields) && forall|i: int|
        0 <= i < fields.len() ==> (#[trigger] fields[i]).0.wf() && fields[i].1.wf()
}

impl IntermediateTypeView {
    /// The arguments are a set of well-formed fields.
    pub open spec fn wf(self) -> bool
        decreases self,
    {
        match self {
            IntermediateTypeView::Simple(s) => s.wf(),
            IntermediateTypeView::WithArgs(s, args) => s.wf() && inter_fields_wf(args),
        }
    }
}

impl IntermediateFormView {
    /// Every object's fields ascend, and every labelled string's labels are a map.
    pub open spec fn wf(self) -> bool
        decreases self,
    {
        match self {
            IntermediateFormView::KeyType(k) => k.wf(),
            IntermediateFormView::Array(t, items) => t.wf() && forall|i: int|
                0 <= i < items.len() ==> (#[trigger] items[i]).wf(),
            IntermediateFormView::Object(o) => inter_fields_wf(o),
            IntermediateFormView::TypedObject(t, o) => t.wf() && inter_fields_wf(o),
        }
    }
}

impl Ranked for IntermediateTypeView {
    open spec fn term(self) -> Term {
        inter_type_term(self)
    }
}

impl Ranked for IntermediateFormView {
    open spec fn term(self) -> Term {
        inter_term(self)
    }
}

fn clone_inter_items(items: &Vec<IntermediateForm>) -> (r: Vec<IntermediateForm>)
    ensures
        inter_items_view(r@) == inter_items_view(items@),
    decreases items,
{
    let mut out: Vec<IntermediateForm> = Vec::new();
    let mut i: usize = 0;
    while i < items.len()
        invariant
            i <= items.len(),
            out.len() == i,
            forall|j: int| 0 <= j < i ==> out[j]@ == items[j]@,
        decreases items.len() - i,
    {
        out.push(items[i].clone());
        i += 1;
    }
    assert(inter_items_view(out@) =~= inter_items_view(items@));
    out
}

fn clone_inter_fields(fields: &Vec<(StringType, IntermediateForm)>) -> (r: Vec<(StringType, IntermediateForm)>)
    ensures
        inter_fields_view(r@) == inter_fields_view(fields@),
    decreases fields,
{
    let mut out: Vec<(StringType, IntermediateForm)> = Vec::new();
    let mut i: usize = 0;
    while i < fields.len()
        invariant
            i <= fields.len(),
            out.len() == i,
            forall|j: int| 0 <= j < i ==> out[j].0@ == fields[j].0@ && out[j].1@ == fields[j].1@,
        decreases fields.len() - i,
    {
        out.push((fields[i].0.clone(), fields[i].1.clone()));
        i += 1;
    }
    assert(inter_fields_view(out@) =~= inter_fields_view(fields@));
    out
}

impl Clone for IntermediateType {
    fn clone(&self) -> (r: Self)
        ensures
            r@ == self@,
        decreases self,
    {
        match self {
            IntermediateType::Simple(s) => IntermediateType::Simple(s.clone()),
            IntermediateType::WithArgs(s, args) => IntermediateType::WithArgs(s.clone(), clone_inter_fields(args)),
        }
    }
}

impl Clone for IntermediateForm {
    fn clone(&self) -> (r: Self)
        ensures
            r@ == self@,
        decreases self,
    {
        match self {
            IntermediateForm::KeyType(k) => IntermediateForm::KeyType(k.clone()),
            IntermediateForm::Array(t, v) => IntermediateForm::Array(t.clone(), clone_inter_items(v)),
            IntermediateForm::Object(o) => IntermediateForm::Object(clone_inter_fields(o)),
            IntermediateForm::TypedObject(t, o) => IntermediateForm::TypedObject(t.clone(), clone_inter_fields(o)),
        }
    }
}

fn compare_inter_items(a: &Vec<IntermediateForm>, b: &Vec<IntermediateForm>) -> (r: Rank)
    ensures
        r == compare_terms(
            inter_item_terms(inter_items_view(a@)),
            inter_item_terms(inter_items_view(b@)),
        ),
    decreases a,
{
    let ghost x = inter_item_terms(inter_items_view(a@));
    let ghost y = inter_item_terms(inter_items_view(b@));
    let mut i: usize = 0;
    while i < a.len() && i < b.len()
        invariant
            i <= a.len(),
            i <= b.len(),
            x == inter_item_terms(inter_items_view(a@)),
            y == inter_item_terms(inter_items_view(b@)),
            forall|j: int| 0 <= j < i ==> compare_term(#[trigger] x[j], y[j]) == Rank::Equal,
        decreases a.len() - i,
    {
        let r = a[i].compare(&b[i]);
        if r != Rank::Equal {
            proof {
                lemma_rank_decided(x, y, i as int);
            }
            return r;
        }
        i += 1;
    }
    proof {
        lemma_rank_decided(x, y, i as int);
    }
    if i < b.len() {
        Rank::Less
    } else if i < a.len() {
        Rank::Greater
    } else {
        Rank::Equal
    }
}

fn compare_inter_field(a: &(StringType, IntermediateForm), b: &(StringType, IntermediateForm)) -> (r: Rank)
    ensures
        r == compare_term((a.0@, a.1@).term(), (b.0@, b.1@).term()),
    decreases a,
{
    proof {
        lemma_rank_pair(0, a.0@.term(), a.1@.term(), b.0@.term(), b.1@.term());
    }
    match a.0.compare(&b.0) {
        Rank::Equal => a.1.compare(&b.1),
        r => r,
    }
}

fn compare_inter_fields(a: &Vec<(StringType, IntermediateForm)>, b: &Vec<(StringType, IntermediateForm)>) -> (r:
    Rank)
    ensures
        r == compare_terms(
            inter_field_terms(inter_fields_view(a@)),
            inter_field_terms(inter_fields_view(b@)),
        ),
    decreases a,
{
    let ghost x = inter_field_terms(inter_fields_view(a@));
    let ghost y = inter_field_terms(inter_fields_view(b@));
    let mut i: usize = 0;
    while i < a.len() && i < b.len()
        invariant
            i <= a.len(),
            i <= b.len(),
            x == inter_field_terms(inter_fields_view(a@)),
            y == inter_field_terms(inter_fields_view(b@)),
            forall|j: int| 0 <= j < i ==> compare_term(#[trigger] x[j], y[j]) == Rank::Equal,
        decreases a.len() - i,
    {
        let r = compare_inter_field(&a[i], &b[i]);
        if r != Rank::Equal {
            proof {
                lemma_rank_decided(x, y, i as int);
            }
            return r;
        }
        i += 1;
    }
    proof {
        lemma_rank_decided(x, y, i as int);
    }
    if i < b.len() {
        Rank::Less
    } else if i < a.len() {
        Rank::Greater
    } else {
        Rank::Equal
    }
}

/// Puts a field at its place among `fields`, unless it is there already.
pub fn insert_inter_field(fields: &mut Vec<(StringType, IntermediateForm)>, field: (StringType, IntermediateForm))
    ensures
        inter_fields_view(final(fields)@) == insert(
            inter_fields_view(old(fields)@),
            (field.0@, field.1@),
        ),
{
    let ghost s = inter_fields_view(fields@);
    let ghost x = (field.0@, field.1@);
    let mut i: usize = 0;
    let mut found = false;
    while i < fields.len() && !found
        invariant
            i <= fields.len(),
            *fields == *old(fields),
            s == inter_fields_view(fields@),
            x == (field.0@, field.1@),
            forall|j: int| 0 <= j < i ==> compare_term(x.term(), (#[trigger] s[j]).term()) == Rank::Greater,
            found ==> i < fields.len() && compare_term(x.term(), s[i as int].term()) == Rank::Less,
        decreases fields.len() - i, if found { 0int } else { 1int },
    {
        match compare_inter_field(&field, &fields[i]) {
            Rank::Less => {
                found = true;
            },
            Rank::Equal => {
                proof {
                    lemma_insert_present(s, x, i as int);
                }
                return ;
            },
            Rank::Greater => {
                i += 1;
            },
        }
    }
    proof {
        lemma_insert_before(s, x, i as int);
    }
    fields.insert(i, field);
    assert(inter_fields_view(fields@) =~= s.insert(i as int, x));
}

impl IntermediateType {
    /// Three-way comparison in the canonical order: types without arguments
    /// first, by the identifier and then by the arguments.
    pub fn compare(&self, other: &IntermediateType) -> (r: Rank)
        ensures
            r == compare_term(self@.term(), other@.term()),
        decreases self,
    {
        match self {
            IntermediateType::Simple(a) => match other {
                IntermediateType::Simple(b) => {
                    proof {
                        lemma_rank_single(0, a@.term(), b@.term());
                    }
                    a.compare(b)
                },
                IntermediateType::WithArgs(_, _) => Rank::Less,
            },
            IntermediateType::WithArgs(a, s) => match other {
                IntermediateType::Simple(_) => Rank::Greater,
                IntermediateType::WithArgs(b, t) => {
                    proof {
                        lemma_rank_pair(
                            1,
                            a@.term(),
                            Term::Node(0, inter_field_terms(inter_fields_view(s@))),
                            b@.term(),
                            Term::Node(0, inter_field_terms(inter_fields_view(t@))),
                        );
                    }
                    match a.compare(b) {
                        Rank::Equal => compare_inter_fields(s, t),
                        r => r,
                    }
                },
            },
        }
    }
}

impl IntermediateForm {
    /// Three-way comparison in the canonical order: keys, arrays, plain
    /// objects, typed objects; within a kind by the type and then item by
    /// item.
    pub fn compare(&self, other: &IntermediateForm) -> (r: Rank)
        ensures
            r == compare_term(self@.term(), other@.term()),
        decreases self,
    {
        match self {
            IntermediateForm::KeyType(a) => match other {
                IntermediateForm::KeyType(b) => {
                    proof {
                        lemma_rank_single(0, a@.term(), b@.term());
                    }
                    a.compare(b)
                },
                _ => Rank::Less,
            },
            IntermediateForm::Array(t, a) => match other {
                IntermediateForm::KeyType(_) => Rank::Greater,
                IntermediateForm::Array(u, b) => {
                    proof {
                        lemma_rank_pair(
                            1,
                            t@.term(),
                            Term::Node(0, inter_item_terms(inter_items_view(a@))),
                            u@.term(),
                            Term::Node(0, inter_item_terms(inter_items_view(b@))),
                        );
                    }
                    match t.compare(u) {
                        Rank::Equal => compare_inter_items(a, b),
                        r => r,
                    }
                },
                _ => Rank::Less,
            },
            IntermediateForm::Object(a) => match other {
                IntermediateForm::Object(b) => compare_inter_fields(a, b),
                IntermediateForm::TypedObject(_, _) => Rank::Less,
                _ => Rank::Greater,
            },
            IntermediateForm::TypedObject(t, a) => match other {
                IntermediateForm::TypedObject(u, b) => {
                    proof {
                        lemma_rank_pair(
                            3,
                            t@.term(),
                            Term::Node(0, inter_field_terms(inter_fields_view(a@))),
                            u@.term(),
                            Term::Node(0, inter_field_terms(inter_fields_view(b@))),
                        );
                    }
                    match t.compare(u) {
                        Rank::Equal => compare_inter_fields(a, b),
                        r => r,
                    }
                },
                _ => Rank::Greater,
            },
        }
    }
}

/// Each item in the intermediate form.
pub open spec fn retag_items(items: Seq<TypedFormView>) -> Seq<IntermediateFormView>
    decreases items,
{
    Seq::new(
        items.len(),
        |i: int|
            if 0 <= i < items.len() {
                retag(items[i])
            } else {
                arbitrary()
            },
    )
}

/// Each field with its value in the intermediate form.
pub open spec fn retag_fields(fields: Seq<(StringTypeView, TypedFormView)>) -> Seq<
    (StringTypeView, IntermediateFormView),
>
    decreases fields,
{
    Seq::new(
        fields.len(),
        |i: int|
            if 0 <= i < fields.len() {
                (fields[i].0, retag(fields[i].1))
            } else {
                arbitrary()
            },
    )
}

/// The type with its arguments in the intermediate form.
pub open spec fn retag_type(t: TypeView) -> IntermediateTypeView
    decreases t,
{
    match t {
        TypeView::Simple(s) => IntermediateTypeView::Simple(s),
        TypeView::WithArgs(s, args) => IntermediateTypeView::WithArgs(
            s,
            collect(retag_fields(args)),
        ),
    }
}

/// The typed form in the intermediate form: the same tree, each string as
/// a key with no type attached.
pub open spec fn retag(v: TypedFormView) -> IntermediateFormView
    decreases v,
{
    match v {
        TypedFormView::StringType(s) => IntermediateFormView::KeyType(
            CompactKeyView::StringType(s, Seq::empty()),
        ),
        TypedFormView::Array(t, items) => IntermediateFormView::Array(
            retag_type(t),
            retag_items(items),
        ),
        TypedFormView::Object(o) => IntermediateFormView::Object(collect(retag_fields(o))),
        TypedFormView::TypedObject(t, o) => IntermediateFormView::TypedObject(
            retag_type(t),
            collect(retag_fields(o)),
        ),
    }
}

#[verifier::loop_isolation(false)]
fn retagged_items(items: Vec<TypedForm>) -> (r: Vec<IntermediateForm>)
    ensures
        inter_items_view(r@) == retag_items(typed_items_view(items@)),
    decreases items,
{
    let mut out: Vec<IntermediateForm> = Vec::new();
    for x in it: items
        invariant
            it.seq() == items@,
            out.len() == it.index(),
            forall|j: int| 0 <= j < out.len() ==> (#[trigger] out[j])@ == retag(items[j]@),
    {
        out.push(IntermediateForm::from(x));
    }
    assert(inter_items_view(out@) =~= retag_items(typed_items_view(items@)));
    out
}

#[verifier::loop_isolation(false)]
fn retagged_fields(o: Vec<(StringType, TypedForm)>) -> (r: Vec<(StringType, IntermediateForm)>)
    ensures
        inter_fields_view(r@) == collect(retag_fields(typed_fields_view(o@))),
    decreases o,
{
    let ghost m = retag_fields(typed_fields_view(o@));
    let mut out: Vec<(StringType, IntermediateForm)> = Vec::new();
    assert(inter_fields_view(out@) =~= collect(m.take(0)));
    for field in it: o
        invariant
            it.seq() == o@,
            inter_fields_view(out@) == collect(m.take(it.index() as int)),
    {
        let ghost n = it.index() as int;
        let (k, v) = field;
        let w = IntermediateForm::from(v);
        proof {
            assert(m.take(n + 1).drop_last() =~= m.take(n));
            assert(m.take(n + 1).last() == (k@, w@));
        }
        insert_inter_field(&mut out, (k, w));
    }
    assert(m.take(m.len() as int) =~= m);
    out
}

impl IntermediateType {
    /// The type with its arguments in the intermediate form.
    pub fn from(t: Type) -> (r: Self)
        ensures
            r@ == retag_type(t@),
            t@.wf() ==> r@.wf(),
        decreases t,
    {
        proof {
            if t@.wf() {
                lemma_retag_type_wf(t@);
            }
        }
        match t {
            Type::Simple(s) => IntermediateType::Simple(s),
            Type::WithArgs(s, args) => IntermediateType::WithArgs(s, retagged_fields(args)),
        }
    }
}

impl IntermediateForm {
    /// The typed form in the intermediate form.
    pub fn from(val: TypedForm) -> (r: Self)
        ensures
            r@ == retag(val@),
            val@.wf() ==> r@.wf(),
        decreases val,
    {
        proof {
            if val@.wf() {
                lemma_retag_wf(val@);
            }
        }
        match val {
            TypedForm::StringType(s) => IntermediateForm::KeyType(CompactKey::from(s)),
            TypedForm::Array(t, items) => IntermediateForm::Array(
                IntermediateType::from(t),
                retagged_items(items),
            ),
            TypedForm::Object(o) => IntermediateForm::Object(retagged_fields(o)),
            TypedForm::TypedObject(t, o) => IntermediateForm::TypedObject(
                IntermediateType::from(t),
                retagged_fields(o),
            ),
        }
    }
}

/// Each item as a document.
pub open spec fn inter_items_chosen(items: Seq<IntermediateFormView>, langs: Seq<Seq<char>>) -> Seq<
    JsonView,
>
    decreases items,
{
    Seq::new(
        items.len(),
        |i: int|
            if 0 <= i < items.len() {
                items[i].choose_lang(langs)
            } else {
                arbitrary()
            },
    )
}

/// Each field as a member: the key as text, the value as a document.
pub open spec fn inter_fields_chosen(
    fields: Seq<(StringTypeView, IntermediateFormView)>,
    langs: Seq<Seq<char>>,
) -> Seq<(Seq<char>, JsonView)>
    decreases fields,
{
    Seq::new(
        fields.len(),
        |i: int|
            if 0 <= i < fields.len() {
                (fields[i].0.choose_lang(langs), fields[i].1.choose_lang(langs))
            } else {
                arbitrary()
            },
    )
}

impl IntermediateTypeView {
    /// The type as a document: its identifier as text, or an object of the
    /// identifier under `type` and the arguments under `args`.
    pub open spec fn choose_lang(self, langs: Seq<Seq<char>>) -> JsonView
        decreases self,
    {
        match self {
            IntermediateTypeView::Simple(k) => JsonView::String(k.choose_lang(langs)),
            IntermediateTypeView::WithArgs(s, args) => JsonView::Object(
                gather(
                    seq![
                        ("type"@, JsonView::String(s.choose_lang(langs))),
                        ("args"@, JsonView::Object(gather(inter_fields_chosen(args, langs)))),
                    ],
                ),
            ),
        }
    }
}

impl IntermediateFormView {
    /// The form as a document that shows its types: an array starts with
    /// its type; a typed object is an object of its type under `debug type`
    /// and its fields under `debug obj`.
    pub open spec fn choose_lang(self, langs: Seq<Seq<char>>) -> JsonView
        decreases self,
    {
        match self {
            IntermediateFormView::KeyType(k) => JsonView::String(k.choose_lang(langs)),
            IntermediateFormView::Array(t, items) => JsonView::Array(
                seq![t.choose_lang(langs)] + inter_items_chosen(items, langs),
            ),
            IntermediateFormView::Object(fields) => JsonView::Object(
                gather(inter_fields_chosen(fields, langs)),
            ),
            IntermediateFormView::TypedObject(t, fields) => JsonView::Object(
                gather(
                    seq![
                        ("debug type"@, t.choose_lang(langs)),
                        ("debug obj"@, JsonView::Object(gather(inter_fields_chosen(fields, langs)))),
                    ],
                ),
            ),
        }
    }
}

#[verifier::loop_isolation(false)]
fn chosen_inter_members(o: Vec<(StringType, IntermediateForm)>, langs: &Vec<String>) -> (r: Json)
    ensures
        r@ == JsonView::Object(
            gather(inter_fields_chosen(inter_fields_view(o@), langs.deep_view())),
        ),
        r@.wf(),
    decreases o,
{
    let ghost s = inter_fields_chosen(inter_fields_view(o@), langs.deep_view());
    let mut members: Vec<(String, Json)> = Vec::new();
    assert(json_members_view(members@) =~= gather(s.take(0)));
    for field in it: o
        invariant
            it.seq() == o@,
            json_members_view(members@) == gather(s.take(it.index() as int)),
            keyed(json_members_view(members@)),
            forall|j: int|
                0 <= j < members.len() ==> (#[trigger] json_members_view(members@)[j]).1.wf(),
    {
        let ghost n = it.index() as int;
        let ghost before = json_members_view(members@);
        let (k, v) = field;
        let key = k.choose_lang(langs);
        let value = v.choose_lang(langs);
        proof {
            assert(s.take(n + 1).drop_last() =~= s.take(n));
            assert(s.take(n + 1).last() == (key@, value@));
            lemma_put_keyed(before, key@, value@);
        }
        put_member(&mut members, key, value);
        proof {
            let after = json_members_view(members@);
            assert forall|j: int| 0 <= j < members.len() implies (#[trigger] after[j]).1.wf() by {
                if after[j] != (key@, value@) {
                    let m = choose|m: int| 0 <= m < before.len() && before[m] == after[j];
                    assert(before[m].1.wf());
                }
            }
        }
    }
    assert(s.take(s.len() as int) =~= s);
    Json::Object(members)
}

impl IntermediateType {
    /// The type as a document, each string in the language that `langs`
    /// prefers.
    pub fn choose_lang(self, langs: &Vec<String>) -> (r: Json)
        ensures
            r@ == self@.choose_lang(langs.deep_view()),
            r@.wf(),
        decreases self,
    {
        match self {
            IntermediateType::Simple(k) => Json::String(k.choose_lang(langs)),
            IntermediateType::WithArgs(s, args) => Json::pair(
                "type",
                Json::String(s.choose_lang(langs)),
                "args",
                chosen_inter_members(args, langs),
            ),
        }
    }
}

impl IntermediateForm {
    /// The form as a document that shows its types, each string in the
    /// language that `langs` prefers.
    #[verifier::loop_isolation(false)]
    pub fn choose_lang(self, langs: &Vec<String>) -> (r: Json)
        ensures
            r@ == self@.choose_lang(langs.deep_view()),
            r@.wf(),
        decreases self,
    {
        match self {
            IntermediateForm::KeyType(k) => Json::String(k.choose_lang(langs)),
            IntermediateForm::Array(t, v) => {
                let ghost items = inter_items_view(v@);
                let ghost head = t@.choose_lang(langs.deep_view());
                let mut out: Vec<Json> = Vec::new();
                out.push(t.choose_lang(langs));
                for x in it: v
                    invariant
                        it.seq() == v@,
                        out.len() == it.index() + 1,
                        out[0]@ == head,
                        out[0]@.wf(),
                        forall|j: int|
                            1 <= j < out.len() ==> (#[trigger] out[j])@ == v[j - 1]@.choose_lang(
                                langs.deep_view(),
                            ) && out[j]@.wf(),
                {
                    out.push(x.choose_lang(langs));
                }
                assert(json_items_view(out@) =~= seq![head] + inter_items_chosen(
                    items,
                    langs.deep_view(),
                ));
                Json::Array(out)
            },
            IntermediateForm::Object(o) => chosen_inter_members(o, langs),
            IntermediateForm::TypedObject(t, o) => Json::pair(
                "debug type",
                t.choose_lang(langs),
                "debug obj",
                chosen_inter_members(o, langs),
            ),
        }
    }
}

} // verus!
