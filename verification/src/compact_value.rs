//! The compact value: the last form, in which types have moved into keys.

use crate::compact_key::{CompactKey, CompactKeyView};
use crate::json::{json_items_view, json_members_view, put_member, Json, JsonView};
use crate::order::{
    ascending, collect, compare_term, compare_terms, gather, insert, keyed, lemma_collect,
    lemma_insert_before, lemma_insert_present, lemma_put_keyed, lemma_rank_decided,
    lemma_rank_pair, lemma_rank_single, Rank, Ranked, Term,
};
use crate::compact_key::{types_view, SimpleType};
use crate::intermediate_form::{
    inter_fields_view, inter_fields_wf, inter_items_view, IntermediateForm,
    IntermediateFormView, IntermediateType, IntermediateTypeView,
};
use crate::simple_value::{
    simple_fields_view, simple_items_view, SimpleValue, SimpleValueView, StringType,
    StringTypeView,
};
use crate::typed_form::type_key;
use crate::wf::{
    lemma_compact_wf, lemma_compress_simple_classes_wf, lemma_plain_compact_wf, lemma_untyped_wf,
};
use vstd::prelude::*;
use vstd::string::StringExecFns;

verus! {

/// A document whose keys carry the types of their values. The fields of an
/// object are a set of pairs, kept ascending.
#[derive(Debug, PartialEq, Eq, PartialOrd, Ord, Hash)]
pub enum CompactValue {
    KeyType(CompactKey),
    Array(Vec<CompactValue>),
    Object(Vec<(CompactKey, CompactValue)>),
}

/// What a [`CompactValue`] holds.
pub enum CompactValueView {
    KeyType(CompactKeyView),
    Array(Seq<CompactValueView>),
    Object(Seq<(CompactKeyView, CompactValueView)>),
}

/// The views of a list of values.
pub open spec fn compact_items_view(v: Seq<CompactValue>) -> Seq<CompactValueView>
    decreases v,
{
    Seq::new(
        v.len(),
        |i: int|
            if 0 <= i < v.len() {
                v[i]@
            } else {
                arbitrary()
            },
    )
}

/// The views of a list of fields.
pub open spec fn compact_fields_view(v: Seq<(CompactKey, CompactValue)>) -> Seq<
    (CompactKeyView, CompactValueView),
>
    decreases v,
{
    Seq::new(
        v.len(),
        |i: int|
            if 0 <= i < v.len() {
                (v[i].0@, v[i].1@)
            } else {
                arbitrary()
            },
    )
}

impl View for CompactValue {
    type V = CompactValueView;

    open spec fn view(&self) -> CompactValueView
        decreases self,
    {
        match self {
            CompactValue::KeyType(s) => CompactValueView::KeyType(s@),
            CompactValue::Array(v) => CompactValueView::Array(compact_items_view(v@)),
            CompactValue::Object(o) => CompactValueView::Object(compact_fields_view(o@)),
        }
    }
}

/// The term that a value is ranked by.
pub open spec fn compact_term(v: CompactValueView) -> Term
    decreases v,
{
    match v {
        CompactValueView::KeyType(s) => Term::Node(0, seq![s.term()]),
        CompactValueView::Array(items) => Term::Node(1, compact_item_terms(items)),
        CompactValueView::Object(fields) => Term::Node(2, compact_field_terms(fields)),
    }
}

/// The terms that a list of values is ranked by.
pub open spec fn compact_item_terms(items: Seq<CompactValueView>) -> Seq<Term>
    decreases items,
{
    Seq::new(
        items.len(),
        |i: int|
            if 0 <= i < items.len() {
                compact_term(items[i])
            } else {
                arbitrary()
            },
    )
}

/// The terms that a list of fields is ranked by: each by its key, then by its value.
pub open spec fn compact_field_terms(fields: Seq<(CompactKeyView, CompactValueView)>) -> Seq<Term>
    decreases fields,
{
    Seq::new(
        fields.len(),
        |i: int|
            if 0 <= i < fields.len() {
                Term::Node(0, seq![fields[i].0.term(), compact_term(fields[i].1)])
            } else {
                arbitrary()
            },
    )
}

/// Each item as a document.
pub open spec fn compact_items_chosen(items: Seq<CompactValueView>, langs: Seq<Seq<char>>) -> Seq<
    JsonView,
>
    decreases items,
{
    Seq::new(
        items.len(),
        |i: int|
            if 0 <= i < items.len() {
                items[i].choose_lang(langs)
            } else {
                arbitrary()
            },
    )
}

/// Each field as a member: the key as text, the value as a document.
pub open spec fn compact_fields_chosen(
    fields: Seq<(CompactKeyView, CompactValueView)>,
    langs: Seq<Seq<char>>,
) -> Seq<(Seq<char>, JsonView)>
    decreases fields,
{
    Seq::new(
        fields.len(),
        |i: int|
            if 0 <= i < fields.len() {
                (fields[i].0.choose_lang(langs), fields[i].1.choose_lang(langs))
            } else {
                arbitrary()
            },
    )
}

impl Ranked for CompactValueView {
    open spec fn term(self) -> Term {
        compact_term(self)
    }
}

impl CompactValueView {
    /// The value as a document: every string as text in the language that
    /// `langs` prefers. Of two fields whose keys give the same text, the
    /// later one stays.
    pub open spec fn choose_lang(self, langs: Seq<Seq<char>>) -> JsonView
        decreases self,
    {
        match self {
            CompactValueView::KeyType(s) => JsonView::String(s.choose_lang(langs)),
            CompactValueView::Array(items) => JsonView::Array(compact_items_chosen(items, langs)),
            CompactValueView::Object(fields) => JsonView::Object(
                gather(compact_fields_chosen(fields, langs)),
            ),
        }
    }

    /// Every object's fields ascend, and every labelled string's labels are a map.
    pub open spec fn wf(self) -> bool
        decreases self,
    {
        match self {
            CompactValueView::KeyType(s) => s.wf(),
            CompactValueView::Array(items) => forall|i: int|
                0 <= i < items.len() ==> (#[trigger] items[i]).wf(),
            CompactValueView::Object(fields) => ascending(fields) && forall|i: int|
                0 <= i < fields.len() ==> (#[trigger] fields[i]).0.wf() && fields[i].1.wf(),
        }
    }
}

fn clone_compact_items(items: &Vec<CompactValue>) -> (r: Vec<CompactValue>)
    ensures
        compact_items_view(r@) == compact_items_view(items@),
    decreases items,
{
    let mut out: Vec<CompactValue> = Vec::new();
    let mut i: usize = 0;
    while i < items.len()
        invariant
            i <= items.len(),
            out.len() == i,
            forall|j: int| 0 <= j < i ==> out[j]@ == items[j]@,
        decreases items.len() - i,
    {
        out.push(items[i].clone());
        i += 1;
    }
    assert(compact_items_view(out@) =~= compact_items_view(items@));
    out
}

fn clone_compact_fields(fields: &Vec<(CompactKey, CompactValue)>) -> (r: Vec<(CompactKey, CompactValue)>)
    ensures
        compact_fields_view(r@) == compact_fields_view(fields@),
    decreases fields,
{
    let mut out: Vec<(CompactKey, CompactValue)> = Vec::new();
    let mut i: usize = 0;
    while i < fields.len()
        invariant
            i <= fields.len(),
            out.len() == i,
            forall|j: int| 0 <= j < i ==> out[j].0@ == fields[j].0@ && out[j].1@ == fields[j].1@,
        decreases fields.len() - i,
    {
        out.push((fields[i].0.clone(), fields[i].1.clone()));
        i += 1;
    }
    assert(compact_fields_view(out@) =~= compact_fields_view(fields@));
    out
}

impl Clone for CompactValue {
    fn clone(&self) -> (r: Self)
        ensures
            r@ == self@,
        decreases self,
    {
        match self {
            CompactValue::KeyType(s) => CompactValue::KeyType(s.clone()),
            CompactValue::Array(v) => CompactValue::Array(clone_compact_items(v)),
            CompactValue::Object(o) => CompactValue::Object(clone_compact_fields(o)),
        }
    }
}

fn compare_compact_items(a: &Vec<CompactValue>, b: &Vec<CompactValue>) -> (r: Rank)
    ensures
        r == compare_terms(
            compact_item_terms(compact_items_view(a@)),
            compact_item_terms(compact_items_view(b@)),
        ),
    decreases a,
{
    let ghost x = compact_item_terms(compact_items_view(a@));
    let ghost y = compact_item_terms(compact_items_view(b@));
    let mut i: usize = 0;
    while i < a.len() && i < b.len()
        invariant
            i <= a.len(),
            i <= b.len(),
            x == compact_item_terms(compact_items_view(a@)),
            y == compact_item_terms(compact_items_view(b@)),
            forall|j: int| 0 <= j < i ==> compare_term(#[trigger] x[j], y[j]) == Rank::Equal,
        decreases a.len() - i,
    {
        let r = a[i].compare(&b[i]);
        if r != Rank::Equal {
            proof {
                lemma_rank_decided(x, y, i as int);
            }
            return r;
        }
        i += 1;
    }
    proof {
        lemma_rank_decided(x, y, i as int);
    }
    if i < b.len() {
        Rank::Less
    } else if i < a.len() {
        Rank::Greater
    } else {
        Rank::Equal
    }
}

fn compare_compact_field(a: &(CompactKey, CompactValue), b: &(CompactKey, CompactValue)) -> (r: Rank)
    ensures
        r == compare_term((a.0@, a.1@).term(), (b.0@, b.1@).term()),
    decreases a,
{
    proof {
        lemma_rank_pair(0, a.0@.term(), a.1@.term(), b.0@.term(), b.1@.term());
    }
    match a.0.compare(&b.0) {
        Rank::Equal => a.1.compare(&b.1),
        r => r,
    }
}

fn compare_compact_fields(a: &Vec<(CompactKey, CompactValue)>, b: &Vec<(CompactKey, CompactValue)>) -> (r:
    Rank)
    ensures
        r == compare_terms(
            compact_field_terms(compact_fields_view(a@)),
            compact_field_terms(compact_fields_view(b@)),
        ),
    decreases a,
{
    let ghost x = compact_field_terms(compact_fields_view(a@));
    let ghost y = compact_field_terms(compact_fields_view(b@));
    let mut i: usize = 0;
    while i < a.len() && i < b.len()
        invariant
            i <= a.len(),
            i <= b.len(),
            x == compact_field_terms(compact_fields_view(a@)),
            y == compact_field_terms(compact_fields_view(b@)),
            forall|j: int| 0 <= j < i ==> compare_term(#[trigger] x[j], y[j]) == Rank::Equal,
        decreases a.len() - i,
    {
        let r = compare_compact_field(&a[i], &b[i]);
        if r != Rank::Equal {
            proof {
                lemma_rank_decided(x, y, i as int);
            }
            return r;
        }
        i += 1;
    }
    proof {
        lemma_rank_decided(x, y, i as int);
    }
    if i < b.len() {
        Rank::Less
    } else if i < a.len() {
        Rank::Greater
    } else {
        Rank::Equal
    }
}

/// Puts a field at its place among `fields`, unless it is there already.
pub fn insert_compact_field(fields: &mut Vec<(CompactKey, CompactValue)>, field: (CompactKey, CompactValue))
    ensures
        compact_fields_view(final(fields)@) == insert(
            compact_fields_view(old(fields)@),
            (field.0@, field.1@),
        ),
{
    let ghost s = compact_fields_view(fields@);
    let ghost x = (field.0@, field.1@);
    let mut i: usize = 0;
    let mut found = false;
    while i < fields.len() && !found
        invariant
            i <= fields.len(),
            *fields == *old(fields),
            s == compact_fields_view(fields@),
            x == (field.0@, field.1@),
            forall|j: int| 0 <= j < i ==> compare_term(x.term(), (#[trigger] s[j]).term()) == Rank::Greater,
            found ==> i < fields.len() && compare_term(x.term(), s[i as int].term()) == Rank::Less,
        decreases fields.len() - i, if found { 0int } else { 1int },
    {
        match compare_compact_field(&field, &fields[i]) {
            Rank::Less => {
                found = true;
            },
            Rank::Equal => {
                proof {
                    lemma_insert_present(s, x, i as int);
                }
                return ;
            },
            Rank::Greater => {
                i += 1;
            },
        }
    }
    proof {
        lemma_insert_before(s, x, i as int);
    }
    fields.insert(i, field);
    assert(compact_fields_view(fields@) =~= s.insert(i as int, x));
}

impl CompactValue {
    /// The value that is the key `k`.
    pub fn from_key(k: CompactKey) -> (r: Self)
        ensures
            r@ == CompactValueView::KeyType(k@),
    {
        CompactValue::KeyType(k)
    }

    /// The object whose fields are the set of `pairs`.
    pub fn object(pairs: Vec<(CompactKey, CompactValue)>) -> (r: Self)
        ensures
            r@ == CompactValueView::Object(collect(compact_fields_view(pairs@))),
            ascending(collect(compact_fields_view(pairs@))),
            (forall|i: int| 0 <= i < pairs.len() ==> (#[trigger] pairs[i]).0@.wf() && pairs[i].1@.wf())
                ==> r@.wf(),
    {
        let ghost s = compact_fields_view(pairs@);
        let mut fields: Vec<(CompactKey, CompactValue)> = Vec::new();
        assert(compact_fields_view(fields@) =~= collect(s.take(0)));
        for pair in it: pairs
            invariant
                it.seq() == pairs@,
                s == compact_fields_view(pairs@),
                compact_fields_view(fields@) == collect(s.take(it.index() as int)),
        {
            proof {
                let n = it.index() as int;
                assert(s.take(n + 1).drop_last() =~= s.take(n));
                assert(s.take(n + 1).last() == (pair.0@, pair.1@));
            }
            insert_compact_field(&mut fields, pair);
        }
        proof {
            assert(s.take(s.len() as int) =~= s);
            lemma_collect(s);
            if forall|i: int| 0 <= i < pairs.len() ==> (#[trigger] pairs[i]).0@.wf() && pairs[i].1@.wf() {
                let c = collect(s);
                assert forall|i: int| 0 <= i < c.len() implies (#[trigger] c[i]).0.wf() && c[i].1.wf() by {
                    assert(c.contains(c[i]));
                    let j = choose|j: int| 0 <= j < s.len() && s[j] == c[i];
                    assert(pairs[j].0@.wf() && pairs[j].1@.wf());
                }
            }
        }
        CompactValue::Object(fields)
    }

    /// The value as a document, each string in the language that `langs`
    /// prefers. The members of every object in it ascend by key.
    #[verifier::loop_isolation(false)]
    pub fn choose_lang(self, langs: &Vec<String>) -> (r: Json)
        ensures
            r@ == self@.choose_lang(langs.deep_view()),
            r@.wf(),
        decreases self,
    {
        match self {
            CompactValue::KeyType(s) => Json::String(s.choose_lang(langs)),
            CompactValue::Array(v) => {
                let ghost items = compact_items_view(v@);
                let mut out: Vec<Json> = Vec::new();
                for x in it: v
                    invariant
                        it.seq() == v@,
                        out.len() == it.index(),
                        forall|j: int|
                            0 <= j < out.len() ==> (#[trigger] out[j])@ == v[j]@.choose_lang(
                                langs.deep_view(),
                            ) && out[j]@.wf(),
                {
                    out.push(x.choose_lang(langs));
                }
                assert(json_items_view(out@) =~= compact_items_chosen(items, langs.deep_view()));
                Json::Array(out)
            },
            CompactValue::Object(o) => {
                let ghost s = compact_fields_chosen(compact_fields_view(o@), langs.deep_view());
                let mut members: Vec<(String, Json)> = Vec::new();
                assert(json_members_view(members@) =~= gather(s.take(0)));
                for field in it: o
                    invariant
                        it.seq() == o@,
                        s == compact_fields_chosen(compact_fields_view(o@), langs.deep_view()),
                        json_members_view(members@) == gather(s.take(it.index() as int)),
                        keyed(json_members_view(members@)),
                        forall|j: int|
                            0 <= j < members.len() ==> (#[trigger] json_members_view(
                                members@,
                            )[j]).1.wf(),
                {
                    let ghost n = it.index() as int;
                    let ghost before = json_members_view(members@);
                    let (k, v) = field;
                    let key = k.choose_lang(langs);
                    let value = v.choose_lang(langs);
                    proof {
                        assert(s.take(n + 1).drop_last() =~= s.take(n));
                        assert(s.take(n + 1).last() == (key@, value@));
                        lemma_put_keyed(before, key@, value@);
                    }
                    put_member(&mut members, key, value);
                    proof {
                        let after = json_members_view(members@);
                        assert forall|j: int| 0 <= j < members.len() implies (#[trigger] after[j]).1.wf() by {
                            if after[j] != (key@, value@) {
                                let m = choose|m: int| 0 <= m < before.len() && before[m] == after[j];
                                assert(before[m].1.wf());
                            }
                        }
                    }
                }
                assert(s.take(s.len() as int) =~= s);
                Json::Object(members)
            },
        }
    }

    /// Three-way comparison in the canonical order: keys, then arrays,
    /// then objects; arrays and objects item by item.
    pub fn compare(&self, other: &CompactValue) -> (r: Rank)
        ensures
            r == compare_term(self@.term(), other@.term()),
        decreases self,
    {
        match self {
            CompactValue::KeyType(a) => match other {
                CompactValue::KeyType(b) => {
                    proof {
                        lemma_rank_single(0, a@.term(), b@.term());
                    }
                    a.compare(b)
                },
                _ => Rank::Less,
            },
            CompactValue::Array(a) => match other {
                CompactValue::KeyType(_) => Rank::Greater,
                CompactValue::Array(b) => compare_compact_items(a, b),
                CompactValue::Object(_) => Rank::Less,
            },
            CompactValue::Object(a) => match other {
                CompactValue::Object(b) => compare_compact_fields(a, b),
                _ => Rank::Greater,
            },
        }
    }
}

// ---- from a labelled document, without its types ----

/// Each item as a compact value.
pub open spec fn plain_items(items: Seq<SimpleValueView>) -> Seq<CompactValueView>
    decreases items,
{
    Seq::new(
        items.len(),
        |i: int|
            if 0 <= i < items.len() {
                plain_compact(items[i])
            } else {
                arbitrary()
            },
    )
}

/// Each field as a field of a compact value.
pub open spec fn plain_fields(fields: Seq<(StringTypeView, SimpleValueView)>) -> Seq<
    (CompactKeyView, CompactValueView),
>
    decreases fields,
{
    Seq::new(
        fields.len(),
        |i: int|
            if 0 <= i < fields.len() {
                (CompactKeyView::StringType(fields[i].0, Seq::empty()), plain_compact(fields[i].1))
            } else {
                arbitrary()
            },
    )
}

/// The labelled document as a compact value: the same tree, each string a
/// key with no type attached.
pub open spec fn plain_compact(v: SimpleValueView) -> CompactValueView
    decreases v,
{
    match v {
        SimpleValueView::StringType(k) => CompactValueView::KeyType(
            CompactKeyView::StringType(k, Seq::empty()),
        ),
        SimpleValueView::Array(items) => CompactValueView::Array(plain_items(items)),
        SimpleValueView::Object(o) => CompactValueView::Object(collect(plain_fields(o))),
    }
}

// ---- from the intermediate form: types move into keys ----

/// The identifier of a type.
pub open spec fn type_ident(t: IntermediateTypeView) -> StringTypeView {
    match t {
        IntermediateTypeView::Simple(s) => s,
        IntermediateTypeView::WithArgs(s, _) => s,
    }
}

/// The key that holds the arguments of a type among the fields of its object.
pub open spec fn args_key() -> CompactKeyView {
    CompactKeyView::StringType(StringTypeView::String(type_key()), Seq::empty())
}

/// Each item as a compact value.
pub open spec fn compact_items(items: Seq<IntermediateFormView>) -> Seq<CompactValueView>
    decreases items, 0int,
{
    Seq::new(
        items.len(),
        |i: int|
            if 0 <= i < items.len() {
                compact(items[i])
            } else {
                arbitrary()
            },
    )
}

/// Each field as a field of a compact value.
pub open spec fn compact_fields(fields: Seq<(StringTypeView, IntermediateFormView)>) -> Seq<
    (CompactKeyView, CompactValueView),
>
    decreases fields, 0int,
{
    Seq::new(
        fields.len(),
        |i: int|
            if 0 <= i < fields.len() {
                compact_field(fields[i].0, fields[i].1)
            } else {
                arbitrary()
            },
    )
}

/// The object of a set of fields.
pub open spec fn compact_object(fields: Seq<(StringTypeView, IntermediateFormView)>) -> CompactValueView
    decreases fields, 1int,
{
    CompactValueView::Object(collect(compact_fields(fields)))
}

/// A field of an object: where the value is an array or a typed object, the
/// identifier of its type is attached to the key, and the value goes
/// without it.
pub open spec fn compact_field(k: StringTypeView, v: IntermediateFormView) -> (
    CompactKeyView,
    CompactValueView,
)
    decreases v, 1int,
{
    match v {
        IntermediateFormView::Array(t, _) => (
            CompactKeyView::StringType(k, seq![type_ident(t)]),
            untyped(v),
        ),
        IntermediateFormView::TypedObject(t, _) => (
            CompactKeyView::StringType(k, seq![type_ident(t)]),
            untyped(v),
        ),
        _ => (CompactKeyView::StringType(k, Seq::empty()), untyped(v)),
    }
}

/// The fields of `obj` as an object, with the arguments of its type as one
/// more field, under `Z1K1`.
pub open spec fn rebuilt(
    obj: Seq<(StringTypeView, IntermediateFormView)>,
    type_args: Seq<(StringTypeView, IntermediateFormView)>,
) -> CompactValueView {
    CompactValueView::Object(
        insert(collect(compact_fields(obj)), (args_key(), compact_object(type_args))),
    )
}

/// The form as a compact value, without the identifier of its type. The
/// arguments of the type stay: for an array as its first item, for an
/// object as the field under `Z1K1`.
pub open spec fn untyped(v: IntermediateFormView) -> CompactValueView
    decreases v, 0int,
{
    match v {
        IntermediateFormView::KeyType(k) => CompactValueView::KeyType(k),
        IntermediateFormView::Array(t, items) => match t {
            IntermediateTypeView::Simple(_) => CompactValueView::Array(compact_items(items)),
            IntermediateTypeView::WithArgs(_, args) => CompactValueView::Array(
                seq![compact_object(args)] + compact_items(items),
            ),
        },
        IntermediateFormView::Object(o) => compact_object(o),
        IntermediateFormView::TypedObject(t, o) => match t {
            IntermediateTypeView::Simple(_) => compact_object(o),
            IntermediateTypeView::WithArgs(_, args) => CompactValueView::Object(
                insert(collect(compact_fields(o)), (args_key(), compact_object(args))),
            ),
        },
    }
}

/// The form as a compact value. A typed object that no key leads to becomes
/// an object of one field, whose key holds the type alone.
pub open spec fn compact(v: IntermediateFormView) -> CompactValueView
    decreases v, 1int,
{
    match v {
        IntermediateFormView::TypedObject(t, _) => CompactValueView::Object(
            seq![(CompactKeyView::Transient(seq![type_ident(t)]), untyped(v))],
        ),
        _ => untyped(v),
    }
}

impl IntermediateType {
    /// The identifier of the type.
    pub fn name(&self) -> (r: &StringType)
        ensures
            r@ == type_ident(self@),
    {
        match self {
            IntermediateType::Simple(s) => s,
            IntermediateType::WithArgs(s, _) => s,
        }
    }
}

/// The list of the one type `name`.
fn one_type(name: &StringType) -> (r: Vec<SimpleType>)
    ensures
        types_view(r@) == seq![name@],
{
    let mut types: Vec<SimpleType> = Vec::new();
    types.push(SimpleType(name.clone()));
    assert(types_view(types@) =~= seq![name@]);
    types
}

#[verifier::loop_isolation(false)]
fn compact_items_into(out: &mut Vec<CompactValue>, items: &Vec<IntermediateForm>)
    ensures
        compact_items_view(final(out)@) == compact_items_view(old(out)@) + compact_items(
            inter_items_view(items@),
        ),
    decreases items, 0int,
{
    let ghost start = compact_items_view(out@);
    let ghost iv = inter_items_view(items@);
    let mut i: usize = 0;
    while i < items.len()
        invariant
            i <= items.len(),
            compact_items_view(out@) =~= start + compact_items(iv).take(i as int),
        decreases items.len() - i,
    {
        let ghost before = compact_items_view(out@);
        let x = compact_of(&items[i]);
        out.push(x);
        assert(compact_items_view(out@) =~= before.push(x@));
        assert(compact_items(iv).take(i + 1) =~= compact_items(iv).take(i as int).push(x@));
        i += 1;
    }
    assert(compact_items(iv).take(items.len() as int) =~= compact_items(iv));
}

#[verifier::loop_isolation(false)]
fn compact_fields_of(o: &Vec<(StringType, IntermediateForm)>) -> (r: Vec<(CompactKey, CompactValue)>)
    ensures
        compact_fields_view(r@) == collect(compact_fields(inter_fields_view(o@))),
    decreases o, 0int,
{
    let ghost m = compact_fields(inter_fields_view(o@));
    let mut out: Vec<(CompactKey, CompactValue)> = Vec::new();
    let mut i: usize = 0;
    assert(compact_fields_view(out@) =~= collect(m.take(0)));
    while i < o.len()
        invariant
            i <= o.len(),
            compact_fields_view(out@) == collect(m.take(i as int)),
        decreases o.len() - i,
    {
        proof {
            assert(m.take(i + 1).drop_last() =~= m.take(i as int));
            assert(m.take(i + 1).last() == m[i as int]);
        }
        let key = match &o[i].1 {
            IntermediateForm::Array(t, _) => CompactKey::StringType(
                o[i].0.clone(),
                one_type(t.name()),
            ),
            IntermediateForm::TypedObject(t, _) => CompactKey::StringType(
                o[i].0.clone(),
                one_type(t.name()),
            ),
            _ => CompactKey::from(o[i].0.clone()),
        };
        let value = untyped_of(&o[i].1);
        insert_compact_field(&mut out, (key, value));
        i += 1;
    }
    assert(m.take(o.len() as int) =~= m);
    out
}

/// The key that holds the arguments of a type among the fields of its object.
fn make_args_key() -> (r: CompactKey)
    ensures
        r@ == args_key(),
{
    CompactKey::from(StringType::String(String::from_str("Z1K1")))
}

fn untyped_of(v: &IntermediateForm) -> (r: CompactValue)
    ensures
        r@ == untyped(v@),
    decreases v, 0int,
{
    match v {
        IntermediateForm::KeyType(k) => CompactValue::KeyType(k.clone()),
        IntermediateForm::Array(t, items) => {
            let mut out: Vec<CompactValue> = Vec::new();
            match t {
                IntermediateType::Simple(_) => {},
                IntermediateType::WithArgs(_, args) => {
                    out.push(CompactValue::Object(compact_fields_of(args)));
                },
            }
            let ghost start = compact_items_view(out@);
            compact_items_into(&mut out, items);
            proof {
                match t {
                    IntermediateType::Simple(_) => {
                        assert(start =~= Seq::empty());
                        assert(start + compact_items(inter_items_view(items@)) =~= compact_items(
                            inter_items_view(items@),
                        ));
                    },
                    IntermediateType::WithArgs(_, args) => {
                        assert(start =~= seq![compact_object(inter_fields_view(args@))]);
                    },
                }
            }
            CompactValue::Array(out)
        },
        IntermediateForm::Object(o) => CompactValue::Object(compact_fields_of(o)),
        IntermediateForm::TypedObject(t, o) => match t {
            IntermediateType::Simple(_) => CompactValue::Object(compact_fields_of(o)),
            IntermediateType::WithArgs(_, args) => {
                let mut fields = compact_fields_of(o);
                let extra = CompactValue::Object(compact_fields_of(args));
                insert_compact_field(&mut fields, (make_args_key(), extra));
                CompactValue::Object(fields)
            },
        },
    }
}

fn compact_of(v: &IntermediateForm) -> (r: CompactValue)
    ensures
        r@ == compact(v@),
    decreases v, 1int,
{
    match v {
        IntermediateForm::TypedObject(t, _) => {
            let mut fields: Vec<(CompactKey, CompactValue)> = Vec::new();
            let key = CompactKey::Transient(one_type(t.name()));
            let value = untyped_of(v);
            fields.push((key, value));
            assert(compact_fields_view(fields@) =~= seq![
                (CompactKeyView::Transient(seq![type_ident(t@)]), untyped(v@)),
            ]);
            CompactValue::Object(fields)
        },
        _ => untyped_of(v),
    }
}

/// The fields of `obj` as an object, with the arguments of its type as one
/// more field, under `Z1K1`.
pub fn rebuild_obj_with_type_args(
    obj: Vec<(StringType, IntermediateForm)>,
    type_args: Vec<(StringType, IntermediateForm)>,
) -> (r: CompactValue)
    ensures
        r@ == rebuilt(inter_fields_view(obj@), inter_fields_view(type_args@)),
        inter_fields_wf(inter_fields_view(obj@)) && inter_fields_wf(inter_fields_view(type_args@))
            ==> r@.wf(),
{
    proof {
        if inter_fields_wf(inter_fields_view(obj@)) && inter_fields_wf(
            inter_fields_view(type_args@),
        ) {
            let t = IntermediateTypeView::WithArgs(
                StringTypeView::String(Seq::empty()),
                inter_fields_view(type_args@),
            );
            assert(t.wf());
            let whole = IntermediateFormView::TypedObject(t, inter_fields_view(obj@));
            assert(whole.wf());
            lemma_untyped_wf(whole);
        }
    }
    let mut fields = compact_fields_of(&obj);
    let extra = CompactValue::Object(compact_fields_of(&type_args));
    insert_compact_field(&mut fields, (make_args_key(), extra));
    CompactValue::Object(fields)
}

#[verifier::loop_isolation(false)]
fn plain_items_of(items: Vec<SimpleValue>) -> (r: Vec<CompactValue>)
    ensures
        compact_items_view(r@) == plain_items(simple_items_view(items@)),
    decreases items,
{
    let mut out: Vec<CompactValue> = Vec::new();
    for x in it: items
        invariant
            it.seq() == items@,
            out.len() == it.index(),
            forall|j: int| 0 <= j < out.len() ==> (#[trigger] out[j])@ == plain_compact(items[j]@),
    {
        out.push(CompactValue::from_simple(x));
    }
    assert(compact_items_view(out@) =~= plain_items(simple_items_view(items@)));
    out
}

#[verifier::loop_isolation(false)]
fn plain_fields_of(o: Vec<(StringType, SimpleValue)>) -> (r: Vec<(CompactKey, CompactValue)>)
    ensures
        compact_fields_view(r@) == collect(plain_fields(simple_fields_view(o@))),
    decreases o,
{
    let ghost m = plain_fields(simple_fields_view(o@));
    let mut out: Vec<(CompactKey, CompactValue)> = Vec::new();
    assert(compact_fields_view(out@) =~= collect(m.take(0)));
    for field in it: o
        invariant
            it.seq() == o@,
            compact_fields_view(out@) == collect(m.take(it.index() as int)),
    {
        let ghost n = it.index() as int;
        let (k, v) = field;
        let key = CompactKey::from(k);
        let value = CompactValue::from_simple(v);
        proof {
            assert(m.take(n + 1).drop_last() =~= m.take(n));
            assert(m.take(n + 1).last() == (key@, value@));
        }
        insert_compact_field(&mut out, (key, value));
    }
    assert(m.take(m.len() as int) =~= m);
    out
}

impl CompactValue {
    /// The labelled document as a compact value, with no type set apart.
    pub fn from_simple(val: SimpleValue) -> (r: Self)
        ensures
            r@ == plain_compact(val@),
            val@.wf() ==> r@.wf(),
        decreases val,
    {
        proof {
            if val@.wf() {
                lemma_plain_compact_wf(val@);
            }
        }
        match val {
            SimpleValue::StringType(k) => CompactValue::KeyType(CompactKey::from(k)),
            SimpleValue::Array(a) => CompactValue::Array(plain_items_of(a)),
            SimpleValue::Object(o) => CompactValue::Object(plain_fields_of(o)),
        }
    }

    /// The intermediate form as a compact value: the type of every array
    /// and typed object moves into the key that leads to it.
    pub fn from(val: IntermediateForm) -> (r: Self)
        ensures
            r@ == compact(val@),
            val@.wf() ==> r@.wf(),
    {
        proof {
            if val@.wf() {
                lemma_compact_wf(val@);
            }
        }
        compact_of(&val)
    }
}

// ---- objects of one field ----

/// The types that the key of an only field hands to the key above it: its
/// string, where it has one, and then its own types.
pub open spec fn handed_up(inner: CompactKeyView) -> Seq<StringTypeView> {
    match inner {
        CompactKeyView::StringType(k, types) => seq![k] + types,
        CompactKeyView::Transient(types) => types,
    }
}

/// The key with the types that `inner` hands up put after its own.
pub open spec fn merged(key: CompactKeyView, inner: CompactKeyView) -> CompactKeyView {
    match key {
        CompactKeyView::StringType(k, types) => CompactKeyView::StringType(
            k,
            types + handed_up(inner),
        ),
        CompactKeyView::Transient(types) => CompactKeyView::Transient(types + handed_up(inner)),
    }
}

/// A field whose value is an object of one field takes that field's value,
/// and its key takes the types of that field's key. Any other field stays.
pub open spec fn squeezed(key: CompactKeyView, val: CompactValueView) -> (
    CompactKeyView,
    CompactValueView,
) {
    match val {
        CompactValueView::Object(inner) => if inner.len() == 1 {
            (merged(key, inner[0].0), inner[0].1)
        } else {
            (key, val)
        },
        _ => (key, val),
    }
}

/// Each item after `compress_simple_classes`.
pub open spec fn classes_items(items: Seq<CompactValueView>) -> Seq<CompactValueView>
    decreases items,
{
    Seq::new(
        items.len(),
        |i: int|
            if 0 <= i < items.len() {
                items[i].compress_simple_classes()
            } else {
                arbitrary()
            },
    )
}

/// Each field squeezed, after `compress_simple_classes` on its value.
pub open spec fn classes_fields(fields: Seq<(CompactKeyView, CompactValueView)>) -> Seq<
    (CompactKeyView, CompactValueView),
>
    decreases fields,
{
    Seq::new(
        fields.len(),
        |i: int|
            if 0 <= i < fields.len() {
                squeezed(fields[i].0, fields[i].1.compress_simple_classes())
            } else {
                arbitrary()
            },
    )
}

impl CompactValueView {
    /// The value with every object of one field merged into the field that
    /// holds it, from the leaves up: a chain of such objects collapses
    /// into one field.
    pub open spec fn compress_simple_classes(self) -> Self
        decreases self,
    {
        match self {
            CompactValueView::KeyType(_) => self,
            CompactValueView::Array(items) => CompactValueView::Array(classes_items(items)),
            CompactValueView::Object(o) => CompactValueView::Object(collect(classes_fields(o))),
        }
    }
}

fn merge_keys(key: CompactKey, inner: CompactKey) -> (r: CompactKey)
    ensures
        r@ == merged(key@, inner@),
{
    let mut extra: Vec<SimpleType> = Vec::new();
    match inner {
        CompactKey::StringType(k, types) => {
            let mut types = types;
            extra.push(SimpleType(k));
            extra.append(&mut types);
        },
        CompactKey::Transient(types) => {
            let mut types = types;
            extra.append(&mut types);
        },
    }
    assert(types_view(extra@) =~= handed_up(inner@));
    match key {
        CompactKey::StringType(k, types) => {
            let mut types = types;
            let ghost before = types_view(types@);
            types.append(&mut extra);
            assert(types_view(types@) =~= before + handed_up(inner@));
            CompactKey::StringType(k, types)
        },
        CompactKey::Transient(types) => {
            let mut types = types;
            let ghost before = types_view(types@);
            types.append(&mut extra);
            assert(types_view(types@) =~= before + handed_up(inner@));
            CompactKey::Transient(types)
        },
    }
}

fn squeeze(key: CompactKey, val: CompactValue) -> (r: (CompactKey, CompactValue))
    ensures
        (r.0@, r.1@) == squeezed(key@, val@),
{
    let ghost whole = val@;
    let ghost outer = key@;
    match val {
        CompactValue::Object(inner) => {
            let ghost fields = compact_fields_view(inner@);
            assert(whole == CompactValueView::Object(fields));
            if inner.len() == 1 {
                let mut inner = inner;
                match inner.pop() {
                    Some(only) => {
                        assert(fields[0] == (only.0@, only.1@));
                        let merged_key = merge_keys(key, only.0);
                        assert(squeezed(outer, whole) == (merged_key@, only.1@));
                        (merged_key, only.1)
                    },
                    None => vstd::pervasive::unreached(),
                }
            } else {
                let r = (key, CompactValue::Object(inner));
                assert(squeezed(outer, whole) == (r.0@, r.1@));
                r
            }
        },
        CompactValue::KeyType(k) => {
            let r = (key, CompactValue::KeyType(k));
            assert(squeezed(outer, whole) == (r.0@, r.1@));
            r
        },
        CompactValue::Array(a) => {
            let r = (key, CompactValue::Array(a));
            assert(squeezed(outer, whole) == (r.0@, r.1@));
            r
        },
    }
}

impl CompactValue {
    /// Merges every object of one field into the field that holds it.
    #[verifier::loop_isolation(false)]
    pub fn compress_simple_classes(self) -> (r: Self)
        ensures
            r@ == self@.compress_simple_classes(),
            self@.wf() ==> r@.wf(),
        decreases self,
    {
        proof {
            if self@.wf() {
                lemma_compress_simple_classes_wf(self@);
            }
        }
        match self {
            CompactValue::KeyType(k) => CompactValue::KeyType(k),
            CompactValue::Array(arr) => {
                let mut out: Vec<CompactValue> = Vec::new();
                for x in it: arr
                    invariant
                        it.seq() == arr@,
                        out.len() == it.index(),
                        forall|j: int|
                            0 <= j < out.len() ==> (#[trigger] out[j])@
                                == arr[j]@.compress_simple_classes(),
                {
                    out.push(x.compress_simple_classes());
                }
                assert(compact_items_view(out@) =~= classes_items(compact_items_view(arr@)));
                CompactValue::Array(out)
            },
            CompactValue::Object(obj) => {
                let ghost m = classes_fields(compact_fields_view(obj@));
                let mut out: Vec<(CompactKey, CompactValue)> = Vec::new();
                assert(compact_fields_view(out@) =~= collect(m.take(0)));
                for field in it: obj
                    invariant
                        it.seq() == obj@,
                        compact_fields_view(out@) == collect(m.take(it.index() as int)),
                {
                    let ghost n = it.index() as int;
                    let (k, v) = field;
                    let pair = squeeze(k, v.compress_simple_classes());
                    proof {
                        assert(m.take(n + 1).drop_last() =~= m.take(n));
                        assert(m.take(n + 1).last() == (pair.0@, pair.1@));
                    }
                    insert_compact_field(&mut out, pair);
                }
                assert(m.take(m.len() as int) =~= m);
                CompactValue::Object(out)
            },
        }
    }
}

} // verus!
