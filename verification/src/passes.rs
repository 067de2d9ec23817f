//! The rewriting passes on the intermediate form. Each collapses one kind of
//! wrapper object into a key, or thins out types that say nothing new.

use crate::compact_key::{CompactKey, CompactKeyView, SimpleType};
use crate::intermediate_form::{
    insert_inter_field, inter_fields_view, inter_fields_wf, inter_items_view, IntermediateForm,
    IntermediateFormView, IntermediateType, IntermediateTypeView,
};
use crate::laws::{
    lemma_compress_reference_wf, lemma_compress_string_wf, lemma_reference_wf_fields,
    lemma_reference_wf_type, lemma_string_wf_fields, lemma_string_wf_type,
};
use crate::order::collect;
use crate::simple_value::{
    field_keys, find_labelled, first_labelled, keys_view, without, StringType, StringTypeView,
};
use crate::typed_form::type_key;
use crate::wf::{
    lemma_compress_monolingual_wf, lemma_drop_array_item_types_wf, lemma_drop_fields_wf,
    lemma_monolingual_wf_fields, lemma_monolingual_wf_type,
};
use vstd::pervasive::unreached;
use vstd::prelude::*;

verus! {

/// Whether a form is a string with no type attached.
pub open spec fn is_text(v: IntermediateFormView) -> bool {
    v matches IntermediateFormView::KeyType(CompactKeyView::StringType(_, types)) && types.len()
        == 0
}

/// The string of a form that is one.
pub open spec fn text_of(v: IntermediateFormView) -> StringTypeView {
    v->KeyType_0->StringType_0
}

/// The form that is the string `s` with no type attached.
pub open spec fn plain(s: StringTypeView) -> IntermediateFormView {
    IntermediateFormView::KeyType(CompactKeyView::StringType(s, Seq::empty()))
}

/// Whether some field's key is labelled `label`.
pub open spec fn has_key(fields: Seq<(StringTypeView, IntermediateFormView)>, label: Seq<char>) -> bool {
    first_labelled(field_keys(fields), label, 0) < fields.len()
}

/// The string under the first key labelled `label`; nothing where no key is
/// labelled so, or where what stands under it is no plain string.
pub open spec fn text_under(
    fields: Seq<(StringTypeView, IntermediateFormView)>,
    label: Seq<char>,
) -> Option<StringTypeView> {
    let i = first_labelled(field_keys(fields), label, 0);
    if 0 <= i < fields.len() && is_text(fields[i].1) {
        Some(text_of(fields[i].1))
    } else {
        None
    }
}

impl IntermediateTypeView {
    /// Whether this is the type `label`, without arguments.
    pub open spec fn names(self, label: Seq<char>) -> bool {
        self matches IntermediateTypeView::Simple(s) && s.is_labelled(label)
    }
}

impl IntermediateType {
    /// Whether this is the type `label`, without arguments.
    pub fn names(&self, label: &str) -> (r: bool)
        ensures
            r == self@.names(label@),
    {
        match self {
            IntermediateType::Simple(s) => s.is_labelled(label),
            IntermediateType::WithArgs(_, _) => false,
        }
    }
}

/// The string under the first key labelled `label`, where it is a plain one.
fn find_text<'a>(fields: &'a Vec<(StringType, IntermediateForm)>, label: &str) -> (r: Option<
    &'a StringType,
>)
    ensures
        match r {
            Some(s) => text_under(inter_fields_view(fields@), label@) == Some(s@),
            None => text_under(inter_fields_view(fields@), label@) is None,
        },
{
    let i = find_labelled(fields, label);
    proof {
        assert(keys_view(fields@) =~= field_keys(inter_fields_view(fields@)));
    }
    if i >= fields.len() {
        return None;
    }
    match &fields[i].1 {
        IntermediateForm::KeyType(k) => match k {
            CompactKey::StringType(s, types) => {
                if types.len() == 0 {
                    Some(s)
                } else {
                    None
                }
            },
            CompactKey::Transient(_) => None,
        },
        _ => None,
    }
}

/// The fields whose key is not labelled `label`, as a set.
fn fields_without(fields: &Vec<(StringType, IntermediateForm)>, label: &str) -> (r: Vec<
    (StringType, IntermediateForm),
>)
    ensures
        inter_fields_view(r@) == collect(without(inter_fields_view(fields@), label@)),
{
    let ghost a = inter_fields_view(fields@);
    let mut out: Vec<(StringType, IntermediateForm)> = Vec::new();
    assert(a.take(0) =~= Seq::empty());
    assert(inter_fields_view(out@) =~= collect(without(a.take(0), label@)));
    let mut i: usize = 0;
    while i < fields.len()
        invariant
            i <= fields.len(),
            a == inter_fields_view(fields@),
            inter_fields_view(out@) == collect(without(a.take(i as int), label@)),
        decreases fields.len() - i,
    {
        proof {
            let w = without(a.take(i as int), label@);
            assert(a.take(i + 1).drop_last() =~= a.take(i as int));
            assert(a.take(i + 1).last() == a[i as int]);
            assert(w.push(a[i as int]).drop_last() =~= w);
        }
        if !fields[i].0.is_labelled(label) {
            insert_inter_field(&mut out, (fields[i].0.clone(), fields[i].1.clone()));
        }
        i += 1;
    }
    assert(a.take(a.len() as int) =~= a);
    out
}

// ---- references ----

/// The identifier of the type of a reference.
pub open spec fn reference_tag() -> Seq<char> {
    "Z9"@
}

/// The key under which a reference holds what it refers to.
pub open spec fn reference_key() -> Seq<char> {
    "Z9K1"@
}

/// Each item after `compress_reference`.
pub open spec fn reference_items(items: Seq<IntermediateFormView>) -> Seq<IntermediateFormView>
    decreases items,
{
    Seq::new(
        items.len(),
        |i: int|
            if 0 <= i < items.len() {
                items[i].compress_reference()
            } else {
                arbitrary()
            },
    )
}

/// Each field with its value after `compress_reference`.
pub open spec fn reference_fields(fields: Seq<(StringTypeView, IntermediateFormView)>) -> Seq<
    (StringTypeView, IntermediateFormView),
>
    decreases fields,
{
    Seq::new(
        fields.len(),
        |i: int|
            if 0 <= i < fields.len() {
                (fields[i].0, fields[i].1.compress_reference())
            } else {
                arbitrary()
            },
    )
}

/// Whether `compress_reference` can work on every item.
pub open spec fn reference_admits_items(items: Seq<IntermediateFormView>) -> bool
    decreases items,
{
    forall|i: int| 0 <= i < items.len() ==> (#[trigger] items[i]).admits_compress_reference()
}

/// Whether `compress_reference` can work on the value of every field.
pub open spec fn reference_admits_fields(fields: Seq<(StringTypeView, IntermediateFormView)>) -> bool
    decreases fields,
{
    forall|i: int| 0 <= i < fields.len() ==> (#[trigger] fields[i]).1.admits_compress_reference()
}

impl IntermediateTypeView {
    /// The type with every reference in it collapsed. A type whose
    /// identifier is a reference is replaced by what it refers to: by the
    /// string under `Z9K1` among its arguments, as a type without
    /// arguments; or, where that key is missing, by the string under
    /// `Z9K1` inside the object under `Z1K1`, with the other arguments
    /// kept as they are.
    pub open spec fn compress_reference(self) -> Self
        decreases self,
    {
        match self {
            IntermediateTypeView::Simple(_) => self,
            IntermediateTypeView::WithArgs(typ, args) => if typ.is_labelled(reference_tag()) {
                if has_key(args, reference_key()) {
                    IntermediateTypeView::Simple(text_under(args, reference_key()).unwrap())
                } else {
                    let j = first_labelled(field_keys(args), type_key(), 0);
                    IntermediateTypeView::WithArgs(
                        text_under(args[j].1->Object_0, reference_key()).unwrap(),
                        collect(without(args, type_key())),
                    )
                }
            } else {
                IntermediateTypeView::WithArgs(typ, collect(reference_fields(args)))
            },
        }
    }

    /// Whether `compress_reference` can work on the type: where its
    /// identifier is a reference, what it refers to is found and is a plain
    /// string.
    pub open spec fn admits_compress_reference(self) -> bool
        decreases self,
    {
        match self {
            IntermediateTypeView::Simple(_) => true,
            IntermediateTypeView::WithArgs(typ, args) => if typ.is_labelled(reference_tag()) {
                if has_key(args, reference_key()) {
                    text_under(args, reference_key()) is Some
                } else {
                    let j = first_labelled(field_keys(args), type_key(), 0);
                    has_key(args, type_key()) && args[j].1 is Object && text_under(
                        args[j].1->Object_0,
                        reference_key(),
                    ) is Some
                }
            } else {
                reference_admits_fields(args)
            },
        }
    }
}

impl IntermediateFormView {
    /// The form with every reference in it collapsed: an object of type
    /// `Z9` becomes the string under its `Z9K1` key.
    pub open spec fn compress_reference(self) -> Self
        decreases self,
    {
        match self {
            IntermediateFormView::KeyType(_) => self,
            IntermediateFormView::Array(t, items) => IntermediateFormView::Array(
                t.compress_reference(),
                reference_items(items),
            ),
            IntermediateFormView::Object(o) => IntermediateFormView::Object(
                collect(reference_fields(o)),
            ),
            IntermediateFormView::TypedObject(t, o) => if t.names(reference_tag()) {
                plain(text_under(o, reference_key()).unwrap())
            } else {
                IntermediateFormView::TypedObject(
                    t.compress_reference(),
                    collect(reference_fields(o)),
                )
            },
        }
    }

    /// Whether `compress_reference` can work on the form: every object of
    /// type `Z9` in it has a plain string under `Z9K1`, and so on through
    /// the types.
    pub open spec fn admits_compress_reference(self) -> bool
        decreases self,
    {
        match self {
            IntermediateFormView::KeyType(_) => true,
            IntermediateFormView::Array(t, items) => t.admits_compress_reference()
                && reference_admits_items(items),
            IntermediateFormView::Object(o) => reference_admits_fields(o),
            IntermediateFormView::TypedObject(t, o) => if t.names(reference_tag()) {
                text_under(o, reference_key()) is Some
            } else {
                t.admits_compress_reference() && reference_admits_fields(o)
            },
        }
    }
}

#[verifier::loop_isolation(false)]
fn try_reference_items(items: &Vec<IntermediateForm>) -> (r: Option<Vec<IntermediateForm>>)
    ensures
        r is Some <==> reference_admits_items(inter_items_view(items@)),
        r is Some ==> inter_items_view(r.unwrap()@) == reference_items(inter_items_view(items@)),
    decreases items,
{
    let ghost iv = inter_items_view(items@);
    let mut out: Vec<IntermediateForm> = Vec::new();
    let mut i: usize = 0;
    while i < items.len()
        invariant
            i <= items.len(),
            out.len() == i,
            forall|j: int| 0 <= j < i ==> (#[trigger] out[j])@ == iv[j].compress_reference(),
            forall|j: int| 0 <= j < i ==> (#[trigger] iv[j]).admits_compress_reference(),
        decreases items.len() - i,
    {
        match items[i].try_compress_reference() {
            None => {
                assert(!iv[i as int].admits_compress_reference());
                return None;
            },
            Some(x) => {
                out.push(x);
            },
        }
        i += 1;
    }
    assert(inter_items_view(out@) =~= reference_items(iv));
    Some(out)
}

#[verifier::loop_isolation(false)]
fn try_reference_fields(o: &Vec<(StringType, IntermediateForm)>) -> (r: Option<
    Vec<(StringType, IntermediateForm)>,
>)
    ensures
        r is Some <==> reference_admits_fields(inter_fields_view(o@)),
        r is Some ==> inter_fields_view(r.unwrap()@) == collect(
            reference_fields(inter_fields_view(o@)),
        ),
    decreases o,
{
    let ghost f = inter_fields_view(o@);
    let ghost m = reference_fields(f);
    let mut out: Vec<(StringType, IntermediateForm)> = Vec::new();
    let mut i: usize = 0;
    assert(inter_fields_view(out@) =~= collect(m.take(0)));
    while i < o.len()
        invariant
            i <= o.len(),
            inter_fields_view(out@) == collect(m.take(i as int)),
            forall|j: int| 0 <= j < i ==> (#[trigger] f[j]).1.admits_compress_reference(),
        decreases o.len() - i,
    {
        proof {
            assert(m.take(i + 1).drop_last() =~= m.take(i as int));
            assert(m.take(i + 1).last() == m[i as int]);
        }
        match o[i].1.try_compress_reference() {
            None => {
                assert(!f[i as int].1.admits_compress_reference());
                return None;
            },
            Some(v) => {
                insert_inter_field(&mut out, (o[i].0.clone(), v));
            },
        }
        i += 1;
    }
    assert(m.take(o.len() as int) =~= m);
    Some(out)
}

/// `compress_reference` on the value of every field.
pub fn compress_reference(obj: Vec<(StringType, IntermediateForm)>) -> (r: Vec<(StringType, IntermediateForm)>)
    requires
        reference_admits_fields(inter_fields_view(obj@)),
    ensures
        inter_fields_view(r@) == collect(reference_fields(inter_fields_view(obj@))),
        inter_fields_wf(inter_fields_view(obj@)) ==> inter_fields_wf(inter_fields_view(r@)),
{
    proof {
        if inter_fields_wf(inter_fields_view(obj@)) {
            lemma_reference_wf_fields(inter_fields_view(obj@));
        }
    }
    match try_reference_fields(&obj) {
        Some(r) => r,
        None => unreached(),
    }
}

impl IntermediateType {
    fn try_compress_reference(&self) -> (r: Option<Self>)
        ensures
            r is Some <==> self@.admits_compress_reference(),
            r is Some ==> r.unwrap()@ == self@.compress_reference(),
        decreases self,
    {
        match self {
            IntermediateType::Simple(s) => Some(IntermediateType::Simple(s.clone())),
            IntermediateType::WithArgs(typ, args) => {
                if typ.is_labelled("Z9") {
                    proof {
                        assert(keys_view(args@) =~= field_keys(inter_fields_view(args@)));
                    }
                    if find_labelled(args, "Z9K1") < args.len() {
                        match find_text(args, "Z9K1") {
                            Some(s) => Some(IntermediateType::Simple(s.clone())),
                            None => None,
                        }
                    } else {
                        let j = find_labelled(args, "Z1K1");
                        if j >= args.len() {
                            return None;
                        }
                        match &args[j].1 {
                            IntermediateForm::Object(obj) => match find_text(obj, "Z9K1") {
                                Some(s) => Some(
                                    IntermediateType::WithArgs(
                                        s.clone(),
                                        fields_without(args, "Z1K1"),
                                    ),
                                ),
                                None => None,
                            },
                            _ => None,
                        }
                    }
                } else {
                    match try_reference_fields(args) {
                    None => None,
                    Some(f) => Some(IntermediateType::WithArgs(typ.clone(), f)),
                }
                }
            },
        }
    }

    /// `compress_reference` inside the arguments of a type.
    pub fn compress_reference(self) -> (r: Self)
        requires
            self@.admits_compress_reference(),
        ensures
            r@ == self@.compress_reference(),
            self@.wf() ==> r@.wf(),
    {
        proof {
            if self@.wf() {
                lemma_reference_wf_type(self@);
            }
        }
        match self.try_compress_reference() {
            Some(r) => r,
            None => unreached(),
        }
    }
}

impl IntermediateForm {
    fn try_compress_reference(&self) -> (r: Option<Self>)
        ensures
            r is Some <==> self@.admits_compress_reference(),
            r is Some ==> r.unwrap()@ == self@.compress_reference(),
        decreases self,
    {
        match self {
            IntermediateForm::KeyType(k) => Some(IntermediateForm::KeyType(k.clone())),
            IntermediateForm::Array(t, items) => match t.try_compress_reference() {
                None => None,
                Some(t) => match try_reference_items(items) {
                    None => None,
                    Some(v) => Some(IntermediateForm::Array(t, v)),
                },
            },
            IntermediateForm::Object(o) => match try_reference_fields(o) {
                None => None,
                Some(f) => Some(IntermediateForm::Object(f)),
            },
            IntermediateForm::TypedObject(t, o) => {
                if t.names("Z9") {
                    match find_text(o, "Z9K1") {
                        Some(s) => Some(IntermediateForm::KeyType(CompactKey::from(s.clone()))),
                        None => None,
                    }
                } else {
                    match t.try_compress_reference() {
                        None => None,
                        Some(t) => match try_reference_fields(o) {
                            None => None,
                            Some(f) => Some(IntermediateForm::TypedObject(t, f)),
                        },
                    }
                }
            },
        }
    }

    /// Collapses every reference: an object of type `Z9` becomes the string
    /// under its `Z9K1` key.
    pub fn compress_reference(self) -> (r: Self)
        requires
            self@.admits_compress_reference(),
        ensures
            r@ == self@.compress_reference(),
            self@.wf() ==> r@.wf(),
    {
        proof {
            if self@.wf() {
                lemma_compress_reference_wf(self@);
            }
        }
        match self.try_compress_reference() {
            Some(r) => r,
            None => unreached(),
        }
    }

    /// As `compress_reference`, for any form: nothing where the pass cannot work on it.
    pub fn checked_compress_reference(&self) -> (r: Option<Self>)
        ensures
            r is Some <==> self@.admits_compress_reference(),
            r is Some ==> r.unwrap()@ == self@.compress_reference(),
            r is Some && self@.wf() ==> r.unwrap()@.wf(),
    {
        proof {
            if self@.wf() && self@.admits_compress_reference() {
                lemma_compress_reference_wf(self@);
            }
        }
        self.try_compress_reference()
    }
}

// ---- strings ----

/// The identifier of the type of a string.
pub open spec fn string_tag() -> Seq<char> {
    "Z6"@
}

/// The key under which a string object holds its text.
pub open spec fn string_key() -> Seq<char> {
    "Z6K1"@
}

/// Each item after `compress_string`.
pub open spec fn string_items(items: Seq<IntermediateFormView>) -> Seq<IntermediateFormView>
    decreases items,
{
    Seq::new(
        items.len(),
        |i: int|
            if 0 <= i < items.len() {
                items[i].compress_string()
            } else {
                arbitrary()
            },
    )
}

/// Each field with its value after `compress_string`.
pub open spec fn string_fields(fields: Seq<(StringTypeView, IntermediateFormView)>) -> Seq<
    (StringTypeView, IntermediateFormView),
>
    decreases fields,
{
    Seq::new(
        fields.len(),
        |i: int|
            if 0 <= i < fields.len() {
                (fields[i].0, fields[i].1.compress_string())
            } else {
                arbitrary()
            },
    )
}

/// Whether `compress_string` can work on every item.
pub open spec fn string_admits_items(items: Seq<IntermediateFormView>) -> bool
    decreases items,
{
    forall|i: int| 0 <= i < items.len() ==> (#[trigger] items[i]).admits_compress_string()
}

/// Whether `compress_string` can work on the value of every field.
pub open spec fn string_admits_fields(fields: Seq<(StringTypeView, IntermediateFormView)>) -> bool
    decreases fields,
{
    forall|i: int| 0 <= i < fields.len() ==> (#[trigger] fields[i]).1.admits_compress_string()
}

impl IntermediateTypeView {
    /// The type with every string object in it collapsed. A type whose
    /// identifier is the string type is replaced by the string under
    /// `Z6K1` among its arguments, as a type without arguments.
    pub open spec fn compress_string(self) -> Self
        decreases self,
    {
        match self {
            IntermediateTypeView::Simple(_) => self,
            IntermediateTypeView::WithArgs(typ, args) => if typ.is_labelled(string_tag()) {
                IntermediateTypeView::Simple(text_under(args, string_key()).unwrap())
            } else {
                IntermediateTypeView::WithArgs(typ, collect(string_fields(args)))
            },
        }
    }

    /// Whether `compress_string` can work on the type.
    pub open spec fn admits_compress_string(self) -> bool
        decreases self,
    {
        match self {
            IntermediateTypeView::Simple(_) => true,
            IntermediateTypeView::WithArgs(typ, args) => if typ.is_labelled(string_tag()) {
                text_under(args, string_key()) is Some
            } else {
                string_admits_fields(args)
            },
        }
    }
}

impl IntermediateFormView {
    /// The form with every string object in it collapsed: an object of
    /// type `Z6` becomes the string under its `Z6K1` key, without labels.
    pub open spec fn compress_string(self) -> Self
        decreases self,
    {
        match self {
            IntermediateFormView::KeyType(_) => self,
            IntermediateFormView::Array(t, items) => IntermediateFormView::Array(
                t.compress_string(),
                string_items(items),
            ),
            IntermediateFormView::Object(o) => IntermediateFormView::Object(
                collect(string_fields(o)),
            ),
            IntermediateFormView::TypedObject(t, o) => if t.names(string_tag()) {
                plain(StringTypeView::String(text_under(o, string_key()).unwrap().raw()))
            } else {
                IntermediateFormView::TypedObject(t.compress_string(), collect(string_fields(o)))
            },
        }
    }

    /// Whether `compress_string` can work on the form: every object of type
    /// `Z6` in it has a plain string under `Z6K1`, and so on through the
    /// types.
    pub open spec fn admits_compress_string(self) -> bool
        decreases self,
    {
        match self {
            IntermediateFormView::KeyType(_) => true,
            IntermediateFormView::Array(t, items) => t.admits_compress_string()
                && string_admits_items(items),
            IntermediateFormView::Object(o) => string_admits_fields(o),
            IntermediateFormView::TypedObject(t, o) => if t.names(string_tag()) {
                text_under(o, string_key()) is Some
            } else {
                t.admits_compress_string() && string_admits_fields(o)
            },
        }
    }
}

#[verifier::loop_isolation(false)]
fn try_string_items(items: &Vec<IntermediateForm>) -> (r: Option<Vec<IntermediateForm>>)
    ensures
        r is Some <==> string_admits_items(inter_items_view(items@)),
        r is Some ==> inter_items_view(r.unwrap()@) == string_items(inter_items_view(items@)),
    decreases items,
{
    let ghost iv = inter_items_view(items@);
    let mut out: Vec<IntermediateForm> = Vec::new();
    let mut i: usize = 0;
    while i < items.len()
        invariant
            i <= items.len(),
            out.len() == i,
            forall|j: int| 0 <= j < i ==> (#[trigger] out[j])@ == iv[j].compress_string(),
            forall|j: int| 0 <= j < i ==> (#[trigger] iv[j]).admits_compress_string(),
        decreases items.len() - i,
    {
        match items[i].try_compress_string() {
            None => {
                assert(!iv[i as int].admits_compress_string());
                return None;
            },
            Some(x) => {
                out.push(x);
            },
        }
        i += 1;
    }
    assert(inter_items_view(out@) =~= string_items(iv));
    Some(out)
}

#[verifier::loop_isolation(false)]
fn try_string_fields(o: &Vec<(StringType, IntermediateForm)>) -> (r: Option<
    Vec<(StringType, IntermediateForm)>,
>)
    ensures
        r is Some <==> string_admits_fields(inter_fields_view(o@)),
        r is Some ==> inter_fields_view(r.unwrap()@) == collect(
            string_fields(inter_fields_view(o@)),
        ),
    decreases o,
{
    let ghost f = inter_fields_view(o@);
    let ghost m = string_fields(f);
    let mut out: Vec<(StringType, IntermediateForm)> = Vec::new();
    let mut i: usize = 0;
    assert(inter_fields_view(out@) =~= collect(m.take(0)));
    while i < o.len()
        invariant
            i <= o.len(),
            inter_fields_view(out@) == collect(m.take(i as int)),
            forall|j: int| 0 <= j < i ==> (#[trigger] f[j]).1.admits_compress_string(),
        decreases o.len() - i,
    {
        proof {
            assert(m.take(i + 1).drop_last() =~= m.take(i as int));
            assert(m.take(i + 1).last() == m[i as int]);
        }
        match o[i].1.try_compress_string() {
            None => {
                assert(!f[i as int].1.admits_compress_string());
                return None;
            },
            Some(v) => {
                insert_inter_field(&mut out, (o[i].0.clone(), v));
            },
        }
        i += 1;
    }
    assert(m.take(o.len() as int) =~= m);
    Some(out)
}

/// `compress_string` on the value of every field.
pub fn compress_string(obj: Vec<(StringType, IntermediateForm)>) -> (r: Vec<(StringType, IntermediateForm)>)
    requires
        string_admits_fields(inter_fields_view(obj@)),
    ensures
        inter_fields_view(r@) == collect(string_fields(inter_fields_view(obj@))),
        inter_fields_wf(inter_fields_view(obj@)) ==> inter_fields_wf(inter_fields_view(r@)),
{
    proof {
        if inter_fields_wf(inter_fields_view(obj@)) {
            lemma_string_wf_fields(inter_fields_view(obj@));
        }
    }
    match try_string_fields(&obj) {
        Some(r) => r,
        None => unreached(),
    }
}

impl IntermediateType {
    fn try_compress_string(&self) -> (r: Option<Self>)
        ensures
            r is Some <==> self@.admits_compress_string(),
            r is Some ==> r.unwrap()@ == self@.compress_string(),
        decreases self,
    {
        match self {
            IntermediateType::Simple(s) => Some(IntermediateType::Simple(s.clone())),
            IntermediateType::WithArgs(typ, args) => {
                if typ.is_labelled("Z6") {
                    match find_text(args, "Z6K1") {
                        Some(s) => Some(IntermediateType::Simple(s.clone())),
                        None => None,
                    }
                } else {
                    match try_string_fields(args) {
                    None => None,
                    Some(f) => Some(IntermediateType::WithArgs(typ.clone(), f)),
                }
                }
            },
        }
    }

    /// `compress_string` inside the arguments of a type.
    pub fn compress_string(self) -> (r: Self)
        requires
            self@.admits_compress_string(),
        ensures
            r@ == self@.compress_string(),
            self@.wf() ==> r@.wf(),
    {
        proof {
            if self@.wf() {
                lemma_string_wf_type(self@);
            }
        }
        match self.try_compress_string() {
            Some(r) => r,
            None => unreached(),
        }
    }
}

impl IntermediateForm {
    fn try_compress_string(&self) -> (r: Option<Self>)
        ensures
            r is Some <==> self@.admits_compress_string(),
            r is Some ==> r.unwrap()@ == self@.compress_string(),
        decreases self,
    {
        match self {
            IntermediateForm::KeyType(k) => Some(IntermediateForm::KeyType(k.clone())),
            IntermediateForm::Array(t, items) => match t.try_compress_string() {
                None => None,
                Some(t) => match try_string_items(items) {
                    None => None,
                    Some(v) => Some(IntermediateForm::Array(t, v)),
                },
            },
            IntermediateForm::Object(o) => match try_string_fields(o) {
                None => None,
                Some(f) => Some(IntermediateForm::Object(f)),
            },
            IntermediateForm::TypedObject(t, o) => {
                if t.names("Z6") {
                    match find_text(o, "Z6K1") {
                        Some(s) => Some(
                            IntermediateForm::KeyType(
                                CompactKey::from(StringType::String(s.clone().to_raw())),
                            ),
                        ),
                        None => None,
                    }
                } else {
                    match t.try_compress_string() {
                        None => None,
                        Some(t) => match try_string_fields(o) {
                            None => None,
                            Some(f) => Some(IntermediateForm::TypedObject(t, f)),
                        },
                    }
                }
            },
        }
    }

    /// Collapses every string object: an object of type `Z6` becomes the
    /// string under its `Z6K1` key, without labels.
    pub fn compress_string(self) -> (r: Self)
        requires
            self@.admits_compress_string(),
        ensures
            r@ == self@.compress_string(),
            self@.wf() ==> r@.wf(),
    {
        proof {
            if self@.wf() {
                lemma_compress_string_wf(self@);
            }
        }
        match self.try_compress_string() {
            Some(r) => r,
            None => unreached(),
        }
    }

    /// As `compress_string`, for any form: nothing where the pass cannot work on it.
    pub fn checked_compress_string(&self) -> (r: Option<Self>)
        ensures
            r is Some <==> self@.admits_compress_string(),
            r is Some ==> r.unwrap()@ == self@.compress_string(),
            r is Some && self@.wf() ==> r.unwrap()@.wf(),
    {
        proof {
            if self@.wf() && self@.admits_compress_string() {
                lemma_compress_string_wf(self@);
            }
        }
        self.try_compress_string()
    }
}

// ---- monolingual texts ----

/// The identifier of the type of a monolingual text.
pub open spec fn monolingual_tag() -> Seq<char> {
    "Z11"@
}

/// The key under which a monolingual text holds its language.
pub open spec fn language_key() -> Seq<char> {
    "Z11K1"@
}

/// The key under which a monolingual text holds its text.
pub open spec fn text_key() -> Seq<char> {
    "Z11K2"@
}

/// Each item after `compress_monolingual`.
pub open spec fn monolingual_items(items: Seq<IntermediateFormView>) -> Seq<IntermediateFormView>
    decreases items,
{
    Seq::new(
        items.len(),
        |i: int|
            if 0 <= i < items.len() {
                items[i].compress_monolingual()
            } else {
                arbitrary()
            },
    )
}

/// Each field with its value after `compress_monolingual`.
pub open spec fn monolingual_fields(fields: Seq<(StringTypeView, IntermediateFormView)>) -> Seq<
    (StringTypeView, IntermediateFormView),
>
    decreases fields,
{
    Seq::new(
        fields.len(),
        |i: int|
            if 0 <= i < fields.len() {
                (fields[i].0, fields[i].1.compress_monolingual())
            } else {
                arbitrary()
            },
    )
}

/// Whether `compress_monolingual` can work on every item.
pub open spec fn monolingual_admits_items(items: Seq<IntermediateFormView>) -> bool
    decreases items,
{
    forall|i: int| 0 <= i < items.len() ==> (#[trigger] items[i]).admits_compress_monolingual()
}

/// Whether `compress_monolingual` can work on the value of every field.
pub open spec fn monolingual_admits_fields(fields: Seq<(StringTypeView, IntermediateFormView)>) -> bool
    decreases fields,
{
    forall|i: int| 0 <= i < fields.len() ==> (#[trigger] fields[i]).1.admits_compress_monolingual()
}

impl IntermediateTypeView {
    /// The type with every monolingual text among its arguments collapsed.
    pub open spec fn compress_monolingual(self) -> Self
        decreases self,
    {
        match self {
            IntermediateTypeView::Simple(_) => self,
            IntermediateTypeView::WithArgs(typ, args) => IntermediateTypeView::WithArgs(
                typ,
                collect(monolingual_fields(args)),
            ),
        }
    }

    /// Whether `compress_monolingual` can work on the type.
    pub open spec fn admits_compress_monolingual(self) -> bool
        decreases self,
    {
        match self {
            IntermediateTypeView::Simple(_) => true,
            IntermediateTypeView::WithArgs(typ, args) => monolingual_admits_fields(args),
        }
    }
}

impl IntermediateFormView {
    /// The form with every monolingual text in it collapsed: an object of
    /// type `Z11` becomes the text under its `Z11K2` key, with the
    /// language under `Z11K1` attached as its type.
    pub open spec fn compress_monolingual(self) -> Self
        decreases self,
    {
        match self {
            IntermediateFormView::KeyType(_) => self,
            IntermediateFormView::Array(t, items) => IntermediateFormView::Array(
                t.compress_monolingual(),
                monolingual_items(items),
            ),
            IntermediateFormView::Object(o) => IntermediateFormView::Object(
                collect(monolingual_fields(o)),
            ),
            IntermediateFormView::TypedObject(t, o) => if t.names(monolingual_tag()) {
                IntermediateFormView::KeyType(
                    CompactKeyView::StringType(
                        text_under(o, text_key()).unwrap(),
                        seq![text_under(o, language_key()).unwrap()],
                    ),
                )
            } else {
                IntermediateFormView::TypedObject(
                    t.compress_monolingual(),
                    collect(monolingual_fields(o)),
                )
            },
        }
    }

    /// Whether `compress_monolingual` can work on the form: every object of
    /// type `Z11` in it has plain strings under `Z11K1` and `Z11K2`.
    pub open spec fn admits_compress_monolingual(self) -> bool
        decreases self,
    {
        match self {
            IntermediateFormView::KeyType(_) => true,
            IntermediateFormView::Array(t, items) => t.admits_compress_monolingual()
                && monolingual_admits_items(items),
            IntermediateFormView::Object(o) => monolingual_admits_fields(o),
            IntermediateFormView::TypedObject(t, o) => if t.names(monolingual_tag()) {
                text_under(o, text_key()) is Some && text_under(o, language_key()) is Some
            } else {
                t.admits_compress_monolingual() && monolingual_admits_fields(o)
            },
        }
    }
}

#[verifier::loop_isolation(false)]
fn try_monolingual_items(items: &Vec<IntermediateForm>) -> (r: Option<Vec<IntermediateForm>>)
    ensures
        r is Some <==> monolingual_admits_items(inter_items_view(items@)),
        r is Some ==> inter_items_view(r.unwrap()@) == monolingual_items(inter_items_view(items@)),
    decreases items,
{
    let ghost iv = inter_items_view(items@);
    let mut out: Vec<IntermediateForm> = Vec::new();
    let mut i: usize = 0;
    while i < items.len()
        invariant
            i <= items.len(),
            out.len() == i,
            forall|j: int| 0 <= j < i ==> (#[trigger] out[j])@ == iv[j].compress_monolingual(),
            forall|j: int| 0 <= j < i ==> (#[trigger] iv[j]).admits_compress_monolingual(),
        decreases items.len() - i,
    {
        match items[i].try_compress_monolingual() {
            None => {
                assert(!iv[i as int].admits_compress_monolingual());
                return None;
            },
            Some(x) => {
                out.push(x);
            },
        }
        i += 1;
    }
    assert(inter_items_view(out@) =~= monolingual_items(iv));
    Some(out)
}

#[verifier::loop_isolation(false)]
fn try_monolingual_fields(o: &Vec<(StringType, IntermediateForm)>) -> (r: Option<
    Vec<(StringType, IntermediateForm)>,
>)
    ensures
        r is Some <==> monolingual_admits_fields(inter_fields_view(o@)),
        r is Some ==> inter_fields_view(r.unwrap()@) == collect(
            monolingual_fields(inter_fields_view(o@)),
        ),
    decreases o,
{
    let ghost f = inter_fields_view(o@);
    let ghost m = monolingual_fields(f);
    let mut out: Vec<(StringType, IntermediateForm)> = Vec::new();
    let mut i: usize = 0;
    assert(inter_fields_view(out@) =~= collect(m.take(0)));
    while i < o.len()
        invariant
            i <= o.len(),
            inter_fields_view(out@) == collect(m.take(i as int)),
            forall|j: int| 0 <= j < i ==> (#[trigger] f[j]).1.admits_compress_monolingual(),
        decreases o.len() - i,
    {
        proof {
            assert(m.take(i + 1).drop_last() =~= m.take(i as int));
            assert(m.take(i + 1).last() == m[i as int]);
        }
        match o[i].1.try_compress_monolingual() {
            None => {
                assert(!f[i as int].1.admits_compress_monolingual());
                return None;
            },
            Some(v) => {
                insert_inter_field(&mut out, (o[i].0.clone(), v));
            },
        }
        i += 1;
    }
    assert(m.take(o.len() as int) =~= m);
    Some(out)
}

/// `compress_monolingual` on the value of every field.
pub fn compress_monolingual(obj: Vec<(StringType, IntermediateForm)>) -> (r: Vec<(StringType, IntermediateForm)>)
    requires
        monolingual_admits_fields(inter_fields_view(obj@)),
    ensures
        inter_fields_view(r@) == collect(monolingual_fields(inter_fields_view(obj@))),
        inter_fields_wf(inter_fields_view(obj@)) ==> inter_fields_wf(inter_fields_view(r@)),
{
    proof {
        if inter_fields_wf(inter_fields_view(obj@)) {
            lemma_monolingual_wf_fields(inter_fields_view(obj@));
        }
    }
    match try_monolingual_fields(&obj) {
        Some(r) => r,
        None => unreached(),
    }
}

impl IntermediateType {
    fn try_compress_monolingual(&self) -> (r: Option<Self>)
        ensures
            r is Some <==> self@.admits_compress_monolingual(),
            r is Some ==> r.unwrap()@ == self@.compress_monolingual(),
        decreases self,
    {
        match self {
            IntermediateType::Simple(s) => Some(IntermediateType::Simple(s.clone())),
            IntermediateType::WithArgs(typ, args) => {
                match try_monolingual_fields(args) {
                    None => None,
                    Some(f) => Some(IntermediateType::WithArgs(typ.clone(), f)),
                }
            },
        }
    }

    /// `compress_monolingual` inside the arguments of a type.
    pub fn compress_monolingual(self) -> (r: Self)
        requires
            self@.admits_compress_monolingual(),
        ensures
            r@ == self@.compress_monolingual(),
            self@.wf() ==> r@.wf(),
    {
        proof {
            if self@.wf() {
                lemma_monolingual_wf_type(self@);
            }
        }
        match self.try_compress_monolingual() {
            Some(r) => r,
            None => unreached(),
        }
    }
}

impl IntermediateForm {
    fn try_compress_monolingual(&self) -> (r: Option<Self>)
        ensures
            r is Some <==> self@.admits_compress_monolingual(),
            r is Some ==> r.unwrap()@ == self@.compress_monolingual(),
        decreases self,
    {
        match self {
            IntermediateForm::KeyType(k) => Some(IntermediateForm::KeyType(k.clone())),
            IntermediateForm::Array(t, items) => match t.try_compress_monolingual() {
                None => None,
                Some(t) => match try_monolingual_items(items) {
                    None => None,
                    Some(v) => Some(IntermediateForm::Array(t, v)),
                },
            },
            IntermediateForm::Object(o) => match try_monolingual_fields(o) {
                None => None,
                Some(f) => Some(IntermediateForm::Object(f)),
            },
            IntermediateForm::TypedObject(t, o) => {
                if t.names("Z11") {
                    match find_text(o, "Z11K2") {
                        Some(text) => match find_text(o, "Z11K1") {
                            Some(lang) => {
                                let mut types: Vec<SimpleType> = Vec::new();
                                types.push(SimpleType(lang.clone()));
                                let r = IntermediateForm::KeyType(
                                    CompactKey::StringType(text.clone(), types),
                                );
                                assert(r@->KeyType_0->StringType_1 =~= seq![lang@]);
                                Some(r)
                            },
                            None => None,
                        },
                        None => None,
                    }
                } else {
                    match t.try_compress_monolingual() {
                        None => None,
                        Some(t) => match try_monolingual_fields(o) {
                            None => None,
                            Some(f) => Some(IntermediateForm::TypedObject(t, f)),
                        },
                    }
                }
            },
        }
    }

    /// Collapses every monolingual text: an object of type `Z11` becomes
    /// the text under its `Z11K2` key, with the language under `Z11K1`
    /// attached as its type.
    pub fn compress_monolingual(self) -> (r: Self)
        requires
            self@.admits_compress_monolingual(),
        ensures
            r@ == self@.compress_monolingual(),
            self@.wf() ==> r@.wf(),
    {
        proof {
            if self@.wf() {
                lemma_compress_monolingual_wf(self@);
            }
        }
        match self.try_compress_monolingual() {
            Some(r) => r,
            None => unreached(),
        }
    }

    /// As `compress_monolingual`, for any form: nothing where the pass cannot work on it.
    pub fn checked_compress_monolingual(&self) -> (r: Option<Self>)
        ensures
            r is Some <==> self@.admits_compress_monolingual(),
            r is Some ==> r.unwrap()@ == self@.compress_monolingual(),
            r is Some && self@.wf() ==> r.unwrap()@.wf(),
    {
        proof {
            if self@.wf() && self@.admits_compress_monolingual() {
                lemma_compress_monolingual_wf(self@);
            }
        }
        self.try_compress_monolingual()
    }
}

// ---- types of the items of arrays ----

/// Each item of an array, without the type that the array states for it.
pub open spec fn drop_items(items: Seq<IntermediateFormView>) -> Seq<IntermediateFormView>
    decreases items, 0int,
{
    Seq::new(
        items.len(),
        |i: int|
            if 0 <= i < items.len() {
                items[i].drop_own_type()
            } else {
                arbitrary()
            },
    )
}

/// Each field with its value after `drop_array_item_types`.
pub open spec fn drop_fields(fields: Seq<(StringTypeView, IntermediateFormView)>) -> Seq<
    (StringTypeView, IntermediateFormView),
>
    decreases fields, 0int,
{
    Seq::new(
        fields.len(),
        |i: int|
            if 0 <= i < fields.len() {
                (fields[i].0, fields[i].1.drop_array_item_types())
            } else {
                arbitrary()
            },
    )
}

impl IntermediateTypeView {
    /// The type with its arguments thinned.
    pub open spec fn drop_array_item_types(self) -> Self
        decreases self, 0int,
    {
        match self {
            IntermediateTypeView::Simple(_) => self,
            IntermediateTypeView::WithArgs(typ, args) => IntermediateTypeView::WithArgs(
                typ,
                collect(drop_fields(args)),
            ),
        }
    }
}

impl IntermediateFormView {
    /// The form as the item of an array: a typed object gives up its type,
    /// which the array states once for all its items.
    pub open spec fn drop_own_type(self) -> Self
        decreases self, 1int,
    {
        match self {
            IntermediateFormView::TypedObject(_, o) => IntermediateFormView::Object(
                collect(drop_fields(o)),
            ),
            _ => self.drop_array_item_types(),
        }
    }

    /// The form with the types of the items of every array dropped. The
    /// type of an array stays as it is; the type of a typed object that is
    /// no item of an array has its arguments thinned.
    pub open spec fn drop_array_item_types(self) -> Self
        decreases self, 0int,
    {
        match self {
            IntermediateFormView::KeyType(_) => self,
            IntermediateFormView::Array(t, items) => IntermediateFormView::Array(
                t,
                drop_items(items),
            ),
            IntermediateFormView::Object(o) => IntermediateFormView::Object(
                collect(drop_fields(o)),
            ),
            IntermediateFormView::TypedObject(t, o) => IntermediateFormView::TypedObject(
                t.drop_array_item_types(),
                collect(drop_fields(o)),
            ),
        }
    }
}

#[verifier::loop_isolation(false)]
fn thinned_items(items: &Vec<IntermediateForm>) -> (r: Vec<IntermediateForm>)
    ensures
        inter_items_view(r@) == drop_items(inter_items_view(items@)),
    decreases items,
{
    let ghost iv = inter_items_view(items@);
    let mut out: Vec<IntermediateForm> = Vec::new();
    let mut i: usize = 0;
    while i < items.len()
        invariant
            i <= items.len(),
            out.len() == i,
            forall|j: int| 0 <= j < i ==> (#[trigger] out[j])@ == iv[j].drop_own_type(),
        decreases items.len() - i,
    {
        let x = match &items[i] {
            IntermediateForm::TypedObject(_, o) => IntermediateForm::Object(thinned_fields(o)),
            other => other.thinned(),
        };
        out.push(x);
        i += 1;
    }
    assert(inter_items_view(out@) =~= drop_items(iv));
    out
}

#[verifier::loop_isolation(false)]
fn thinned_fields(o: &Vec<(StringType, IntermediateForm)>) -> (r: Vec<(StringType, IntermediateForm)>)
    ensures
        inter_fields_view(r@) == collect(drop_fields(inter_fields_view(o@))),
    decreases o,
{
    let ghost m = drop_fields(inter_fields_view(o@));
    let mut out: Vec<(StringType, IntermediateForm)> = Vec::new();
    let mut i: usize = 0;
    assert(inter_fields_view(out@) =~= collect(m.take(0)));
    while i < o.len()
        invariant
            i <= o.len(),
            inter_fields_view(out@) == collect(m.take(i as int)),
        decreases o.len() - i,
    {
        proof {
            assert(m.take(i + 1).drop_last() =~= m.take(i as int));
            assert(m.take(i + 1).last() == m[i as int]);
        }
        let v = o[i].1.thinned();
        insert_inter_field(&mut out, (o[i].0.clone(), v));
        i += 1;
    }
    assert(m.take(o.len() as int) =~= m);
    out
}

/// `drop_array_item_types` on the value of every field.
pub fn drop_array_item_types(obj: Vec<(StringType, IntermediateForm)>) -> (r: Vec<
    (StringType, IntermediateForm),
>)
    ensures
        inter_fields_view(r@) == collect(drop_fields(inter_fields_view(obj@))),
        inter_fields_wf(inter_fields_view(obj@)) ==> inter_fields_wf(inter_fields_view(r@)),
{
    proof {
        if inter_fields_wf(inter_fields_view(obj@)) {
            lemma_drop_fields_wf(inter_fields_view(obj@));
        }
    }
    thinned_fields(&obj)
}

impl IntermediateType {
    fn thinned(&self) -> (r: Self)
        ensures
            r@ == self@.drop_array_item_types(),
        decreases self,
    {
        match self {
            IntermediateType::Simple(s) => IntermediateType::Simple(s.clone()),
            IntermediateType::WithArgs(typ, args) => IntermediateType::WithArgs(
                typ.clone(),
                thinned_fields(args),
            ),
        }
    }

    /// Thins the arguments of the type.
    pub fn drop_array_item_types(self) -> (r: Self)
        ensures
            r@ == self@.drop_array_item_types(),
            self@.wf() ==> r@.wf(),
    {
        proof {
            if self@.wf() {
                match self@ {
                    IntermediateTypeView::Simple(_) => {},
                    IntermediateTypeView::WithArgs(_, args) => {
                        lemma_drop_fields_wf(args);
                    },
                }
            }
        }
        self.thinned()
    }
}

impl IntermediateForm {
    fn thinned(&self) -> (r: Self)
        ensures
            r@ == self@.drop_array_item_types(),
        decreases self,
    {
        match self {
            IntermediateForm::KeyType(k) => IntermediateForm::KeyType(k.clone()),
            IntermediateForm::Array(t, items) => IntermediateForm::Array(
                t.clone(),
                thinned_items(items),
            ),
            IntermediateForm::Object(o) => IntermediateForm::Object(thinned_fields(o)),
            IntermediateForm::TypedObject(t, o) => IntermediateForm::TypedObject(
                t.thinned(),
                thinned_fields(o),
            ),
        }
    }

    /// Drops the types of the items of every array: a typed object that is
    /// the item of an array becomes a plain object.
    pub fn drop_array_item_types(self) -> (r: Self)
        ensures
            r@ == self@.drop_array_item_types(),
            self@.wf() ==> r@.wf(),
    {
        proof {
            if self@.wf() {
                lemma_drop_array_item_types_wf(self@);
            }
        }
        self.thinned()
    }
}

} // verus!
