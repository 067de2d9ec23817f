//! Strings with their labels, and the tree of a labelled document.

use crate::order::{
    ascending, collect, compare_term, compare_terms, compare_text, insert, keyed, lemma_collect,
    lemma_gather, lemma_insert_before, lemma_insert_present,
    lemma_put_before, lemma_put_keyed, lemma_put_present, lemma_rank_decided, lemma_rank_pair,
    lemma_rank_single, gather, lookup, lookup_from, put, Rank, Ranked, Term,
};
use crate::json::{json_items_view, json_members_view, put_member, Json, JsonView};
use crate::text::{compare_strings, text_matches};
use vstd::prelude::*;
use vstd::string::StringExecFns;

verus! {

/// An identifier with the labels that it has in some languages.
#[derive(Debug, PartialEq, Eq, PartialOrd, Ord, Hash)]
pub struct LabelledNode {
    readable_labels: Vec<(String, String)>,
    z_label: String,
}

/// What a [`LabelledNode`] holds: its labels as a map from language to label,
/// ascending by language, and the identifier.
pub struct LabelledNodeView {
    pub readable_labels: Seq<(Seq<char>, Seq<char>)>,
    pub z_label: Seq<char>,
}

/// A plain string, or an identifier with its labels.
#[derive(Debug, PartialEq, Eq, PartialOrd, Ord, Hash)]
pub enum StringType {
    String(String),
    LabelledNode(LabelledNode),
}

/// What a [`StringType`] holds.
pub enum StringTypeView {
    String(Seq<char>),
    LabelledNode(LabelledNodeView),
}

/// A labelled document: strings, arrays, and objects whose fields are a set
/// of pairs, kept ascending.
#[derive(Debug, PartialEq, Eq, PartialOrd, Ord, Hash)]
pub enum SimpleValue {
    StringType(StringType),
    Array(Vec<SimpleValue>),
    Object(Vec<(StringType, SimpleValue)>),
}

/// What a [`SimpleValue`] holds.
pub enum SimpleValueView {
    StringType(StringTypeView),
    Array(Seq<SimpleValueView>),
    Object(Seq<(StringTypeView, SimpleValueView)>),
}

/// The pairs of a list of labels.
pub open spec fn labels_view(v: Seq<(String, String)>) -> Seq<(Seq<char>, Seq<char>)> {
    Seq::new(v.len(), |i: int| (v[i].0@, v[i].1@))
}

/// The terms that a list of labels is ranked by.
pub open spec fn label_terms(s: Seq<(Seq<char>, Seq<char>)>) -> Seq<Term> {
    Seq::new(s.len(), |i: int| s[i].term())
}

/// The label of the first language at or after `i` in `langs` that has one.
pub open spec fn preferred_from(
    labels: Seq<(Seq<char>, Seq<char>)>,
    langs: Seq<Seq<char>>,
    i: int,
) -> Option<Seq<char>>
    decreases langs.len() - i,
{
    if i < 0 || i >= langs.len() {
        None
    } else {
        match lookup(labels, langs[i]) {
            Some(l) => Some(l),
            None => preferred_from(labels, langs, i + 1),
        }
    }
}

impl View for LabelledNode {
    type V = LabelledNodeView;

    closed spec fn view(&self) -> LabelledNodeView {
        LabelledNodeView {
            readable_labels: labels_view(self.readable_labels@),
            z_label: self.z_label@,
        }
    }
}

impl Ranked for LabelledNodeView {
    open spec fn term(self) -> Term {
        Term::Node(
            0,
            seq![Term::Node(0, label_terms(self.readable_labels)), Term::Text(self.z_label)],
        )
    }
}

impl LabelledNodeView {
    /// The labels are a map: no language occurs twice, and they ascend.
    pub open spec fn wf(self) -> bool {
        keyed(self.readable_labels)
    }

    /// The label to show: that of the first of `langs` that has one; failing
    /// that the label of the first language; with no label at all, a
    /// placeholder.
    pub open spec fn chosen_label(self, langs: Seq<Seq<char>>) -> Seq<char> {
        match preferred_from(self.readable_labels, langs, 0) {
            Some(l) => l,
            None => if self.readable_labels.len() > 0 {
                self.readable_labels[0].1
            } else {
                "<no label>"@
            },
        }
    }

    /// The identifier, a colon and a space, and the chosen label.
    pub open spec fn choose_lang(self, langs: Seq<Seq<char>>) -> Seq<char> {
        self.z_label + ": "@ + self.chosen_label(langs)
    }
}

impl View for StringType {
    type V = StringTypeView;

    open spec fn view(&self) -> StringTypeView {
        match self {
            StringType::String(s) => StringTypeView::String(s@),
            StringType::LabelledNode(n) => StringTypeView::LabelledNode(n@),
        }
    }
}

impl Ranked for StringTypeView {
    open spec fn term(self) -> Term {
        match self {
            StringTypeView::String(s) => Term::Node(0, seq![Term::Text(s)]),
            StringTypeView::LabelledNode(n) => Term::Node(1, seq![n.term()]),
        }
    }
}

impl StringTypeView {
    /// The labels of a labelled string are a map.
    pub open spec fn wf(self) -> bool {
        match self {
            StringTypeView::String(_) => true,
            StringTypeView::LabelledNode(n) => n.wf(),
        }
    }

    /// The string itself, or the identifier that the labels belong to.
    pub open spec fn raw(self) -> Seq<char> {
        match self {
            StringTypeView::String(s) => s,
            StringTypeView::LabelledNode(n) => n.z_label,
        }
    }

    /// Whether this is the string `label`, or carries the labels of the
    /// identifier `label`.
    pub open spec fn is_labelled(self, label: Seq<char>) -> bool {
        self.raw() == label
    }

    /// The string as text: itself, or its identifier with the label that
    /// `langs` prefers.
    pub open spec fn choose_lang(self, langs: Seq<Seq<char>>) -> Seq<char> {
        match self {
            StringTypeView::String(s) => s,
            StringTypeView::LabelledNode(n) => n.choose_lang(langs),
        }
    }
}

/// The keys of a list of fields.
pub open spec fn field_keys<V>(fields: Seq<(StringTypeView, V)>) -> Seq<StringTypeView> {
    Seq::new(fields.len(), |i: int| fields[i].0)
}

/// The keys of a list of fields.
pub open spec fn keys_view<V>(fields: Seq<(StringType, V)>) -> Seq<StringTypeView> {
    Seq::new(fields.len(), |i: int| fields[i].0@)
}

/// Where the first key at or after `i` stands that is labelled `label`; the
/// number of keys where there is none.
pub open spec fn first_labelled(keys: Seq<StringTypeView>, label: Seq<char>, i: int) -> int
    decreases keys.len() - i,
{
    if i < 0 || i >= keys.len() {
        keys.len() as int
    } else if keys[i].is_labelled(label) {
        i
    } else {
        first_labelled(keys, label, i + 1)
    }
}

/// The fields whose key is not labelled `label`.
pub open spec fn without<V>(fields: Seq<(StringTypeView, V)>, label: Seq<char>) -> Seq<
    (StringTypeView, V),
>
    decreases fields.len(),
{
    if fields.len() == 0 {
        Seq::empty()
    } else {
        let rest = without(fields.drop_last(), label);
        if fields.last().0.is_labelled(label) {
            rest
        } else {
            rest.push(fields.last())
        }
    }
}

/// Where no key is labelled `label`, nothing is left out.
pub proof fn lemma_without_none<V>(fields: Seq<(StringTypeView, V)>, label: Seq<char>)
    requires
        forall|j: int| 0 <= j < fields.len() ==> !(#[trigger] fields[j]).0.is_labelled(label),
    ensures
        without(fields, label) == fields,
    decreases fields.len(),
{
    if fields.len() > 0 {
        let rest = fields.drop_last();
        assert forall|j: int| 0 <= j < rest.len() implies !(#[trigger] rest[j]).0.is_labelled(label) by {
            assert(rest[j] == fields[j]);
        }
        lemma_without_none(rest, label);
        assert(!fields[fields.len() - 1].0.is_labelled(label));
        assert(rest.push(fields.last()) =~= fields);
    } else {
        assert(without(fields, label) =~= fields);
    }
}

/// What holds of every field that is not under `label` holds of every
/// field that `without` keeps.
pub proof fn lemma_without_keeps<V>(
    fields: Seq<(StringTypeView, V)>,
    label: Seq<char>,
    p: spec_fn((StringTypeView, V)) -> bool,
)
    requires
        forall|i: int|
            0 <= i < fields.len() && !(#[trigger] fields[i]).0.is_labelled(label) ==> p(fields[i]),
    ensures
        forall|i: int| 0 <= i < without(fields, label).len() ==> p(#[trigger] without(fields, label)[i]),
    decreases fields.len(),
{
    if fields.len() > 0 {
        let rest = fields.drop_last();
        assert forall|i: int| 0 <= i < rest.len() && !(#[trigger] rest[i]).0.is_labelled(label) implies p(
            rest[i],
        ) by {
            assert(rest[i] == fields[i]);
        }
        lemma_without_keeps(rest, label, p);
        let w = without(rest, label);
        let last = fields[fields.len() - 1];
        assert forall|i: int| 0 <= i < without(fields, label).len() implies p(
            #[trigger] without(fields, label)[i],
        ) by {
            if !last.0.is_labelled(label) {
                if i < w.len() {
                    assert(without(fields, label)[i] == w[i]);
                } else {
                    assert(without(fields, label)[i] == last);
                }
            }
        }
    }
}

/// What `first_labelled` finds is a key labelled `label`, the first one.
pub proof fn lemma_first_labelled(keys: Seq<StringTypeView>, label: Seq<char>, i: int)
    requires
        0 <= i <= keys.len(),
    ensures
        i <= first_labelled(keys, label, i) <= keys.len(),
        first_labelled(keys, label, i) < keys.len() ==> keys[first_labelled(keys, label, i)].is_labelled(label),
        forall|j: int| i <= j < first_labelled(keys, label, i) ==> !(#[trigger] keys[j]).is_labelled(label),
    decreases keys.len() - i,
{
    if i < keys.len() && !keys[i].is_labelled(label) {
        lemma_first_labelled(keys, label, i + 1);
    }
}

/// Where the first field of `fields` stands whose key is labelled `label`;
/// the number of fields where there is none.
pub fn find_labelled<V>(fields: &Vec<(StringType, V)>, label: &str) -> (r: usize)
    ensures
        r == first_labelled(keys_view(fields@), label@, 0),
        r <= fields.len(),
        r < fields.len() ==> fields[r as int].0@.is_labelled(label@),
{
    let ghost keys = keys_view(fields@);
    proof {
        lemma_first_labelled(keys, label@, 0);
    }
    let mut i: usize = 0;
    while i < fields.len()
        invariant
            i <= fields.len(),
            keys == keys_view(fields@),
            first_labelled(keys, label@, 0) == first_labelled(keys, label@, i as int),
        decreases fields.len() - i,
    {
        if fields[i].0.is_labelled(label) {
            return i;
        }
        i += 1;
    }
    i
}

/// The views of a list of values.
pub open spec fn simple_items_view(v: Seq<SimpleValue>) -> Seq<SimpleValueView>
    decreases v,
{
    Seq::new(
        v.len(),
        |i: int|
            if 0 <= i < v.len() {
                v[i]@
            } else {
                arbitrary()
            },
    )
}

/// The views of a list of fields.
pub open spec fn simple_fields_view(v: Seq<(StringType, SimpleValue)>) -> Seq<
    (StringTypeView, SimpleValueView),
>
    decreases v,
{
    Seq::new(
        v.len(),
        |i: int|
            if 0 <= i < v.len() {
                (v[i].0@, v[i].1@)
            } else {
                arbitrary()
            },
    )
}

impl View for SimpleValue {
    type V = SimpleValueView;

    open spec fn view(&self) -> SimpleValueView
        decreases self,
    {
        match self {
            SimpleValue::StringType(s) => SimpleValueView::StringType(s@),
            SimpleValue::Array(v) => SimpleValueView::Array(simple_items_view(v@)),
            SimpleValue::Object(o) => SimpleValueView::Object(simple_fields_view(o@)),
        }
    }
}

/// The term that a value is ranked by.
pub open spec fn simple_term(v: SimpleValueView) -> Term
    decreases v,
{
    match v {
        SimpleValueView::StringType(s) => Term::Node(0, seq![s.term()]),
        SimpleValueView::Array(items) => Term::Node(1, simple_item_terms(items)),
        SimpleValueView::Object(fields) => Term::Node(2, simple_field_terms(fields)),
    }
}

/// The terms that a list of values is ranked by.
pub open spec fn simple_item_terms(items: Seq<SimpleValueView>) -> Seq<Term>
    decreases items,
{
    Seq::new(
        items.len(),
        |i: int|
            if 0 <= i < items.len() {
                simple_term(items[i])
            } else {
                arbitrary()
            },
    )
}

/// The terms that a list of fields is ranked by: each by its key, then by its value.
pub open spec fn simple_field_terms(fields: Seq<(StringTypeView, SimpleValueView)>) -> Seq<Term>
    decreases fields,
{
    Seq::new(
        fields.len(),
        |i: int|
            if 0 <= i < fields.len() {
                Term::Node(0, seq![fields[i].0.term(), simple_term(fields[i].1)])
            } else {
                arbitrary()
            },
    )
}

/// Each item as a document.
pub open spec fn simple_items_chosen(items: Seq<SimpleValueView>, langs: Seq<Seq<char>>) -> Seq<
    JsonView,
>
    decreases items,
{
    Seq::new(
        items.len(),
        |i: int|
            if 0 <= i < items.len() {
                items[i].choose_lang(langs)
            } else {
                arbitrary()
            },
    )
}

/// Each field as a member: the key as text, the value as a document.
pub open spec fn simple_fields_chosen(
    fields: Seq<(StringTypeView, SimpleValueView)>,
    langs: Seq<Seq<char>>,
) -> Seq<(Seq<char>, JsonView)>
    decreases fields,
{
    Seq::new(
        fields.len(),
        |i: int|
            if 0 <= i < fields.len() {
                (fields[i].0.choose_lang(langs), fields[i].1.choose_lang(langs))
            } else {
                arbitrary()
            },
    )
}

impl Ranked for SimpleValueView {
    open spec fn term(self) -> Term {
        simple_term(self)
    }
}

impl SimpleValueView {
    /// The value as a document: every string as text in the language that
    /// `langs` prefers. Of two fields whose keys give the same text, the
    /// later one stays.
    pub open spec fn choose_lang(self, langs: Seq<Seq<char>>) -> JsonView
        decreases self,
    {
        match self {
            SimpleValueView::StringType(s) => JsonView::String(s.choose_lang(langs)),
            SimpleValueView::Array(items) => JsonView::Array(simple_items_chosen(items, langs)),
            SimpleValueView::Object(fields) => JsonView::Object(
                gather(simple_fields_chosen(fields, langs)),
            ),
        }
    }

    /// Every object's fields ascend, and every labelled string's labels are a map.
    pub open spec fn wf(self) -> bool
        decreases self,
    {
        match self {
            SimpleValueView::StringType(s) => s.wf(),
            SimpleValueView::Array(items) => forall|i: int|
                0 <= i < items.len() ==> (#[trigger] items[i]).wf(),
            SimpleValueView::Object(fields) => ascending(fields) && forall|i: int|
                0 <= i < fields.len() ==> (#[trigger] fields[i]).0.wf() && fields[i].1.wf(),
        }
    }
}

fn compare_label(a: &(String, String), b: &(String, String)) -> (r: Rank)
    ensures
        r == compare_term((a.0@, a.1@).term(), (b.0@, b.1@).term()),
{
    proof {
        lemma_rank_pair(0, Term::Text(a.0@), Term::Text(a.1@), Term::Text(b.0@), Term::Text(b.1@));
    }
    match compare_strings(a.0.as_str(), b.0.as_str()) {
        Rank::Equal => compare_strings(a.1.as_str(), b.1.as_str()),
        r => r,
    }
}

fn compare_labels(a: &Vec<(String, String)>, b: &Vec<(String, String)>) -> (r: Rank)
    ensures
        r == compare_terms(label_terms(labels_view(a@)), label_terms(labels_view(b@))),
{
    let ghost x = label_terms(labels_view(a@));
    let ghost y = label_terms(labels_view(b@));
    let mut i: usize = 0;
    while i < a.len() && i < b.len()
        invariant
            i <= a.len(),
            i <= b.len(),
            x == label_terms(labels_view(a@)),
            y == label_terms(labels_view(b@)),
            forall|j: int| 0 <= j < i ==> compare_term(#[trigger] x[j], y[j]) == Rank::Equal,
        decreases a.len() - i,
    {
        let r = compare_label(&a[i], &b[i]);
        if r != Rank::Equal {
            proof {
                lemma_rank_decided(x, y, i as int);
            }
            return r;
        }
        i += 1;
    }
    proof {
        lemma_rank_decided(x, y, i as int);
    }
    if i < b.len() {
        Rank::Less
    } else if i < a.len() {
        Rank::Greater
    } else {
        Rank::Equal
    }
}

/// Binds `key` to `value` in a map of labels, in place of an earlier binding.
fn put_label(labels: &mut Vec<(String, String)>, key: String, value: String)
    ensures
        labels_view(final(labels)@) == put(labels_view(old(labels)@), key@, value@),
{
    let ghost s = labels_view(labels@);
    let mut i: usize = 0;
    let mut found = false;
    while i < labels.len() && !found
        invariant
            i <= labels.len(),
            *labels == *old(labels),
            s == labels_view(labels@),
            forall|j: int| 0 <= j < i ==> compare_text(key@, (#[trigger] s[j]).0) == Rank::Greater,
            found ==> i < labels.len() && compare_text(key@, s[i as int].0) == Rank::Less,
        decreases labels.len() - i, if found { 0int } else { 1int },
    {
        match compare_strings(key.as_str(), labels[i].0.as_str()) {
            Rank::Less => {
                found = true;
            },
            Rank::Equal => {
                proof {
                    lemma_put_present(s, key@, value@, i as int);
                }
                labels.set(i, (key, value));
                assert(labels_view(labels@) =~= s.update(i as int, (key@, value@)));
                return ;
            },
            Rank::Greater => {
                i += 1;
            },
        }
    }
    proof {
        lemma_put_before(s, key@, value@, i as int);
    }
    labels.insert(i, (key, value));
    assert(labels_view(labels@) =~= s.insert(i as int, (key@, value@)));
}

/// The label that a map of labels has for `lang`.
fn find_label<'a>(labels: &'a Vec<(String, String)>, lang: &str) -> (r: Option<&'a String>)
    ensures
        match r {
            Some(l) => lookup(labels_view(labels@), lang@) == Some(l@),
            None => lookup(labels_view(labels@), lang@) is None,
        },
{
    let ghost s = labels_view(labels@);
    let mut i: usize = 0;
    while i < labels.len()
        invariant
            i <= labels.len(),
            s == labels_view(labels@),
            lookup(s, lang@) == lookup_from(s, lang@, i as int),
        decreases labels.len() - i,
    {
        if text_matches(labels[i].0.as_str(), lang) {
            return Some(&labels[i].1);
        }
        i += 1;
    }
    None
}

impl LabelledNode {
    /// A node for `z_label` with the labels of `readable_labels`; where a
    /// language occurs twice, its last label counts.
    pub fn from(readable_labels: Vec<(String, String)>, z_label: String) -> (r: Self)
        ensures
            r@ == (LabelledNodeView {
                readable_labels: gather(labels_view(readable_labels@)),
                z_label: z_label@,
            }),
            r@.wf(),
    {
        let ghost s = labels_view(readable_labels@);
        let mut labels: Vec<(String, String)> = Vec::new();
        assert(labels_view(labels@) =~= gather(s.take(0)));
        for pair in it: readable_labels
            invariant
                it.seq() == readable_labels@,
                s == labels_view(readable_labels@),
                labels_view(labels@) == gather(s.take(it.index() as int)),
        {
            let (k, v) = pair;
            proof {
                let n = it.index() as int;
                assert(s.take(n + 1).drop_last() =~= s.take(n));
                assert(s.take(n + 1).last() == (k@, v@));
            }
            put_label(&mut labels, k, v);
        }
        proof {
            assert(s.take(s.len() as int) =~= s);
            lemma_gather(s);
        }
        LabelledNode { readable_labels: labels, z_label }
    }

    /// The labels, ascending by language.
    pub fn readable_labels(&self) -> (r: &Vec<(String, String)>)
        ensures
            labels_view(r@) == self@.readable_labels,
    {
        &self.readable_labels
    }

    /// The identifier that the labels belong to.
    pub fn z_label(&self) -> (r: &String)
        ensures
            r@ == self@.z_label,
    {
        &self.z_label
    }

    /// The node as text: its identifier and the label in the language that
    /// `langs` prefers.
    pub fn choose_lang(self, langs: &Vec<String>) -> (r: String)
        ensures
            r@ == self@.choose_lang(langs.deep_view()),
            r@.len() > 0,
    {
        let ghost s = labels_view(self.readable_labels@);
        let ghost ls = langs.deep_view();
        proof {
            reveal_strlit(": ");
        }
        let mut i: usize = 0;
        while i < langs.len()
            invariant
                i <= langs.len(),
                s == labels_view(self.readable_labels@),
                ls == langs.deep_view(),
                preferred_from(s, ls, 0) == preferred_from(s, ls, i as int),
            decreases langs.len() - i,
        {
            assert(ls[i as int] == langs[i as int]@);
            match find_label(&self.readable_labels, langs[i].as_str()) {
                Some(label) => {
                    let mut out = self.z_label.clone();
                    out.append(": ");
                    out.append(label.as_str());
                    proof {
                        reveal_strlit(": ");
                    }
                    return out;
                },
                None => {},
            }
            i += 1;
        }
        let mut out = self.z_label.clone();
        out.append(": ");
        if self.readable_labels.len() > 0 {
            out.append(self.readable_labels[0].1.as_str());
        } else {
            out.append("<no label>");
        }
        out
    }

    /// Three-way comparison in the canonical order: by the labels, then by
    /// the identifier.
    pub fn compare(&self, other: &LabelledNode) -> (r: Rank)
        ensures
            r == compare_term(self@.term(), other@.term()),
    {
        proof {
            lemma_rank_pair(
                0,
                Term::Node(0, label_terms(self@.readable_labels)),
                Term::Text(self@.z_label),
                Term::Node(0, label_terms(other@.readable_labels)),
                Term::Text(other@.z_label),
            );
        }
        match compare_labels(&self.readable_labels, &other.readable_labels) {
            Rank::Equal => compare_strings(self.z_label.as_str(), other.z_label.as_str()),
            r => r,
        }
    }
}

impl StringType {
    /// The plain string `s`.
    pub fn from(s: String) -> (r: Self)
        ensures
            r@ == StringTypeView::String(s@),
    {
        StringType::String(s)
    }

    /// Whether this is the string `label`, or carries the labels of the
    /// identifier `label`.
    pub fn is_labelled(&self, label: &str) -> (r: bool)
        ensures
            r == self@.is_labelled(label@),
    {
        match self {
            StringType::String(s) => text_matches(s.as_str(), label),
            StringType::LabelledNode(n) => text_matches(n.z_label.as_str(), label),
        }
    }

    /// The string itself, or the identifier that the labels belong to.
    pub fn to_raw(self) -> (r: String)
        ensures
            r@ == self@.raw(),
    {
        match self {
            StringType::String(s) => s,
            StringType::LabelledNode(n) => n.z_label,
        }
    }

    /// The string as text: itself, or its identifier with the label that
    /// `langs` prefers.
    pub fn choose_lang(self, langs: &Vec<String>) -> (r: String)
        ensures
            r@ == self@.choose_lang(langs.deep_view()),
    {
        match self {
            StringType::String(s) => s,
            StringType::LabelledNode(n) => n.choose_lang(langs),
        }
    }

    /// Three-way comparison in the canonical order: plain strings first.
    pub fn compare(&self, other: &StringType) -> (r: Rank)
        ensures
            r == compare_term(self@.term(), other@.term()),
    {
        match self {
            StringType::String(a) => match other {
                StringType::String(b) => {
                    proof {
                        lemma_rank_single(0, Term::Text(a@), Term::Text(b@));
                    }
                    compare_strings(a.as_str(), b.as_str())
                },
                StringType::LabelledNode(_) => Rank::Less,
            },
            StringType::LabelledNode(a) => match other {
                StringType::String(_) => Rank::Greater,
                StringType::LabelledNode(b) => {
                    proof {
                        lemma_rank_single(1, a@.term(), b@.term());
                    }
                    a.compare(b)
                },
            },
        }
    }
}

fn clone_labels(labels: &Vec<(String, String)>) -> (r: Vec<(String, String)>)
    ensures
        labels_view(r@) == labels_view(labels@),
{
    let mut out: Vec<(String, String)> = Vec::new();
    let mut i: usize = 0;
    while i < labels.len()
        invariant
            i <= labels.len(),
            out.len() == i,
            forall|j: int| 0 <= j < i ==> out[j].0@ == labels[j].0@ && out[j].1@ == labels[j].1@,
        decreases labels.len() - i,
    {
        out.push((labels[i].0.clone(), labels[i].1.clone()));
        i += 1;
    }
    assert(labels_view(out@) =~= labels_view(labels@));
    out
}

impl Clone for LabelledNode {
    fn clone(&self) -> (r: Self)
        ensures
            r@ == self@,
    {
        LabelledNode {
            readable_labels: clone_labels(&self.readable_labels),
            z_label: self.z_label.clone(),
        }
    }
}

impl Clone for StringType {
    fn clone(&self) -> (r: Self)
        ensures
            r@ == self@,
    {
        match self {
            StringType::String(s) => StringType::String(s.clone()),
            StringType::LabelledNode(n) => StringType::LabelledNode(n.clone()),
        }
    }
}

fn clone_simple_items(items: &Vec<SimpleValue>) -> (r: Vec<SimpleValue>)
    ensures
        simple_items_view(r@) == simple_items_view(items@),
    decreases items,
{
    let mut out: Vec<SimpleValue> = Vec::new();
    let mut i: usize = 0;
    while i < items.len()
        invariant
            i <= items.len(),
            out.len() == i,
            forall|j: int| 0 <= j < i ==> out[j]@ == items[j]@,
        decreases items.len() - i,
    {
        out.push(items[i].clone());
        i += 1;
    }
    assert(simple_items_view(out@) =~= simple_items_view(items@));
    out
}

fn clone_simple_fields(fields: &Vec<(StringType, SimpleValue)>) -> (r: Vec<(StringType, SimpleValue)>)
    ensures
        simple_fields_view(r@) == simple_fields_view(fields@),
    decreases fields,
{
    let mut out: Vec<(StringType, SimpleValue)> = Vec::new();
    let mut i: usize = 0;
    while i < fields.len()
        invariant
            i <= fields.len(),
            out.len() == i,
            forall|j: int| 0 <= j < i ==> out[j].0@ == fields[j].0@ && out[j].1@ == fields[j].1@,
        decreases fields.len() - i,
    {
        out.push((fields[i].0.clone(), fields[i].1.clone()));
        i += 1;
    }
    assert(simple_fields_view(out@) =~= simple_fields_view(fields@));
    out
}

impl Clone for SimpleValue {
    fn clone(&self) -> (r: Self)
        ensures
            r@ == self@,
        decreases self,
    {
        match self {
            SimpleValue::StringType(s) => SimpleValue::StringType(s.clone()),
            SimpleValue::Array(v) => SimpleValue::Array(clone_simple_items(v)),
            SimpleValue::Object(o) => SimpleValue::Object(clone_simple_fields(o)),
        }
    }
}

fn compare_simple_items(a: &Vec<SimpleValue>, b: &Vec<SimpleValue>) -> (r: Rank)
    ensures
        r == compare_terms(
            simple_item_terms(simple_items_view(a@)),
            simple_item_terms(simple_items_view(b@)),
        ),
    decreases a,
{
    let ghost x = simple_item_terms(simple_items_view(a@));
    let ghost y = simple_item_terms(simple_items_view(b@));
    let mut i: usize = 0;
    while i < a.len() && i < b.len()
        invariant
            i <= a.len(),
            i <= b.len(),
            x == simple_item_terms(simple_items_view(a@)),
            y == simple_item_terms(simple_items_view(b@)),
            forall|j: int| 0 <= j < i ==> compare_term(#[trigger] x[j], y[j]) == Rank::Equal,
        decreases a.len() - i,
    {
        let r = a[i].compare(&b[i]);
        if r != Rank::Equal {
            proof {
                lemma_rank_decided(x, y, i as int);
            }
            return r;
        }
        i += 1;
    }
    proof {
        lemma_rank_decided(x, y, i as int);
    }
    if i < b.len() {
        Rank::Less
    } else if i < a.len() {
        Rank::Greater
    } else {
        Rank::Equal
    }
}

fn compare_simple_field(a: &(StringType, SimpleValue), b: &(StringType, SimpleValue)) -> (r: Rank)
    ensures
        r == compare_term((a.0@, a.1@).term(), (b.0@, b.1@).term()),
    decreases a,
{
    proof {
        lemma_rank_pair(0, a.0@.term(), a.1@.term(), b.0@.term(), b.1@.term());
    }
    match a.0.compare(&b.0) {
        Rank::Equal => a.1.compare(&b.1),
        r => r,
    }
}

fn compare_simple_fields(a: &Vec<(StringType, SimpleValue)>, b: &Vec<(StringType, SimpleValue)>) -> (r:
    Rank)
    ensures
        r == compare_terms(
            simple_field_terms(simple_fields_view(a@)),
            simple_field_terms(simple_fields_view(b@)),
        ),
    decreases a,
{
    let ghost x = simple_field_terms(simple_fields_view(a@));
    let ghost y = simple_field_terms(simple_fields_view(b@));
    let mut i: usize = 0;
    while i < a.len() && i < b.len()
        invariant
            i <= a.len(),
            i <= b.len(),
            x == simple_field_terms(simple_fields_view(a@)),
            y == simple_field_terms(simple_fields_view(b@)),
            forall|j: int| 0 <= j < i ==> compare_term(#[trigger] x[j], y[j]) == Rank::Equal,
        decreases a.len() - i,
    {
        let r = compare_simple_field(&a[i], &b[i]);
        if r != Rank::Equal {
            proof {
                lemma_rank_decided(x, y, i as int);
            }
            return r;
        }
        i += 1;
    }
    proof {
        lemma_rank_decided(x, y, i as int);
    }
    if i < b.len() {
        Rank::Less
    } else if i < a.len() {
        Rank::Greater
    } else {
        Rank::Equal
    }
}

/// Puts a field at its place among `fields`, unless it is there already.
pub fn insert_simple_field(fields: &mut Vec<(StringType, SimpleValue)>, field: (StringType, SimpleValue))
    ensures
        simple_fields_view(final(fields)@) == insert(
            simple_fields_view(old(fields)@),
            (field.0@, field.1@),
        ),
{
    let ghost s = simple_fields_view(fields@);
    let ghost x = (field.0@, field.1@);
    let mut i: usize = 0;
    let mut found = false;
    while i < fields.len() && !found
        invariant
            i <= fields.len(),
            *fields == *old(fields),
            s == simple_fields_view(fields@),
            x == (field.0@, field.1@),
            forall|j: int| 0 <= j < i ==> compare_term(x.term(), (#[trigger] s[j]).term()) == Rank::Greater,
            found ==> i < fields.len() && compare_term(x.term(), s[i as int].term()) == Rank::Less,
        decreases fields.len() - i, if found { 0int } else { 1int },
    {
        match compare_simple_field(&field, &fields[i]) {
            Rank::Less => {
                found = true;
            },
            Rank::Equal => {
                proof {
                    lemma_insert_present(s, x, i as int);
                }
                return ;
            },
            Rank::Greater => {
                i += 1;
            },
        }
    }
    proof {
        lemma_insert_before(s, x, i as int);
    }
    fields.insert(i, field);
    assert(simple_fields_view(fields@) =~= s.insert(i as int, x));
}

impl SimpleValue {
    /// The value that is the string `k`.
    pub fn from(k: StringType) -> (r: Self)
        ensures
            r@ == SimpleValueView::StringType(k@),
    {
        SimpleValue::StringType(k)
    }

    /// The object whose fields are the set of `pairs`.
    pub fn object(pairs: Vec<(StringType, SimpleValue)>) -> (r: Self)
        ensures
            r@ == SimpleValueView::Object(collect(simple_fields_view(pairs@))),
            ascending(collect(simple_fields_view(pairs@))),
            (forall|i: int| 0 <= i < pairs.len() ==> (#[trigger] pairs[i]).0@.wf() && pairs[i].1@.wf())
                ==> r@.wf(),
    {
        let ghost s = simple_fields_view(pairs@);
        let mut fields: Vec<(StringType, SimpleValue)> = Vec::new();
        assert(simple_fields_view(fields@) =~= collect(s.take(0)));
        for pair in it: pairs
            invariant
                it.seq() == pairs@,
                s == simple_fields_view(pairs@),
                simple_fields_view(fields@) == collect(s.take(it.index() as int)),
        {
            proof {
                let n = it.index() as int;
                assert(s.take(n + 1).drop_last() =~= s.take(n));
                assert(s.take(n + 1).last() == (pair.0@, pair.1@));
            }
            insert_simple_field(&mut fields, pair);
        }
        proof {
            assert(s.take(s.len() as int) =~= s);
            lemma_collect(s);
            if forall|i: int| 0 <= i < pairs.len() ==> (#[trigger] pairs[i]).0@.wf() && pairs[i].1@.wf() {
                let c = collect(s);
                assert forall|i: int| 0 <= i < c.len() implies (#[trigger] c[i]).0.wf() && c[i].1.wf() by {
                    assert(c.contains(c[i]));
                    let j = choose|j: int| 0 <= j < s.len() && s[j] == c[i];
                    assert(pairs[j].0@.wf() && pairs[j].1@.wf());
                }
            }
        }
        SimpleValue::Object(fields)
    }

    /// The value as a document, each string in the language that `langs`
    /// prefers. The members of every object in it ascend by key.
    #[verifier::loop_isolation(false)]
    pub fn choose_lang(self, langs: &Vec<String>) -> (r: Json)
        ensures
            r@ == self@.choose_lang(langs.deep_view()),
            r@.wf(),
        decreases self,
    {
        match self {
            SimpleValue::StringType(s) => Json::String(s.choose_lang(langs)),
            SimpleValue::Array(v) => {
                let ghost items = simple_items_view(v@);
                let mut out: Vec<Json> = Vec::new();
                for x in it: v
                    invariant
                        it.seq() == v@,
                        out.len() == it.index(),
                        forall|j: int|
                            0 <= j < out.len() ==> (#[trigger] out[j])@ == v[j]@.choose_lang(
                                langs.deep_view(),
                            ) && out[j]@.wf(),
                {
                    out.push(x.choose_lang(langs));
                }
                assert(json_items_view(out@) =~= simple_items_chosen(items, langs.deep_view()));
                Json::Array(out)
            },
            SimpleValue::Object(o) => {
                let ghost s = simple_fields_chosen(simple_fields_view(o@), langs.deep_view());
                let mut members: Vec<(String, Json)> = Vec::new();
                assert(json_members_view(members@) =~= gather(s.take(0)));
                for field in it: o
                    invariant
                        it.seq() == o@,
                        s == simple_fields_chosen(simple_fields_view(o@), langs.deep_view()),
                        json_members_view(members@) == gather(s.take(it.index() as int)),
                        keyed(json_members_view(members@)),
                        forall|j: int|
                            0 <= j < members.len() ==> (#[trigger] json_members_view(
                                members@,
                            )[j]).1.wf(),
                {
                    let ghost n = it.index() as int;
                    let ghost before = json_members_view(members@);
                    let (k, v) = field;
                    let key = k.choose_lang(langs);
                    let value = v.choose_lang(langs);
                    proof {
                        assert(s.take(n + 1).drop_last() =~= s.take(n));
                        assert(s.take(n + 1).last() == (key@, value@));
                        lemma_put_keyed(before, key@, value@);
                    }
                    put_member(&mut members, key, value);
                    proof {
                        let after = json_members_view(members@);
                        assert forall|j: int| 0 <= j < members.len() implies (#[trigger] after[j]).1.wf() by {
                            if after[j] != (key@, value@) {
                                let m = choose|m: int| 0 <= m < before.len() && before[m] == after[j];
                                assert(before[m].1.wf());
                            }
                        }
                    }
                }
                assert(s.take(s.len() as int) =~= s);
                Json::Object(members)
            },
        }
    }

    /// Three-way comparison in the canonical order: strings, then arrays,
    /// then objects; arrays and objects item by item.
    pub fn compare(&self, other: &SimpleValue) -> (r: Rank)
        ensures
            r == compare_term(self@.term(), other@.term()),
        decreases self,
    {
        match self {
            SimpleValue::StringType(a) => match other {
                SimpleValue::StringType(b) => {
                    proof {
                        lemma_rank_single(0, a@.term(), b@.term());
                    }
                    a.compare(b)
                },
                _ => Rank::Less,
            },
            SimpleValue::Array(a) => match other {
                SimpleValue::StringType(_) => Rank::Greater,
                SimpleValue::Array(b) => compare_simple_items(a, b),
                SimpleValue::Object(_) => Rank::Less,
            },
            SimpleValue::Object(a) => match other {
                SimpleValue::Object(b) => compare_simple_fields(a, b),
                _ => Rank::Greater,
            },
        }
    }
}

} // verus!
