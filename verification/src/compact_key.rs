//! Keys that carry the types of their values.

use crate::order::{
    compare_term, compare_terms, lemma_rank_decided, lemma_rank_pair, lemma_rank_single, terms,
    Rank, Ranked, Term,
};
use crate::simple_value::{StringType, StringTypeView};
use vstd::prelude::*;
use vstd::string::StringExecFns;

verus! {

/// A type named by a string.
#[derive(Debug, PartialEq, Eq, PartialOrd, Ord, Hash)]
pub struct SimpleType(pub StringType);

/// A string with the types attached to it, or types alone.
#[derive(Debug, PartialEq, Eq, PartialOrd, Ord, Hash)]
pub enum CompactKey {
    StringType(StringType, Vec<SimpleType>),
    Transient(Vec<SimpleType>),
}

/// What a [`CompactKey`] holds.
pub enum CompactKeyView {
    StringType(StringTypeView, Seq<StringTypeView>),
    Transient(Seq<StringTypeView>),
}

impl View for SimpleType {
    type V = StringTypeView;

    open spec fn view(&self) -> StringTypeView {
        self.0@
    }
}

/// The views of a list of types.
pub open spec fn types_view(v: Seq<SimpleType>) -> Seq<StringTypeView> {
    Seq::new(v.len(), |i: int| v[i]@)
}

impl View for CompactKey {
    type V = CompactKeyView;

    open spec fn view(&self) -> CompactKeyView {
        match self {
            CompactKey::StringType(s, types) => CompactKeyView::StringType(s@, types_view(types@)),
            CompactKey::Transient(types) => CompactKeyView::Transient(types_view(types@)),
        }
    }
}

impl Ranked for CompactKeyView {
    open spec fn term(self) -> Term {
        match self {
            CompactKeyView::StringType(s, types) => Term::Node(
                0,
                seq![s.term(), Term::Node(0, terms(types))],
            ),
            CompactKeyView::Transient(types) => Term::Node(1, seq![Term::Node(0, terms(types))]),
        }
    }
}

/// The texts of `parts` with `sep` between them.
pub open spec fn joined(parts: Seq<Seq<char>>, sep: Seq<char>) -> Seq<char>
    decreases parts.len(),
{
    if parts.len() == 0 {
        Seq::empty()
    } else if parts.len() == 1 {
        parts[0]
    } else {
        joined(parts.drop_last(), sep) + sep + parts.last()
    }
}

/// Each type as text.
pub open spec fn types_text(types: Seq<StringTypeView>, langs: Seq<Seq<char>>) -> Seq<Seq<char>> {
    Seq::new(types.len(), |i: int| types[i].choose_lang(langs))
}

/// The types as text, between square brackets and with commas between them.
pub open spec fn annotation(types: Seq<StringTypeView>, langs: Seq<Seq<char>>) -> Seq<char> {
    "["@ + joined(types_text(types, langs), ", "@) + "]"@
}

impl CompactKeyView {
    /// The string and every type are well-formed.
    pub open spec fn wf(self) -> bool {
        match self {
            CompactKeyView::StringType(s, types) => s.wf() && forall|i: int|
                0 <= i < types.len() ==> (#[trigger] types[i]).wf(),
            CompactKeyView::Transient(types) => forall|i: int|
                0 <= i < types.len() ==> (#[trigger] types[i]).wf(),
        }
    }

    /// The key as text: the string, and after it the types where it has any;
    /// the types alone where there is no string.
    pub open spec fn choose_lang(self, langs: Seq<Seq<char>>) -> Seq<char> {
        match self {
            CompactKeyView::StringType(s, types) => if types.len() == 0 {
                s.choose_lang(langs)
            } else {
                s.choose_lang(langs) + " "@ + annotation(types, langs)
            },
            CompactKeyView::Transient(types) => annotation(types, langs),
        }
    }
}

impl Clone for SimpleType {
    fn clone(&self) -> (r: Self)
        ensures
            r@ == self@,
    {
        SimpleType(self.0.clone())
    }
}

/// A copy of a list of types.
pub fn clone_types(types: &Vec<SimpleType>) -> (r: Vec<SimpleType>)
    ensures
        types_view(r@) == types_view(types@),
{
    let mut out: Vec<SimpleType> = Vec::new();
    let mut i: usize = 0;
    while i < types.len()
        invariant
            i <= types.len(),
            out.len() == i,
            forall|j: int| 0 <= j < i ==> out[j]@ == types[j]@,
        decreases types.len() - i,
    {
        out.push(types[i].clone());
        i += 1;
    }
    assert(types_view(out@) =~= types_view(types@));
    out
}

impl Clone for CompactKey {
    fn clone(&self) -> (r: Self)
        ensures
            r@ == self@,
    {
        match self {
            CompactKey::StringType(s, types) => CompactKey::StringType(s.clone(), clone_types(types)),
            CompactKey::Transient(types) => CompactKey::Transient(clone_types(types)),
        }
    }
}

fn compare_types(a: &Vec<SimpleType>, b: &Vec<SimpleType>) -> (r: Rank)
    ensures
        r == compare_terms(terms(types_view(a@)), terms(types_view(b@))),
{
    let ghost x = terms(types_view(a@));
    let ghost y = terms(types_view(b@));
    let mut i: usize = 0;
    while i < a.len() && i < b.len()
        invariant
            i <= a.len(),
            i <= b.len(),
            x == terms(types_view(a@)),
            y == terms(types_view(b@)),
            forall|j: int| 0 <= j < i ==> compare_term(#[trigger] x[j], y[j]) == Rank::Equal,
        decreases a.len() - i,
    {
        let r = a[i].0.compare(&b[i].0);
        if r != Rank::Equal {
            proof {
                lemma_rank_decided(x, y, i as int);
            }
            return r;
        }
        i += 1;
    }
    proof {
        lemma_rank_decided(x, y, i as int);
    }
    if i < b.len() {
        Rank::Less
    } else if i < a.len() {
        Rank::Greater
    } else {
        Rank::Equal
    }
}

/// Appends to `out` the types as text, in square brackets.
fn append_annotation(out: &mut String, types: Vec<SimpleType>, langs: &Vec<String>)
    ensures
        final(out)@ == old(out)@ + annotation(types_view(types@), langs.deep_view()),
{
    let ghost texts = types_text(types_view(types@), langs.deep_view());
    let ghost start = out@;
    out.append("[");
    let mut first = true;
    for t in it: types
        invariant
            it.seq() == types@,
            first == (it.index() == 0),
            texts == types_text(types_view(types@), langs.deep_view()),
            out@ == start + "["@ + joined(texts.take(it.index() as int), ", "@),
    {
        let ghost n = it.index() as int;
        let text = t.0.choose_lang(langs);
        proof {
            assert(texts.take(n + 1).drop_last() =~= texts.take(n));
            assert(texts.take(n + 1).last() == text@);
            assert(texts[n] == types_view(types@)[n].choose_lang(langs.deep_view()));
        }
        if !first {
            out.append(", ");
            out.append(text.as_str());
            assert(out@ =~= start + "["@ + (joined(texts.take(n), ", "@) + ", "@ + text@));
        } else {
            out.append(text.as_str());
            assert(texts.take(0) =~= Seq::<Seq<char>>::empty());
            assert(out@ =~= start + "["@ + text@);
        }
        first = false;
    }
    assert(texts.take(texts.len() as int) =~= texts);
    out.append("]");
    assert(out@ =~= start + ("["@ + joined(texts, ", "@) + "]"@));
}

impl CompactKey {
    /// The key that is `s` with no type attached.
    pub fn from(s: StringType) -> (r: Self)
        ensures
            r@ == CompactKeyView::StringType(s@, Seq::empty()),
    {
        let r = CompactKey::StringType(s, Vec::new());
        assert(r@->StringType_1 =~= Seq::empty());
        r
    }

    /// The key as text, each string in the language that `langs` prefers.
    pub fn choose_lang(self, langs: &Vec<String>) -> (r: String)
        ensures
            r@ == self@.choose_lang(langs.deep_view()),
    {
        match self {
            CompactKey::StringType(key, types) => {
                if types.len() == 0 {
                    key.choose_lang(langs)
                } else {
                    let mut out = key.choose_lang(langs);
                    out.append(" ");
                    append_annotation(&mut out, types, langs);
                    assert(out@ =~= self@.choose_lang(langs.deep_view()));
                    out
                }
            },
            CompactKey::Transient(types) => {
                let mut out = String::new();
                append_annotation(&mut out, types, langs);
                assert(out@ =~= self@.choose_lang(langs.deep_view()));
                out
            },
        }
    }

    /// Three-way comparison in the canonical order: keys with a string
    /// first, by the string and then by the types.
    pub fn compare(&self, other: &CompactKey) -> (r: Rank)
        ensures
            r == compare_term(self@.term(), other@.term()),
    {
        match self {
            CompactKey::StringType(a, s) => match other {
                CompactKey::StringType(b, t) => {
                    proof {
                        lemma_rank_pair(
                            0,
                            a@.term(),
                            Term::Node(0, terms(types_view(s@))),
                            b@.term(),
                            Term::Node(0, terms(types_view(t@))),
                        );
                    }
                    match a.compare(b) {
                        Rank::Equal => compare_types(s, t),
                        r => r,
                    }
                },
                CompactKey::Transient(_) => Rank::Less,
            },
            CompactKey::Transient(s) => match other {
                CompactKey::StringType(_, _) => Rank::Greater,
                CompactKey::Transient(t) => {
                    proof {
                        lemma_rank_single(
                            1,
                            Term::Node(0, terms(types_view(s@))),
                            Term::Node(0, terms(types_view(t@))),
                        );
                    }
                    compare_types(s, t)
                },
            },
        }
    }
}

} // verus!
