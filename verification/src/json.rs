//! JSON documents: what comes in to be labelled, and what goes out.

use crate::order::{
    compare_text, gather, keyed, lemma_gather, lemma_put_before, lemma_put_keyed,
    lemma_put_present, lookup, lookup_from, put, Rank,
};
use crate::text::{compare_strings, text_matches};
use vstd::prelude::*;
use vstd::string::StringExecFns;

verus! {

/// A JSON document. A number is kept as the text of its digits; the members
/// of an object are a map, kept ascending by key.
#[derive(Debug, PartialEq, Eq)]
pub enum Json {
    Null,
    Bool(bool),
    Number(String),
    String(String),
    Array(Vec<Json>),
    Object(Vec<(String, Json)>),
}

/// What a [`Json`] holds.
pub enum JsonView {
    Null,
    Bool(bool),
    Number(Seq<char>),
    String(Seq<char>),
    Array(Seq<JsonView>),
    Object(Seq<(Seq<char>, JsonView)>),
}

/// The views of a list of documents.
pub open spec fn json_items_view(v: Seq<Json>) -> Seq<JsonView>
    decreases v,
{
    Seq::new(
        v.len(),
        |i: int|
            if 0 <= i < v.len() {
                v[i]@
            } else {
                arbitrary()
            },
    )
}

/// The views of a list of members.
pub open spec fn json_members_view(v: Seq<(String, Json)>) -> Seq<(Seq<char>, JsonView)>
    decreases v,
{
    Seq::new(
        v.len(),
        |i: int|
            if 0 <= i < v.len() {
                (v[i].0@, v[i].1@)
            } else {
                arbitrary()
            },
    )
}

impl View for Json {
    type V = JsonView;

    open spec fn view(&self) -> JsonView
        decreases self,
    {
        match self {
            Json::Null => JsonView::Null,
            Json::Bool(b) => JsonView::Bool(*b),
            Json::Number(n) => JsonView::Number(n@),
            Json::String(s) => JsonView::String(s@),
            Json::Array(v) => JsonView::Array(json_items_view(v@)),
            Json::Object(o) => JsonView::Object(json_members_view(o@)),
        }
    }
}

impl JsonView {
    /// The members of every object are a map: their keys ascend strictly.
    pub open spec fn wf(self) -> bool
        decreases self,
    {
        match self {
            JsonView::Array(items) => forall|i: int|
                0 <= i < items.len() ==> (#[trigger] items[i]).wf(),
            JsonView::Object(members) => keyed(members) && forall|i: int|
                0 <= i < members.len() ==> (#[trigger] members[i]).1.wf(),
            _ => true,
        }
    }

    /// The member `key` of an object; nothing for another document.
    pub open spec fn get(self, key: Seq<char>) -> Option<JsonView> {
        match self {
            JsonView::Object(members) => lookup(members, key),
            _ => None,
        }
    }
}

fn clone_json_items(items: &Vec<Json>) -> (r: Vec<Json>)
    ensures
        json_items_view(r@) == json_items_view(items@),
    decreases items,
{
    let mut out: Vec<Json> = Vec::new();
    let mut i: usize = 0;
    while i < items.len()
        invariant
            i <= items.len(),
            out.len() == i,
            forall|j: int| 0 <= j < i ==> out[j]@ == items[j]@,
        decreases items.len() - i,
    {
        out.push(items[i].clone());
        i += 1;
    }
    assert(json_items_view(out@) =~= json_items_view(items@));
    out
}

fn clone_json_members(members: &Vec<(String, Json)>) -> (r: Vec<(String, Json)>)
    ensures
        json_members_view(r@) == json_members_view(members@),
    decreases members,
{
    let mut out: Vec<(String, Json)> = Vec::new();
    let mut i: usize = 0;
    while i < members.len()
        invariant
            i <= members.len(),
            out.len() == i,
            forall|j: int| 0 <= j < i ==> out[j].0@ == members[j].0@ && out[j].1@ == members[j].1@,
        decreases members.len() - i,
    {
        out.push((members[i].0.clone(), members[i].1.clone()));
        i += 1;
    }
    assert(json_members_view(out@) =~= json_members_view(members@));
    out
}

impl Clone for Json {
    fn clone(&self) -> (r: Self)
        ensures
            r@ == self@,
        decreases self,
    {
        match self {
            Json::Null => Json::Null,
            Json::Bool(b) => Json::Bool(*b),
            Json::Number(n) => Json::Number(n.clone()),
            Json::String(s) => Json::String(s.clone()),
            Json::Array(v) => Json::Array(clone_json_items(v)),
            Json::Object(o) => Json::Object(clone_json_members(o)),
        }
    }
}

/// Binds `key` to `value` among the members of an object, in place of an
/// earlier binding.
pub fn put_member(members: &mut Vec<(String, Json)>, key: String, value: Json)
    ensures
        json_members_view(final(members)@) == put(json_members_view(old(members)@), key@, value@),
{
    let ghost s = json_members_view(members@);
    let mut i: usize = 0;
    let mut found = false;
    while i < members.len() && !found
        invariant
            i <= members.len(),
            *members == *old(members),
            s == json_members_view(members@),
            forall|j: int| 0 <= j < i ==> compare_text(key@, (#[trigger] s[j]).0) == Rank::Greater,
            found ==> i < members.len() && compare_text(key@, s[i as int].0) == Rank::Less,
        decreases members.len() - i, if found { 0int } else { 1int },
    {
        match compare_strings(key.as_str(), members[i].0.as_str()) {
            Rank::Less => {
                found = true;
            },
            Rank::Equal => {
                proof {
                    lemma_put_present(s, key@, value@, i as int);
                }
                members.set(i, (key, value));
                assert(json_members_view(members@) =~= s.update(i as int, (key@, value@)));
                return ;
            },
            Rank::Greater => {
                i += 1;
            },
        }
    }
    proof {
        lemma_put_before(s, key@, value@, i as int);
    }
    members.insert(i, (key, value));
    assert(json_members_view(members@) =~= s.insert(i as int, (key@, value@)));
}

impl Json {
    /// The object that binds each key of `pairs` to the last value that
    /// `pairs` gives it.
    pub fn object(pairs: Vec<(String, Json)>) -> (r: Self)
        ensures
            r@ == JsonView::Object(gather(json_members_view(pairs@))),
            keyed(gather(json_members_view(pairs@))),
            (forall|i: int| 0 <= i < pairs.len() ==> (#[trigger] pairs[i]).1@.wf()) ==> r@.wf(),
    {
        let ghost s = json_members_view(pairs@);
        let mut members: Vec<(String, Json)> = Vec::new();
        assert(json_members_view(members@) =~= gather(s.take(0)));
        for pair in it: pairs
            invariant
                it.seq() == pairs@,
                s == json_members_view(pairs@),
                json_members_view(members@) == gather(s.take(it.index() as int)),
        {
            let (k, v) = pair;
            proof {
                let n = it.index() as int;
                assert(s.take(n + 1).drop_last() =~= s.take(n));
                assert(s.take(n + 1).last() == (k@, v@));
            }
            put_member(&mut members, k, v);
        }
        proof {
            assert(s.take(s.len() as int) =~= s);
            lemma_gather(s);
            if forall|i: int| 0 <= i < pairs.len() ==> (#[trigger] pairs[i]).1@.wf() {
                let g = gather(s);
                assert forall|i: int| 0 <= i < g.len() implies (#[trigger] g[i]).1.wf() by {
                    assert(s.contains(g[i]));
                    let m = choose|m: int| 0 <= m < s.len() && s[m] == g[i];
                    assert(pairs[m].1@.wf());
                }
            }
        }
        Json::Object(members)
    }

    /// The object with the two members `first` and `second`.
    pub fn pair(first: &str, a: Json, second: &str, b: Json) -> (r: Self)
        ensures
            r@ == JsonView::Object(gather(seq![(first@, a@), (second@, b@)])),
            a@.wf() && b@.wf() ==> r@.wf(),
    {
        let mut pairs: Vec<(String, Json)> = Vec::new();
        pairs.push((String::from_str(first), a));
        pairs.push((String::from_str(second), b));
        assert(json_members_view(pairs@) =~= seq![(first@, a@), (second@, b@)]);
        Json::object(pairs)
    }

    /// The member `key` of an object; nothing for another document.
    pub fn get(&self, key: &str) -> (r: Option<&Json>)
        ensures
            match r {
                Some(v) => self@.get(key@) == Some(v@),
                None => self@.get(key@) is None,
            },
    {
        match self {
            Json::Object(members) => {
                let ghost s = json_members_view(members@);
                let mut i: usize = 0;
                while i < members.len()
                    invariant
                        i <= members.len(),
                        s == json_members_view(members@),
                        self@ == JsonView::Object(s),
                        lookup(s, key@) == lookup_from(s, key@, i as int),
                    decreases members.len() - i,
                {
                    if text_matches(members[i].0.as_str(), key) {
                        return Some(&members[i].1);
                    }
                    i += 1;
                }
                None
            },
            _ => None,
        }
    }
}

/// Each item made regular.
pub open spec fn regular_items(items: Seq<JsonView>) -> Seq<JsonView>
    decreases items,
{
    Seq::new(
        items.len(),
        |i: int|
            if 0 <= i < items.len() {
                items[i].regular()
            } else {
                arbitrary()
            },
    )
}

/// Each member with its value made regular.
pub open spec fn regular_members(members: Seq<(Seq<char>, JsonView)>) -> Seq<(Seq<char>, JsonView)>
    decreases members,
{
    Seq::new(
        members.len(),
        |i: int|
            if 0 <= i < members.len() {
                (members[i].0, members[i].1.regular())
            } else {
                arbitrary()
            },
    )
}

impl JsonView {
    /// The document with the members of every object as a map: ascending by
    /// key, and of two members with one key the later.
    pub open spec fn regular(self) -> JsonView
        decreases self,
    {
        match self {
            JsonView::Array(items) => JsonView::Array(regular_items(items)),
            JsonView::Object(members) => JsonView::Object(gather(regular_members(members))),
            _ => self,
        }
    }
}

/// `serde_json::Value`, as text is parsed into it.
#[verifier::external_type_specification]
#[verifier::external_body]
pub struct ExValue(serde_json::Value);

/// What `serde_json` reads from a text: the document, or nothing where the
/// text is no JSON.
pub uninterp spec fn parsed(text: Seq<char>) -> Option<JsonView>;

/// A `serde_json::Value` as a document, variant for variant: a number as
/// the text that `serde_json` prints for it, the items of an array and the
/// members of an object in the order in which `serde_json` hands them out.
/// Nothing is claimed of the result.
#[verifier::external_body]
fn json_of(value: &serde_json::Value) -> Json {
    match value {
        serde_json::Value::Null => Json::Null,
        serde_json::Value::Bool(b) => Json::Bool(*b),
        serde_json::Value::Number(n) => Json::Number(n.to_string()),
        serde_json::Value::String(s) => Json::String(s.clone()),
        serde_json::Value::Array(a) => Json::Array(a.iter().map(json_of).collect()),
        serde_json::Value::Object(o) => Json::Object(
            o.iter().map(|(k, v)| (k.clone(), json_of(v))).collect(),
        ),
    }
}

/// `serde_json::from_str` into a `serde_json::Value`, which is then taken
/// over variant for variant. The result depends on the text alone; the
/// contract gives it a name and says nothing more of it.
#[verifier::external_body]
fn read_json(text: &str) -> (r: Option<Json>)
    ensures
        match r {
            Some(j) => parsed(text@) == Some(j@),
            None => parsed(text@) is None,
        },
{
    match serde_json::from_str::<serde_json::Value>(text) {
        Ok(value) => Some(json_of(&value)),
        Err(_) => None,
    }
}

#[verifier::loop_isolation(false)]
fn regular_items_of(items: Vec<Json>) -> (r: Vec<Json>)
    ensures
        json_items_view(r@) == regular_items(json_items_view(items@)),
        forall|i: int| 0 <= i < r.len() ==> (#[trigger] r[i])@.wf(),
    decreases items,
{
    let mut out: Vec<Json> = Vec::new();
    for x in it: items
        invariant
            it.seq() == items@,
            out.len() == it.index(),
            forall|j: int| 0 <= j < out.len() ==> (#[trigger] out[j])@ == items[j]@.regular() && out[j]@.wf(),
    {
        out.push(x.into_regular());
    }
    assert(json_items_view(out@) =~= regular_items(json_items_view(items@)));
    out
}

#[verifier::loop_isolation(false)]
fn regular_members_of(o: Vec<(String, Json)>) -> (r: Vec<(String, Json)>)
    ensures
        json_members_view(r@) == gather(regular_members(json_members_view(o@))),
        JsonView::Object(json_members_view(r@)).wf(),
    decreases o,
{
    let ghost s = regular_members(json_members_view(o@));
    let mut members: Vec<(String, Json)> = Vec::new();
    assert(json_members_view(members@) =~= gather(s.take(0)));
    for field in it: o
        invariant
            it.seq() == o@,
            json_members_view(members@) == gather(s.take(it.index() as int)),
            keyed(json_members_view(members@)),
            forall|j: int|
                0 <= j < members.len() ==> (#[trigger] json_members_view(members@)[j]).1.wf(),
    {
        let ghost n = it.index() as int;
        let ghost before = json_members_view(members@);
        let (key, v) = field;
        let value = v.into_regular();
        proof {
            assert(s.take(n + 1).drop_last() =~= s.take(n));
            assert(s.take(n + 1).last() == (key@, value@));
            lemma_put_keyed(before, key@, value@);
        }
        put_member(&mut members, key, value);
        proof {
            let after = json_members_view(members@);
            assert forall|j: int| 0 <= j < members.len() implies (#[trigger] after[j]).1.wf() by {
                if after[j] != (key@, value@) {
                    let m = choose|m: int| 0 <= m < before.len() && before[m] == after[j];
                    assert(before[m].1.wf());
                }
            }
        }
    }
    assert(s.take(s.len() as int) =~= s);
    members
}

impl Json {
    /// The document with the members of every object as a map.
    pub fn into_regular(self) -> (r: Self)
        ensures
            r@ == self@.regular(),
            r@.wf(),
        decreases self,
    {
        match self {
            Json::Array(items) => Json::Array(regular_items_of(items)),
            Json::Object(o) => Json::Object(regular_members_of(o)),
            other => other,
        }
    }

    /// The document that `text` is: what `serde_json` reads from it, with the
    /// members of every object as a map. Nothing where `text` is no JSON.
    pub fn parse(text: &str) -> (r: Option<Self>)
        ensures
            match r {
                Some(j) => parsed(text@) is Some && j@ == parsed(text@).unwrap().regular() && j@.wf(),
                None => parsed(text@) is None,
            },
    {
        match read_json(text) {
            Some(j) => Some(j.into_regular()),
            None => None,
        }
    }
}

} // verus!
