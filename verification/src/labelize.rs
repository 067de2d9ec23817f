//! Labels for identifiers: telling identifiers from other strings, finding
//! their labels in what the wiki answered, and labelling a whole document.

use crate::json::{json_items_view, json_members_view, Json, JsonView};
use crate::order::{collect, gather, lookup, lookup_from};
use crate::simple_value::{
    insert_simple_field, labels_view, simple_fields_view, simple_items_view, LabelledNode,
    LabelledNodeView, SimpleValue, SimpleValueView, StringType, StringTypeView,
};
use crate::text::text_matches;
use crate::wf::{lemma_labelled_wf, lemma_resolved_wf};
use vstd::pervasive::unreached;
use vstd::prelude::*;
use vstd::string::{StrSliceExecFns, StringExecFns};

verus! {

/// Why no label could be had.
#[derive(Debug, PartialEq, Eq)]
pub enum MyError {
    NetworkError(String),
    SchemaError(String),
}

/// What a [`MyError`] holds.
pub enum MyErrorView {
    NetworkError(Seq<char>),
    SchemaError(Seq<char>),
}

impl View for MyError {
    type V = MyErrorView;

    open spec fn view(&self) -> MyErrorView {
        match self {
            MyError::NetworkError(m) => MyErrorView::NetworkError(m@),
            MyError::SchemaError(m) => MyErrorView::SchemaError(m@),
        }
    }
}

impl Clone for MyError {
    fn clone(&self) -> (r: Self)
        ensures
            r@ == self@,
    {
        match self {
            MyError::NetworkError(m) => MyError::NetworkError(m.clone()),
            MyError::SchemaError(m) => MyError::SchemaError(m.clone()),
        }
    }
}

impl MyErrorView {
    /// The error as text: its kind, a colon and a space, and its message.
    pub open spec fn to_text(self) -> Seq<char> {
        match self {
            MyErrorView::NetworkError(m) => "network error: "@ + m,
            MyErrorView::SchemaError(m) => "schema error: "@ + m,
        }
    }
}

impl MyError {
    /// The error as text.
    pub fn to_text(&self) -> (r: String)
        ensures
            r@ == self@.to_text(),
    {
        match self {
            MyError::NetworkError(m) => {
                let mut out = String::from_str("network error: ");
                out.append(m.as_str());
                out
            },
            MyError::SchemaError(m) => {
                let mut out = String::from_str("schema error: ");
                out.append(m.as_str());
                out
            },
        }
    }
}

fn schema_error(message: &str) -> (r: MyError)
    ensures
        r@ == MyErrorView::SchemaError(message@),
{
    MyError::SchemaError(String::from_str(message))
}

// ---- kinds of strings ----

/// What a string is to the labeller.
#[derive(Debug, Clone, Copy, PartialEq, Eq, Structural)]
pub enum IdKind {
    /// The identifier of a persistent object: `Z` and digits.
    Persistent,
    /// The identifier of a key of a persistent object: `Z`, digits, `K`, digits.
    GlobalKey,
    /// Any other string.
    Plain,
}

/// Whether the regular expression `pattern` matches somewhere in `text`, as
/// the `regex` crate decides it; nothing where `pattern` is no regular
/// expression.
pub uninterp spec fn regex_matches(pattern: Seq<char>, text: Seq<char>) -> Option<bool>;

/// `Regex::new` and then `Regex::is_match` of the `regex` crate. The result
/// depends on the pattern and the text alone; the contract gives it a name
/// and says nothing more of it.
#[verifier::external_body]
fn regex_is_match(pattern: &str, text: &str) -> (r: Option<bool>)
    ensures
        r == regex_matches(pattern@, text@),
{
    match regex::Regex::new(pattern) {
        Ok(re) => Some(re.is_match(text)),
        Err(_) => None,
    }
}

/// The pattern of the identifier of a persistent object.
pub open spec fn persistent_pattern() -> Seq<char> {
    "^Z\\d+$"@
}

/// The pattern of the identifier of a global key.
pub open spec fn global_key_pattern() -> Seq<char> {
    "^Z\\d+K\\d+$"@
}

/// The kind of a string, from whether each of the two patterns matches it.
/// A pattern that is no regular expression matches nothing.
pub open spec fn kind_from(persistent: Option<bool>, global_key: Option<bool>) -> IdKind {
    if persistent == Some(true) {
        IdKind::Persistent
    } else if global_key == Some(true) {
        IdKind::GlobalKey
    } else {
        IdKind::Plain
    }
}

/// The kind of the string `s`.
pub open spec fn id_kind(s: Seq<char>) -> IdKind {
    kind_from(
        regex_matches(persistent_pattern(), s),
        regex_matches(global_key_pattern(), s),
    )
}

impl IdKind {
    /// The kind of a string, from whether each of the two patterns matches it.
    pub fn from_matches(persistent: Option<bool>, global_key: Option<bool>) -> (r: IdKind)
        ensures
            r == kind_from(persistent, global_key),
    {
        match persistent {
            Some(true) => IdKind::Persistent,
            _ => match global_key {
                Some(true) => IdKind::GlobalKey,
                _ => IdKind::Plain,
            },
        }
    }

    /// The kind of the string `s`.
    pub fn of(s: &str) -> (r: IdKind)
        ensures
            r == id_kind(s@),
    {
        IdKind::from_matches(regex_is_match("^Z\\d+$", s), regex_is_match("^Z\\d+K\\d+$", s))
    }
}

/// Where the first `K` at or after `i` stands in `s`; the length of `s`
/// where there is none.
pub open spec fn first_k(s: Seq<char>, i: int) -> int
    decreases s.len() - i,
{
    if i < 0 || i >= s.len() {
        s.len() as int
    } else if s[i] == 'K' {
        i
    } else {
        first_k(s, i + 1)
    }
}

/// What stands before the first `K` of `s`: for the identifier of a global
/// key, the identifier of the object that the key belongs to.
pub open spec fn owner(s: Seq<char>) -> Seq<char> {
    s.subrange(0, first_k(s, 0))
}

/// What stands before the first `K` of `s`.
pub fn owner_of(s: &str) -> (r: String)
    ensures
        r@ == owner(s@),
{
    let n = s.unicode_len();
    let mut i: usize = 0;
    let mut found = false;
    while i < n && !found
        invariant
            i <= n,
            n == s@.len(),
            first_k(s@, 0) == first_k(s@, i as int),
            found ==> i < n && s@[i as int] == 'K',
        decreases n - i, if found { 0int } else { 1int },
    {
        if s.get_char(i) == 'K' {
            found = true;
        } else {
            i += 1;
        }
    }
    String::from_str(s.substring_char(0, i))
}

// ---- what the wiki answered ----

/// What was fetched for the identifiers of persistent objects: for each,
/// the `data` of the answer, or why there is none.
pub struct Upstream {
    pub answers: Vec<(String, Result<Json, MyError>)>,
}

/// What an answer holds: the data, or the error.
pub open spec fn outcome_view(r: Result<Json, MyError>) -> Result<JsonView, MyErrorView> {
    match r {
        Ok(j) => Ok(j@),
        Err(e) => Err(e@),
    }
}

/// What a list of answers holds.
pub open spec fn answers_view(v: Seq<(String, Result<Json, MyError>)>) -> Seq<
    (Seq<char>, Result<JsonView, MyErrorView>),
> {
    Seq::new(v.len(), |i: int| (v[i].0@, outcome_view(v[i].1)))
}

impl View for Upstream {
    type V = Seq<(Seq<char>, Result<JsonView, MyErrorView>)>;

    open spec fn view(&self) -> Self::V {
        answers_view(self.answers@)
    }
}

/// The message of the error for an identifier that nothing was fetched for.
pub open spec fn not_fetched() -> Seq<char> {
    "nothing was fetched for the identifier"@
}

/// What was fetched for `z_number`: the first answer recorded for it; a
/// network error where there is none.
pub open spec fn fetched(
    answers: Seq<(Seq<char>, Result<JsonView, MyErrorView>)>,
    z_number: Seq<char>,
) -> Result<JsonView, MyErrorView> {
    match lookup(answers, z_number) {
        Some(r) => r,
        None => Err(MyErrorView::NetworkError(not_fetched())),
    }
}

impl Upstream {
    /// No answer yet.
    pub fn new() -> (r: Self)
        ensures
            r@ == Seq::<(Seq<char>, Result<JsonView, MyErrorView>)>::empty(),
    {
        let r = Upstream { answers: Vec::new() };
        assert(r@ =~= Seq::empty());
        r
    }

    /// Records what was fetched for `z_number`, after the answers that are
    /// there already.
    pub fn record(&mut self, z_number: String, outcome: Result<Json, MyError>)
        ensures
            final(self)@ == old(self)@.push((z_number@, outcome_view(outcome))),
    {
        self.answers.push((z_number, outcome));
        assert(self@ =~= old(self)@.push((z_number@, outcome_view(outcome))));
    }

    /// What was fetched for `z_number`.
    pub fn fetch(&self, z_number: &str) -> (r: Result<Json, MyError>)
        ensures
            outcome_view(r) == fetched(self@, z_number@),
    {
        let ghost s = self@;
        let mut i: usize = 0;
        while i < self.answers.len()
            invariant
                i <= self.answers.len(),
                s == self@,
                lookup(s, z_number@) == lookup_from(s, z_number@, i as int),
            decreases self.answers.len() - i,
        {
            if text_matches(self.answers[i].0.as_str(), z_number) {
                return match &self.answers[i].1 {
                    Ok(j) => Ok(j.clone()),
                    Err(e) => Err(e.clone()),
                };
            }
            i += 1;
        }
        Err(MyError::NetworkError(String::from_str("nothing was fetched for the identifier")))
    }
}

/// The address that the object `z_number` is fetched from.
pub open spec fn fetch_address(domain: Seq<char>, z_number: Seq<char>) -> Seq<char> {
    domain
        + "/api.php?action=query&format=json&list=wikilambdaload_zobjects&wikilambdaload_zids="@
        + z_number + "&wikilambdaload_canonical=true"@
}

/// The address that the object `z_number` is fetched from.
pub fn fetch_url(domain: &str, z_number: &str) -> (r: String)
    ensures
        r@ == fetch_address(domain@, z_number@),
{
    let mut out = String::from_str(domain);
    out.append(
        "/api.php?action=query&format=json&list=wikilambdaload_zobjects&wikilambdaload_zids=",
    );
    out.append(z_number);
    out.append("&wikilambdaload_canonical=true");
    out
}

/// The message for an answer that lacks the object asked for.
pub open spec fn no_self_message(z_number: Seq<char>) -> Seq<char> {
    "no key for self ("@ + z_number + ") in wikifunction response"@
}

/// The `data` of the object `z_number` in an answer of the wiki, found
/// under `query`, `wikilambdaload_zobjects` and the identifier; a schema
/// error that names the first of the four keys that is missing.
pub open spec fn answer_data(body: JsonView, z_number: Seq<char>) -> Result<JsonView, MyErrorView> {
    match body.get("query"@) {
        None => Err(MyErrorView::SchemaError("no \"query\" key in wikifunction response"@)),
        Some(query) => match query.get("wikilambdaload_zobjects"@) {
            None => Err(
                MyErrorView::SchemaError(
                    "no \"wikilambdaload_zobjects\" key in wikifunction response"@,
                ),
            ),
            Some(objects) => match objects.get(z_number) {
                None => Err(MyErrorView::SchemaError(no_self_message(z_number))),
                Some(object) => match object.get("data"@) {
                    None => Err(
                        MyErrorView::SchemaError("no \"data\" key in wikifunction response"@),
                    ),
                    Some(data) => Ok(data),
                },
            },
        },
    }
}

/// The `data` of the object `z_number` in an answer of the wiki.
pub fn response_data(body: &Json, z_number: &str) -> (r: Result<Json, MyError>)
    ensures
        outcome_view(r) == answer_data(body@, z_number@),
{
    match body.get("query") {
        None => Err(schema_error("no \"query\" key in wikifunction response")),
        Some(query) => match query.get("wikilambdaload_zobjects") {
            None => Err(schema_error("no \"wikilambdaload_zobjects\" key in wikifunction response")),
            Some(objects) => match objects.get(z_number) {
                None => {
                    let mut message = String::from_str("no key for self (");
                    message.append(z_number);
                    message.append(") in wikifunction response");
                    Err(MyError::SchemaError(message))
                },
                Some(object) => match object.get("data") {
                    None => Err(schema_error("no \"data\" key in wikifunction response")),
                    Some(data) => Ok(data.clone()),
                },
            },
        },
    }
}

/// The `data` of the object `z_number` in the text of an answer: as
/// `response_data` on the document that the text is, a schema error where
/// it is none.
pub fn read_response(text: &str, z_number: &str) -> (r: Result<Json, MyError>)
    ensures
        outcome_view(r) == (match crate::json::parsed(text@) {
            None => Err(MyErrorView::SchemaError("failed parsing wikifunction response"@)),
            Some(body) => answer_data(body.regular(), z_number@),
        }),
{
    match Json::parse(text) {
        None => Err(schema_error("failed parsing wikifunction response")),
        Some(body) => response_data(&body, z_number),
    }
}

// ---- labels in the data of an object ----

/// What the search for one label ended in.
pub open spec fn pair_view(r: Result<(String, String), MyError>) -> Result<
    (Seq<char>, Seq<char>),
    MyErrorView,
> {
    match r {
        Ok(p) => Ok((p.0@, p.1@)),
        Err(e) => Err(e@),
    }
}

/// What the search for the labels ended in.
pub open spec fn pairs_view(r: Result<Vec<(String, String)>, MyError>) -> Result<
    Seq<(Seq<char>, Seq<char>)>,
    MyErrorView,
> {
    match r {
        Ok(v) => Ok(labels_view(v@)),
        Err(e) => Err(e@),
    }
}

/// The label as it is kept: between single quotes for the label of a key.
pub open spec fn kept_label(text: Seq<char>, quoted: bool) -> Seq<char> {
    if quoted {
        "'"@ + text + "'"@
    } else {
        text
    }
}

/// Language and label of one monolingual text: the strings under `Z11K1`
/// and `Z11K2`.
pub open spec fn label_pair(item: JsonView, quoted: bool) -> Result<
    (Seq<char>, Seq<char>),
    MyErrorView,
> {
    match item.get("Z11K1"@) {
        None => Err(MyErrorView::SchemaError("no key Z11K1 in item of Z12K1"@)),
        Some(JsonView::String(lang)) => match item.get("Z11K2"@) {
            None => Err(MyErrorView::SchemaError("no key Z11K1 in item of Z12K1"@)),
            Some(JsonView::String(text)) => Ok((lang, kept_label(text, quoted))),
            Some(_) => Err(MyErrorView::SchemaError("value of Z11K2 not a str"@)),
        },
        Some(_) => Err(MyErrorView::SchemaError("value of Z11K1 not a str"@)),
    }
}

/// Language and label of each of the first `n` items but the very first,
/// which states the type of the others; the error of the first item that
/// has one.
pub open spec fn label_pairs(items: Seq<JsonView>, n: int, quoted: bool) -> Result<
    Seq<(Seq<char>, Seq<char>)>,
    MyErrorView,
>
    decreases n,
{
    if n <= 1 {
        Ok(Seq::empty())
    } else {
        match label_pairs(items, n - 1, quoted) {
            Err(e) => Err(e),
            Ok(pairs) => match label_pair(items[n - 1], quoted) {
                Err(e) => Err(e),
                Ok(pair) => Ok(pairs.push(pair)),
            },
        }
    }
}

/// The labels of a multilingual text: language and label of the monolingual
/// texts in the array under `Z12K1`.
pub open spec fn multilingual_labels(holder: JsonView, missing: Seq<char>, quoted: bool) -> Result<
    Seq<(Seq<char>, Seq<char>)>,
    MyErrorView,
> {
    match holder.get("Z12K1"@) {
        None => Err(MyErrorView::SchemaError(missing)),
        Some(JsonView::Array(items)) => label_pairs(items, items.len() as int, quoted),
        Some(_) => Err(MyErrorView::SchemaError("Z12K1 is not an array"@)),
    }
}

/// The labels of a persistent object: those of the multilingual text under
/// `Z2K3`.
pub open spec fn persistent_labels(data: JsonView) -> Result<
    Seq<(Seq<char>, Seq<char>)>,
    MyErrorView,
> {
    match data.get("Z2K3"@) {
        None => Err(
            MyErrorView::SchemaError(
                "wikifunction response is not a Persistent Object, no Z2K3 key "@,
            ),
        ),
        Some(holder) => multilingual_labels(
            holder,
            "no Z12K1 (Multilingual Text) key in Persistent Object"@,
            false,
        ),
    }
}

/// Whether a member at or after `i` is the string `s`.
pub open spec fn some_member_is(members: Seq<(Seq<char>, JsonView)>, s: Seq<char>, i: int) -> bool
    decreases members.len() - i,
{
    0 <= i < members.len() && (members[i].1 == JsonView::String(s) || some_member_is(
        members,
        s,
        i + 1,
    ))
}

/// Whether a value names the key `s`: it is the string `s`, or an object
/// with a member that is.
pub open spec fn names_key(v: JsonView, s: Seq<char>) -> bool {
    match v {
        JsonView::String(t) => t == s,
        JsonView::Object(members) => some_member_is(members, s, 0),
        _ => false,
    }
}

/// Whether the value of a member at or after `i` names the key `s`.
pub open spec fn some_member_names(members: Seq<(Seq<char>, JsonView)>, s: Seq<char>, i: int) -> bool
    decreases members.len() - i,
{
    0 <= i < members.len() && (names_key(members[i].1, s) || some_member_names(members, s, i + 1))
}

/// Whether a value is the entry of the key `s`: an object with a member
/// whose value names `s`.
pub open spec fn is_entry_of(v: JsonView, s: Seq<char>) -> bool {
    v matches JsonView::Object(members) && some_member_names(members, s, 0)
}

/// Where the first item at or after `i` stands that is the entry of the key
/// `s`; the number of items where there is none.
pub open spec fn first_entry(items: Seq<JsonView>, s: Seq<char>, i: int) -> int
    decreases items.len() - i,
{
    if i < 0 || i >= items.len() {
        items.len() as int
    } else if is_entry_of(items[i], s) {
        i
    } else {
        first_entry(items, s, i + 1)
    }
}

/// The entry of the key `s` in a value of the object: the value is an array
/// whose second item is an object, and the entry is the first item that is
/// one of `s`.
pub open spec fn entry_in(v: JsonView, s: Seq<char>) -> Option<JsonView> {
    match v {
        JsonView::Array(items) => if items.len() > 1 && items[1] is Object && first_entry(
            items,
            s,
            0,
        ) < items.len() {
            Some(items[first_entry(items, s, 0)])
        } else {
            None
        },
        _ => None,
    }
}

/// The entry of the key `s` in the first member at or after `i` that has one.
pub open spec fn entry_from(members: Seq<(Seq<char>, JsonView)>, s: Seq<char>, i: int) -> Option<
    JsonView,
>
    decreases members.len() - i,
{
    if i < 0 || i >= members.len() {
        None
    } else {
        match entry_in(members[i].1, s) {
            Some(e) => Some(e),
            None => entry_from(members, s, i + 1),
        }
    }
}

/// Whether a value is a multilingual text: an object whose `Z1K1` is `Z12`.
pub open spec fn is_multilingual(v: JsonView) -> bool {
    v is Object && v.get("Z1K1"@) == Some(JsonView::String("Z12"@))
}

/// The first member at or after `i` whose value is a multilingual text.
pub open spec fn holder_from(members: Seq<(Seq<char>, JsonView)>, i: int) -> Option<JsonView>
    decreases members.len() - i,
{
    if i < 0 || i >= members.len() {
        None
    } else if is_multilingual(members[i].1) {
        Some(members[i].1)
    } else {
        holder_from(members, i + 1)
    }
}

/// The message of the error for an object that has no entry for the key.
pub open spec fn no_entry() -> Seq<char> {
    "no entry for the key in Z2K2"@
}

/// The message of the error for an entry that holds no multilingual text.
pub open spec fn no_holder() -> Seq<char> {
    "no Z12 (Multilingual Text) in the entry of the key"@
}

/// The labels of the key `s` in the data of the object that it belongs to:
/// among the members of the object under `Z2K2`, the first has the entry of
/// `s` that is an array of objects, one of which names `s`; the labels are
/// those of the first multilingual text in that entry, each between single
/// quotes.
pub open spec fn key_labels(data: JsonView, s: Seq<char>) -> Result<
    Seq<(Seq<char>, Seq<char>)>,
    MyErrorView,
> {
    match data.get("Z2K2"@) {
        None => Err(
            MyErrorView::SchemaError(
                "wikifunction response is not a Persistent Object, no Z2K2 key "@,
            ),
        ),
        Some(JsonView::Object(members)) => match entry_from(members, s, 0) {
            None => Err(MyErrorView::SchemaError(no_entry())),
            Some(JsonView::Object(entry)) => match holder_from(entry, 0) {
                None => Err(MyErrorView::SchemaError(no_holder())),
                Some(holder) => multilingual_labels(
                    holder,
                    "no \"Z12K1\" key in wikifunction response"@,
                    true,
                ),
            },
            Some(_) => Err(MyErrorView::SchemaError(no_holder())),
        },
        Some(_) => Err(MyErrorView::SchemaError("value of Z2K2 is not object"@)),
    }
}

fn label_pair_of(item: &Json, quoted: bool) -> (r: Result<(String, String), MyError>)
    ensures
        pair_view(r) == label_pair(item@, quoted),
{
    match item.get("Z11K1") {
        None => Err(schema_error("no key Z11K1 in item of Z12K1")),
        Some(first) => match first {
            Json::String(lang) => match item.get("Z11K2") {
                None => Err(schema_error("no key Z11K1 in item of Z12K1")),
                Some(second) => match second {
                    Json::String(text) => {
                        if quoted {
                            let mut label = String::from_str("'");
                            label.append(text.as_str());
                            label.append("'");
                            Ok((lang.clone(), label))
                        } else {
                            Ok((lang.clone(), text.clone()))
                        }
                    },
                    _ => Err(schema_error("value of Z11K2 not a str")),
                },
            },
            _ => Err(schema_error("value of Z11K1 not a str")),
        },
    }
}

#[verifier::loop_isolation(false)]
fn multilingual_labels_of(holder: &Json, missing: &str, quoted: bool) -> (r: Result<
    Vec<(String, String)>,
    MyError,
>)
    ensures
        pairs_view(r) == multilingual_labels(holder@, missing@, quoted),
{
    match holder.get("Z12K1") {
        None => Err(schema_error(missing)),
        Some(list) => match list {
            Json::Array(items) => {
                let ghost iv = json_items_view(items@);
                let mut out: Vec<(String, String)> = Vec::new();
                let mut i: usize = 1;
                assert(labels_view(out@) =~= Seq::empty());
                while i < items.len()
                    invariant
                        1 <= i,
                        iv == json_items_view(items@),
                        label_pairs(iv, if i <= items.len() { i as int } else { items.len() as int }, quoted) == Ok::<
                            Seq<(Seq<char>, Seq<char>)>,
                            MyErrorView,
                        >(labels_view(out@)),
                    decreases items.len() - i,
                {
                    match label_pair_of(&items[i], quoted) {
                        Err(e) => {
                            proof {
                                lemma_label_pairs_fail(iv, i as int + 1, items.len() as int, quoted);
                            }
                            return Err(e);
                        },
                        Ok(pair) => {
                            let ghost before = labels_view(out@);
                            out.push(pair);
                            assert(labels_view(out@) =~= before.push((pair.0@, pair.1@)));
                        },
                    }
                    i += 1;
                }
                Ok(out)
            },
            _ => Err(schema_error("Z12K1 is not an array")),
        },
    }
}

/// An error among the first `n` items stays the outcome for any more items.
pub proof fn lemma_label_pairs_fail(items: Seq<JsonView>, n: int, m: int, quoted: bool)
    requires
        n <= m,
        label_pairs(items, n, quoted) is Err,
    ensures
        label_pairs(items, m, quoted) == label_pairs(items, n, quoted),
    decreases m - n,
{
    if n < m {
        lemma_label_pairs_fail(items, n, m - 1, quoted);
    }
}

fn member_is(members: &Vec<(String, Json)>, s: &str) -> (r: bool)
    ensures
        r == some_member_is(json_members_view(members@), s@, 0),
{
    let ghost mv = json_members_view(members@);
    let mut i: usize = 0;
    while i < members.len()
        invariant
            i <= members.len(),
            mv == json_members_view(members@),
            some_member_is(mv, s@, 0) == some_member_is(mv, s@, i as int),
        decreases members.len() - i,
    {
        match &members[i].1 {
            Json::String(t) => {
                if text_matches(t.as_str(), s) {
                    return true;
                }
            },
            _ => {},
        }
        i += 1;
    }
    false
}

fn value_names_key(v: &Json, s: &str) -> (r: bool)
    ensures
        r == names_key(v@, s@),
{
    match v {
        Json::String(t) => text_matches(t.as_str(), s),
        Json::Object(members) => member_is(members, s),
        _ => false,
    }
}

fn value_is_entry_of(v: &Json, s: &str) -> (r: bool)
    ensures
        r == is_entry_of(v@, s@),
{
    match v {
        Json::Object(members) => {
            let ghost mv = json_members_view(members@);
            let mut i: usize = 0;
            while i < members.len()
                invariant
                    i <= members.len(),
                    mv == json_members_view(members@),
                    v@ == JsonView::Object(mv),
                    some_member_names(mv, s@, 0) == some_member_names(mv, s@, i as int),
                decreases members.len() - i,
            {
                if value_names_key(&members[i].1, s) {
                    return true;
                }
                i += 1;
            }
            false
        },
        _ => false,
    }
}

fn find_entry_in<'a>(v: &'a Json, s: &str) -> (r: Option<&'a Json>)
    ensures
        match r {
            Some(e) => entry_in(v@, s@) == Some(e@),
            None => entry_in(v@, s@) is None,
        },
{
    match v {
        Json::Array(items) => {
            let ghost iv = json_items_view(items@);
            assert(v@ == JsonView::Array(iv));
            if items.len() <= 1 {
                return None;
            }
            assert(iv[1] == items[1]@);
            match &items[1] {
                Json::Object(_) => {},
                _ => {
                    return None;
                },
            }
            let mut i: usize = 0;
            while i < items.len()
                invariant
                    i <= items.len(),
                    iv == json_items_view(items@),
                    v@ == JsonView::Array(iv),
                    iv.len() > 1 && iv[1] is Object,
                    first_entry(iv, s@, 0) == first_entry(iv, s@, i as int),
                decreases items.len() - i,
            {
                if value_is_entry_of(&items[i], s) {
                    return Some(&items[i]);
                }
                i += 1;
            }
            None
        },
        _ => None,
    }
}

fn find_entry<'a>(members: &'a Vec<(String, Json)>, s: &str) -> (r: Option<&'a Json>)
    ensures
        match r {
            Some(e) => entry_from(json_members_view(members@), s@, 0) == Some(e@),
            None => entry_from(json_members_view(members@), s@, 0) is None,
        },
{
    let ghost mv = json_members_view(members@);
    let mut i: usize = 0;
    while i < members.len()
        invariant
            i <= members.len(),
            mv == json_members_view(members@),
            entry_from(mv, s@, 0) == entry_from(mv, s@, i as int),
        decreases members.len() - i,
    {
        match find_entry_in(&members[i].1, s) {
            Some(e) => {
                return Some(e);
            },
            None => {},
        }
        i += 1;
    }
    None
}

fn value_is_multilingual(v: &Json) -> (r: bool)
    ensures
        r == is_multilingual(v@),
{
    match v {
        Json::Object(_) => match v.get("Z1K1") {
            Some(t) => match t {
                Json::String(name) => text_matches(name.as_str(), "Z12"),
                _ => false,
            },
            None => false,
        },
        _ => false,
    }
}

fn find_holder<'a>(members: &'a Vec<(String, Json)>) -> (r: Option<&'a Json>)
    ensures
        match r {
            Some(h) => holder_from(json_members_view(members@), 0) == Some(h@),
            None => holder_from(json_members_view(members@), 0) is None,
        },
{
    let ghost mv = json_members_view(members@);
    let mut i: usize = 0;
    while i < members.len()
        invariant
            i <= members.len(),
            mv == json_members_view(members@),
            holder_from(mv, 0) == holder_from(mv, i as int),
        decreases members.len() - i,
    {
        if value_is_multilingual(&members[i].1) {
            return Some(&members[i].1);
        }
        i += 1;
    }
    None
}

/// The labels of a persistent object, from its data.
pub fn persistent_labels_of(data: &Json) -> (r: Result<Vec<(String, String)>, MyError>)
    ensures
        pairs_view(r) == persistent_labels(data@),
{
    match data.get("Z2K3") {
        None => Err(
            schema_error("wikifunction response is not a Persistent Object, no Z2K3 key "),
        ),
        Some(holder) => multilingual_labels_of(
            holder,
            "no Z12K1 (Multilingual Text) key in Persistent Object",
            false,
        ),
    }
}

/// The labels of the key `s`, from the data of the object that it belongs to.
pub fn key_labels_of(data: &Json, s: &str) -> (r: Result<Vec<(String, String)>, MyError>)
    ensures
        pairs_view(r) == key_labels(data@, s@),
{
    match data.get("Z2K2") {
        None => Err(
            schema_error("wikifunction response is not a Persistent Object, no Z2K2 key "),
        ),
        Some(value) => match value {
            Json::Object(members) => match find_entry(members, s) {
                None => Err(schema_error("no entry for the key in Z2K2")),
                Some(found) => match found {
                    Json::Object(entry) => match find_holder(entry) {
                        None => Err(
                            schema_error("no Z12 (Multilingual Text) in the entry of the key"),
                        ),
                        Some(holder) => multilingual_labels_of(
                            holder,
                            "no \"Z12K1\" key in wikifunction response",
                            true,
                        ),
                    },
                    _ => Err(schema_error("no Z12 (Multilingual Text) in the entry of the key")),
                },
            },
            _ => Err(schema_error("value of Z2K2 is not object")),
        },
    }
}

// ---- labelling ----

/// What labelling a string ended in.
pub open spec fn string_outcome(r: Result<StringType, MyError>) -> Result<
    StringTypeView,
    MyErrorView,
> {
    match r {
        Ok(s) => Ok(s@),
        Err(e) => Err(e@),
    }
}

/// The node for the identifier `s` with `labels`, or the error that the
/// search for the labels ended in.
pub open spec fn node_of(
    labels: Result<Seq<(Seq<char>, Seq<char>)>, MyErrorView>,
    s: Seq<char>,
) -> Result<StringTypeView, MyErrorView> {
    match labels {
        Ok(pairs) => Ok(
            StringTypeView::LabelledNode(
                LabelledNodeView { readable_labels: gather(pairs), z_label: s },
            ),
        ),
        Err(e) => Err(e),
    }
}

/// The string `s` with its labels. The identifier of a persistent object
/// gets the labels of that object; the identifier of a global key gets the
/// labels that the object before its `K` has for it; any other string stays
/// as it is.
pub open spec fn labelled_string(
    s: Seq<char>,
    answers: Seq<(Seq<char>, Result<JsonView, MyErrorView>)>,
) -> Result<StringTypeView, MyErrorView> {
    match id_kind(s) {
        IdKind::Persistent => match fetched(answers, s) {
            Err(e) => Err(e),
            Ok(data) => node_of(persistent_labels(data), s),
        },
        IdKind::GlobalKey => match fetched(answers, owner(s)) {
            Err(e) => Err(e),
            Ok(data) => node_of(key_labels(data, s), s),
        },
        IdKind::Plain => Ok(StringTypeView::String(s)),
    }
}

/// As `labelled_string`, with the plain string in place of any error. The
/// empty string is looked at no further.
pub open spec fn resolved(
    s: Seq<char>,
    answers: Seq<(Seq<char>, Result<JsonView, MyErrorView>)>,
) -> StringTypeView {
    if s.len() == 0 {
        StringTypeView::String(s)
    } else {
        match labelled_string(s, answers) {
            Ok(x) => x,
            Err(_) => StringTypeView::String(s),
        }
    }
}

/// Each item labelled.
pub open spec fn labelled_items(
    items: Seq<JsonView>,
    answers: Seq<(Seq<char>, Result<JsonView, MyErrorView>)>,
) -> Seq<SimpleValueView>
    decreases items,
{
    Seq::new(
        items.len(),
        |i: int|
            if 0 <= i < items.len() {
                labelled(items[i], answers)
            } else {
                arbitrary()
            },
    )
}

/// Each member with its key resolved and its value labelled.
pub open spec fn labelled_fields(
    members: Seq<(Seq<char>, JsonView)>,
    answers: Seq<(Seq<char>, Result<JsonView, MyErrorView>)>,
) -> Seq<(StringTypeView, SimpleValueView)>
    decreases members,
{
    Seq::new(
        members.len(),
        |i: int|
            if 0 <= i < members.len() {
                (resolved(members[i].0, answers), labelled(members[i].1, answers))
            } else {
                arbitrary()
            },
    )
}

/// The document with every string and every key resolved; the fields of an
/// object as a set.
pub open spec fn labelled(
    v: JsonView,
    answers: Seq<(Seq<char>, Result<JsonView, MyErrorView>)>,
) -> SimpleValueView
    decreases v,
{
    match v {
        JsonView::String(s) => SimpleValueView::StringType(resolved(s, answers)),
        JsonView::Array(items) => SimpleValueView::Array(labelled_items(items, answers)),
        JsonView::Object(members) => SimpleValueView::Object(
            collect(labelled_fields(members, answers)),
        ),
        _ => SimpleValueView::Array(Seq::empty()),
    }
}

/// Whether a document can be labelled: it holds strings, arrays and objects
/// only.
pub open spec fn supported(v: JsonView) -> bool
    decreases v,
{
    match v {
        JsonView::String(_) => true,
        JsonView::Array(items) => forall|i: int| 0 <= i < items.len() ==> supported(#[trigger] items[i]),
        JsonView::Object(members) => forall|i: int|
            0 <= i < members.len() ==> supported((#[trigger] members[i]).1),
        _ => false,
    }
}

fn node_from(labels: Result<Vec<(String, String)>, MyError>, s: String) -> (r: Result<
    StringType,
    MyError,
>)
    ensures
        string_outcome(r) == node_of(pairs_view(labels), s@),
{
    match labels {
        Ok(pairs) => Ok(StringType::LabelledNode(LabelledNode::from(pairs, s))),
        Err(e) => Err(e),
    }
}

/// The string `s` with its labels, or why it has none.
pub fn _labelize(s: String, upstream: &Upstream) -> (r: Result<StringType, MyError>)
    ensures
        string_outcome(r) == labelled_string(s@, upstream@),
        id_kind(s@) == IdKind::Plain ==> string_outcome(r) == Ok::<StringTypeView, MyErrorView>(
            StringTypeView::String(s@),
        ),
{
    match IdKind::of(s.as_str()) {
        IdKind::Persistent => match upstream.fetch(s.as_str()) {
            Err(e) => Err(e),
            Ok(data) => node_from(persistent_labels_of(&data), s),
        },
        IdKind::GlobalKey => {
            let z_number = owner_of(s.as_str());
            match upstream.fetch(z_number.as_str()) {
                Err(e) => Err(e),
                Ok(data) => node_from(key_labels_of(&data, s.as_str()), s),
            }
        },
        IdKind::Plain => Ok(StringType::String(s)),
    }
}

/// The string `s` with its labels; the plain string where it has none, for
/// whatever reason.
pub fn _labelize_wrapped(s: String, upstream: &Upstream) -> (r: StringType)
    ensures
        r@ == resolved(s@, upstream@),
        s@.len() == 0 || id_kind(s@) == IdKind::Plain ==> r@ == StringTypeView::String(s@),
        r@.wf(),
{
    proof {
        lemma_resolved_wf(s@, upstream@);
    }
    if s.as_str().is_empty() {
        return StringType::String(s);
    }
    match _labelize(s.clone(), upstream) {
        Ok(out) => out,
        Err(_) => StringType::String(s),
    }
}

#[verifier::loop_isolation(false)]
fn try_labelize(v: &Json, upstream: &Upstream) -> (r: Option<SimpleValue>)
    ensures
        r is Some <==> supported(v@),
        r is Some ==> r.unwrap()@ == labelled(v@, upstream@),
    decreases v,
{
    match v {
        Json::String(s) => Some(SimpleValue::StringType(_labelize_wrapped(s.clone(), upstream))),
        Json::Array(items) => {
            let ghost iv = json_items_view(items@);
            let mut out: Vec<SimpleValue> = Vec::new();
            let mut i: usize = 0;
            while i < items.len()
                invariant
                    i <= items.len(),
                    out.len() == i,
                    forall|j: int| 0 <= j < i ==> (#[trigger] out[j])@ == labelled(iv[j], upstream@),
                    forall|j: int| 0 <= j < i ==> supported(#[trigger] iv[j]),
                decreases items.len() - i,
            {
                match try_labelize(&items[i], upstream) {
                    None => {
                        assert(!supported(iv[i as int]));
                        return None;
                    },
                    Some(x) => {
                        out.push(x);
                    },
                }
                i += 1;
            }
            assert(simple_items_view(out@) =~= labelled_items(iv, upstream@));
            Some(SimpleValue::Array(out))
        },
        Json::Object(members) => {
            let ghost mv = json_members_view(members@);
            let ghost m = labelled_fields(mv, upstream@);
            let mut out: Vec<(StringType, SimpleValue)> = Vec::new();
            let mut i: usize = 0;
            assert(simple_fields_view(out@) =~= collect(m.take(0)));
            while i < members.len()
                invariant
                    i <= members.len(),
                    simple_fields_view(out@) == collect(m.take(i as int)),
                    forall|j: int| 0 <= j < i ==> supported((#[trigger] mv[j]).1),
                decreases members.len() - i,
            {
                proof {
                    assert(m.take(i + 1).drop_last() =~= m.take(i as int));
                    assert(m.take(i + 1).last() == m[i as int]);
                }
                let key = _labelize_wrapped(members[i].0.clone(), upstream);
                match try_labelize(&members[i].1, upstream) {
                    None => {
                        assert(!supported(mv[i as int].1));
                        return None;
                    },
                    Some(value) => {
                        insert_simple_field(&mut out, (key, value));
                    },
                }
                i += 1;
            }
            assert(m.take(members.len() as int) =~= m);
            Some(SimpleValue::Object(out))
        },
        _ => None,
    }
}

/// The document with every string and every key of an object labelled.
pub fn labelize(v: Json, upstream: &Upstream) -> (r: SimpleValue)
    requires
        supported(v@),
    ensures
        r@ == labelled(v@, upstream@),
        r@.wf(),
{
    proof {
        lemma_labelled_wf(v@, upstream@);
    }
    match try_labelize(&v, upstream) {
        Some(r) => r,
        None => unreached(),
    }
}

/// As `labelize`, for any document: nothing where it holds a null, a
/// boolean or a number.
pub fn checked_labelize(v: &Json, upstream: &Upstream) -> (r: Option<SimpleValue>)
    ensures
        r is Some <==> supported(v@),
        r is Some ==> r.unwrap()@ == labelled(v@, upstream@) && r.unwrap()@.wf(),
{
    proof {
        lemma_labelled_wf(v@, upstream@);
    }
    try_labelize(v, upstream)
}

// ---- which objects to fetch ----

/// The object whose data the string `s` is labelled from, if any.
pub open spec fn wanted(s: Seq<char>) -> Option<Seq<char>> {
    if s.len() == 0 {
        None
    } else {
        match id_kind(s) {
            IdKind::Persistent => Some(s),
            IdKind::GlobalKey => Some(owner(s)),
            IdKind::Plain => None,
        }
    }
}

/// The list with `z` at its end, unless it is there already.
pub open spec fn noted(list: Seq<Seq<char>>, z: Option<Seq<char>>) -> Seq<Seq<char>> {
    match z {
        Some(x) => if list.contains(x) {
            list
        } else {
            list.push(x)
        },
        None => list,
    }
}

/// The list with the objects that the first `n` items are labelled from.
pub open spec fn plan_items(items: Seq<JsonView>, n: int, list: Seq<Seq<char>>) -> Seq<Seq<char>>
    decreases items, n,
{
    if n <= 0 || n > items.len() {
        list
    } else {
        plan(items[n - 1], plan_items(items, n - 1, list))
    }
}

/// The list with the objects that the first `n` members are labelled from,
/// each key before its value.
pub open spec fn plan_members(members: Seq<(Seq<char>, JsonView)>, n: int, list: Seq<Seq<char>>) -> Seq<
    Seq<char>,
>
    decreases members, n,
{
    if n <= 0 || n > members.len() {
        list
    } else {
        plan(
            members[n - 1].1,
            noted(plan_members(members, n - 1, list), wanted(members[n - 1].0)),
        )
    }
}

/// The list with the objects that the document is labelled from, each once,
/// in the order in which the document first needs them.
pub open spec fn plan(v: JsonView, list: Seq<Seq<char>>) -> Seq<Seq<char>>
    decreases v, 0int,
{
    match v {
        JsonView::String(s) => noted(list, wanted(s)),
        JsonView::Array(items) => plan_items(items, items.len() as int, list),
        JsonView::Object(members) => plan_members(members, members.len() as int, list),
        _ => list,
    }
}

#[verifier::loop_isolation(false)]
fn note_wanted(list: &mut Vec<String>, s: &str)
    ensures
        final(list).deep_view() == noted(old(list).deep_view(), wanted(s@)),
{
    if s.is_empty() {
        return ;
    }
    let z = match IdKind::of(s) {
        IdKind::Persistent => String::from_str(s),
        IdKind::GlobalKey => owner_of(s),
        IdKind::Plain => {
            return ;
        },
    };
    let ghost before = list.deep_view();
    let mut i: usize = 0;
    while i < list.len()
        invariant
            i <= list.len(),
            *list == *old(list),
            before == list.deep_view(),
            forall|j: int| 0 <= j < i ==> before[j] != z@,
        decreases list.len() - i,
    {
        assert(before[i as int] == list[i as int]@);
        if text_matches(list[i].as_str(), z.as_str()) {
            assert(before.contains(z@));
            return ;
        }
        i += 1;
    }
    list.push(z);
    assert(list.deep_view() =~= before.push(z@));
}

#[verifier::loop_isolation(false)]
fn plan_into(list: &mut Vec<String>, v: &Json)
    ensures
        final(list).deep_view() == plan(v@, old(list).deep_view()),
    decreases v,
{
    let ghost start = list.deep_view();
    match v {
        Json::String(s) => {
            note_wanted(list, s.as_str());
        },
        Json::Array(items) => {
            let ghost iv = json_items_view(items@);
            let mut i: usize = 0;
            while i < items.len()
                invariant
                    i <= items.len(),
                    list.deep_view() == plan_items(iv, i as int, start),
                decreases items.len() - i,
            {
                plan_into(list, &items[i]);
                i += 1;
            }
        },
        Json::Object(members) => {
            let ghost mv = json_members_view(members@);
            let mut i: usize = 0;
            while i < members.len()
                invariant
                    i <= members.len(),
                    list.deep_view() == plan_members(mv, i as int, start),
                decreases members.len() - i,
            {
                note_wanted(list, members[i].0.as_str());
                plan_into(list, &members[i].1);
                i += 1;
            }
        },
        _ => {},
    }
}

/// The objects to fetch before the document can be labelled, each once.
pub fn fetch_plan(v: &Json) -> (r: Vec<String>)
    ensures
        r.deep_view() == plan(v@, Seq::empty()),
        r.deep_view().no_duplicates(),
{
    proof {
        lemma_plan_distinct(v@);
    }
    let mut list: Vec<String> = Vec::new();
    assert(list.deep_view() =~= Seq::empty());
    plan_into(&mut list, v);
    list
}

// ---- documents without identifiers ----

/// Whether no string and no key of the document is an identifier.
pub open spec fn holds_no_identifier(v: JsonView) -> bool
    decreases v,
{
    match v {
        JsonView::String(s) => wanted(s) is None,
        JsonView::Array(items) => forall|i: int|
            0 <= i < items.len() ==> holds_no_identifier(#[trigger] items[i]),
        JsonView::Object(members) => forall|i: int|
            0 <= i < members.len() ==> wanted((#[trigger] members[i]).0) is None
                && holds_no_identifier(members[i].1),
        _ => true,
    }
}

/// Each item with its strings as they are.
pub open spec fn unlabelled_items(items: Seq<JsonView>) -> Seq<SimpleValueView>
    decreases items,
{
    Seq::new(
        items.len(),
        |i: int|
            if 0 <= i < items.len() {
                unlabelled(items[i])
            } else {
                arbitrary()
            },
    )
}

/// Each member with its key and the strings of its value as they are.
pub open spec fn unlabelled_fields(members: Seq<(Seq<char>, JsonView)>) -> Seq<
    (StringTypeView, SimpleValueView),
>
    decreases members,
{
    Seq::new(
        members.len(),
        |i: int|
            if 0 <= i < members.len() {
                (StringTypeView::String(members[i].0), unlabelled(members[i].1))
            } else {
                arbitrary()
            },
    )
}

/// The document with every string and key as a plain string.
pub open spec fn unlabelled(v: JsonView) -> SimpleValueView
    decreases v,
{
    match v {
        JsonView::String(s) => SimpleValueView::StringType(StringTypeView::String(s)),
        JsonView::Array(items) => SimpleValueView::Array(unlabelled_items(items)),
        JsonView::Object(members) => SimpleValueView::Object(collect(unlabelled_fields(members))),
        _ => SimpleValueView::Array(Seq::empty()),
    }
}

/// Labelling a document that holds no identifier leaves every string and
/// every key as it is, whatever the wiki answered.
pub proof fn lemma_labelize_without_identifiers(
    v: JsonView,
    answers: Seq<(Seq<char>, Result<JsonView, MyErrorView>)>,
)
    requires
        holds_no_identifier(v),
    ensures
        labelled(v, answers) == unlabelled(v),
    decreases v,
{
    match v {
        JsonView::Array(items) => {
            assert forall|i: int| 0 <= i < items.len() implies labelled_items(items, answers)[i]
                == #[trigger] unlabelled_items(items)[i] by {
                lemma_labelize_without_identifiers(items[i], answers);
            }
            assert(labelled_items(items, answers) =~= unlabelled_items(items));
        },
        JsonView::Object(members) => {
            assert forall|i: int| 0 <= i < members.len() implies labelled_fields(members, answers)[i]
                == #[trigger] unlabelled_fields(members)[i] by {
                assert(wanted(members[i].0) is None);
                lemma_labelize_without_identifiers(members[i].1, answers);
            }
            assert(labelled_fields(members, answers) =~= unlabelled_fields(members));
        },
        _ => {},
    }
}

// ---- what the plan is good for ----

/// Whether every item of `a` is an item of `b`.
pub open spec fn within(a: Seq<Seq<char>>, b: Seq<Seq<char>>) -> bool {
    forall|z: Seq<char>| #[trigger] a.contains(z) ==> b.contains(z)
}

/// Whether the list has the object `z`, if there is one.
pub open spec fn lists(list: Seq<Seq<char>>, z: Option<Seq<char>>) -> bool {
    z matches Some(x) ==> list.contains(x)
}

/// Whether the list has every object that the document is labelled from.
pub open spec fn covers(list: Seq<Seq<char>>, v: JsonView) -> bool
    decreases v,
{
    match v {
        JsonView::String(s) => lists(list, wanted(s)),
        JsonView::Array(items) => forall|i: int|
            0 <= i < items.len() ==> covers(list, #[trigger] items[i]),
        JsonView::Object(members) => forall|i: int|
            0 <= i < members.len() ==> lists(list, wanted((#[trigger] members[i]).0)) && covers(
                list,
                members[i].1,
            ),
        _ => true,
    }
}

/// Whether two sets of answers have the same for every object of the list.
pub open spec fn agree_on(
    list: Seq<Seq<char>>,
    a: Seq<(Seq<char>, Result<JsonView, MyErrorView>)>,
    b: Seq<(Seq<char>, Result<JsonView, MyErrorView>)>,
) -> bool {
    forall|z: Seq<char>| #[trigger] list.contains(z) ==> fetched(a, z) == fetched(b, z)
}

proof fn lemma_noted(list: Seq<Seq<char>>, z: Option<Seq<char>>)
    ensures
        within(list, noted(list, z)),
        lists(noted(list, z), z),
        list.no_duplicates() ==> noted(list, z).no_duplicates(),
{
    match z {
        Some(x) => {
            if !list.contains(x) {
                let after = list.push(x);
                assert(after[list.len() as int] == x);
                assert forall|y: Seq<char>| #[trigger] list.contains(y) implies after.contains(y) by {
                    let i = choose|i: int| 0 <= i < list.len() && list[i] == y;
                    assert(after[i] == y);
                }
                if list.no_duplicates() {
                    assert forall|i: int, j: int|
                        0 <= i < after.len() && 0 <= j < after.len() && i != j implies after[i]
                        != after[j] by {
                        if i == list.len() {
                            assert(list.contains(after[j]) ==> after[j] != x);
                            assert(list[j] == after[j]);
                        } else if j == list.len() {
                            assert(list[i] == after[i]);
                        }
                    }
                }
            }
        },
        None => {},
    }
}

proof fn lemma_plan_items_grows(items: Seq<JsonView>, n: int, list: Seq<Seq<char>>)
    ensures
        within(list, plan_items(items, n, list)),
        list.no_duplicates() ==> plan_items(items, n, list).no_duplicates(),
    decreases items, n,
{
    if 0 < n <= items.len() {
        lemma_plan_items_grows(items, n - 1, list);
        lemma_plan_grows(items[n - 1], plan_items(items, n - 1, list));
    }
}

proof fn lemma_plan_members_grows(members: Seq<(Seq<char>, JsonView)>, n: int, list: Seq<Seq<char>>)
    ensures
        within(list, plan_members(members, n, list)),
        list.no_duplicates() ==> plan_members(members, n, list).no_duplicates(),
    decreases members, n,
{
    if 0 < n <= members.len() {
        let before = plan_members(members, n - 1, list);
        lemma_plan_members_grows(members, n - 1, list);
        lemma_noted(before, wanted(members[n - 1].0));
        lemma_plan_grows(members[n - 1].1, noted(before, wanted(members[n - 1].0)));
    }
}

/// The plan keeps what the list had, and names nothing twice.
pub proof fn lemma_plan_grows(v: JsonView, list: Seq<Seq<char>>)
    ensures
        within(list, plan(v, list)),
        list.no_duplicates() ==> plan(v, list).no_duplicates(),
    decreases v, 0int,
{
    match v {
        JsonView::String(s) => {
            lemma_noted(list, wanted(s));
        },
        JsonView::Array(items) => {
            lemma_plan_items_grows(items, items.len() as int, list);
        },
        JsonView::Object(members) => {
            lemma_plan_members_grows(members, members.len() as int, list);
        },
        _ => {},
    }
}

/// A list that has all of a list that covers a document covers it too.
pub proof fn lemma_covers_more(a: Seq<Seq<char>>, b: Seq<Seq<char>>, v: JsonView)
    requires
        covers(a, v),
        within(a, b),
    ensures
        covers(b, v),
    decreases v,
{
    match v {
        JsonView::Array(items) => {
            assert forall|i: int| 0 <= i < items.len() implies covers(b, #[trigger] items[i]) by {
                lemma_covers_more(a, b, items[i]);
            }
        },
        JsonView::Object(members) => {
            assert forall|i: int| 0 <= i < members.len() implies lists(
                b,
                wanted((#[trigger] members[i]).0),
            ) && covers(b, members[i].1) by {
                assert(lists(a, wanted(members[i].0)));
                lemma_covers_more(a, b, members[i].1);
            }
        },
        _ => {},
    }
}

proof fn lemma_plan_items_covers(items: Seq<JsonView>, n: int, list: Seq<Seq<char>>)
    requires
        0 <= n <= items.len(),
    ensures
        forall|i: int| 0 <= i < n ==> covers(plan_items(items, n, list), #[trigger] items[i]),
    decreases items, n,
{
    if n > 0 {
        let before = plan_items(items, n - 1, list);
        let after = plan_items(items, n, list);
        lemma_plan_items_covers(items, n - 1, list);
        lemma_plan_covers(items[n - 1], before);
        lemma_plan_grows(items[n - 1], before);
        assert forall|i: int| 0 <= i < n implies covers(after, #[trigger] items[i]) by {
            if i < n - 1 {
                lemma_covers_more(before, after, items[i]);
            }
        }
    }
}

proof fn lemma_plan_members_covers(members: Seq<(Seq<char>, JsonView)>, n: int, list: Seq<Seq<char>>)
    requires
        0 <= n <= members.len(),
    ensures
        forall|i: int|
            0 <= i < n ==> lists(plan_members(members, n, list), wanted((#[trigger] members[i]).0))
                && covers(plan_members(members, n, list), members[i].1),
    decreases members, n,
{
    if n > 0 {
        let before = plan_members(members, n - 1, list);
        let with_key = noted(before, wanted(members[n - 1].0));
        let after = plan_members(members, n, list);
        lemma_plan_members_covers(members, n - 1, list);
        lemma_noted(before, wanted(members[n - 1].0));
        lemma_plan_covers(members[n - 1].1, with_key);
        lemma_plan_grows(members[n - 1].1, with_key);
        assert(within(before, after));
        assert forall|i: int| 0 <= i < n implies lists(after, wanted((#[trigger] members[i]).0))
            && covers(after, members[i].1) by {
            if i < n - 1 {
                assert(lists(before, wanted(members[i].0)));
                lemma_covers_more(before, after, members[i].1);
            }
        }
    }
}

/// The plan has every object that the document is labelled from.
pub proof fn lemma_plan_covers(v: JsonView, list: Seq<Seq<char>>)
    ensures
        covers(plan(v, list), v),
    decreases v, 0int,
{
    match v {
        JsonView::String(s) => {
            lemma_noted(list, wanted(s));
        },
        JsonView::Array(items) => {
            lemma_plan_items_covers(items, items.len() as int, list);
        },
        JsonView::Object(members) => {
            lemma_plan_members_covers(members, members.len() as int, list);
        },
        _ => {},
    }
}

proof fn lemma_resolved_same(
    s: Seq<char>,
    list: Seq<Seq<char>>,
    a: Seq<(Seq<char>, Result<JsonView, MyErrorView>)>,
    b: Seq<(Seq<char>, Result<JsonView, MyErrorView>)>,
)
    requires
        lists(list, wanted(s)),
        agree_on(list, a, b),
    ensures
        resolved(s, a) == resolved(s, b),
{
    match wanted(s) {
        Some(z) => {
            assert(list.contains(z));
        },
        None => {},
    }
}

proof fn lemma_labelled_same(
    v: JsonView,
    list: Seq<Seq<char>>,
    a: Seq<(Seq<char>, Result<JsonView, MyErrorView>)>,
    b: Seq<(Seq<char>, Result<JsonView, MyErrorView>)>,
)
    requires
        covers(list, v),
        agree_on(list, a, b),
    ensures
        labelled(v, a) == labelled(v, b),
    decreases v,
{
    match v {
        JsonView::String(s) => {
            lemma_resolved_same(s, list, a, b);
        },
        JsonView::Array(items) => {
            assert forall|i: int| 0 <= i < items.len() implies labelled_items(items, a)[i]
                == #[trigger] labelled_items(items, b)[i] by {
                lemma_labelled_same(items[i], list, a, b);
            }
            assert(labelled_items(items, a) =~= labelled_items(items, b));
        },
        JsonView::Object(members) => {
            assert forall|i: int| 0 <= i < members.len() implies labelled_fields(members, a)[i]
                == #[trigger] labelled_fields(members, b)[i] by {
                assert(lists(list, wanted(members[i].0)));
                lemma_resolved_same(members[i].0, list, a, b);
                lemma_labelled_same(members[i].1, list, a, b);
            }
            assert(labelled_fields(members, a) =~= labelled_fields(members, b));
        },
        _ => {},
    }
}

/// The plan names all that labelling needs: two sets of answers that have
/// the same for every object of the plan give the same labelled document.
pub proof fn lemma_plan_suffices(
    v: JsonView,
    a: Seq<(Seq<char>, Result<JsonView, MyErrorView>)>,
    b: Seq<(Seq<char>, Result<JsonView, MyErrorView>)>,
)
    requires
        agree_on(plan(v, Seq::empty()), a, b),
    ensures
        labelled(v, a) == labelled(v, b),
{
    lemma_plan_covers(v, Seq::empty());
    lemma_labelled_same(v, plan(v, Seq::empty()), a, b);
}

/// The plan names no object twice.
pub proof fn lemma_plan_distinct(v: JsonView)
    ensures
        plan(v, Seq::empty()).no_duplicates(),
{
    lemma_plan_grows(v, Seq::empty());
}

} // verus!
