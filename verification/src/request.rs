//! The body of a request: the document to work on and the languages to
//! prefer.

use crate::json::{json_items_view, parsed, Json, JsonView};
use crate::order::lookup;
use vstd::prelude::*;
use vstd::string::StringExecFns;

verus! {

/// Why a request is refused.
#[derive(Debug, Clone, Copy, PartialEq, Eq, Structural)]
pub enum RequestError {
    /// The body is no JSON.
    InvalidJson,
    /// `langs` is no array of strings.
    BadLangs,
}

impl RequestError {
    /// The reason, as the answer states it.
    pub open spec fn reason_text(self) -> Seq<char> {
        match self {
            RequestError::InvalidJson => "invalid json object"@,
            RequestError::BadLangs => "value of langs should be an array of string"@,
        }
    }

    /// The reason, as the answer states it.
    pub fn reason(&self) -> (r: String)
        ensures
            r@ == self.reason_text(),
    {
        match self {
            RequestError::InvalidJson => String::from_str("invalid json object"),
            RequestError::BadLangs => String::from_str(
                "value of langs should be an array of string",
            ),
        }
    }
}

/// The languages to prefer where a request names none: English.
pub open spec fn default_languages() -> Seq<Seq<char>> {
    seq!["Z1002"@]
}

/// Whether every item is a string.
pub open spec fn all_strings(items: Seq<JsonView>) -> bool {
    forall|i: int| 0 <= i < items.len() ==> (#[trigger] items[i]) is String
}

/// The strings that the items are.
pub open spec fn strings_of(items: Seq<JsonView>) -> Seq<Seq<char>> {
    Seq::new(items.len(), |i: int| items[i]->String_0)
}

/// Document and languages of a request. An object with both a `data` and a
/// `langs` member asks for `data` in the languages `langs`, which must be an
/// array of strings; any other body is the document itself, in the default
/// languages.
pub open spec fn request_parts(body: JsonView) -> Result<(JsonView, Seq<Seq<char>>), RequestError> {
    match body {
        JsonView::Object(members) => match (lookup(members, "data"@), lookup(members, "langs"@)) {
            (Some(data), Some(langs)) => match langs {
                JsonView::Array(items) => if all_strings(items) {
                    Ok((data, strings_of(items)))
                } else {
                    Err(RequestError::BadLangs)
                },
                _ => Err(RequestError::BadLangs),
            },
            _ => Ok((body, default_languages())),
        },
        _ => Ok((body, default_languages())),
    }
}

/// What reading a request ended in.
pub open spec fn parts_view(r: Result<(Json, Vec<String>), RequestError>) -> Result<
    (JsonView, Seq<Seq<char>>),
    RequestError,
> {
    match r {
        Ok(p) => Ok((p.0@, p.1.deep_view())),
        Err(e) => Err(e),
    }
}

/// The languages to prefer where a request names none.
pub fn default_langs() -> (r: Vec<String>)
    ensures
        r.deep_view() == default_languages(),
{
    let mut langs: Vec<String> = Vec::new();
    langs.push(String::from_str("Z1002"));
    assert(langs.deep_view() =~= default_languages());
    langs
}

/// The strings of an array of strings; nothing where an item is no string.
fn strings_from(items: &Vec<Json>) -> (r: Option<Vec<String>>)
    ensures
        r is Some <==> all_strings(json_items_view(items@)),
        r is Some ==> r.unwrap().deep_view() == strings_of(json_items_view(items@)),
{
    let ghost iv = json_items_view(items@);
    let mut out: Vec<String> = Vec::new();
    let mut i: usize = 0;
    while i < items.len()
        invariant
            i <= items.len(),
            iv == json_items_view(items@),
            out.len() == i,
            forall|j: int| 0 <= j < i ==> (#[trigger] iv[j]) is String && out[j]@ == iv[j]->String_0,
        decreases items.len() - i,
    {
        match &items[i] {
            Json::String(s) => {
                out.push(s.clone());
            },
            _ => {
                assert(!(iv[i as int] is String));
                return None;
            },
        }
        i += 1;
    }
    assert(out.deep_view() =~= strings_of(iv));
    Some(out)
}

/// Document and languages of a request, from its body as a document.
pub fn split_request(body: Json) -> (r: Result<(Json, Vec<String>), RequestError>)
    ensures
        parts_view(r) == request_parts(body@),
{
    match &body {
        Json::Object(_) => {
            match body.get("data") {
                Some(data) => match body.get("langs") {
                    Some(langs) => match langs {
                        Json::Array(items) => match strings_from(items) {
                            Some(list) => Ok((data.clone(), list)),
                            None => Err(RequestError::BadLangs),
                        },
                        _ => Err(RequestError::BadLangs),
                    },
                    None => Ok((body, default_langs())),
                },
                None => Ok((body, default_langs())),
            }
        },
        _ => Ok((body, default_langs())),
    }
}

/// Document and languages of a request, from the text of its body: as
/// `split_request` on the document that the text is; refused where it is
/// none.
pub fn request_wrapper(req_body: String) -> (r: Result<(Json, Vec<String>), RequestError>)
    ensures
        parts_view(r) == (match parsed(req_body@) {
            None => Err(RequestError::InvalidJson),
            Some(body) => request_parts(body.regular()),
        }),
{
    match Json::parse(req_body.as_str()) {
        None => Err(RequestError::InvalidJson),
        Some(body) => split_request(body),
    }
}

} // verus!
