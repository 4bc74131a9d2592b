//! How an element of a page is found: by a CSS selector, by its text or by an
//! XPath, and which of the matches is meant.
use vstd::prelude::*;

use crate::json::{field, opt_json, put, Json, JsonView};
use crate::names::lemma_param_names;
use crate::text::opt_str;

verus! {

/// Where an element is.
#[derive(Debug)]
pub struct Target {
    /// A CSS selector, a visible text or an XPath.
    pub value: String,
    /// Which of them it is: `css`, `text` or `xpath`.
    pub by: String,
    /// Which match is meant, from 0.
    pub index: Option<usize>,
}

/// The number of a match, where one is given.
pub open spec fn match_number(index: Option<usize>) -> Option<int> {
    match index {
        Some(i) => Some(i as int),
        None => None,
    }
}

/// `{ "by": ..., "value": ... }`, with an `"index"` where one is given.
pub open spec fn locator_view(by: Seq<char>, value: Seq<char>, index: Option<int>) -> JsonView {
    let base = Map::empty().insert("by"@, JsonView::Text(by)).insert(
        "value"@,
        JsonView::Text(value),
    );
    JsonView::Object(
        match index {
            Some(i) => base.insert("index"@, JsonView::Int(i)),
            None => base,
        },
    )
}

/// Whether a parameter locates an element: it says how and by what the element is
/// found, which match is meant where that is said, and nothing else.
pub open spec fn locates(
    target: JsonView,
    by: Seq<char>,
    value: Seq<char>,
    index: Option<int>,
) -> bool {
    &&& field(target, "by"@) == Some(JsonView::Text(by))
    &&& field(target, "value"@) == Some(JsonView::Text(value))
    &&& field(target, "index"@) == match index {
        Some(i) => Some(JsonView::Int(i)),
        None => None,
    }
    &&& forall|name: Seq<char>| #[trigger]
        field(target, name) is Some ==> name == "by"@ || name == "value"@ || name == "index"@
}

/// A locator says how its element is found.
pub proof fn law_locator_locates(by: Seq<char>, value: Seq<char>, index: Option<int>)
    ensures
        locates(locator_view(by, value, index), by, value, index),
{
    lemma_param_names();
}

/// The parameter that locates an element.
pub fn locator(by: &str, value: &str, index: Option<usize>) -> (r: Json)
    ensures
        r@ == locator_view(by@, value@, match_number(index)),
{
    let mut entries: Vec<(String, Json)> = Vec::new();
    put(&mut entries, "by", Json::text(by));
    put(&mut entries, "value", Json::text(value));
    if let Some(i) = index {
        put(&mut entries, "index", Json::unsigned(i as u64));
    }
    Json::Object(entries)
}

impl Target {
    /// The parameter that locates the element.
    pub fn locator(&self) -> (r: Json)
        ensures
            r@ == locator_view(self.by@, self.value@, match_number(self.index)),
    {
        locator(self.by.as_str(), self.value.as_str(), self.index)
    }
}

/// The parameter that locates an element, where one is named.
pub open spec fn optional_locator(
    value: Option<Seq<char>>,
    by: Seq<char>,
    index: Option<int>,
) -> Option<JsonView> {
    match value {
        Some(v) => Some(locator_view(by, v, index)),
        None => None,
    }
}

/// The parameter that locates an element, where one is named.
pub fn optional_target(value: Option<&str>, by: &str, index: Option<usize>) -> (r: Option<Json>)
    ensures
        opt_json(r) == optional_locator(opt_str(value), by@, match_number(index)),
{
    match value {
        Some(v) => Some(locator(by, v, index)),
        None => None,
    }
}

} // verus!
