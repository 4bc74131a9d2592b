//! The parameters of the commands.
use vstd::prelude::*;

use crate::json::{entries_view, opt_int_view, opt_json, put, Json, JsonView};

verus! {

/// Parameters by their names.
pub type Params = Map<Seq<char>, JsonView>;

/// Parameters with one more, where it is given.
pub open spec fn with(params: Params, name: Seq<char>, value: Option<JsonView>) -> Params {
    match value {
        Some(v) => params.insert(name, v),
        None => params,
    }
}

/// An optional text as an optional parameter.
pub open spec fn text_param(s: Option<String>) -> Option<JsonView> {
    match s {
        Some(s) => Some(JsonView::Text(s@)),
        None => None,
    }
}

/// An optional number of milliseconds as an optional parameter.
pub open spec fn millis_param(n: Option<u64>) -> Option<JsonView> {
    match n {
        Some(n) => Some(JsonView::Int(n as int)),
        None => None,
    }
}

/// An optional position as an optional parameter.
pub open spec fn index_param(n: Option<usize>) -> Option<JsonView> {
    match n {
        Some(n) => Some(JsonView::Int(n as int)),
        None => None,
    }
}

/// A switch as a parameter that is there only where it is on.
pub open spec fn switch_param(on: bool) -> Option<JsonView> {
    if on {
        Some(JsonView::Bool(true))
    } else {
        None
    }
}

/// A tab as the only parameter.
pub open spec fn tab_only(tab: Option<i32>) -> Params {
    Map::empty().insert("tab_id"@, opt_int_view(tab))
}

/// An element and a tab.
pub open spec fn element_in_tab(target: JsonView, tab: Option<i32>) -> Params {
    tab_only(tab).insert("target"@, target)
}

/// The entries of an object, as they are collected.
pub type Entries = Vec<(String, Json)>;

/// Adds a parameter where it is given.
pub fn put_opt(entries: &mut Entries, name: &str, value: Option<Json>)
    ensures
        entries_view(final(entries)@) == with(
            entries_view(old(entries)@),
            name@,
            opt_json(value),
        ),
{
    if let Some(v) = value {
        put(entries, name, v);
    }
}

pub fn text_value(s: Option<String>) -> (r: Option<Json>)
    ensures
        opt_json(r) == text_param(s),
{
    match s {
        Some(s) => Some(Json::Text(s)),
        None => None,
    }
}

pub fn millis_value(n: Option<u64>) -> (r: Option<Json>)
    ensures
        opt_json(r) == millis_param(n),
{
    match n {
        Some(n) => Some(Json::unsigned(n)),
        None => None,
    }
}

pub fn index_value(n: Option<usize>) -> (r: Option<Json>)
    ensures
        opt_json(r) == index_param(n),
{
    match n {
        Some(n) => Some(Json::unsigned(n as u64)),
        None => None,
    }
}

pub fn switch_value(on: bool) -> (r: Option<Json>)
    ensures
        opt_json(r) == switch_param(on),
{
    if on {
        Some(Json::Bool(true))
    } else {
        None
    }
}

/// A tab as the only parameter.
pub fn tab_entries(tab: Option<i32>) -> (r: Entries)
    ensures
        entries_view(r@) == tab_only(tab),
{
    let mut entries: Vec<(String, Json)> = Vec::new();
    put(&mut entries, "tab_id", Json::opt_int(tab));
    entries
}

/// An element and a tab.
pub fn element_entries(target: Json, tab: Option<i32>) -> (r: Entries)
    ensures
        entries_view(r@) == element_in_tab(target@, tab),
{
    let mut entries = tab_entries(tab);
    put(&mut entries, "target", target);
    entries
}

} // verus!
