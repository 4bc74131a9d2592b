//! Recipes: what is known of a site, as a course of general commands.
//!
//! A recipe does not talk to the browser. It asks for one command after another
//! and is given what each of them brought, until it has its outcome.
use vstd::prelude::*;

use crate::json::{
    entries_view, field, opt_int_view, outcome_view, put, text_field, views, Json, JsonView,
};
use crate::text::{all_space, blank, law_trimming, trimmed};

pub mod googlesearch;
pub mod googletrends;
pub mod querydomains;
pub mod redditsearch;
pub mod youtubeinfo;
pub mod youtuberinfo;
pub mod youtubesearch;

verus! {

/// A command for the browser.
#[derive(Debug)]
pub struct Call {
    /// The label of the request.
    pub id: &'static str,
    /// The name of the command.
    pub method: &'static str,
    pub params: Json,
}

/// The mathematical form of a command.
pub struct CallView {
    pub id: Seq<char>,
    pub method: Seq<char>,
    pub params: JsonView,
}

impl View for Call {
    type V = CallView;

    open spec fn view(&self) -> CallView {
        CallView { id: self.id@, method: self.method@, params: self.params@ }
    }
}

/// How a recipe goes on.
#[derive(Debug)]
pub enum Progress<S> {
    /// A command is to be carried out; the recipe goes on from the state.
    Ask(S, Call),
    /// The recipe is over.
    Done(Result<Json, String>),
}

/// The mathematical form of how a recipe goes on.
pub enum ProgressView<S> {
    Ask(S, CallView),
    Done(Result<JsonView, Seq<char>>),
}

impl<S: View> View for Progress<S> {
    type V = ProgressView<S::V>;

    open spec fn view(&self) -> ProgressView<S::V> {
        match self {
            Progress::Ask(state, call) => ProgressView::Ask(state@, call@),
            Progress::Done(outcome) => ProgressView::Done(outcome_view(*outcome)),
        }
    }
}

/// Whether a command acts in a tab: it bears the number of the tab, or `null`, which
/// stands for the active one.
pub open spec fn in_tab(call: CallView, tab: Option<i32>) -> bool {
    field(call.params, "tab_id"@) == Some(
        match tab {
            Some(t) => JsonView::Int(t as int),
            None => JsonView::Null,
        },
    )
}

/// What a command bears under a name, where it is a text.
pub open spec fn bears_text(call: CallView, name: Seq<char>, text: Seq<char>) -> bool {
    field(call.params, name) == Some(JsonView::Text(text))
}

/// Whether a command bears parameters under no other names.
pub open spec fn bears_only(call: CallView, names: Set<Seq<char>>) -> bool {
    forall|name: Seq<char>| #[trigger]
        field(call.params, name) is Some ==> names.contains(name)
}

// ---------------------------------------------------------------------------
// Commands that recipes share
// ---------------------------------------------------------------------------

/// Opening a page in a tab.
pub open spec fn navigate_view(id: Seq<char>, url: Seq<char>, tab: Option<i32>) -> CallView {
    CallView {
        id,
        method: "navigate"@,
        params: JsonView::Object(
            Map::empty().insert("url"@, JsonView::Text(url)).insert("tab_id"@, opt_int_view(tab)),
        ),
    }
}

pub fn navigate_call(id: &'static str, url: &str, tab: Option<i32>) -> (r: Call)
    ensures
        r@ == navigate_view(id@, url@, tab),
{
    let mut entries: Vec<(String, Json)> = Vec::new();
    put(&mut entries, "url", Json::text(url));
    put(&mut entries, "tab_id", Json::opt_int(tab));
    Call { id, method: "navigate", params: Json::Object(entries) }
}

/// Running a script in a tab.
pub open spec fn script_view(id: Seq<char>, code: Seq<char>, tab_id: JsonView) -> CallView {
    CallView {
        id,
        method: "run_script"@,
        params: JsonView::Object(
            Map::empty().insert("code"@, JsonView::Text(code)).insert("tab_id"@, tab_id),
        ),
    }
}

pub fn script_call(id: &'static str, code: &str, tab_id: Json) -> (r: Call)
    ensures
        r@ == script_view(id@, code@, tab_id@),
{
    let mut entries: Vec<(String, Json)> = Vec::new();
    put(&mut entries, "code", Json::text(code));
    put(&mut entries, "tab_id", tab_id);
    Call { id, method: "run_script", params: Json::Object(entries) }
}

/// Reading the items of a page by the selectors of their fields, with up to ten
/// seconds for them to appear.
pub open spec fn scrape_view(
    id: Seq<char>,
    item: Seq<char>,
    fields: Map<Seq<char>, JsonView>,
    tab: Option<i32>,
) -> CallView {
    CallView {
        id,
        method: "scrape"@,
        params: JsonView::Object(
            Map::empty().insert("item"@, JsonView::Text(item)).insert(
                "fields"@,
                JsonView::Object(fields),
            ).insert("timeout"@, JsonView::Int(10_000)).insert("tab_id"@, opt_int_view(tab)),
        ),
    }
}

pub fn scrape_call(
    id: &'static str,
    item: &str,
    fields: Vec<(String, Json)>,
    tab: Option<i32>,
) -> (r: Call)
    ensures
        r@ == scrape_view(id@, item@, entries_view(fields@), tab),
{
    let mut entries: Vec<(String, Json)> = Vec::new();
    put(&mut entries, "item", Json::text(item));
    put(&mut entries, "fields", Json::Object(fields));
    put(&mut entries, "timeout", Json::unsigned(10_000));
    put(&mut entries, "tab_id", Json::opt_int(tab));
    Call { id, method: "scrape", params: Json::Object(entries) }
}

// ---------------------------------------------------------------------------
// Search results
// ---------------------------------------------------------------------------

/// Whether an item has a title that is not blank.
pub open spec fn has_title(item: JsonView) -> bool {
    match text_field(item, "title"@) {
        Some(title) => trimmed(title).len() > 0,
        None => false,
    }
}

pub fn titled(item: &Json) -> (r: bool)
    ensures
        r == has_title(item@),
{
    match item.get_str("title") {
        Some(title) => !blank(title),
        None => false,
    }
}

/// The items with a title, in their order.
pub open spec fn titled_items(items: Seq<JsonView>) -> Seq<JsonView>
    decreases items.len(),
{
    if items.len() == 0 {
        Seq::empty()
    } else if has_title(items.last()) {
        titled_items(items.drop_last()).push(items.last())
    } else {
        titled_items(items.drop_last())
    }
}

/// The items with a title.
pub fn keep_titled(items: &Vec<Json>) -> (r: Vec<Json>)
    ensures
        views(r@) == titled_items(views(items@)),
{
    let ghost all = views(items@);
    let mut out: Vec<Json> = Vec::new();
    let mut i: usize = 0;
    assert(views(out@) =~= titled_items(all.take(0)));
    while i < items.len()
        invariant
            i <= items@.len(),
            all == views(items@),
            views(out@) == titled_items(all.take(i as int)),
        decreases items.len() - i,
    {
        assert(all.take(i + 1).drop_last() =~= all.take(i as int));
        assert(all.take(i + 1).last() == items@[i as int]@);
        if titled(&items[i]) {
            let item = items[i].clone();
            let ghost before = views(out@);
            out.push(item);
            assert(views(out@) =~= before.push(item@));
        }
        i += 1;
    }
    assert(all.take(items@.len() as int) =~= all);
    out
}

/// Of the items exactly those with a title are kept, in their order: the kept item
/// number `k` stands at or after place `k`, and every item with a title is kept.
pub proof fn law_titled_items(items: Seq<JsonView>)
    ensures
        titled_items(items).len() <= items.len(),
        forall|k: int|
            0 <= k < titled_items(items).len() ==> has_title(#[trigger] titled_items(items)[k])
                && exists|i: int| k <= i < items.len() && titled_items(items)[k] == #[trigger] items[i],
        forall|i: int|
            0 <= i < items.len() && has_title(#[trigger] items[i]) ==> titled_items(items).contains(
                items[i],
            ),
    decreases items.len(),
{
    if items.len() > 0 {
        let front = items.drop_last();
        let before = titled_items(front);
        let now = titled_items(items);
        law_titled_items(front);
        assert forall|k: int| 0 <= k < now.len() implies has_title(#[trigger] now[k]) && exists|i: int|
            k <= i < items.len() && now[k] == #[trigger] items[i] by {
            if k < before.len() {
                assert(now[k] == before[k]);
                let i = choose|i: int| k <= i < front.len() && before[k] == #[trigger] front[i];
                assert(items[i] == front[i]);
            } else {
                assert(now[k] == items[items.len() - 1]);
            }
        }
        assert forall|i: int| 0 <= i < items.len() && has_title(#[trigger] items[i]) implies now.contains(
            items[i],
        ) by {
            if i < front.len() {
                assert(front[i] == items[i]);
                let k = choose|k: int| 0 <= k < before.len() && before[k] == front[i];
                assert(now[k] == items[i]);
            } else {
                assert(now[now.len() - 1] == items[i]);
            }
        }
    }
}

/// Whether a result bears under a name what its item bears there, or `null` where
/// the item bears nothing.
pub open spec fn carries(result: JsonView, item: JsonView, name: Seq<char>) -> bool {
    field(result, name) == Some(
        match field(item, name) {
            Some(v) => v,
            None => JsonView::Null,
        },
    )
}

/// Whether a command runs a script in the tab that a reply names.
pub open spec fn runs(call: CallView, code: Seq<char>, nav: JsonView) -> bool {
    &&& call.method == "run_script"@
    &&& bears_text(call, "code"@, code)
    &&& carries(call.params, nav, "tab_id"@)
    &&& bears_only(call, set!["code"@, "tab_id"@])
}

/// Whether some places among `n` are those that are wanted, in their order.
pub open spec fn picks(places: Seq<int>, n: int, wanted: spec_fn(int) -> bool) -> bool {
    &&& forall|k: int| 0 <= k < places.len() ==> 0 <= #[trigger] places[k] < n
    &&& forall|j: int, k: int|
        0 <= j < k < places.len() ==> #[trigger] places[j] < #[trigger] places[k]
    &&& forall|i: int| 0 <= i < n ==> (#[trigger] places.contains(i) <==> wanted(i))
}

/// One more place is wanted, or it is not.
pub proof fn lemma_picks_more(places: Seq<int>, n: int, wanted: spec_fn(int) -> bool)
    requires
        0 <= n,
        picks(places, n, wanted),
    ensures
        wanted(n) ==> picks(places.push(n), n + 1, wanted),
        !wanted(n) ==> picks(places, n + 1, wanted),
{
    let more = places.push(n);
    assert(!places.contains(n)) by {
        if places.contains(n) {
            let k = places.index_of(n);
            assert(0 <= places[k] < n);
        }
    }
    assert forall|i: int| 0 <= i < n + 1 implies (#[trigger] more.contains(i) <==> places.contains(i)
        || i == n) by {
        if places.contains(i) {
            let k = places.index_of(i);
            assert(more[k] == i);
        }
        if i == n {
            assert(more[places.len() as int] == n);
        }
        if more.contains(i) && i != n {
            let k = more.index_of(i);
            assert(places[k] == i);
        }
    }
    assert forall|j: int, k: int| 0 <= j < k < more.len() implies #[trigger] more[j]
        < #[trigger] more[k] by {
        assert(more[j] == places[j]);
        if k < places.len() {
            assert(more[k] == places[k]);
        }
    }
    assert forall|k: int| 0 <= k < more.len() implies 0 <= #[trigger] more[k] < n + 1 by {
        if k < places.len() {
            assert(more[k] == places[k]);
        }
    }
    assert forall|k: int| 0 <= k < places.len() implies 0 <= #[trigger] places[k] < n + 1 by {}
}

/// What is wanted of the first `n` places can be put in other words.
pub proof fn lemma_picks_same(
    places: Seq<int>,
    n: int,
    wanted: spec_fn(int) -> bool,
    other: spec_fn(int) -> bool,
)
    requires
        picks(places, n, wanted),
        forall|i: int| 0 <= i < n ==> #[trigger] wanted(i) == other(i),
    ensures
        picks(places, n, other),
{
    assert forall|i: int| 0 <= i < n implies (#[trigger] places.contains(i) <==> other(i)) by {
        assert(wanted(i) == other(i));
    }
}

/// An item has a title where a text stands under that name in which there is
/// something else than white space.
pub proof fn law_titles(item: JsonView)
    ensures
        has_title(item) <==> (field(item, "title"@) matches Some(JsonView::Text(t)) && !all_space(
            t,
        )),
{
    if let Some(JsonView::Text(t)) = field(item, "title"@) {
        law_trimming(t);
    }
}

/// The kept items stand in the list at the places of the items with a title, all of
/// them and in their order.
pub proof fn law_titled_places(items: Seq<JsonView>) -> (at: Seq<int>)
    ensures
        picks(
            at,
            items.len() as int,
            |i: int|
                field(items[i], "title"@) matches Some(JsonView::Text(t)) && !all_space(t),
        ),
        titled_items(items).len() == at.len(),
        forall|k: int| 0 <= k < at.len() ==> #[trigger] titled_items(items)[k] == items[at[k]],
    decreases items.len(),
{
    let wanted = |i: int|
        field(items[i], "title"@) matches Some(JsonView::Text(t)) && !all_space(t);
    if items.len() == 0 {
        let none = Seq::<int>::empty();
        assert(picks(none, 0, wanted));
        none
    } else {
        let front = items.drop_last();
        let n = front.len() as int;
        let before = law_titled_places(front);
        lemma_picks_same(
            before,
            n,
            |i: int| field(front[i], "title"@) matches Some(JsonView::Text(t)) && !all_space(t),
            wanted,
        );
        lemma_picks_more(before, n, wanted);
        law_titles(items[n]);
        let kept = titled_items(items);
        if has_title(items.last()) {
            let at = before.push(n);
            assert forall|k: int| 0 <= k < at.len() implies #[trigger] kept[k] == items[at[k]] by {
                if k < n && k < before.len() {
                    assert(titled_items(front)[k] == front[before[k]]);
                }
            }
            at
        } else {
            assert forall|k: int| 0 <= k < before.len() implies #[trigger] kept[k]
                == items[before[k]] by {
                assert(titled_items(front)[k] == front[before[k]]);
            }
            before
        }
    }
}

/// Whether an outcome is that of a search: the tab that a reply names, or `null`,
/// and a list of results.
pub open spec fn is_search_outcome(out: JsonView, nav: JsonView, results: Seq<JsonView>) -> bool {
    &&& carries(out, nav, "tab_id"@)
    &&& field(out, "results"@) == Some(JsonView::Array(results))
    &&& forall|name: Seq<char>| #[trigger]
        field(out, name) is Some ==> name == "tab_id"@ || name == "results"@
}

/// What a search brings: the tab it ran in, and the results.
pub open spec fn search_view(tab_id: JsonView, results: Seq<JsonView>) -> JsonView {
    JsonView::Object(
        Map::empty().insert("tab_id"@, tab_id).insert("results"@, JsonView::Array(results)),
    )
}

pub fn search_outcome(tab_id: Json, results: Vec<Json>) -> (r: Json)
    ensures
        r@ == search_view(tab_id@, views(results@)),
{
    let mut entries: Vec<(String, Json)> = Vec::new();
    put(&mut entries, "tab_id", tab_id);
    put(&mut entries, "results", Json::array(results));
    Json::Object(entries)
}

} // verus!
