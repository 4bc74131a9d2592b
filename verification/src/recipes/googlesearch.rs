//! Searching with Google.
use vstd::prelude::*;

use crate::encode::{
    address_of, lemma_one_part, query_pairs, query_part, url_encoded, urlencode,
};
use crate::json::{
    entries_view, field, field_or_null, items_field, outcome_view, put, views, Json, JsonView,
};
use crate::names::{lemma_param_names, lemma_result_names};
use crate::recipes::{
    bears_only, bears_text, carries, in_tab, is_search_outcome, keep_titled, law_titled_places,
    navigate_call, navigate_view, picks, scrape_call, scrape_view, search_outcome, search_view,
    titled_items, Progress, ProgressView,
};
use crate::target::{law_locator_locates, locates, locator, locator_view};
use crate::text::all_space;

verus! {

/// Each child of the list of results is one result.
pub const RESULT_ITEM: &'static str = "#rso > div";

pub const RESULT_TITLE: &'static str = "h3";

pub const RESULT_URL: &'static str = "a@href";

/// The text of a result, found by an attribute and not by a scrambled class.
pub const RESULT_DESC: &'static str = "div[data-sncf='1'] > div";

/// The links of the results, in the order of the results.
pub const RESULT_TARGET: &'static str = "#rso a:has(h3)";

/// The selectors of the fields of a result.
pub open spec fn result_fields() -> Map<Seq<char>, JsonView> {
    Map::empty().insert("title"@, JsonView::Text(RESULT_TITLE@)).insert(
        "url"@,
        JsonView::Text(RESULT_URL@),
    ).insert("description"@, JsonView::Text(RESULT_DESC@))
}

fn field_selectors() -> (r: Vec<(String, Json)>)
    ensures
        entries_view(r@) == result_fields(),
{
    let mut fields: Vec<(String, Json)> = Vec::new();
    put(&mut fields, "title", Json::text(RESULT_TITLE));
    put(&mut fields, "url", Json::text(RESULT_URL));
    put(&mut fields, "description", Json::text(RESULT_DESC));
    fields
}

/// A search result: the fields of an item, and where to click for it.
pub open spec fn card_view(item: JsonView, index: int) -> JsonView {
    JsonView::Object(
        Map::empty().insert("title"@, field_or_null(item, "title"@)).insert(
            "description"@,
            field_or_null(item, "description"@),
        ).insert("url"@, field_or_null(item, "url"@)).insert(
            "target"@,
            locator_view("css"@, RESULT_TARGET@, Some(index)),
        ),
    )
}

/// The items with a title as search results, each with the number it has among
/// them.
pub open spec fn card_views(items: Seq<JsonView>) -> Seq<JsonView> {
    let kept = titled_items(items);
    Seq::new(kept.len(), |i: int| card_view(kept[i], i))
}

/// The search results among the items of a page.
pub fn cards(items: &Vec<Json>) -> (r: Vec<Json>)
    ensures
        views(r@) == card_views(views(items@)),
{
    let kept = keep_titled(items);
    let mut out: Vec<Json> = Vec::new();
    let mut i: usize = 0;
    while i < kept.len()
        invariant
            i <= kept@.len(),
            out@.len() == i,
            forall|k: int| 0 <= k < i ==> (#[trigger] out@[k])@ == card_view(kept@[k]@, k),
        decreases kept.len() - i,
    {
        let item = &kept[i];
        let mut entries: Vec<(String, Json)> = Vec::new();
        put(&mut entries, "title", item.get_or_null("title"));
        put(&mut entries, "description", item.get_or_null("description"));
        put(&mut entries, "url", item.get_or_null("url"));
        put(&mut entries, "target", locator("css", RESULT_TARGET, Some(i)));
        out.push(Json::Object(entries));
        i += 1;
    }
    proof {
        let all = titled_items(views(items@));
        assert(all == views(kept@));
        assert(views(out@) =~= card_views(views(items@)));
    }
    out
}

/// How far a search is. `J` is the type of the values that it keeps.
#[derive(Debug)]
pub enum GoogleSearch<J> {
    /// The page of results is being opened.
    Opening { tab: Option<i32> },
    /// The results are being read.
    Reading { tab_id: J },
}

impl View for GoogleSearch<Json> {
    type V = GoogleSearch<JsonView>;

    open spec fn view(&self) -> GoogleSearch<JsonView> {
        match self {
            GoogleSearch::Opening { tab } => GoogleSearch::Opening { tab: *tab },
            GoogleSearch::Reading { tab_id } => GoogleSearch::Reading { tab_id: tab_id@ },
        }
    }
}

/// How a search begins: with its page of results.
pub open spec fn googlesearch_start(query: Seq<char>, tab: Option<i32>) -> ProgressView<
    GoogleSearch<JsonView>,
> {
    ProgressView::Ask(
        GoogleSearch::Opening { tab },
        navigate_view("gs1"@, "https://www.google.com/search?q="@ + url_encoded(query), tab),
    )
}

/// How a search goes on after each command.
pub open spec fn googlesearch_next(
    state: GoogleSearch<JsonView>,
    reply: Result<JsonView, Seq<char>>,
) -> ProgressView<GoogleSearch<JsonView>> {
    match (state, reply) {
        (_, Err(e)) => ProgressView::Done(Err(e)),
        (GoogleSearch::Opening { tab }, Ok(nav)) => ProgressView::Ask(
            GoogleSearch::Reading { tab_id: field_or_null(nav, "tab_id"@) },
            scrape_view("gs2"@, RESULT_ITEM@, result_fields(), tab),
        ),
        (GoogleSearch::Reading { tab_id }, Ok(scraped)) => ProgressView::Done(
            Ok(search_view(tab_id, card_views(items_field(scraped, "items"@)))),
        ),
    }
}

/// A search works in the tab it is given: it never opens another one.
pub proof fn law_no_new_tab(
    query: Seq<char>,
    tab: Option<i32>,
    state: GoogleSearch<JsonView>,
    reply: Result<JsonView, Seq<char>>,
)
    ensures
        googlesearch_start(query, tab) matches ProgressView::Ask(next, call) && call.method
            != "new_tab"@,
        googlesearch_next(state, reply) matches ProgressView::Ask(next, call) ==> call.method
            != "new_tab"@,
{
    reveal_strlit("navigate");
    reveal_strlit("scrape");
    reveal_strlit("new_tab");
    assert("navigate"@.len() == 8 && "scrape"@.len() == 6 && "new_tab"@.len() == 7);
}

proof fn lemma_address()
    ensures
        forall|i: int|
            0 <= i < "https://www.google.com/search"@.len() ==> #[trigger] "https://www.google.com/search"@[i] != '?' && "https://www.google.com/search"@[i] != '#',
{
    reveal_strlit("https://www.google.com/search");
    let s = "https://www.google.com/search"@;
    assert forall|i: int| 0 <= i < s.len() implies #[trigger] s[i] != '?' && s[i] != '#' by {
        assert(i == 0 || i == 1 || i == 2 || i == 3 || i == 4 || i == 5 || i == 6 || i == 7 || i == 8 || i == 9 || i == 10 || i == 11 || i == 12 || i == 13 || i == 14 || i == 15 || i == 16 || i == 17 || i == 18 || i == 19 || i == 20 || i == 21 || i == 22 || i == 23 || i == 24 || i == 25 || i == 26 || i == 27 || i == 28);
    }
}

/// A search opens the page of results of Google for the query that was given, in
/// the tab that was given.
pub proof fn law_search_asks_for_its_query(query: Seq<char>, tab: Option<i32>)
    ensures
        googlesearch_start(query, tab) matches ProgressView::Ask(_, call) && {
            &&& call.method == "navigate"@
            &&& in_tab(call, tab)
            &&& bears_only(call, set!["url"@, "tab_id"@])
            &&& field(call.params, "url"@) matches Some(JsonView::Text(url)) && address_of(url)
                == "https://www.google.com/search"@ && query_pairs(url) == seq![("q"@, query)]
        },
{
    lemma_param_names();
    lemma_address();
    let base = "https://www.google.com/search"@;
    reveal_strlit("https://www.google.com/search");
    reveal_strlit("https://www.google.com/search?q=");
    reveal_strlit("q");
    lemma_one_part(base, "q"@, query);
    assert("https://www.google.com/search?q="@ =~= base + seq!['?'] + "q"@ + seq!['=']);
    assert("https://www.google.com/search?q="@ + url_encoded(query) =~= base + seq!['?']
        + query_part("q"@, query));
}

/// After the page of results has been opened, its items are read in the same tab,
/// title, address and description each by its own selector.
pub proof fn law_search_reads_its_results(query: Seq<char>, tab: Option<i32>, nav: JsonView)
    ensures
        googlesearch_start(query, tab) matches ProgressView::Ask(state, _) && (googlesearch_next(
            state,
            Ok(nav),
        ) matches ProgressView::Ask(_, call) && {
            &&& call.method == "scrape"@
            &&& in_tab(call, tab)
            &&& bears_text(call, "item"@, "#rso > div"@)
            &&& field(call.params, "timeout"@) == Some(JsonView::Int(10_000))
            &&& bears_only(call, set!["item"@, "fields"@, "timeout"@, "tab_id"@])
            &&& field(call.params, "fields"@) matches Some(fields) && {
                &&& field(fields, "title"@) == Some(JsonView::Text("h3"@))
                &&& field(fields, "url"@) == Some(JsonView::Text("a@href"@))
                &&& field(fields, "description"@) == Some(
                    JsonView::Text("div[data-sncf='1'] > div"@),
                )
                &&& forall|name: Seq<char>| #[trigger]
                    field(fields, name) is Some ==> name == "title"@ || name == "url"@ || name
                        == "description"@
            }
        }),
{
    lemma_param_names();
    lemma_result_names();
}

/// The results are the items with a title, all of them and in their order. Each
/// bears title, description and address of its own item, and says where to click:
/// on the link with its number.
pub proof fn law_results_are_made_of_items(items: Seq<JsonView>) -> (at: Seq<int>)
    ensures
        picks(
            at,
            items.len() as int,
            |i: int|
                field(items[i], "title"@) matches Some(JsonView::Text(t)) && !all_space(t),
        ),
        card_views(items).len() == at.len(),
        forall|k: int|
            #![trigger card_views(items)[k]]
            0 <= k < at.len() ==> {
                let card = card_views(items)[k];
                &&& forall|name: Seq<char>|
                    name == "title"@ || name == "description"@ || name == "url"@
                        ==> #[trigger] carries(card, items[at[k]], name)
                &&& field(card, "target"@) matches Some(target) && locates(
                    target,
                    "css"@,
                    "#rso a:has(h3)"@,
                    Some(k),
                )
                &&& forall|name: Seq<char>| #[trigger]
                    field(card, name) is Some ==> name == "title"@ || name == "description"@ || name
                        == "url"@ || name == "target"@
            },
{
    let at = law_titled_places(items);
    lemma_result_names();
    assert forall|k: int| #![trigger card_views(items)[k]] 0 <= k < at.len() implies {
        let card = card_views(items)[k];
        &&& forall|name: Seq<char>|
            name == "title"@ || name == "description"@ || name == "url"@
                ==> #[trigger] carries(card, items[at[k]], name)
        &&& field(card, "target"@) matches Some(target) && locates(
            target,
            "css"@,
            "#rso a:has(h3)"@,
            Some(k),
        )
        &&& forall|name: Seq<char>| #[trigger]
            field(card, name) is Some ==> name == "title"@ || name == "description"@ || name
                == "url"@ || name == "target"@
    } by {
        assert(titled_items(items)[k] == items[at[k]]);
        law_locator_locates("css"@, "#rso a:has(h3)"@, Some(k));
    }
    at
}

/// The outcome of a search names the tab that the browser has named, and holds the
/// results that are made of the items of the page. A command that fails ends the
/// search with its error.
pub proof fn law_search_ends_with_its_results(
    query: Seq<char>,
    tab: Option<i32>,
    nav: JsonView,
    scraped: JsonView,
    error: Seq<char>,
)
    ensures
        googlesearch_start(query, tab) matches ProgressView::Ask(opening, _) && (
        googlesearch_next(opening, Ok(nav)) matches ProgressView::Ask(reading, _) && {
            &&& googlesearch_next(reading, Ok(scraped)) matches ProgressView::Done(Ok(out))
                && is_search_outcome(
                out,
                nav,
                card_views(
                    match field(scraped, "items"@) {
                        Some(JsonView::Array(items)) => items,
                        _ => Seq::empty(),
                    },
                ),
            )
            &&& googlesearch_next(opening, Err(error)) == ProgressView::<
                GoogleSearch<JsonView>,
            >::Done(Err(error))
            &&& googlesearch_next(reading, Err(error)) == ProgressView::<
                GoogleSearch<JsonView>,
            >::Done(Err(error))
        }),
{
    lemma_result_names();
}

/// Begins a search. Its outcome is `{ "tab_id": ..., "results": [...] }`, with
/// title, description, address and click target of each result.
pub fn googlesearch(query: &str, tab: Option<i32>) -> (r: Progress<GoogleSearch<Json>>)
    ensures
        r@ == googlesearch_start(query@, tab),
{
    let mut url = "https://www.google.com/search?q=".to_owned();
    url.append(urlencode(query).as_str());
    Progress::Ask(GoogleSearch::Opening { tab }, navigate_call("gs1", url.as_str(), tab))
}

impl GoogleSearch<Json> {
    /// Goes on with what the last command brought.
    pub fn step(self, reply: Result<Json, String>) -> (r: Progress<GoogleSearch<Json>>)
        ensures
            r@ == googlesearch_next(self@, outcome_view(reply)),
    {
        let value = match reply {
            Ok(value) => value,
            Err(e) => {
                return Progress::Done(Err(e));
            },
        };
        match self {
            GoogleSearch::Opening { tab } => Progress::Ask(
                GoogleSearch::Reading { tab_id: value.get_or_null("tab_id") },
                scrape_call("gs2", RESULT_ITEM, field_selectors(), tab),
            ),
            GoogleSearch::Reading { tab_id } => {
                let items = value.get_items("items");
                Progress::Done(Ok(search_outcome(tab_id, cards(&items))))
            },
        }
    }
}

} // verus!
